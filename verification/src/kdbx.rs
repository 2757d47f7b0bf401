//! The bridge to `keepass`: a decrypted database is held as the crate's own
//! `Database`, and what the library reads of it is stated over
//! `kdbx_contents`, a model of its groups and entries as plain values. Groups
//! and entries are keyed by their 128-bit identifiers.
use crate::secret::{secret_text, Secret};
use crate::text::uuid_text;
use keepass::db::{DatabaseOpenError, EntryId, GroupId};
use keepass::{Database, DatabaseKey};
use secrecy::ExposeSecret;
use uuid::Uuid;
use vstd::prelude::*;

verus! {

#[verifier::external_type_specification]
#[verifier::external_body]
pub struct ExDatabase(Database);

#[verifier::external_type_specification]
#[verifier::external_body]
pub struct ExDatabaseOpenError(DatabaseOpenError);

/// A field value of an entry: its text, and whether the file stores it
/// protected.
pub struct KdbxValue {
    pub text: Seq<char>,
    pub protected: bool,
}

/// An entry: its fields by name, and its tags in order.
pub struct KdbxEntry {
    pub fields: Map<Seq<char>, KdbxValue>,
    pub tags: Seq<Seq<char>>,
}

/// A group: its name, the keys of its child groups and the keys of the
/// entries directly in it, each in the database's order.
pub struct KdbxGroup {
    pub name: Seq<char>,
    pub groups: Seq<u128>,
    pub entries: Seq<u128>,
}

/// The contents of a database: the key of its root group, and all groups and
/// entries by key.
pub struct KdbxContents {
    pub root: u128,
    pub groups: Map<u128, KdbxGroup>,
    pub entries: Map<u128, KdbxEntry>,
}

/// What a decrypted database holds.
pub uninterp spec fn kdbx_contents(db: Database) -> KdbxContents;

/// What decrypting the bytes of a database file with a password gives:
/// `None` where `Database::parse` refuses them. It is named for files that
/// are not KeePass 1 files; those are never handed to `keepass` here.
pub uninterp spec fn kdbx_decrypt(data: Seq<u8>, password: Seq<char>) -> Option<KdbxContents>;

/// Whether `data` starts with the header of a KeePass 1 (`.kdb`) file: the
/// KeePass identifier `03 d9 a2 9a` and the version `0xb54bfb65` in little
/// endian. The library refuses such files: `keepass` gives their groups and
/// entries freshly drawn random identifiers, and its KeePass 1 parser
/// subtracts the padding length from the payload length unchecked, which
/// panics on a short payload where overflow checks are on.
pub open spec fn keepass1_file(data: Seq<u8>) -> bool {
    &&& data.len() >= 8
    &&& data[0] == 0x03u8 && data[1] == 0xd9u8 && data[2] == 0xa2u8 && data[3] == 0x9au8
    &&& data[4] == 0x65u8 && data[5] == 0xfbu8 && data[6] == 0x4bu8 && data[7] == 0xb5u8
}

/// Whether `data` is a KeePass 1 file, read off its first eight bytes.
pub(crate) fn is_keepass1(data: &[u8]) -> (b: bool)
    ensures
        b == keepass1_file(data@),
{
    data.len() >= 8 && data[0] == 0x03u8 && data[1] == 0xd9u8 && data[2] == 0xa2u8 && data[3] == 0x9au8
        && data[4] == 0x65u8 && data[5] == 0xfbu8 && data[6] == 0x4bu8 && data[7] == 0xb5u8
}

/// Only the KeePass 1 signature makes a file a KeePass 1 file: a file taken
/// for one starts with `03 d9 a2 9a 65 fb 4b b5`, so a KeePass 2 file, whose
/// second signature is `67 fb 4b b5` (KDBX 3 and KDBX 4 alike), or a file
/// with any other signature is never taken for one.
pub proof fn law_only_keepass1_signature_is_refused(d: Seq<u8>)
    ensures
        keepass1_file(d) ==> d.len() >= 8 && d[0] == 0x03u8 && d[1] == 0xd9u8 && d[2] == 0xa2u8
            && d[3] == 0x9au8 && d[4] == 0x65u8 && d[5] == 0xfbu8 && d[6] == 0x4bu8 && d[7] == 0xb5u8,
        d.len() >= 8 && d[4] != 0x65u8 ==> !keepass1_file(d),
        d.len() >= 8 && d[4] == 0x67u8 && d[5] == 0xfbu8 && d[6] == 0x4bu8 && d[7] == 0xb5u8
            ==> !keepass1_file(d),
        d.len() < 8 ==> !keepass1_file(d),
{
}

/// Whether the groups under the group with key `k` nest at most `depth`
/// levels deep: with no depth left a group has no child groups.
pub open spec fn nests_within(c: KdbxContents, k: u128, depth: nat) -> bool
    decreases depth,
{
    if !c.groups.contains_key(k) {
        true
    } else if depth == 0 {
        c.groups[k].groups.len() == 0
    } else {
        forall|i: int|
            0 <= i < c.groups[k].groups.len() ==> nests_within(c, #[trigger] c.groups[k].groups[i], (depth - 1) as nat)
    }
}

/// The shape of every database that `keepass` opens: the root group is
/// among its groups, and the groups form a tree under it, so that no chain
/// of nested groups is longer than the number of groups.
pub open spec fn kdbx_well_formed(c: KdbxContents) -> bool {
    &&& c.groups.contains_key(c.root)
    &&& nests_within(c, c.root, c.groups.len())
}

/// Decrypts and parses a database file held in memory
/// (`Database::parse` with a key made of the password alone). The file must
/// not be a KeePass 1 file (see `keepass1_file`). The call succeeds exactly
/// where `kdbx_decrypt` gives contents, and the database it returns holds
/// those contents. Every database it returns holds its root group, and its
/// groups form a tree under the root: the parser builds it from the root
/// down, adding each group under its parent and refusing an identifier that
/// is already there.
#[verifier::external_body]
pub(crate) fn parse_database(data: &[u8], password: &Secret) -> (res: Result<Database, DatabaseOpenError>)
    requires
        !keepass1_file(data@),
    ensures
        res is Ok <==> kdbx_decrypt(data@, secret_text(*password)) is Some,
        res matches Ok(db) ==> kdbx_decrypt(data@, secret_text(*password)) == Some(kdbx_contents(db)),
        res matches Ok(db) ==> kdbx_well_formed(kdbx_contents(db)),
{
    Database::parse(data, DatabaseKey::new().with_password(password.inner.expose_secret()))
}

/// The key of the root group (`Database::root`, then the group's id). The
/// root group must be among the groups: reading its id looks it up.
#[verifier::external_body]
pub(crate) fn root_key(db: &Database) -> (k: u128)
    requires
        kdbx_contents(*db).groups.contains_key(kdbx_contents(*db).root),
    ensures
        k == kdbx_contents(*db).root,
{
    db.root().id().uuid().as_u128()
}

/// The number of groups in the database (`Database::num_groups`).
#[verifier::external_body]
pub(crate) fn group_count(db: &Database) -> (n: usize)
    ensures
        n == kdbx_contents(*db).groups.len(),
{
    db.num_groups()
}

/// The name of the group with key `key` (`Database::group`, then its `name`),
/// `None` where the database holds no such group.
#[verifier::external_body]
pub(crate) fn group_name(db: &Database, key: u128) -> (r: Option<String>)
    ensures
        r is Some <==> kdbx_contents(*db).groups.contains_key(key),
        r matches Some(n) ==> n@ == kdbx_contents(*db).groups[key].name,
{
    match db.group(GroupId::from_uuid(Uuid::from_u128(key))) {
        Some(g) => Some(g.name.clone()),
        None => None,
    }
}

/// The keys of the child groups of the group with key `key`, in order
/// (`Database::group`, then `Group::group_ids`).
#[verifier::external_body]
pub(crate) fn group_children(db: &Database, key: u128) -> (r: Option<Vec<u128>>)
    ensures
        r is Some <==> kdbx_contents(*db).groups.contains_key(key),
        r matches Some(v) ==> v@ == kdbx_contents(*db).groups[key].groups,
{
    match db.group(GroupId::from_uuid(Uuid::from_u128(key))) {
        Some(g) => Some(g.group_ids().map(|id| id.uuid().as_u128()).collect()),
        None => None,
    }
}

/// The keys of the entries directly in the group with key `key`, in order
/// (`Database::group`, then `Group::entry_ids`).
#[verifier::external_body]
pub(crate) fn group_entries(db: &Database, key: u128) -> (r: Option<Vec<u128>>)
    ensures
        r is Some <==> kdbx_contents(*db).groups.contains_key(key),
        r matches Some(v) ==> v@ == kdbx_contents(*db).groups[key].entries,
{
    match db.group(GroupId::from_uuid(Uuid::from_u128(key))) {
        Some(g) => Some(g.entry_ids().map(|id| id.uuid().as_u128()).collect()),
        None => None,
    }
}

/// The field `name` of the entry with key `key` (`Database::entry`, then the
/// entry's `fields`): its text, protected or not, and whether it is
/// protected; `None` where there is no such entry or field.
#[verifier::external_body]
pub(crate) fn entry_field(db: &Database, key: u128, name: &str) -> (r: Option<(String, bool)>)
    ensures
        r is Some <==> (kdbx_contents(*db).entries.contains_key(key)
            && kdbx_contents(*db).entries[key].fields.contains_key(name@)),
        r matches Some(v) ==> v.0@ == kdbx_contents(*db).entries[key].fields[name@].text
            && v.1 == kdbx_contents(*db).entries[key].fields[name@].protected,
{
    match db.entry(EntryId::from_uuid(Uuid::from_u128(key))) {
        Some(e) => match e.fields.get(name) {
            Some(v) => Some((v.get().clone(), v.is_protected())),
            None => None,
        },
        None => None,
    }
}

/// The tags of the entry with key `key`, in order (`Database::entry`, then
/// the entry's `tags`); `None` where there is no such entry.
#[verifier::external_body]
pub(crate) fn entry_tags(db: &Database, key: u128) -> (r: Option<Vec<String>>)
    ensures
        r is Some <==> kdbx_contents(*db).entries.contains_key(key),
        r matches Some(v) ==> v.deep_view() == kdbx_contents(*db).entries[key].tags,
{
    match db.entry(EntryId::from_uuid(Uuid::from_u128(key))) {
        Some(e) => Some(e.tags.clone()),
        None => None,
    }
}

/// The text form of an identifier (`Display` of `uuid::Uuid`), which the
/// `uuid` crate writes hyphenated, in lowercase.
#[verifier::external_body]
pub(crate) fn key_text(key: u128) -> (s: String)
    ensures
        s@ == uuid_text(key),
{
    Uuid::from_u128(key).to_string()
}

} // verus!
