//! The vault: a decrypted KeePass database, and the three ways of reading
//! it: as a tree of groups and entries, by an entry's identifier, and by a
//! search over titles and tags.
use crate::kdbx::{
    entry_field, entry_tags, group_children, group_count, group_entries, group_name, key_text,
    kdbx_contents, kdbx_decrypt, kdbx_well_formed, keepass1_file, is_keepass1, parse_database, root_key, KdbxContents, KdbxEntry, KdbxGroup,
};
use crate::secret::{secret_text, Secret};
use crate::text::{chars_of, contains_chars, is_substring, uuid_text};
use keepass::Database;
use vstd::prelude::*;

verus! {

broadcast use vstd::seq_lib::group_seq_properties;

/// An entry as the vault hands it out.
pub struct VaultEntry {
    pub uuid: String,
    pub title: String,
    pub username: Option<String>,
    pub password: Option<Secret>,
    pub url: Option<String>,
    pub notes: Option<String>,
    pub tags: Vec<String>,
}

/// A group with its child groups and entries.
pub struct VaultGroup {
    pub uuid: String,
    pub name: String,
    pub children: Vec<VaultNode>,
}

/// A node of the vault's tree.
pub enum VaultNode {
    Group(VaultGroup),
    Entry(VaultEntry),
}

/// An entry as plain values.
pub struct EntryView {
    pub uuid: Seq<char>,
    pub title: Seq<char>,
    pub username: Option<Seq<char>>,
    pub password: Option<Seq<char>>,
    pub url: Option<Seq<char>>,
    pub notes: Option<Seq<char>>,
    pub tags: Seq<Seq<char>>,
}

/// A group as plain values.
pub struct GroupView {
    pub uuid: Seq<char>,
    pub name: Seq<char>,
    pub children: Seq<NodeView>,
}

/// A tree node as plain values.
pub enum NodeView {
    Group(GroupView),
    Entry(EntryView),
}

pub open spec fn secret_view(p: Option<Secret>) -> Option<Seq<char>> {
    match p {
        Some(s) => Some(secret_text(s)),
        None => None,
    }
}

impl View for VaultEntry {
    type V = EntryView;

    open spec fn view(&self) -> EntryView {
        EntryView {
            uuid: self.uuid@,
            title: self.title@,
            username: self.username.deep_view(),
            password: secret_view(self.password),
            url: self.url.deep_view(),
            notes: self.notes.deep_view(),
            tags: self.tags.deep_view(),
        }
    }
}

pub open spec fn node_view(n: VaultNode) -> NodeView
    decreases n, 1nat,
{
    match n {
        VaultNode::Group(g) => NodeView::Group(group_view(g)),
        VaultNode::Entry(e) => NodeView::Entry(e@),
    }
}

pub open spec fn group_view(g: VaultGroup) -> GroupView
    decreases g, 0nat,
{
    GroupView {
        uuid: g.uuid@,
        name: g.name@,
        children: Seq::new(
            g.children.len() as nat,
            |i: int|
                if 0 <= i < g.children.len() {
                    node_view(g.children[i])
                } else {
                    NodeView::Group(GroupView { uuid: Seq::empty(), name: Seq::empty(), children: Seq::empty() })
                },
        ),
    }
}

impl View for VaultGroup {
    type V = GroupView;

    open spec fn view(&self) -> GroupView {
        group_view(*self)
    }
}

impl View for VaultNode {
    type V = NodeView;

    open spec fn view(&self) -> NodeView {
        node_view(*self)
    }
}

/// The views of a sequence of entries.
pub open spec fn entries_view(s: Seq<VaultEntry>) -> Seq<EntryView> {
    s.map_values(|e: VaultEntry| e@)
}

// ---------------------------------------------------------------------------
// The model: what the vault's contents say each reading gives.

/// The group with key `k`, or an empty group where the database has none.
pub open spec fn group_of(c: KdbxContents, k: u128) -> KdbxGroup {
    if c.groups.contains_key(k) {
        c.groups[k]
    } else {
        KdbxGroup { name: Seq::empty(), groups: Seq::empty(), entries: Seq::empty() }
    }
}

/// The entry with key `k`, or an entry without fields or tags where the
/// database has none.
pub open spec fn entry_of(c: KdbxContents, k: u128) -> KdbxEntry {
    if c.entries.contains_key(k) {
        c.entries[k]
    } else {
        KdbxEntry { fields: Map::empty(), tags: Seq::empty() }
    }
}

/// The text of field `name`, protected or not.
pub open spec fn field_text(e: KdbxEntry, name: Seq<char>) -> Option<Seq<char>> {
    if e.fields.contains_key(name) {
        Some(e.fields[name].text)
    } else {
        None
    }
}

/// The text of field `name` where it is stored unprotected.
pub open spec fn plain_field_text(e: KdbxEntry, name: Seq<char>) -> Option<Seq<char>> {
    if e.fields.contains_key(name) && !e.fields[name].protected {
        Some(e.fields[name].text)
    } else {
        None
    }
}

/// The entry with key `k` as the vault hands it out: its identifier's text,
/// its title (empty where it has none), user name, password and URL, its
/// notes where they are not protected, and its tags.
pub open spec fn entry_model(c: KdbxContents, k: u128) -> EntryView {
    let e = entry_of(c, k);
    EntryView {
        uuid: uuid_text(k),
        title: match field_text(e, "Title"@) {
            Some(t) => t,
            None => Seq::empty(),
        },
        username: field_text(e, "UserName"@),
        password: field_text(e, "Password"@),
        url: field_text(e, "URL"@),
        notes: plain_field_text(e, "Notes"@),
        tags: e.tags,
    }
}

pub open spec fn entry_node(c: KdbxContents) -> spec_fn(u128) -> NodeView {
    |k: u128| NodeView::Entry(entry_model(c, k))
}

/// The group with key `k` as a tree: its child groups first, each with one
/// level less of `depth`, then its entries. With no depth left the child
/// groups are left out.
pub open spec fn group_model(c: KdbxContents, k: u128, depth: nat) -> GroupView
    decreases depth, 1nat,
{
    let g = group_of(c, k);
    let subgroups = if depth == 0 {
        Seq::empty()
    } else {
        g.groups.map_values(group_node(c, (depth - 1) as nat))
    };
    GroupView {
        uuid: uuid_text(k),
        name: g.name,
        children: subgroups + g.entries.map_values(entry_node(c)),
    }
}

pub open spec fn group_node(c: KdbxContents, depth: nat) -> spec_fn(u128) -> NodeView
    decreases depth, 2nat,
{
    |k: u128| NodeView::Group(group_model(c, k, depth))
}

/// How deep the tree is read: as many levels as the database has groups,
/// the most that nested groups can reach in a tree of that many groups.
pub open spec fn depth_limit(c: KdbxContents) -> nat {
    c.groups.len()
}

/// The whole tree, from the root group.
pub open spec fn tree_model(c: KdbxContents) -> GroupView {
    group_model(c, c.root, depth_limit(c))
}

/// The keys of the entries under the group with key `k`, in the order in
/// which they are searched: the group's own entries, then those under each
/// child group in turn.
pub open spec fn entry_order(c: KdbxContents, k: u128, depth: nat) -> Seq<u128>
    decreases depth, 1nat,
{
    let g = group_of(c, k);
    if depth == 0 {
        g.entries
    } else {
        g.entries + g.groups.flat_map(order_under(c, (depth - 1) as nat))
    }
}

pub open spec fn order_under(c: KdbxContents, depth: nat) -> spec_fn(u128) -> Seq<u128>
    decreases depth, 2nat,
{
    |k: u128| entry_order(c, k, depth)
}

/// All entries of the vault in search order.
pub open spec fn all_entries(c: KdbxContents) -> Seq<u128> {
    entry_order(c, c.root, depth_limit(c))
}

/// Whether an entry matches a search query: the query occurs in its title
/// or in one of its tags.
pub open spec fn entry_matches(e: EntryView, q: Seq<char>) -> bool {
    is_substring(q, e.title) || exists|i: int| 0 <= i < e.tags.len() && is_substring(q, #[trigger] e.tags[i])
}

pub open spec fn entry_at(c: KdbxContents) -> spec_fn(u128) -> EntryView {
    |k: u128| entry_model(c, k)
}

pub open spec fn matching(q: Seq<char>) -> spec_fn(EntryView) -> bool {
    |e: EntryView| entry_matches(e, q)
}

/// The entries with keys `keys` that match query `q`, in order.
pub open spec fn hits(c: KdbxContents, keys: Seq<u128>, q: Seq<char>) -> Seq<EntryView> {
    keys.map_values(entry_at(c)).filter(matching(q))
}

/// What a search for `q` gives: every entry of the vault that matches it,
/// in search order.
pub open spec fn search_model(c: KdbxContents, q: Seq<char>) -> Seq<EntryView> {
    hits(c, all_entries(c), q)
}

/// The first key in `s` whose identifier's text is `u`.
pub open spec fn first_with_uuid(s: Seq<u128>, u: Seq<char>) -> Option<u128>
    decreases s.len(),
{
    if s.len() == 0 {
        None
    } else if uuid_text(s[0]) == u {
        Some(s[0])
    } else {
        first_with_uuid(s.drop_first(), u)
    }
}

/// What a lookup of `u` gives: the first entry in search order whose
/// identifier's text is `u`.
pub open spec fn find_model(c: KdbxContents, u: Seq<char>) -> Option<EntryView> {
    match first_with_uuid(all_entries(c), u) {
        Some(k) => Some(entry_model(c, k)),
        None => None,
    }
}

// ---------------------------------------------------------------------------
// Lemmas on the model.

pub proof fn lemma_hits_add(c: KdbxContents, a: Seq<u128>, b: Seq<u128>, q: Seq<char>)
    ensures
        hits(c, a + b, q) == hits(c, a, q) + hits(c, b, q),
{
    assert((a + b).map_values(entry_at(c)) =~= a.map_values(entry_at(c)) + b.map_values(entry_at(c)));
    Seq::filter_distributes_over_add(a.map_values(entry_at(c)), b.map_values(entry_at(c)), matching(q));
}

pub proof fn lemma_hits_one(c: KdbxContents, k: u128, q: Seq<char>)
    ensures
        hits(c, seq![k], q) == if entry_matches(entry_model(c, k), q) {
            seq![entry_model(c, k)]
        } else {
            Seq::<EntryView>::empty()
        },
{
    let e = entry_model(c, k);
    assert(seq![k].map_values(entry_at(c)) =~= Seq::<EntryView>::empty().push(e));
    Seq::<EntryView>::empty().lemma_filter_push(e, matching(q));
    assert(Seq::<EntryView>::empty().filter(matching(q)) =~= Seq::<EntryView>::empty()) by {
        reveal(Seq::filter);
    }
}

pub proof fn lemma_first_add(a: Seq<u128>, b: Seq<u128>, u: Seq<char>)
    ensures
        first_with_uuid(a + b, u) == match first_with_uuid(a, u) {
            Some(k) => Some(k),
            None => first_with_uuid(b, u),
        },
    decreases a.len(),
{
    if a.len() == 0 {
        assert(a + b =~= b);
    } else {
        assert((a + b)[0] == a[0]);
        assert((a + b).drop_first() =~= a.drop_first() + b);
        lemma_first_add(a.drop_first(), b, u);
    }
}

pub proof fn lemma_first_one(k: u128, u: Seq<char>)
    ensures
        first_with_uuid(seq![k], u) == if uuid_text(k) == u { Some(k) } else { None },
{
    assert(seq![k].drop_first() =~= Seq::<u128>::empty());
    assert(first_with_uuid(Seq::<u128>::empty(), u) is None);
}

pub proof fn lemma_first_at(s: Seq<u128>, i: int, u: Seq<char>)
    requires
        0 <= i < s.len(),
        first_with_uuid(s.take(i), u) is None,
        uuid_text(s[i]) == u,
    ensures
        first_with_uuid(s, u) == Some(s[i]),
{
    lemma_first_add(s.take(i), s.skip(i), u);
    assert(s.take(i) + s.skip(i) =~= s);
    assert(s.skip(i)[0] == s[i]);
}

pub proof fn lemma_first_step(s: Seq<u128>, i: int, u: Seq<char>)
    requires
        0 <= i < s.len(),
        first_with_uuid(s.take(i), u) is None,
        uuid_text(s[i]) != u,
    ensures
        first_with_uuid(s.take(i + 1), u) is None,
{
    lemma_first_add(s.take(i), seq![s[i]], u);
    lemma_first_one(s[i], u);
    assert(s.take(i) + seq![s[i]] =~= s.take(i + 1));
}

pub proof fn lemma_flat_map_split(s: Seq<u128>, f: spec_fn(u128) -> Seq<u128>, i: int)
    requires
        0 <= i <= s.len(),
    ensures
        s.flat_map(f) == s.take(i).flat_map(f) + s.skip(i).flat_map(f),
{
    assert(s.take(i) + s.skip(i) =~= s);
    assert((s.take(i) + s.skip(i)).map_values(f) =~= s.take(i).map_values(f) + s.skip(i).map_values(f));
    vstd::seq_lib::lemma_flatten_concat(s.take(i).map_values(f), s.skip(i).map_values(f));
}

// ---------------------------------------------------------------------------
// The vault.

/// Why a vault could not be opened.
pub enum VaultError {
    /// The bytes are not a database that the password opens.
    Decrypt,
    /// The bytes are a KeePass 1 (`.kdb`) file, which the vault does not
    /// open.
    Unsupported,
}

/// An unlocked vault: the decrypted database.
pub struct Vault {
    db: Database,
}

impl View for Vault {
    type V = KdbxContents;

    closed spec fn view(&self) -> KdbxContents {
        kdbx_contents(self.db)
    }
}

impl Vault {
    /// A vault always holds a database of the shape `keepass` opens.
    #[verifier::type_invariant]
    spec fn well_formed(self) -> bool {
        kdbx_well_formed(kdbx_contents(self.db))
    }
}

impl Vault {
    /// Opens the database file held in `data` with `password`. A KeePass 1
    /// file is refused as `Unsupported`; any other file opens exactly where
    /// the bytes decrypt with the password, and the vault then holds what
    /// they decrypt to.
    pub fn load(data: &[u8], password: &Secret) -> (res: Result<Vault, VaultError>)
        ensures
            keepass1_file(data@) ==> res == Err::<Vault, VaultError>(VaultError::Unsupported),
            res == Err::<Vault, VaultError>(VaultError::Unsupported) ==> data@.len() >= 8 && data@[4] == 0x65u8
                && data@[5] == 0xfbu8 && data@[6] == 0x4bu8 && data@[7] == 0xb5u8,
            data@.len() >= 8 && data@[4] == 0x67u8 ==> (res is Ok <==> kdbx_decrypt(
                data@,
                secret_text(*password),
            ) is Some),
            !keepass1_file(data@) ==> (res is Ok <==> kdbx_decrypt(data@, secret_text(*password)) is Some),
            !keepass1_file(data@) ==> (res is Err ==> res == Err::<Vault, VaultError>(VaultError::Decrypt)),
            res matches Ok(v) ==> kdbx_decrypt(data@, secret_text(*password)) == Some(v@),
            res matches Ok(v) ==> kdbx_well_formed(v@),
    {
        if is_keepass1(data) {
            return Err(VaultError::Unsupported);
        }
        match parse_database(data, password) {
            Ok(db) => Ok(Vault { db }),
            Err(_) => Err(VaultError::Decrypt),
        }
    }

    /// The whole vault as a tree, from its root group.
    pub fn get_tree(&self) -> (t: VaultNode)
        ensures
            t@ == NodeView::Group(tree_model(self@)),
    {
        proof {
            use_type_invariant(self);
        }
        let depth = group_count(&self.db);
        let root = root_key(&self.db);
        VaultNode::Group(self.convert_group(root, depth))
    }

    fn convert_group(&self, key: u128, depth: usize) -> (g: VaultGroup)
        ensures
            g@ == group_model(self@, key, depth as nat),
        decreases depth,
    {
        let ghost c = self@;
        let ghost model = group_model(c, key, depth as nat);
        let ghost subs = group_of(c, key).groups;
        let ghost ents = group_of(c, key).entries;
        let ghost sub_nodes = if depth == 0 {
            Seq::<NodeView>::empty()
        } else {
            subs.map_values(group_node(c, (depth - 1) as nat))
        };
        let mut children: Vec<VaultNode> = Vec::new();
        if depth > 0 {
            let sub_keys = match group_children(&self.db, key) {
                Some(v) => v,
                None => Vec::new(),
            };
            assert(sub_keys@ == subs);
            let mut i: usize = 0;
            while i < sub_keys.len()
                invariant
                    depth > 0,
                    c == self@,
                    sub_keys@ == subs,
                    sub_nodes == subs.map_values(group_node(c, (depth - 1) as nat)),
                    i <= sub_keys@.len(),
                    children@.len() == i,
                    forall|j: int| 0 <= j < i ==> node_view(#[trigger] children@[j]) == sub_nodes[j],
                decreases sub_keys@.len() - i,
            {
                let sub = self.convert_group(sub_keys[i], depth - 1);
                children.push(VaultNode::Group(sub));
                i = i + 1;
            }
        }
        let entry_keys = match group_entries(&self.db, key) {
            Some(v) => v,
            None => Vec::new(),
        };
        assert(entry_keys@ == ents);
        let start = children.len();
        let mut i: usize = 0;
        while i < entry_keys.len()
            invariant
                c == self@,
                entry_keys@ == ents,
                start == sub_nodes.len(),
                i <= entry_keys@.len(),
                children@.len() == start + i,
                forall|j: int| 0 <= j < start ==> node_view(#[trigger] children@[j]) == sub_nodes[j],
                forall|j: int|
                    0 <= j < i ==> node_view(#[trigger] children@[start + j]) == NodeView::Entry(
                        entry_model(c, ents[j]),
                    ),
            decreases entry_keys@.len() - i,
        {
            let e = self.convert_entry(entry_keys[i]);
            children.push(VaultNode::Entry(e));
            i = i + 1;
        }
        let name = match group_name(&self.db, key) {
            Some(n) => n,
            None => String::new(),
        };
        let g = VaultGroup { uuid: key_text(key), name, children };
        assert(g@.children =~= model.children) by {
            assert(model.children == sub_nodes + ents.map_values(entry_node(c)));
            assert forall|j: int| 0 <= j < g@.children.len() implies g@.children[j] == model.children[j] by {
                if j < start {
                } else {
                    assert(children@[start + (j - start)] == children@[j]);
                }
            }
        }
        g
    }

    /// The first entry in search order whose identifier's text is
    /// `uuid_str`, or `None` where no entry has that identifier.
    pub fn find_entry(&self, uuid_str: &str) -> (r: Option<VaultEntry>)
        ensures
            match r {
                Some(e) => find_model(self@, uuid_str@) == Some(e@),
                None => find_model(self@, uuid_str@) is None,
            },
    {
        let u = uuid_str.to_owned();
        proof {
            use_type_invariant(self);
        }
        let depth = group_count(&self.db);
        let root = root_key(&self.db);
        self.recursive_find(root, &u, depth)
    }

    fn recursive_find(&self, key: u128, u: &String, depth: usize) -> (r: Option<VaultEntry>)
        ensures
            match r {
                Some(e) => first_with_uuid(entry_order(self@, key, depth as nat), u@) matches Some(k)
                    && e@ == entry_model(self@, k),
                None => first_with_uuid(entry_order(self@, key, depth as nat), u@) is None,
            },
        decreases depth,
    {
        let ghost c = self@;
        let ghost g = group_of(c, key);
        let ghost rest = if depth == 0 {
            Seq::<u128>::empty()
        } else {
            g.groups.flat_map(order_under(c, (depth - 1) as nat))
        };
        assert(entry_order(c, key, depth as nat) =~= g.entries + rest);
        let entry_keys = match group_entries(&self.db, key) {
            Some(v) => v,
            None => Vec::new(),
        };
        let mut i: usize = 0;
        while i < entry_keys.len()
            invariant
                c == self@,
                entry_keys@ == g.entries,
                entry_order(c, key, depth as nat) == g.entries + rest,
                i <= entry_keys@.len(),
                first_with_uuid(g.entries.take(i as int), u@) is None,
            decreases entry_keys@.len() - i,
        {
            let k = entry_keys[i];
            if key_text(k) == *u {
                proof {
                    lemma_first_at(g.entries, i as int, u@);
                    lemma_first_add(g.entries, rest, u@);
                }
                return Some(self.convert_entry(k));
            }
            proof {
                lemma_first_step(g.entries, i as int, u@);
            }
            i = i + 1;
        }
        assert(g.entries.take(entry_keys@.len() as int) =~= g.entries);
        proof {
            lemma_first_add(g.entries, rest, u@);
        }
        if depth == 0 {
            return None;
        }
        let ghost f = order_under(c, (depth - 1) as nat);
        let sub_keys = match group_children(&self.db, key) {
            Some(v) => v,
            None => Vec::new(),
        };
        let mut i: usize = 0;
        while i < sub_keys.len()
            invariant
                depth > 0,
                c == self@,
                f == order_under(c, (depth - 1) as nat),
                sub_keys@ == g.groups,
                rest == g.groups.flat_map(f),
                first_with_uuid(g.entries, u@) is None,
                first_with_uuid(entry_order(c, key, depth as nat), u@) == first_with_uuid(rest, u@),
                i <= sub_keys@.len(),
                first_with_uuid(g.groups.take(i as int).flat_map(f), u@) is None,
            decreases sub_keys@.len() - i,
        {
            let found = self.recursive_find(sub_keys[i], u, depth - 1);
            proof {
                g.groups.lemma_flat_map_take_append(f, i as int);
                lemma_first_add(g.groups.take(i as int).flat_map(f), f(g.groups[i as int]), u@);
            }
            if found.is_some() {
                proof {
                    lemma_flat_map_split(g.groups, f, i + 1);
                    lemma_first_add(
                        g.groups.take(i + 1).flat_map(f),
                        g.groups.skip(i + 1).flat_map(f),
                        u@,
                    );
                }
                return found;
            }
            i = i + 1;
        }
        assert(g.groups.take(sub_keys@.len() as int) =~= g.groups);
        None
    }

    /// Every entry of the vault whose title or one of whose tags holds
    /// `query`, in search order.
    pub fn search(&self, query: &str) -> (r: Vec<VaultEntry>)
        ensures
            entries_view(r@) == search_model(self@, query@),
    {
        let q = chars_of(query);
        let mut results: Vec<VaultEntry> = Vec::new();
        proof {
            use_type_invariant(self);
        }
        let depth = group_count(&self.db);
        let root = root_key(&self.db);
        assert(entries_view(results@) =~= Seq::<EntryView>::empty());
        self.recursive_search(root, &q, depth, &mut results);
        assert(entries_view(results@) =~= search_model(self@, query@));
        results
    }

    fn query_matches(&self, key: u128, q: &Vec<char>) -> (b: bool)
        ensures
            b == entry_matches(entry_model(self@, key), q@),
    {
        let ghost m = entry_model(self@, key);
        let title = match entry_field(&self.db, key, "Title") {
            Some(v) => v.0,
            None => String::new(),
        };
        assert(title@ == m.title);
        let title_chars = chars_of(title.as_str());
        if contains_chars(&title_chars, q) {
            return true;
        }
        let tags = match entry_tags(&self.db, key) {
            Some(t) => t,
            None => Vec::new(),
        };
        assert(tags.deep_view() =~= m.tags);
        let mut i: usize = 0;
        while i < tags.len()
            invariant
                m == entry_model(self@, key),
                tags.deep_view() == m.tags,
                i <= tags@.len(),
                !is_substring(q@, m.title),
                forall|j: int| 0 <= j < i ==> !is_substring(q@, #[trigger] m.tags[j]),
            decreases tags@.len() - i,
        {
            let tag_chars = chars_of(tags[i].as_str());
            assert(tags[i as int]@ == m.tags[i as int]);
            if contains_chars(&tag_chars, q) {
                assert(0 <= i < m.tags.len() && is_substring(q@, m.tags[i as int]));
                return true;
            }
            i = i + 1;
        }
        false
    }

    fn recursive_search(&self, key: u128, q: &Vec<char>, depth: usize, results: &mut Vec<VaultEntry>)
        ensures
            entries_view(final(results)@) == entries_view(old(results)@) + hits(
                self@,
                entry_order(self@, key, depth as nat),
                q@,
            ),
        decreases depth,
    {
        let ghost c = self@;
        let ghost start = entries_view(results@);
        let ghost g = group_of(c, key);
        let entry_keys = match group_entries(&self.db, key) {
            Some(v) => v,
            None => Vec::new(),
        };
        assert(g.entries.take(0) =~= Seq::<u128>::empty());
        assert(hits(c, Seq::<u128>::empty(), q@) =~= Seq::<EntryView>::empty()) by {
            reveal(Seq::filter);
        }
        let mut i: usize = 0;
        while i < entry_keys.len()
            invariant
                c == self@,
                entry_keys@ == g.entries,
                i <= entry_keys@.len(),
                entries_view(results@) == start + hits(c, g.entries.take(i as int), q@),
            decreases entry_keys@.len() - i,
        {
            let k = entry_keys[i];
            let ghost before = results@;
            if self.query_matches(k, q) {
                let e = self.convert_entry(k);
                results.push(e);
                assert(entries_view(results@) =~= entries_view(before).push(entry_model(c, k)));
            }
            proof {
                lemma_hits_add(c, g.entries.take(i as int), seq![k], q@);
                lemma_hits_one(c, k, q@);
                assert(g.entries.take(i as int) + seq![k] =~= g.entries.take(i + 1));
            }
            i = i + 1;
        }
        assert(g.entries.take(entry_keys@.len() as int) =~= g.entries);
        if depth == 0 {
            return;
        }
        let ghost f = order_under(c, (depth - 1) as nat);
        let sub_keys = match group_children(&self.db, key) {
            Some(v) => v,
            None => Vec::new(),
        };
        assert(g.groups.take(0).flat_map(f) =~= Seq::<u128>::empty());
        let mut i: usize = 0;
        while i < sub_keys.len()
            invariant
                depth > 0,
                c == self@,
                f == order_under(c, (depth - 1) as nat),
                sub_keys@ == g.groups,
                i <= sub_keys@.len(),
                hits(c, Seq::<u128>::empty(), q@) == Seq::<EntryView>::empty(),
                entries_view(results@) == start + hits(c, g.entries, q@) + hits(
                    c,
                    g.groups.take(i as int).flat_map(f),
                    q@,
                ),
            decreases sub_keys@.len() - i,
        {
            self.recursive_search(sub_keys[i], q, depth - 1, results);
            proof {
                g.groups.lemma_flat_map_take_append(f, i as int);
                lemma_hits_add(c, g.groups.take(i as int).flat_map(f), f(g.groups[i as int]), q@);
            }
            i = i + 1;
        }
        assert(g.groups.take(sub_keys@.len() as int) =~= g.groups);
        proof {
            lemma_hits_add(c, g.entries, g.groups.flat_map(f), q@);
        }
    }

    fn convert_entry(&self, key: u128) -> (e: VaultEntry)
        ensures
            e@ == entry_model(self@, key),
    {
        let title = match entry_field(&self.db, key, "Title") {
            Some(v) => v.0,
            None => String::new(),
        };
        let username = match entry_field(&self.db, key, "UserName") {
            Some(v) => Some(v.0),
            None => None,
        };
        let password = match entry_field(&self.db, key, "Password") {
            Some(v) => Some(Secret::new(v.0)),
            None => None,
        };
        let url = match entry_field(&self.db, key, "URL") {
            Some(v) => Some(v.0),
            None => None,
        };
        let notes = match entry_field(&self.db, key, "Notes") {
            Some(v) => if v.1 {
                None
            } else {
                Some(v.0)
            },
            None => None,
        };
        let tags = match entry_tags(&self.db, key) {
            Some(t) => t,
            None => Vec::new(),
        };
        let e = VaultEntry { uuid: key_text(key), title, username, password, url, notes, tags };
        let ghost m = entry_model(self@, key);
        assert(e@.uuid == m.uuid);
        assert(e@.title == m.title);
        assert(e@.username == m.username);
        assert(e@.password == m.password);
        assert(e@.url == m.url);
        assert(e@.notes == m.notes);
        assert(e@.tags == m.tags);
        e
    }
}

} // verus!
