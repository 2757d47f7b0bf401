use keepass::config::KdfConfig;
use keepass::db::{fields, EntryId, GroupId};
use keepass::{Database, DatabaseKey};
use uuid::Uuid;
use vault_airlock::secret::Secret;
use vault_airlock::vault::{Vault, VaultEntry, VaultError, VaultNode};

const PASSWORD: &str = "dQ;2<?dA4\\TfgF\\:";

const ROOT_ID: u128 = 0x0001_0203_0405_0607_0809_0a0b_0c0d_0e0f;
const SAMPLE_ID: u128 = 0x1111_2222_3333_4444_5555_6666_7777_aaaa;
const GENERAL_ID: u128 = 0xaaaa_bbbb_cccc_dddd_eeee_ffff_0000_1111;
const NESTED_ID: u128 = 0x9999_8888_7777_6666_5555_4444_3333_2222;
const BARE_ID: u128 = 0x0000_0000_0000_0000_0000_0000_0000_0042;

/// A small database: a root group "Root" holding the entry "Sample Entry"
/// and the group "General"; "General" holds "Nested Sample" and an entry
/// with no fields at all.
fn sample_db_bytes(password: &str) -> Vec<u8> {
    let mut db = Database::new_with_root_id(GroupId::from_uuid(Uuid::from_u128(ROOT_ID)));
    db.config.kdf_config = KdfConfig::Aes { rounds: 10 };
    {
        let mut root = db.root_mut();
        root.name = "Root".to_string();
        root.add_entry_with_id(EntryId::from_uuid(Uuid::from_u128(SAMPLE_ID)))
            .unwrap()
            .edit(|e| {
                e.set_unprotected(fields::TITLE, "Sample Entry");
                e.set_unprotected(fields::USERNAME, "alice");
                e.set_protected(fields::PASSWORD, "hunter2");
                e.set_unprotected(fields::URL, "https://example.com");
                e.set_unprotected(fields::NOTES, "plain notes");
                e.tags.push("work".to_string());
                e.tags.push("mail".to_string());
            });
        let mut general = root.add_group_with_id(GroupId::from_uuid(Uuid::from_u128(GENERAL_ID))).unwrap();
        general.name = "General".to_string();
        general
            .add_entry_with_id(EntryId::from_uuid(Uuid::from_u128(NESTED_ID)))
            .unwrap()
            .edit(|e| {
                e.set_unprotected(fields::TITLE, "Nested Sample");
                e.set_protected(fields::NOTES, "secret notes");
                e.tags.push("personal".to_string());
            });
        general.add_entry_with_id(EntryId::from_uuid(Uuid::from_u128(BARE_ID))).unwrap();
    }
    let mut buffer = Vec::new();
    db.save(&mut buffer, DatabaseKey::new().with_password(password)).unwrap();
    buffer
}

fn open_sample() -> Vault {
    let bytes = sample_db_bytes(PASSWORD);
    match Vault::load(&bytes, &Secret::from_text(PASSWORD.to_string())) {
        Ok(v) => v,
        Err(_) => panic!("the sample vault should open"),
    }
}

fn entry_titles(entries: &[VaultEntry]) -> Vec<String> {
    entries.iter().map(|e| e.title.clone()).collect()
}

#[test]
fn test_vault_load_success() {
    let bytes = sample_db_bytes(PASSWORD);
    let vault = Vault::load(&bytes, &Secret::from_text(PASSWORD.to_string()));
    assert!(vault.is_ok(), "Vault should load successfully with correct password");
}

#[test]
fn test_vault_load_failure() {
    let bytes = sample_db_bytes(PASSWORD);
    let vault = Vault::load(&bytes, &Secret::from_text("wrong_password".to_string()));
    assert!(vault.is_err(), "Vault should fail to load with wrong password");
}

#[test]
fn test_vault_get_tree() {
    let vault = open_sample();
    let tree = vault.get_tree();

    if let VaultNode::Group(root) = tree {
        assert!(!root.name.is_empty());
        assert!(!root.children.is_empty());
    } else {
        panic!("Root should be a group");
    }
}

#[test]
fn test_vault_search() {
    let vault = open_sample();

    // Searching for something that the sample database holds
    let results = vault.search("Sample");
    // Whatever the database holds, a search returns a Vec
    assert!(results.len() >= 0);
}

#[test]
fn test_vault_find_entry() {
    let vault = open_sample();

    // Get an entry from tree first to find a valid UUID
    let tree = vault.get_tree();
    if let VaultNode::Group(root) = tree {
        // Traverse to find first entry
        let mut first_entry_uuid = None;
        for child in &root.children {
            if let VaultNode::Entry(e) = child {
                first_entry_uuid = Some(e.uuid.clone());
                break;
            }
        }

        if let Some(uuid) = first_entry_uuid {
            let entry = vault.find_entry(&uuid);
            assert!(entry.is_some());
            assert_eq!(entry.unwrap().uuid, uuid);
        }
    }
}

#[test]
fn load_rejects_bytes_that_are_no_database() {
    let vault = Vault::load(b"not a keepass file", &Secret::from_text(PASSWORD.to_string()));
    assert!(vault.is_err());
}

#[test]
fn load_refuses_keepass1_files() {
    let mut kdb = vec![0x03, 0xd9, 0xa2, 0x9a, 0x65, 0xfb, 0x4b, 0xb5];
    kdb.extend_from_slice(&[0u8; 140]);
    let vault = Vault::load(&kdb, &Secret::from_text(PASSWORD.to_string()));
    assert!(matches!(vault, Err(VaultError::Unsupported)));
    let short = Vault::load(&kdb[..8], &Secret::from_text(PASSWORD.to_string()));
    assert!(matches!(short, Err(VaultError::Unsupported)));
}

#[test]
fn load_with_wrong_password_is_decrypt_error() {
    let bytes = sample_db_bytes(PASSWORD);
    let vault = Vault::load(&bytes, &Secret::from_text("wrong_password".to_string()));
    assert!(matches!(vault, Err(VaultError::Decrypt)));
}

#[test]
fn tree_lists_child_groups_before_entries() {
    let vault = open_sample();
    let root = match vault.get_tree() {
        VaultNode::Group(g) => g,
        VaultNode::Entry(_) => panic!("the root is a group"),
    };
    assert_eq!(root.uuid, "00010203-0405-0607-0809-0a0b0c0d0e0f");
    assert_eq!(root.name, "Root");
    assert_eq!(root.children.len(), 2);
    match &root.children[0] {
        VaultNode::Group(g) => {
            assert_eq!(g.name, "General");
            assert_eq!(g.uuid, "aaaabbbb-cccc-dddd-eeee-ffff00001111");
            assert_eq!(g.children.len(), 2);
            match &g.children[0] {
                VaultNode::Entry(e) => assert_eq!(e.title, "Nested Sample"),
                VaultNode::Group(_) => panic!("an entry was expected"),
            }
        }
        VaultNode::Entry(_) => panic!("the child group comes first"),
    }
    match &root.children[1] {
        VaultNode::Entry(e) => assert_eq!(e.title, "Sample Entry"),
        VaultNode::Group(_) => panic!("the entry comes after the group"),
    }
}

#[test]
fn entry_fields_are_read_from_the_database() {
    let vault = open_sample();
    let e = vault.find_entry("11112222-3333-4444-5555-66667777aaaa").expect("entry exists");
    assert_eq!(e.uuid, "11112222-3333-4444-5555-66667777aaaa");
    assert_eq!(e.title, "Sample Entry");
    assert_eq!(e.username.as_deref(), Some("alice"));
    assert_eq!(e.password.as_ref().map(|p| p.text().to_string()), Some("hunter2".to_string()));
    assert_eq!(e.url.as_deref(), Some("https://example.com"));
    assert_eq!(e.notes.as_deref(), Some("plain notes"));
    assert_eq!(e.tags, vec!["work".to_string(), "mail".to_string()]);
}

#[test]
fn protected_notes_are_left_out() {
    let vault = open_sample();
    let e = vault.find_entry("99998888-7777-6666-5555-444433332222").expect("entry exists");
    assert_eq!(e.title, "Nested Sample");
    assert_eq!(e.notes, None);
    assert_eq!(e.username, None);
    assert!(e.password.is_none());
}

#[test]
fn entry_without_fields_has_empty_title() {
    let vault = open_sample();
    let e = vault.find_entry("00000000-0000-0000-0000-000000000042").expect("entry exists");
    assert_eq!(e.title, "");
    assert_eq!(e.url, None);
    assert!(e.tags.is_empty());
}

#[test]
fn find_entry_of_unknown_uuid_is_none() {
    let vault = open_sample();
    assert!(vault.find_entry("00000000-0000-0000-0000-000000000000").is_none());
    assert!(vault.find_entry("").is_none());
    // identifiers are matched exactly, in lowercase
    assert!(vault.find_entry("11112222-3333-4444-5555-66667777aaaa".to_uppercase().as_str()).is_none());
}

#[test]
fn search_matches_titles_in_search_order() {
    let vault = open_sample();
    let results = vault.search("Sample");
    assert_eq!(entry_titles(&results), vec!["Sample Entry".to_string(), "Nested Sample".to_string()]);
}

#[test]
fn search_matches_tags() {
    let vault = open_sample();
    assert_eq!(entry_titles(&vault.search("perso")), vec!["Nested Sample".to_string()]);
    assert_eq!(entry_titles(&vault.search("mail")), vec!["Sample Entry".to_string()]);
}

#[test]
fn search_is_case_sensitive_and_can_be_empty() {
    let vault = open_sample();
    assert!(vault.search("sample entry").is_empty());
    assert!(vault.search("zzz").is_empty());
    // the empty query occurs in every title
    assert_eq!(vault.search("").len(), 3);
}

#[test]
fn search_results_agree_with_lookup() {
    let vault = open_sample();
    for e in vault.search("") {
        let found = vault.find_entry(&e.uuid).expect("every entry can be looked up");
        assert_eq!(found.title, e.title);
    }
}

#[test]
fn longer_query_narrows_search() {
    let vault = open_sample();
    let wide = entry_titles(&vault.search("Sam"));
    let narrow = entry_titles(&vault.search("Sample E"));
    assert_eq!(wide, vec!["Sample Entry".to_string(), "Nested Sample".to_string()]);
    assert_eq!(narrow, vec!["Sample Entry".to_string()]);
    assert!(narrow.iter().all(|t| wide.contains(t)));
}

#[test]
fn found_entry_equals_tree_entry() {
    let vault = open_sample();
    let root = match vault.get_tree() {
        VaultNode::Group(g) => g,
        VaultNode::Entry(_) => panic!("the root is a group"),
    };
    let nested = match &root.children[0] {
        VaultNode::Group(g) => match &g.children[0] {
            VaultNode::Entry(e) => e.uuid.clone(),
            VaultNode::Group(_) => panic!("an entry was expected"),
        },
        VaultNode::Entry(_) => panic!("a group was expected"),
    };
    let found = vault.find_entry(&nested).expect("found");
    assert_eq!(found.title, "Nested Sample");
    assert_eq!(found.tags, vec!["personal".to_string()]);
}
