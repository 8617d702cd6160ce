use passprompt::entry::{PasswordEntry, Salt};
use passprompt::error::PasspromptError;
use passprompt::store::CredentialStore;

fn entry(tag: u8) -> PasswordEntry {
    PasswordEntry {
        salt: Salt::from_bytes([tag; 16]),
        hash: passprompt::entry::Hash::from_bytes([tag; 24]),
    }
}

#[test]
fn new_store_is_empty() {
    let store = CredentialStore::new();
    assert!(store.is_empty());
    assert_eq!(store.len(), 0);
    assert!(store.names().is_empty());
    assert!(!store.contains("bank"));
    assert!(store.get("bank").is_none());
}

#[test]
fn inserted_entry_is_found() {
    let mut store = CredentialStore::new();
    assert!(!store.insert("bank".to_string(), entry(1)));
    assert!(store.contains("bank"));
    assert!(!store.contains("ban"));
    assert!(!store.contains("banks"));
    assert_eq!(store.get("bank").unwrap().salt.as_bytes(), &[1u8; 16]);
    assert_eq!(store.len(), 1);
    assert!(!store.is_empty());
}

#[test]
fn inserting_under_a_stored_name_replaces() {
    let mut store = CredentialStore::new();
    store.insert("bank".to_string(), entry(1));
    store.insert("email".to_string(), entry(2));
    assert!(store.insert("bank".to_string(), entry(3)));
    assert_eq!(store.len(), 2);
    assert_eq!(store.get("bank").unwrap().salt.as_bytes(), &[3u8; 16]);
    assert_eq!(store.get("email").unwrap().salt.as_bytes(), &[2u8; 16]);
    assert_eq!(store.names(), vec!["bank".to_string(), "email".to_string()]);
}

#[test]
fn names_are_sorted_as_the_standard_library_sorts() {
    let given = [
        "zeta", "alpha", "Beta", "beta", "", "a", "ab", "aa", "é", "e", "ez", "日本", "~", " ",
        "alpha2", "ALPHA", "\u{10348}", "\u{ffff}", "b",
    ];
    let mut store = CredentialStore::new();
    for (i, name) in given.iter().enumerate() {
        store.insert(name.to_string(), entry(i as u8));
    }
    let mut expected: Vec<String> = given.iter().map(|s| s.to_string()).collect();
    expected.sort_unstable();
    assert_eq!(store.names(), expected);
    for (i, name) in given.iter().enumerate() {
        assert_eq!(store.get(name).unwrap().salt.as_bytes(), &[i as u8; 16]);
    }
    for i in 0..expected.len() {
        assert_eq!(store.name_at(i), &expected[i]);
        assert_eq!(
            store.entry_at(i).salt.as_bytes(),
            store.get(&expected[i]).unwrap().salt.as_bytes()
        );
    }
}

#[test]
fn remove_is_idempotent() {
    let mut store = CredentialStore::new();
    store.insert("bank".to_string(), entry(1));
    store.insert("email".to_string(), entry(2));
    store.insert("door".to_string(), entry(3));
    assert!(store.remove("door"));
    assert!(!store.remove("door"));
    assert!(!store.remove("nothing"));
    assert_eq!(store.names(), vec!["bank".to_string(), "email".to_string()]);
    assert_eq!(store.get("email").unwrap().salt.as_bytes(), &[2u8; 16]);
    assert!(store.remove("bank"));
    assert!(store.remove("email"));
    assert!(store.is_empty());
}

#[test]
fn remove_all_empties_the_store() {
    let mut store = CredentialStore::new();
    store.insert("bank".to_string(), entry(1));
    store.insert("email".to_string(), entry(2));
    store.remove_all();
    assert!(store.is_empty());
    assert!(store.names().is_empty());
    assert!(!store.contains("bank"));
}

#[test]
fn add_makes_an_entry_that_verifies() {
    let mut store = CredentialStore::new();
    store.add("bank".to_string(), "secret1".to_string(), None).unwrap();
    assert!(store.verify("bank", "secret1".to_string()).unwrap());
    assert!(!store.verify("bank", "secret2".to_string()).unwrap());
    assert!(!store.verify("bank", String::new()).unwrap());
}

#[test]
fn add_with_a_salt_uses_it() {
    let mut store = CredentialStore::new();
    store
        .add("bank".to_string(), "secret1".to_string(), Some("AAECAwQFBgcICQoLDA0ODw==".to_string()))
        .unwrap();
    let expected: Vec<u8> = (0u8..16).collect();
    assert_eq!(&store.get("bank").unwrap().salt.as_bytes()[..], &expected[..]);
    assert!(store.verify("bank", "secret1".to_string()).unwrap());
}

#[test]
fn add_refuses_and_leaves_the_store() {
    let mut store = CredentialStore::new();
    store.insert("bank".to_string(), entry(1));
    let r = store.add("bank".to_string(), String::new(), None);
    assert!(matches!(r, Err(PasspromptError::EmptyPassword)));
    let r = store.add("email".to_string(), "pw".to_string(), Some("AAAA".to_string()));
    assert!(matches!(r, Err(PasspromptError::InvalidSaltEncoding)));
    let r = store.add("email".to_string(), "x".repeat(73), None);
    assert!(matches!(r, Err(PasspromptError::PasswordTooLong { limit: 72, actual: 73 })));
    assert_eq!(store.names(), vec!["bank".to_string()]);
    assert_eq!(store.get("bank").unwrap().salt.as_bytes(), &[1u8; 16]);
}

#[test]
fn verify_of_an_unknown_name_fails() {
    let mut store = CredentialStore::new();
    store.insert("bank".to_string(), entry(1));
    match store.verify("email", "pw".to_string()) {
        Err(PasspromptError::UnknownName(name)) => assert_eq!(name, "email"),
        other => panic!("{:?}", other),
    }
}
