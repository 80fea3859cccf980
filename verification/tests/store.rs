use zkl_sol_demo::{AccountStore, Identity, RegistryError};

#[test]
fn new_store_holds_no_account() {
    let store = AccountStore::new();
    assert!(!store.contains(&Identity::new([0u8; 32])));
    assert!(!store.contains(&Identity::new([1u8; 32])));
    assert_eq!(store.get(&Identity::new([1u8; 32])).err(), Some(RegistryError::NotFound));
}

#[test]
fn create_makes_an_empty_account_for_the_identity() {
    let owner = Identity::new([1u8; 32]);
    let mut store = AccountStore::new();
    let account = store.create(owner, 6).unwrap();
    assert_eq!(account.username, owner);
    assert!(account.received_files.is_empty());
    assert_eq!(account.capacity, 6);
    assert!(store.contains(&owner));
    assert!(!store.contains(&Identity::new([2u8; 32])));
}

#[test]
fn create_fails_for_an_identity_that_has_an_account() {
    let owner = Identity::new([1u8; 32]);
    let mut store = AccountStore::new();
    assert!(store.create(owner, 6).is_ok());
    assert_eq!(store.create(owner, 6).err(), Some(RegistryError::AlreadyExists));
    assert_eq!(store.create(owner, 9).err(), Some(RegistryError::AlreadyExists));
    assert_eq!(store.get(&owner).unwrap().capacity, 6);
}

#[test]
fn create_keeps_the_accounts_of_different_identities_apart() {
    let first = Identity::new([1u8; 32]);
    let second = Identity::new([2u8; 32]);
    let mut store = AccountStore::new();
    assert!(store.create(first, 1).is_ok());
    assert!(store.create(second, 2).is_ok());
    assert_eq!(store.get(&first).unwrap().username, first);
    assert_eq!(store.get(&first).unwrap().capacity, 1);
    assert_eq!(store.get(&second).unwrap().username, second);
    assert_eq!(store.get(&second).unwrap().capacity, 2);
}

#[test]
fn get_mut_fails_for_an_identity_without_an_account() {
    let mut store = AccountStore::new();
    assert_eq!(
        store.get_mut(&Identity::new([1u8; 32])).err(),
        Some(RegistryError::NotFound)
    );
    assert!(store.create(Identity::new([2u8; 32]), 3).is_ok());
    assert_eq!(
        store.get_mut(&Identity::new([1u8; 32])).err(),
        Some(RegistryError::NotFound)
    );
}

#[test]
fn get_mut_hands_out_the_stored_account() {
    let first = Identity::new([1u8; 32]);
    let second = Identity::new([2u8; 32]);
    let mut store = AccountStore::new();
    assert!(store.create(first, 3).is_ok());
    assert!(store.create(second, 3).is_ok());
    let account = store.get_mut(&second).unwrap();
    assert_eq!(account.username, second);
    assert_eq!(account.receive("a".to_string(), "00".to_string(), first), Ok(()));
    assert_eq!(store.get(&second).unwrap().received_files.len(), 1);
    assert_eq!(store.get(&second).unwrap().received_files[0].hash, "a");
    assert!(store.get(&first).unwrap().received_files.is_empty());
}
