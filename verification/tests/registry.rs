use zkl_sol_demo::{
    compute_mac, create_user_account, initialize, send_file_hash, sign_file_hash,
    verify_file_hash, AccountStore, AuthenticatedIdentity, CreateUserAccount, Identity,
    Initialize, RegistryError, SendFileHash, SignFileHash, VerifyFileHash,
};

fn identity(n: u8) -> Identity {
    Identity::new([n; 32])
}

fn caller(n: u8) -> AuthenticatedIdentity {
    AuthenticatedIdentity::new(identity(n))
}

fn store_with_account(owner: u8, capacity: usize) -> AccountStore {
    let mut store = AccountStore::new();
    let created = create_user_account(
        &mut store,
        CreateUserAccount { user: caller(owner), capacity },
    );
    assert_eq!(created, Ok(()));
    store
}

#[test]
fn authenticated_identity_gives_its_identity() {
    assert_eq!(caller(5).key(), identity(5));
}

#[test]
fn initialize_succeeds() {
    assert_eq!(initialize(Initialize {}), Ok(()));
}

#[test]
fn create_user_account_makes_an_empty_account() {
    let store = store_with_account(1, 4);
    let account = store.get(&identity(1)).unwrap();
    assert_eq!(account.username, identity(1));
    assert!(account.received_files.is_empty());
    assert_eq!(account.capacity, 4);
}

#[test]
fn create_user_account_twice_fails_the_second_time() {
    let mut store = store_with_account(1, 4);
    let sent = send_file_hash(
        &mut store,
        SendFileHash { sender: caller(2), recipient: identity(1) },
        "a".to_string(),
        "00".to_string(),
    );
    assert_eq!(sent, Ok(()));
    let again = create_user_account(&mut store, CreateUserAccount { user: caller(1), capacity: 9 });
    assert_eq!(again, Err(RegistryError::AlreadyExists));
    let account = store.get(&identity(1)).unwrap();
    assert_eq!(account.capacity, 4);
    assert_eq!(account.received_files.len(), 1);
}

#[test]
fn send_file_hash_appends_in_submission_order() {
    let mut store = store_with_account(1, 16);
    for n in 0..10u8 {
        let sent = send_file_hash(
            &mut store,
            SendFileHash { sender: caller(n), recipient: identity(1) },
            format!("hash{}", n),
            format!("tag{}", n),
        );
        assert_eq!(sent, Ok(()));
    }
    let account = store.get(&identity(1)).unwrap();
    assert_eq!(account.received_files.len(), 10);
    for n in 0..10u8 {
        let file = &account.received_files[n as usize];
        assert_eq!(file.hash, format!("hash{}", n));
        assert_eq!(file.signed_hash, format!("tag{}", n));
        assert_eq!(file.sender, identity(n));
        assert!(!file.is_verified);
    }
}

#[test]
fn send_file_hash_fails_without_an_account() {
    let mut store = store_with_account(1, 4);
    let sent = send_file_hash(
        &mut store,
        SendFileHash { sender: caller(1), recipient: identity(2) },
        "a".to_string(),
        "00".to_string(),
    );
    assert_eq!(sent, Err(RegistryError::NotFound));
    assert!(!store.contains(&identity(2)));
    assert!(store.get(&identity(1)).unwrap().received_files.is_empty());
}

#[test]
fn send_file_hash_beyond_capacity_fails_and_keeps_the_entries() {
    let mut store = store_with_account(1, 3);
    for n in 0..3u8 {
        let sent = send_file_hash(
            &mut store,
            SendFileHash { sender: caller(2), recipient: identity(1) },
            format!("hash{}", n),
            "00".to_string(),
        );
        assert_eq!(sent, Ok(()));
    }
    let before = store.get(&identity(1)).unwrap().clone();
    let sent = send_file_hash(
        &mut store,
        SendFileHash { sender: caller(2), recipient: identity(1) },
        "one more".to_string(),
        "00".to_string(),
    );
    assert_eq!(sent, Err(RegistryError::CapacityExceeded));
    let after = store.get(&identity(1)).unwrap();
    assert_eq!(after.received_files.len(), 3);
    assert_eq!(*after, before);
}

#[test]
fn send_file_hash_touches_the_account_of_the_recipient_only() {
    let mut store = store_with_account(1, 3);
    let created = create_user_account(&mut store, CreateUserAccount { user: caller(2), capacity: 3 });
    assert_eq!(created, Ok(()));
    let sent = send_file_hash(
        &mut store,
        SendFileHash { sender: caller(1), recipient: identity(2) },
        "a".to_string(),
        "00".to_string(),
    );
    assert_eq!(sent, Ok(()));
    assert!(store.get(&identity(1)).unwrap().received_files.is_empty());
    assert_eq!(store.get(&identity(2)).unwrap().received_files.len(), 1);
    assert_eq!(store.get(&identity(2)).unwrap().received_files[0].sender, identity(1));
}

#[test]
fn sign_file_hash_computes_the_tag_under_the_signer() {
    let signed = sign_file_hash(SignFileHash { signer: caller(7) }, "deadbeef".to_string());
    assert_eq!(
        signed,
        Ok("43c944b3761569cb52a2ae7ecb8951c5902a5873832311c1e9b8e83dafab832f".to_string())
    );
    let other = sign_file_hash(SignFileHash { signer: caller(9) }, "deadbeef".to_string());
    assert_eq!(
        other,
        Ok("d65f22c95a88feaab35e493fa25589c91a4d1be575e71081ef9c4e64e58754ad".to_string())
    );
    assert_eq!(signed, Ok(compute_mac("deadbeef", &[7u8; 32])));
}

#[test]
fn an_identity_verifies_what_it_signed_and_sent_to_itself() {
    let mut store = store_with_account(7, 4);
    let tag = sign_file_hash(SignFileHash { signer: caller(7) }, "deadbeef".to_string()).unwrap();
    let sent = send_file_hash(
        &mut store,
        SendFileHash { sender: caller(7), recipient: identity(7) },
        "deadbeef".to_string(),
        tag.clone(),
    );
    assert_eq!(sent, Ok(()));
    assert!(!store.get(&identity(7)).unwrap().received_files[0].is_verified);

    let verified = verify_file_hash(
        &mut store,
        VerifyFileHash { recipient: identity(7), signer: caller(7) },
        "deadbeef".to_string(),
    );
    assert_eq!(verified, Ok(()));
    let account = store.get(&identity(7)).unwrap();
    assert_eq!(account.received_files.len(), 1);
    assert!(account.received_files[0].is_verified);
    assert_eq!(account.received_files[0].hash, "deadbeef");
    assert_eq!(account.received_files[0].signed_hash, tag);
    assert_eq!(account.received_files[0].sender, identity(7));

    let again = verify_file_hash(
        &mut store,
        VerifyFileHash { recipient: identity(7), signer: caller(7) },
        "deadbeef".to_string(),
    );
    assert_eq!(again, Ok(()));
    assert!(store.get(&identity(7)).unwrap().received_files[0].is_verified);
}

#[test]
fn verify_file_hash_marks_exactly_one_entry() {
    let mut store = store_with_account(1, 4);
    let tag = sign_file_hash(SignFileHash { signer: caller(7) }, "cafe".to_string()).unwrap();
    for hash in ["beef", "cafe", "cafe", "f00d"] {
        let sent = send_file_hash(
            &mut store,
            SendFileHash { sender: caller(7), recipient: identity(1) },
            hash.to_string(),
            tag.clone(),
        );
        assert_eq!(sent, Ok(()));
    }
    let verified = verify_file_hash(
        &mut store,
        VerifyFileHash { recipient: identity(1), signer: caller(7) },
        "cafe".to_string(),
    );
    assert_eq!(verified, Ok(()));
    let flags: Vec<bool> = store
        .get(&identity(1))
        .unwrap()
        .received_files
        .iter()
        .map(|file| file.is_verified)
        .collect();
    assert_eq!(flags, vec![false, true, false, false]);
}

#[test]
fn verify_file_hash_checks_under_the_caller_not_the_sender() {
    let mut store = store_with_account(1, 4);
    let tag = sign_file_hash(SignFileHash { signer: caller(7) }, "cafe".to_string()).unwrap();
    let sent = send_file_hash(
        &mut store,
        SendFileHash { sender: caller(2), recipient: identity(1) },
        "cafe".to_string(),
        tag,
    );
    assert_eq!(sent, Ok(()));
    for wrong in [1u8, 2] {
        let verified = verify_file_hash(
            &mut store,
            VerifyFileHash { recipient: identity(1), signer: caller(wrong) },
            "cafe".to_string(),
        );
        assert_eq!(verified, Err(RegistryError::InvalidSignature));
        assert!(!store.get(&identity(1)).unwrap().received_files[0].is_verified);
    }
    let verified = verify_file_hash(
        &mut store,
        VerifyFileHash { recipient: identity(1), signer: caller(7) },
        "cafe".to_string(),
    );
    assert_eq!(verified, Ok(()));
    assert!(store.get(&identity(1)).unwrap().received_files[0].is_verified);
}

#[test]
fn verify_file_hash_with_a_wrong_key_changes_nothing() {
    let mut store = store_with_account(7, 4);
    let tag = sign_file_hash(SignFileHash { signer: caller(7) }, "deadbeef".to_string()).unwrap();
    let sent = send_file_hash(
        &mut store,
        SendFileHash { sender: caller(7), recipient: identity(7) },
        "deadbeef".to_string(),
        tag,
    );
    assert_eq!(sent, Ok(()));
    let before = store.get(&identity(7)).unwrap().clone();
    let verified = verify_file_hash(
        &mut store,
        VerifyFileHash { recipient: identity(7), signer: caller(9) },
        "deadbeef".to_string(),
    );
    assert_eq!(verified, Err(RegistryError::InvalidSignature));
    assert_eq!(*store.get(&identity(7)).unwrap(), before);
}

#[test]
fn verify_file_hash_of_an_absent_hash_changes_nothing() {
    let mut store = store_with_account(7, 4);
    let tag = sign_file_hash(SignFileHash { signer: caller(7) }, "deadbeef".to_string()).unwrap();
    let sent = send_file_hash(
        &mut store,
        SendFileHash { sender: caller(7), recipient: identity(7) },
        "deadbeef".to_string(),
        tag,
    );
    assert_eq!(sent, Ok(()));
    let before = store.get(&identity(7)).unwrap().clone();
    let verified = verify_file_hash(
        &mut store,
        VerifyFileHash { recipient: identity(7), signer: caller(7) },
        "feedface".to_string(),
    );
    assert_eq!(verified, Err(RegistryError::NotFound));
    assert_eq!(*store.get(&identity(7)).unwrap(), before);
}

#[test]
fn verify_file_hash_fails_without_an_account() {
    let mut store = store_with_account(7, 4);
    let verified = verify_file_hash(
        &mut store,
        VerifyFileHash { recipient: identity(8), signer: caller(7) },
        "deadbeef".to_string(),
    );
    assert_eq!(verified, Err(RegistryError::NotFound));
    assert!(!store.contains(&identity(8)));
}

#[test]
fn verify_file_hash_names_a_malformed_tag() {
    let mut store = store_with_account(7, 4);
    let sent = send_file_hash(
        &mut store,
        SendFileHash { sender: caller(7), recipient: identity(7) },
        "deadbeef".to_string(),
        "xyz".to_string(),
    );
    assert_eq!(sent, Ok(()));
    let verified = verify_file_hash(
        &mut store,
        VerifyFileHash { recipient: identity(7), signer: caller(7) },
        "deadbeef".to_string(),
    );
    assert_eq!(verified, Err(RegistryError::MalformedTag));
    assert!(!store.get(&identity(7)).unwrap().received_files[0].is_verified);
}

#[test]
fn a_failed_request_leaves_a_verified_entry_verified() {
    let mut store = store_with_account(7, 4);
    let tag = sign_file_hash(SignFileHash { signer: caller(7) }, "deadbeef".to_string()).unwrap();
    let sent = send_file_hash(
        &mut store,
        SendFileHash { sender: caller(7), recipient: identity(7) },
        "deadbeef".to_string(),
        tag,
    );
    assert_eq!(sent, Ok(()));
    let verified = verify_file_hash(
        &mut store,
        VerifyFileHash { recipient: identity(7), signer: caller(7) },
        "deadbeef".to_string(),
    );
    assert_eq!(verified, Ok(()));
    let failed = verify_file_hash(
        &mut store,
        VerifyFileHash { recipient: identity(7), signer: caller(9) },
        "deadbeef".to_string(),
    );
    assert_eq!(failed, Err(RegistryError::InvalidSignature));
    assert!(store.get(&identity(7)).unwrap().received_files[0].is_verified);
}
