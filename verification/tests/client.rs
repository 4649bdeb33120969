use mls_playground::client::{
    application_bytes, key_package_output, message_output, Client, CommitReceiveOutcome,
    CommitReceiveProfileOptions,
};
use mls_playground::mls::Content;
use openmls::group::{MlsGroup, MlsGroupCreateConfig};
use openmls::prelude::tls_codec::Serialize;
use openmls::prelude::{BasicCredential, Ciphersuite, CredentialWithKey, KeyPackage};
use openmls_basic_credential::SignatureKeyPair;
use openmls_rust_crypto::OpenMlsRustCrypto;

fn options() -> CommitReceiveProfileOptions {
    CommitReceiveProfileOptions::default()
}

fn names(list: &[&str]) -> Vec<String> {
    list.iter().map(|name| name.to_string()).collect()
}

/// Alice opens a group and takes Bob in.
fn two() -> (Client, Client) {
    let mut alice = Client::new("alice").unwrap();
    let mut bob = Client::new("bob").unwrap();
    alice.create_group().unwrap();
    let package = bob.generate_key_package().unwrap();
    let commit = alice.add_members(&[package], &names(&["bob"])).unwrap();
    match alice.receive_commit(&commit.commit_bytes, options()).unwrap() {
        CommitReceiveOutcome::OwnCommitAccepted { self_removed, welcome_recipients, welcome_bytes } => {
            assert!(!self_removed);
            assert_eq!(welcome_recipients, names(&["bob"]));
            bob.join_from_welcome(&welcome_bytes.unwrap()).unwrap();
        }
        CommitReceiveOutcome::ExternalCommitApplied { .. } => panic!("not the own commit"),
    }
    (alice, bob)
}

#[test]
fn new_group_holds_its_founder() {
    let mut alice = Client::new("alice").unwrap();
    assert_eq!(alice.group_id_hex(), Err("Client is not in a group".to_string()));
    assert_eq!(alice.current_epoch_u64(), Err("Client is not in a group".to_string()));
    assert_eq!(alice.member_names(), Err("Client is not in a group".to_string()));
    alice.create_group().unwrap();
    assert_eq!(alice.current_epoch_u64(), Ok(0));
    assert_eq!(alice.member_names(), Ok(names(&["alice"])));
    assert_eq!(alice.group_id_hex().unwrap().len() % 2, 0);
    assert_eq!(alice.find_member_index_by_name("alice"), Ok(0));
    assert_eq!(
        alice.find_member_index_by_name("bob"),
        Err("Member 'bob' not found in group".to_string())
    );
}

#[test]
fn invited_client_joins_the_same_group() {
    let (alice, bob) = two();
    assert_eq!(alice.current_epoch_u64(), Ok(1));
    assert_eq!(bob.current_epoch_u64(), Ok(1));
    assert_eq!(alice.group_id_hex(), bob.group_id_hex());
    assert_eq!(alice.member_names(), Ok(names(&["alice", "bob"])));
    assert_eq!(bob.member_names(), Ok(names(&["alice", "bob"])));
    assert_eq!(
        alice.find_member_indices_by_name(&names(&["bob", "alice"])),
        Ok(vec![1, 0])
    );
}

#[test]
fn rolled_back_commit_leaves_no_trace() {
    let (mut alice, bob) = two();
    let package = {
        let mut carol = Client::new("carol").unwrap();
        carol.generate_key_package().unwrap()
    };
    alice.add_members(&[package], &names(&["carol"])).unwrap();
    alice.rollback_pending_commit().unwrap();
    assert_eq!(alice.current_epoch_u64(), Ok(1));
    assert_eq!(alice.member_names(), bob.member_names());
    let commit = alice.self_update().unwrap();
    assert!(matches!(
        alice.receive_commit(&commit.commit_bytes, options()),
        Ok(CommitReceiveOutcome::OwnCommitAccepted { self_removed: false, welcome_bytes: None, .. })
    ));
}

#[test]
fn commit_of_another_moves_on_by_one_epoch() {
    let (mut alice, mut bob) = two();
    let commit = bob.self_update().unwrap();
    assert!(matches!(
        alice.receive_commit(&commit.commit_bytes, options()),
        Ok(CommitReceiveOutcome::ExternalCommitApplied { self_removed: false })
    ));
    assert_eq!(alice.current_epoch_u64(), Ok(2));
    assert_eq!(bob.current_epoch_u64(), Ok(1));
    bob.receive_commit(&commit.commit_bytes, options()).unwrap();
    assert_eq!(bob.current_epoch_u64(), Ok(2));
}

#[test]
fn removed_client_starts_over() {
    let (mut alice, mut bob) = two();
    let commit = alice.remove_members(&names(&["bob"])).unwrap();
    assert!(matches!(
        bob.receive_commit(&commit.commit_bytes, options()),
        Ok(CommitReceiveOutcome::ExternalCommitApplied { self_removed: true })
    ));
    assert_eq!(bob.name, "bob");
    assert_eq!(bob.current_epoch_u64(), Err("Client is not in a group".to_string()));
    alice.receive_commit(&commit.commit_bytes, options()).unwrap();
    assert_eq!(alice.member_names(), Ok(names(&["alice"])));
    assert_eq!(alice.current_epoch_u64(), Ok(2));
}

#[test]
fn messages_arrive_as_they_were_sent() {
    let (mut alice, mut bob) = two();
    let bytes = alice.send_application_message(&b"hello".to_vec()).unwrap();
    assert_ne!(bytes, b"hello".to_vec());
    assert_eq!(bob.receive_application_message(&bytes, true), Ok(b"hello".to_vec()));
    assert_eq!(alice.current_epoch_u64(), Ok(1));
    assert_eq!(bob.current_epoch_u64(), Ok(1));
    let commit = alice.self_update().unwrap();
    assert_eq!(
        bob.receive_application_message(&commit.commit_bytes, false),
        Err("Expected an application message".to_string())
    );
    let text = bob.send_application_message(&b"x".to_vec()).unwrap();
    assert!(matches!(
        alice.receive_commit(&text, options()),
        Err(error) if error == "Expected a staged commit message"
    ));
    assert_eq!(
        application_bytes(Content::Other),
        Err("Expected an application message".to_string())
    );
    assert_eq!(application_bytes(Content::Application(vec![1])), Ok(vec![1]));
}

#[test]
fn refused_requests_say_why() {
    let (mut alice, mut bob) = two();
    let error = |result: Result<mls_playground::client::EpochChangeOutput, String>| {
        result.err().unwrap()
    };
    assert_eq!(
        error(alice.add_members(&[vec![1]], &[])),
        "Number of key packages does not match number of member names"
    );
    assert_eq!(
        error(alice.add_members(&[vec![1]], &names(&["x"]))),
        "Could not deserialize KeyPackage"
    );
    assert_eq!(
        error(alice.remove_members(&names(&["bob", "nobody"]))),
        "Member 'nobody' not found in group"
    );
    let mut lone = Client::new("lone").unwrap();
    assert_eq!(error(lone.self_update()), "Client is not in a group");
    assert_eq!(error(lone.add_members(&[], &[])), "Client is not in a group");
    assert_eq!(error(lone.remove_members(&[])), "Client is not in a group");
    assert_eq!(
        lone.rollback_pending_commit(),
        Err("Client is not in a group".to_string())
    );
    assert_eq!(
        lone.send_application_message(&vec![]),
        Err("Client is not in a group".to_string())
    );
    assert_eq!(
        lone.receive_application_message(&vec![], false),
        Err("Client is not in a group".to_string())
    );
    assert_eq!(
        lone.join_from_welcome(&vec![0, 1, 2]),
        Err("Could not deserialize incoming welcome".to_string())
    );
    let text = bob.send_application_message(&b"x".to_vec()).unwrap();
    assert_eq!(
        lone.join_from_welcome(&text),
        Err("Expected a welcome message".to_string())
    );
    assert_eq!(
        alice.receive_application_message(&vec![9], false),
        Err("Could not deserialize incoming message".to_string())
    );
    assert_eq!(
        alice.receive_commit(&vec![9], options()).err().unwrap(),
        "Could not deserialize incoming commit"
    );
    let mut package = Client::new("eve").unwrap().generate_key_package().unwrap();
    let last = package.len() - 1;
    package[last] ^= 1;
    assert_eq!(
        error(alice.add_members(&[package], &names(&["eve"]))),
        "Invalid KeyPackage"
    );
}

#[test]
fn invitations_are_not_commits() {
    let mut alice = Client::new("alice").unwrap();
    let mut bob = Client::new("bob").unwrap();
    alice.create_group().unwrap();
    let package = bob.generate_key_package().unwrap();
    let commit = alice.add_members(&[package], &names(&["bob"])).unwrap();
    let outcome = alice.receive_commit(&commit.commit_bytes, options()).unwrap();
    let CommitReceiveOutcome::OwnCommitAccepted { welcome_bytes: Some(welcome), .. } = outcome
    else {
        panic!("no invitation");
    };
    assert_eq!(
        alice.receive_commit(&welcome, options()).err().unwrap(),
        "Expected a protocol message"
    );
}

fn carol() -> (OpenMlsRustCrypto, SignatureKeyPair, CredentialWithKey) {
    let suite = Ciphersuite::MLS_128_DHKEMX25519_AES128GCM_SHA256_Ed25519;
    let keys = SignatureKeyPair::new(suite.signature_algorithm()).unwrap();
    let credential = CredentialWithKey {
        credential: BasicCredential::new(b"carol".to_vec()).into(),
        signature_key: keys.to_public_vec().into(),
    };
    (OpenMlsRustCrypto::default(), keys, credential)
}

#[test]
fn key_packages_are_handed_on() {
    let (crypto, keys, credential) = carol();
    let suite = Ciphersuite::MLS_128_DHKEMX25519_AES128GCM_SHA256_Ed25519;
    let bundle = KeyPackage::builder().build(suite, &crypto, &keys, credential).unwrap();
    let package = bundle.key_package().clone();
    let wire = package.tls_serialize_detached().unwrap();
    assert_eq!(key_package_output(Ok(package)), Ok(wire));
    assert_eq!(key_package_output(Err("no keys".to_string())), Err("no keys".to_string()));
}

#[test]
fn groups_and_messages_are_handed_on() {
    let (crypto, keys, credential) = carol();
    let config = MlsGroupCreateConfig::builder().use_ratchet_tree_extension(true).build();
    let mut group = MlsGroup::new(&crypto, &keys, &config, credential).unwrap();
    let message = group.create_message(&crypto, &keys, b"hello").unwrap();
    let wire = message.tls_serialize_detached().unwrap();
    assert_eq!(message_output(Ok(message)), Ok(wire));
    assert_eq!(message_output(Err("no message".to_string())), Err("no message".to_string()));

    let mut client = Client::new("carol").unwrap();
    assert_eq!(client.enter_group(Err("no group".to_string())), Err("no group".to_string()));
    assert_eq!(client.current_epoch_u64(), Err("Client is not in a group".to_string()));
    assert_eq!(client.enter_group(Ok(group)), Ok(()));
    assert_eq!(client.current_epoch_u64(), Ok(0));
    assert_eq!(client.member_names(), Ok(names(&["carol"])));
}

#[test]
fn commits_change_exactly_the_members_they_name() {
    let (mut alice, mut bob) = two();
    let mut carol = Client::new("carol").unwrap();
    let mut dave = Client::new("dave").unwrap();
    let packages =
        [carol.generate_key_package().unwrap(), dave.generate_key_package().unwrap()];
    let commit = alice.add_members(&packages, &names(&["carol", "dave"])).unwrap();
    assert_eq!(alice.member_names(), Ok(names(&["alice", "bob"])));
    bob.receive_commit(&commit.commit_bytes, options()).unwrap();
    assert_eq!(bob.member_names(), Ok(names(&["alice", "bob", "carol", "dave"])));
    alice.receive_commit(&commit.commit_bytes, options()).unwrap();
    assert_eq!(alice.member_names(), bob.member_names());

    let commit = bob.remove_members(&names(&["alice", "dave"])).unwrap();
    bob.receive_commit(&commit.commit_bytes, options()).unwrap();
    assert_eq!(bob.member_names(), Ok(names(&["bob", "carol"])));
    assert_eq!(bob.current_epoch_u64(), Ok(3));

    let commit = bob.self_update().unwrap();
    bob.receive_commit(&commit.commit_bytes, options()).unwrap();
    assert_eq!(bob.member_names(), Ok(names(&["bob", "carol"])));
    assert_eq!(bob.current_epoch_u64(), Ok(4));
}

#[test]
fn member_that_is_taken_out_takes_the_removal_in() {
    let mut alice = Client::new("alice").unwrap();
    let mut bob = Client::new("bob").unwrap();
    let mut charlie = Client::new("charlie").unwrap();
    alice.create_group().unwrap();
    let packages = [bob.generate_key_package().unwrap(), charlie.generate_key_package().unwrap()];
    let commit = alice.add_members(&packages, &names(&["bob", "charlie"])).unwrap();
    let added = CommitReceiveProfileOptions {
        enabled: true,
        commit_create_op: Some("add".to_string()),
        ..Default::default()
    };
    let outcome = alice.receive_commit(&commit.commit_bytes, added).unwrap();
    let CommitReceiveOutcome::OwnCommitAccepted { welcome_bytes: Some(welcome), .. } = outcome
    else {
        panic!("no invitation");
    };
    bob.join_from_welcome(&welcome).unwrap();
    let commit = alice.remove_members(&names(&["bob"])).unwrap();
    let removed = CommitReceiveProfileOptions {
        enabled: true,
        commit_create_op: Some("remove".to_string()),
        ..Default::default()
    };
    assert!(matches!(
        bob.receive_commit(&commit.commit_bytes, removed),
        Ok(CommitReceiveOutcome::ExternalCommitApplied { self_removed: true })
    ));
    assert!(bob.member_names().is_err());
}

#[test]
fn merges_are_followed_up() {
    let (mut alice, mut bob) = two();
    let package = Client::new("carol").unwrap().generate_key_package().unwrap();
    alice.add_members(&[package], &names(&["carol"])).unwrap();
    assert_eq!(
        alice.finish_own_commit(false).err().unwrap(),
        "Could not merge local pending commit"
    );
    assert!(matches!(
        alice.finish_own_commit(true),
        Ok(CommitReceiveOutcome::OwnCommitAccepted {
            self_removed: false,
            welcome_recipients,
            welcome_bytes: Some(_),
        }) if welcome_recipients == names(&["carol"])
    ));
    assert!(matches!(
        alice.finish_own_commit(true),
        Ok(CommitReceiveOutcome::OwnCommitAccepted { welcome_recipients, welcome_bytes: None, .. })
            if welcome_recipients.is_empty()
    ));
    assert_eq!(
        bob.finish_other_commit(false).err().unwrap(),
        "Could not merge staged commit"
    );
    assert!(matches!(
        bob.finish_other_commit(true),
        Ok(CommitReceiveOutcome::ExternalCommitApplied { self_removed: false })
    ));
    assert_eq!(bob.current_epoch_u64(), Ok(1));
    let mut lone = Client::new("lone").unwrap();
    assert_eq!(lone.finish_own_commit(true).err().unwrap(), "Client is not in a group");
    assert_eq!(lone.finish_other_commit(true).err().unwrap(), "Client is not in a group");
    assert_eq!(alice.rollback_pending_commit(), Ok(()));
    assert_eq!(alice.rollback_pending_commit(), Ok(()));
}
