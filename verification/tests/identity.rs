//! The identity of a node.

use lan_chat::identity::{
    identity_written, load_or_create_identity, stored_identity, Identity, IdentityStep,
};

/// The key pair whose secret is all zeros, in its protobuf encoding.
fn encoded() -> Vec<u8> {
    let public = [
        0x3b, 0x6a, 0x27, 0xbc, 0xce, 0xb6, 0xa4, 0x2d, 0x62, 0xa3, 0xa8, 0xd0, 0x2a, 0x6f, 0x0d,
        0x73, 0x65, 0x32, 0x15, 0x77, 0x1d, 0xe2, 0x43, 0xa6, 0x3a, 0xc0, 0x48, 0xa1, 0x8b, 0x59,
        0xda, 0x29,
    ];
    let mut bytes = vec![0x08, 0x01, 0x12, 0x40];
    bytes.extend_from_slice(&[0; 32]);
    bytes.extend_from_slice(&public);
    bytes
}

fn identity() -> Identity {
    Identity {
        encoded: encoded(),
        peer: "12D3KooWDpJ7As7BWAwRMfu1VU2WCqNjvq387JEYKDBj4kx6nXTN".to_string(),
    }
}

#[test]
fn a_stored_identity_is_loaded() {
    for _ in 0..2 {
        assert_eq!(
            load_or_create_identity(Some(Ok(encoded()))),
            Ok(IdentityStep::Loaded(identity()))
        );
    }
}

#[test]
fn a_damaged_identity_is_an_error() {
    let parse = Err("Key decoding error: failed to parse Ed25519 keypair".to_string());
    let mut damaged = encoded();
    damaged[40] ^= 1;
    assert_eq!(load_or_create_identity(Some(Ok(damaged))), parse);
    assert_eq!(load_or_create_identity(Some(Ok(vec![0x08, 0x01]))), parse);
    assert_eq!(
        load_or_create_identity(Some(Ok(vec![0xff]))),
        Err("Key decoding error: failed to decode private key bytes from protobuf".to_string())
    );
    assert_eq!(
        load_or_create_identity(Some(Ok(vec![0x08, 0x09]))),
        Err("Key decoding error: unknown key type 9".to_string())
    );
}

#[test]
fn an_identity_that_cannot_be_read_is_an_error() {
    assert_eq!(
        load_or_create_identity(Some(Err("denied".to_string()))),
        Err("denied".to_string())
    );
}

#[test]
fn a_created_identity_comes_back() {
    let created = match load_or_create_identity(None) {
        Ok(IdentityStep::Created(identity)) => identity,
        other => panic!("{:?}", other),
    };
    assert!(created.peer.starts_with("12D3KooW"));
    assert_eq!(
        load_or_create_identity(Some(Ok(created.encoded.clone()))),
        Ok(IdentityStep::Loaded(created))
    );
}

#[test]
fn created_identities_differ() {
    assert_ne!(load_or_create_identity(None), load_or_create_identity(None));
}

#[test]
fn an_identity_is_used_once_it_was_written() {
    assert_eq!(identity_written(identity(), Ok(())), Ok(identity()));
    assert_eq!(
        identity_written(identity(), Err("disk full".to_string())),
        Err("disk full".to_string())
    );
    assert_eq!(identity().clone(), identity());
}

#[test]
fn stored_bytes_come_to_what_was_read() {
    assert_eq!(
        stored_identity(vec![1], Ok("p".to_string())),
        Ok(IdentityStep::Loaded(Identity { encoded: vec![1], peer: "p".to_string() }))
    );
    assert_eq!(stored_identity(vec![1], Err("bad".to_string())), Err("bad".to_string()));
}
