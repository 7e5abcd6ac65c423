//! Sealing and opening of envelopes.

use lan_chat::crypto::{
    cipher_from_key, decrypt_bytes, encrypt_bytes, open_raw, seal_raw, seal_with_nonce, RoomCipher,
};
use lan_chat::types::EncryptedEnvelope;

fn numbered_key() -> [u8; 32] {
    let mut key = [0u8; 32];
    for i in 0..32 {
        key[i] = i as u8;
    }
    key
}

fn nonce() -> [u8; 12] {
    [0, 1, 2, 3, 4, 5, 6, 7, 8, 9, 10, 11]
}

fn cipher() -> RoomCipher {
    cipher_from_key(&numbered_key()).ok().unwrap()
}

fn envelope(n: &str, c: &str) -> EncryptedEnvelope {
    EncryptedEnvelope { n: n.to_string(), c: c.to_string() }
}

#[test]
fn keys_have_32_bytes() {
    assert!(cipher_from_key(&[0; 32]).is_ok());
    for n in [0usize, 16, 31, 33, 64] {
        assert_eq!(cipher_from_key(&vec![0; n]).err(), Some("Invalid Length".to_string()));
    }
}

#[test]
fn a_message_is_sealed_exactly() {
    assert_eq!(
        seal_with_nonce(&cipher(), &nonce(), b"hello room"),
        Some(envelope("AAECAwQFBgcICQoL", "4Z5kbEY31y/Y7rzzm26HodoORxovab4BrlY="))
    );
    assert_eq!(
        seal_with_nonce(&cipher(), &nonce(), b""),
        Some(envelope("AAECAwQFBgcICQoL", "KVpJi4hBocX1XU1gb3MRWQ=="))
    );
}

#[test]
fn a_sealed_message_opens() {
    let sealed = envelope("AAECAwQFBgcICQoL", "4Z5kbEY31y/Y7rzzm26HodoORxovab4BrlY=");
    assert_eq!(decrypt_bytes(&cipher(), &sealed), Some(b"hello room".to_vec()));
}

#[test]
fn what_is_encrypted_decrypts() {
    for data in [&b""[..], &b"x"[..], &[0u8; 1000][..], "été".as_bytes()] {
        let sealed = encrypt_bytes(&cipher(), data).unwrap();
        assert_eq!(decrypt_bytes(&cipher(), &sealed), Some(data.to_vec()));
    }
}

#[test]
fn each_envelope_has_a_nonce_of_its_own() {
    let a = encrypt_bytes(&cipher(), b"same").unwrap();
    let b = encrypt_bytes(&cipher(), b"same").unwrap();
    assert_ne!(a.n, b.n);
    assert_ne!(a.c, b.c);
}

#[test]
fn another_key_opens_nothing() {
    let other = cipher_from_key(&[9; 32]).ok().unwrap();
    let sealed = encrypt_bytes(&cipher(), b"secret").unwrap();
    assert_eq!(decrypt_bytes(&other, &sealed), None);
}

#[test]
fn tampering_is_noticed() {
    let mut ciphertext = seal_raw(&cipher(), &nonce(), b"hello room").unwrap();
    assert_eq!(ciphertext.len(), 26);
    assert_eq!(open_raw(&cipher(), &nonce(), &ciphertext), Some(b"hello room".to_vec()));
    ciphertext[3] ^= 1;
    assert_eq!(open_raw(&cipher(), &nonce(), &ciphertext), None);
    let other_nonce = envelope("AAECAwQFBgcICQoM", "4Z5kbEY31y/Y7rzzm26HodoORxovab4BrlY=");
    assert_eq!(decrypt_bytes(&cipher(), &other_nonce), None);
}

#[test]
fn malformed_envelopes_open_to_nothing() {
    let good = "4Z5kbEY31y/Y7rzzm26HodoORxovab4BrlY=";
    assert_eq!(decrypt_bytes(&cipher(), &envelope("no base64!", good)), None);
    assert_eq!(decrypt_bytes(&cipher(), &envelope("AAEC", good)), None);
    assert_eq!(decrypt_bytes(&cipher(), &envelope("AAECAwQFBgcICQoLDA==", good)), None);
    assert_eq!(decrypt_bytes(&cipher(), &envelope("AAECAwQFBgcICQoL", "****")), None);
    assert_eq!(decrypt_bytes(&cipher(), &envelope("AAECAwQFBgcICQoL", "")), None);
    assert_eq!(
        decrypt_bytes(&cipher(), &envelope("AAECAwQFBgcICQoL", good.trim_end_matches('='))),
        None
    );
}

#[test]
fn short_ciphertexts_open_to_nothing() {
    assert_eq!(open_raw(&cipher(), &nonce(), &[1, 2, 3]), None);
    assert_eq!(open_raw(&cipher(), &nonce(), &[]), None);
}

#[test]
fn base64_texts_are_canonical() {
    let digits = [0x00, 0x10, 0x83, 0xfb, 0xef, 0xbe, 0xff, 0xff, 0xff, 0x69, 0xb7, 0x1d];
    let sealed = seal_with_nonce(&cipher(), &digits, b"").unwrap();
    assert_eq!(sealed.n, "ABCD++++////abcd");
    assert_eq!(decrypt_bytes(&cipher(), &sealed), Some(vec![]));
    let loose = envelope("AAECAwQFBgcICQoL", "KVpJi4hBocX1XU1gb3MRWR==");
    assert_eq!(decrypt_bytes(&cipher(), &loose), None);
}

#[test]
fn an_altered_tag_is_noticed() {
    let sealed = seal_raw(&cipher(), &nonce(), b"hello room").unwrap();
    for i in 10..26 {
        for bit in 0..8 {
            let mut other = sealed.clone();
            other[i] ^= 1 << bit;
            assert_eq!(open_raw(&cipher(), &nonce(), &other), None);
        }
    }
}

#[test]
fn an_altered_ciphertext_never_gives_the_message() {
    let sealed = seal_with_nonce(&cipher(), &nonce(), b"hello room").unwrap();
    for at in 0..sealed.c.len() {
        let mut text = sealed.c.clone().into_bytes();
        text[at] = if text[at] == b'A' { b'B' } else { b'A' };
        let altered = envelope(&sealed.n, &String::from_utf8(text).unwrap());
        assert_ne!(decrypt_bytes(&cipher(), &altered), Some(b"hello room".to_vec()));
    }
}
