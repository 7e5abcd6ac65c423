//! Sealing and opening of envelopes under the key of a room.

use crate::primitives;
use crate::primitives::{
    accept_key, aead_open, aead_seal, base64_decode, base64_encode, random_nonce, MAX_SEALED_LEN,
    TAG_LEN,
};
use crate::types::EncryptedEnvelope;
use vstd::prelude::*;

verus! {

/// Length of a nonce in bytes.
pub const NONCE_LEN: usize = 12;

/// The cipher of a room. Its view is the key.
pub struct RoomCipher {
    key: [u8; 32],
}

impl View for RoomCipher {
    type V = Seq<u8>;

    closed spec fn view(&self) -> Seq<u8> {
        self.key@
    }
}

impl EncryptedEnvelope {
    /// The two texts of an envelope.
    pub open spec fn texts(self) -> (Seq<char>, Seq<char>) {
        (self.n@, self.c@)
    }
}

/// The texts of the envelope that seals `data` under `key` with `nonce`.
pub open spec fn envelope_texts(key: Seq<u8>, nonce: Seq<u8>, data: Seq<u8>) -> (
    Seq<char>,
    Seq<char>,
) {
    (primitives::base64_text(nonce), primitives::base64_text(primitives::aead_sealed(key, nonce, data)))
}

/// What a ciphertext holds for someone who has `key`; nothing where it is beyond the cipher's
/// limit or its tag does not fit.
pub open spec fn opened_raw(key: Seq<u8>, nonce: Seq<u8>, ciphertext: Seq<u8>) -> Option<Seq<u8>> {
    if ciphertext.len() <= MAX_SEALED_LEN + TAG_LEN {
        primitives::aead_opened(key, nonce, ciphertext)
    } else {
        None
    }
}

/// Whether `other` is `ciphertext` with another tag: the same but for the last bytes.
pub open spec fn has_other_tag(ciphertext: Seq<u8>, other: Seq<u8>) -> bool {
    &&& other != ciphertext
    &&& other.len() == ciphertext.len()
    &&& other.take(other.len() - TAG_LEN) == ciphertext.take(ciphertext.len() - TAG_LEN)
}

/// What an envelope holds for someone who has `key`; nothing where its texts are no Base64, its
/// nonce is not of twelve bytes, or its ciphertext does not open.
pub open spec fn opened(key: Seq<u8>, texts: (Seq<char>, Seq<char>)) -> Option<Seq<u8>> {
    match (primitives::base64_bytes(texts.0), primitives::base64_bytes(texts.1)) {
        (Some(nonce), Some(ciphertext)) => if nonce.len() == NONCE_LEN {
            opened_raw(key, nonce, ciphertext)
        } else {
            None
        },
        _ => None,
    }
}

/// Whether an envelope has the lengths of one that seals `len` bytes: a nonce of twelve bytes, and
/// a ciphertext that is longer than the data by the tag.
pub open spec fn has_lengths(texts: (Seq<char>, Seq<char>), len: nat) -> bool {
    &&& primitives::base64_bytes(texts.0) matches Some(nonce) && nonce.len() == NONCE_LEN
    &&& primitives::base64_bytes(texts.1) matches Some(ciphertext) && ciphertext.len() == len
        + TAG_LEN
}

/// Whether the envelope opens no more for someone who has `key` once its tag is altered.
pub open spec fn guards_its_tag(key: Seq<u8>, texts: (Seq<char>, Seq<char>)) -> bool {
    primitives::base64_bytes(texts.1) matches Some(ciphertext) && forall|other: Seq<u8>| #[trigger]
        has_other_tag(ciphertext, other) ==> opened(
            key,
            (texts.0, primitives::base64_text(other)),
        ) is None
}

/// Whether the envelope seals `data` under `key` with some nonce.
pub open spec fn seals(key: Seq<u8>, texts: (Seq<char>, Seq<char>), data: Seq<u8>) -> bool {
    exists|nonce: Seq<u8>|
        nonce.len() == NONCE_LEN && texts == #[trigger] envelope_texts(key, nonce, data)
}

/// Whether the envelope is all that the sealing of `data` promises: it seals the data, opens to it
/// again, has the lengths of such an envelope, and opens no more once its tag is altered.
pub open spec fn well_sealed(key: Seq<u8>, texts: (Seq<char>, Seq<char>), data: Seq<u8>) -> bool {
    &&& seals(key, texts, data)
    &&& opened(key, texts) == Some(data)
    &&& has_lengths(texts, data.len())
    &&& guards_its_tag(key, texts)
}

/// The cipher with the key `key`, which has to have 32 bytes.
pub fn cipher_from_key(key: &[u8]) -> (r: Result<RoomCipher, String>)
    ensures
        r is Ok == (key@.len() == 32),
        r matches Ok(cipher) ==> cipher@ == key@,
        r matches Err(e) ==> e@ == "Invalid Length"@,
{
    match accept_key(key) {
        Ok(()) => {
            let mut bytes = [0u8;32];
            let mut i: usize = 0;
            while i < 32
                invariant
                    i <= 32,
                    key@.len() == 32,
                    forall|j: int| 0 <= j < i ==> bytes@[j] == key@[j],
                decreases 32 - i,
            {
                bytes[i] = key[i];
                i = i + 1;
            }
            assert(bytes@ =~= key@);
            Ok(RoomCipher { key: bytes })
        },
        Err(e) => Err(e),
    }
}

/// Encrypts `data` with the given nonce. Data beyond the cipher's limit cannot be encrypted.
pub fn seal_raw(cipher: &RoomCipher, nonce: &[u8; 12], data: &[u8]) -> (r: Option<Vec<u8>>)
    ensures
        r is Some == (data@.len() <= MAX_SEALED_LEN),
        r matches Some(c) ==> c@ == primitives::aead_sealed(cipher@, nonce@, data@) && c@.len()
            == data@.len() + TAG_LEN && opened_raw(cipher@, nonce@, c@) == Some(data@),
        r matches Some(c) ==> forall|other: Seq<u8>| #[trigger]
            has_other_tag(c@, other) ==> opened_raw(cipher@, nonce@, other) is None,
{
    if data.len() as u64 > MAX_SEALED_LEN {
        return None;
    }
    aead_seal(&cipher.key, nonce, data)
}

/// Decrypts a ciphertext. What it gives back was encrypted to that very ciphertext.
pub fn open_raw(cipher: &RoomCipher, nonce: &[u8; 12], ciphertext: &[u8]) -> (r: Option<Vec<u8>>)
    ensures
        match r {
            Some(data) => opened_raw(cipher@, nonce@, ciphertext@) == Some(data@)
                && primitives::aead_sealed(cipher@, nonce@, data@) == ciphertext@
                && ciphertext@.len() == data@.len() + TAG_LEN && data@.len() <= MAX_SEALED_LEN,
            None => opened_raw(cipher@, nonce@, ciphertext@) is None,
        },
{
    if ciphertext.len() as u64 > MAX_SEALED_LEN + TAG_LEN {
        return None;
    }
    aead_open(&cipher.key, nonce, ciphertext)
}

/// Seals `data` with the given nonce. Data beyond the cipher's limit cannot be sealed.
pub fn seal_with_nonce(cipher: &RoomCipher, nonce: &[u8; 12], data: &[u8]) -> (r: Option<
    EncryptedEnvelope,
>)
    ensures
        r is Some == (data@.len() <= MAX_SEALED_LEN),
        r matches Some(e) ==> e.texts() == envelope_texts(cipher@, nonce@, data@) && opened(
            cipher@,
            e.texts(),
        ) == Some(data@) && has_lengths(e.texts(), data@.len()),
        r matches Some(e) ==> guards_its_tag(cipher@, e.texts()),
{
    match seal_raw(cipher, nonce, data) {
        Some(ciphertext) => {
            proof {
                primitives::lemma_base64_round_trip(nonce@);
                primitives::lemma_base64_round_trip(ciphertext@);
                let texts = envelope_texts(cipher@, nonce@, data@);
                assert forall|other: Seq<u8>| #[trigger] has_other_tag(
                    ciphertext@,
                    other,
                ) implies opened(
                    cipher@,
                    (texts.0, primitives::base64_text(other)),
                ) is None by {
                    primitives::lemma_base64_round_trip(other);
                }
            }
            Some(
                EncryptedEnvelope {
                    n: base64_encode(nonce.as_slice()),
                    c: base64_encode(ciphertext.as_slice()),
                },
            )
        },
        None => None,
    }
}

/// Seals `data` with a fresh random nonce. Whatever the nonce, the envelope opens to the data
/// for everyone who has the key, and no more once its tag is altered.
pub fn encrypt_bytes(cipher: &RoomCipher, data: &[u8]) -> (r: Option<EncryptedEnvelope>)
    ensures
        r is Some == (data@.len() <= MAX_SEALED_LEN),
        r matches Some(e) ==> well_sealed(cipher@, e.texts(), data@),
{
    let nonce = random_nonce();
    let r = seal_with_nonce(cipher, &nonce, data);
    assert(r matches Some(e) ==> e.texts() == envelope_texts(cipher@, nonce@, data@));
    r
}

/// Twelve bytes as a nonce.
pub(crate) fn nonce_array(bytes: &[u8]) -> (r: [u8; 12])
    requires
        bytes@.len() == 12,
    ensures
        r@ == bytes@,
{
    let mut r = [0u8;12];
    let mut i: usize = 0;
    while i < 12
        invariant
            i <= 12,
            bytes@.len() == 12,
            forall|j: int| 0 <= j < i ==> r@[j] == bytes@[j],
        decreases 12 - i,
    {
        r[i] = bytes[i];
        i = i + 1;
    }
    assert(r@ =~= bytes@);
    r
}

/// Opens an envelope. What it gives back was sealed, as it stands, under this very key: an
/// envelope of another room or one that was tampered with gives nothing.
pub fn decrypt_bytes(cipher: &RoomCipher, env: &EncryptedEnvelope) -> (r: Option<Vec<u8>>)
    ensures
        match r {
            Some(data) => opened(cipher@, env.texts()) == Some(data@) && seals(
                cipher@,
                env.texts(),
                data@,
            ) && has_lengths(env.texts(), data@.len()) && data@.len() <= MAX_SEALED_LEN,
            None => opened(cipher@, env.texts()) is None,
        },
{
    let nonce_bytes = match base64_decode(env.n.as_str()) {
        Some(b) => b,
        None => {
            return None;
        },
    };
    proof {
        primitives::lemma_base64_round_trip(nonce_bytes@);
    }
    if nonce_bytes.len() != NONCE_LEN {
        return None;
    }
    let ciphertext = match base64_decode(env.c.as_str()) {
        Some(b) => b,
        None => {
            return None;
        },
    };
    proof {
        primitives::lemma_base64_round_trip(ciphertext@);
    }
    let nonce = nonce_array(nonce_bytes.as_slice());
    let r = open_raw(cipher, &nonce, ciphertext.as_slice());
    assert(r matches Some(data) ==> env.texts() == envelope_texts(cipher@, nonce@, data@));
    r
}

/// An envelope was made with the nonce that its text stands for.
proof fn lemma_envelope_parts(
    key: Seq<u8>,
    texts: (Seq<char>, Seq<char>),
    data: Seq<u8>,
    nonce: Seq<u8>,
)
    requires
        seals(key, texts, data),
        texts.0 == primitives::base64_text(nonce),
    ensures
        texts == envelope_texts(key, nonce, data),
        nonce.len() == NONCE_LEN,
{
    let own = choose|n: Seq<u8>|
        n.len() == NONCE_LEN && texts == #[trigger] envelope_texts(key, n, data);
    primitives::lemma_base64_texts_differ(own, nonce);
}

/// An envelope opens under another key only where, with its nonce, both keys make the very same
/// ciphertext, tag included: of what the key sealed, and of what the other reads. `read` is what
/// `decrypt_bytes` gave under the other key.
pub proof fn law_another_key_needs_the_same_ciphertext(
    key: Seq<u8>,
    other: Seq<u8>,
    texts: (Seq<char>, Seq<char>),
    data: Seq<u8>,
    read: Seq<u8>,
)
    requires
        well_sealed(key, texts, data),
        opened(other, texts) == Some(read),
        seals(other, texts, read),
        has_lengths(texts, read.len()),
    ensures
        read.len() == data.len(),
        exists|nonce: Seq<u8>|
            texts.0 == primitives::base64_text(nonce) && #[trigger] primitives::aead_sealed(
                key,
                nonce,
                data,
            ) == primitives::aead_sealed(other, nonce, read),
{
    let nonce = choose|n: Seq<u8>|
        n.len() == NONCE_LEN && texts == #[trigger] envelope_texts(key, n, data);
    lemma_envelope_parts(other, texts, read, nonce);
    primitives::lemma_base64_texts_differ(
        primitives::aead_sealed(key, nonce, data),
        primitives::aead_sealed(other, nonce, read),
    );
}

/// An envelope whose ciphertext was altered in any way never opens to what it sealed. `read` is
/// what `decrypt_bytes` gave for the altered one, if anything.
pub proof fn law_an_altered_envelope_never_passes_for_the_sealed_one(
    key: Seq<u8>,
    texts: (Seq<char>, Seq<char>),
    altered: (Seq<char>, Seq<char>),
    data: Seq<u8>,
    read: Seq<u8>,
)
    requires
        well_sealed(key, texts, data),
        altered.0 == texts.0,
        altered.1 != texts.1,
        opened(key, altered) == Some(read),
        seals(key, altered, read),
    ensures
        read != data,
{
    let nonce = choose|n: Seq<u8>|
        n.len() == NONCE_LEN && texts == #[trigger] envelope_texts(key, n, data);
    lemma_envelope_parts(key, altered, read, nonce);
}

} // verus!
