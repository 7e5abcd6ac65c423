//! The functions of outside crates that the library builds on: hashing, authenticated
//! encryption, encodings, randomness, media types and peer identifiers. Their contracts are
//! taken on trust.

use base64::engine::general_purpose::STANDARD;
use base64::Engine;
use chacha20poly1305::aead::Aead;
use chacha20poly1305::{ChaCha20Poly1305, Key, KeyInit, Nonce};
use libp2p::identity::Keypair;
use libp2p::PeerId;
use rand::RngCore;
use sha2::{Digest, Sha256};
use vstd::prelude::*;

verus! {

/// Longest message that `ChaCha20Poly1305` can encrypt under one nonce: its counter leaves
/// 4294967294 blocks of 64 bytes.
pub const MAX_SEALED_LEN: u64 = 274877906816;

/// Length of the authentication tag that ends a ciphertext.
pub const TAG_LEN: u64 = 16;

/// The hasher of the `sha2` crate.
#[verifier::external_type_specification]
#[verifier::external_body]
pub struct ExSha256(Sha256);

/// The bytes that a hasher has been fed, in order.
pub uninterp spec fn absorbed(hasher: Sha256) -> Seq<u8>;

/// The SHA-256 digest of `data`.
pub uninterp spec fn sha256(data: Seq<u8>) -> Seq<u8>;

/// The ciphertext, tag included, of `data` under ChaCha20-Poly1305 with no associated data.
pub uninterp spec fn aead_sealed(key: Seq<u8>, nonce: Seq<u8>, data: Seq<u8>) -> Seq<u8>;

/// What ChaCha20-Poly1305 decrypts `ciphertext` to; nothing where the tag does not fit.
pub uninterp spec fn aead_opened(key: Seq<u8>, nonce: Seq<u8>, ciphertext: Seq<u8>) -> Option<
    Seq<u8>,
>;

/// The media type that is guessed for a file name extension.
pub uninterp spec fn media_type(extension: Seq<char>) -> Seq<char>;

/// The canonical text of the peer identifier that `text` spells, or why it spells none.
pub uninterp spec fn peer_text(text: Seq<char>) -> Result<Seq<char>, Seq<char>>;

/// The text of the peer identifier whose key pair `encoded` holds in its protobuf encoding, or
/// why it holds none.
pub uninterp spec fn identity_text(encoded: Seq<u8>) -> Result<Seq<char>, Seq<char>>;

/// The texts of a result whose both sides are strings.
pub open spec fn result_text(r: Result<String, String>) -> Result<Seq<char>, Seq<char>> {
    match r {
        Ok(s) => Ok(s@),
        Err(s) => Err(s@),
    }
}

/// The lower-case hexadecimal digit of `d`, for `d` below sixteen.
pub open spec fn hex_digit(d: u8) -> char {
    if d < 10 {
        (d + 0x30) as char
    } else {
        (d + 0x57) as char
    }
}

/// `data` in lower-case hexadecimal, two digits a byte, the high half first.
pub open spec fn hex_text(data: Seq<u8>) -> Seq<char> {
    Seq::new(
        data.len() * 2,
        |i: int|
            if i % 2 == 0 {
                hex_digit(data[i / 2] / 16)
            } else {
                hex_digit(data[i / 2] % 16)
            },
    )
}

/// The Base64 digit of `v`, for `v` below sixty-four: the capital letters, the small letters, the
/// decimal digits, then `+` and `/`.
pub open spec fn base64_digit(v: int) -> char {
    if v < 26 {
        (v + 0x41) as char
    } else if v < 52 {
        (v - 26 + 0x61) as char
    } else if v < 62 {
        (v - 52 + 0x30) as char
    } else if v == 62 {
        '+'
    } else {
        '/'
    }
}

/// The `i`-th byte of `data`, and zero beyond its end.
pub open spec fn byte_or_zero(data: Seq<u8>, i: int) -> int {
    if 0 <= i < data.len() {
        data[i] as int
    } else {
        0
    }
}

/// The `i`-th group of six bits of `data`, the high bits first: three bytes make four groups.
pub open spec fn sextet(data: Seq<u8>, i: int) -> int {
    let at = i / 4 * 3;
    if i % 4 == 0 {
        byte_or_zero(data, at) / 4
    } else if i % 4 == 1 {
        byte_or_zero(data, at) % 4 * 16 + byte_or_zero(data, at + 1) / 16
    } else if i % 4 == 2 {
        byte_or_zero(data, at + 1) % 16 * 4 + byte_or_zero(data, at + 2) / 64
    } else {
        byte_or_zero(data, at + 2) % 64
    }
}

/// The standard Base64 text of `data`: four characters for every three bytes, `=` where a group
/// has no bit of the data.
pub open spec fn base64_text(data: Seq<u8>) -> Seq<char> {
    Seq::new(
        ((data.len() + 2) / 3 * 4) as nat,
        |i: int|
            if i % 4 > data.len() - i / 4 * 3 {
                '='
            } else {
                base64_digit(sextet(data, i))
            },
    )
}

/// The bytes whose standard Base64 text is `text`; nothing where `text` is not one.
pub open spec fn base64_bytes(text: Seq<char>) -> Option<Seq<u8>> {
    if exists|data: Seq<u8>| #[trigger] base64_text(data) == text {
        Some(choose|data: Seq<u8>| #[trigger] base64_text(data) == text)
    } else {
        None
    }
}

proof fn lemma_base64_digits_differ(v: int, w: int)
    requires
        0 <= v < 64,
        0 <= w < 64,
        base64_digit(v) == base64_digit(w),
    ensures
        v == w,
{
}

proof fn lemma_base64_digit_is_no_padding(v: int)
    requires
        0 <= v < 64,
    ensures
        base64_digit(v) != '=',
{
}

proof fn lemma_sextet_range(data: Seq<u8>, i: int)
    requires
        0 <= i,
    ensures
        0 <= sextet(data, i) < 64,
{
    let at = i / 4 * 3;
    let a = byte_or_zero(data, at);
    let b = byte_or_zero(data, at + 1);
    let c = byte_or_zero(data, at + 2);
    assert(0 <= a < 256 && 0 <= b < 256 && 0 <= c < 256);
}

/// Data of one length only has a text.
proof fn lemma_base64_lengths(a: Seq<u8>, b: Seq<u8>)
    requires
        base64_text(a) == base64_text(b),
    ensures
        a.len() <= b.len(),
{
    let n = a.len() as int;
    let m = b.len() as int;
    assert(base64_text(a).len() == base64_text(b).len());
    if n > m {
        // Both end in the same group of four, where the shorter has padding at this place.
        let g = (n - 1) / 3;
        let i = g * 4 + (n - g * 3);
        assert(i / 4 == g && i % 4 == n - g * 3);
        assert(0 <= i < base64_text(a).len());
        lemma_sextet_range(a, i);
        lemma_base64_digit_is_no_padding(sextet(a, i));
        assert(base64_text(a)[i] == base64_digit(sextet(a, i)));
        assert(base64_text(b)[i] == '=');
    }
}

/// Different data has different texts.
pub proof fn lemma_base64_texts_differ(a: Seq<u8>, b: Seq<u8>)
    requires
        base64_text(a) == base64_text(b),
    ensures
        a == b,
{
    lemma_base64_lengths(a, b);
    lemma_base64_lengths(b, a);
    let n = a.len() as int;
    assert forall|j: int| 0 <= j < n implies a[j] == b[j] by {
        let g = j / 3;
        let i = g * 4 + j % 3;
        assert(i / 4 == g && i % 4 == j % 3);
        assert((i + 1) / 4 == g && (i + 1) % 4 == j % 3 + 1);
        assert(0 <= i && i + 1 < base64_text(a).len());
        assert(j % 3 + 1 <= n - g * 3);
        assert(base64_text(a)[i] == base64_digit(sextet(a, i)));
        assert(base64_text(b)[i] == base64_digit(sextet(b, i)));
        assert(base64_text(a)[i + 1] == base64_digit(sextet(a, i + 1)));
        assert(base64_text(b)[i + 1] == base64_digit(sextet(b, i + 1)));
        lemma_sextet_range(a, i);
        lemma_sextet_range(b, i);
        lemma_sextet_range(a, i + 1);
        lemma_sextet_range(b, i + 1);
        lemma_base64_digits_differ(sextet(a, i), sextet(b, i));
        lemma_base64_digits_differ(sextet(a, i + 1), sextet(b, i + 1));
        assert(j == g * 3 + j % 3);
    }
    assert(a =~= b);
}

/// The text of data stands for that data.
pub proof fn lemma_base64_round_trip(data: Seq<u8>)
    ensures
        base64_bytes(base64_text(data)) == Some(data),
{
    let text = base64_text(data);
    let found = choose|d: Seq<u8>| #[trigger] base64_text(d) == text;
    assert(base64_text(found) == text);
    lemma_base64_texts_differ(found, data);
}

/// `Sha256::new` of `sha2`: a hasher that has been fed nothing.
#[verifier::external_body]
pub(crate) fn sha256_start() -> (hasher: Sha256)
    ensures
        absorbed(hasher) == Seq::<u8>::empty(),
{
    Sha256::new()
}

/// `Digest::update` of `sha2`: feeds `data` to the hasher, after what it was fed before.
#[verifier::external_body]
pub(crate) fn sha256_feed(hasher: &mut Sha256, data: &[u8])
    ensures
        absorbed(*final(hasher)) == absorbed(*old(hasher)) + data@,
{
    hasher.update(data);
}

/// `Digest::finalize` of `sha2`: the digest of everything that the hasher was fed, which is a
/// function of those bytes alone and has 32 bytes.
#[verifier::external_body]
pub(crate) fn sha256_digest(hasher: Sha256) -> (digest: [u8; 32])
    ensures
        digest@ == sha256(absorbed(hasher)),
{
    hasher.finalize().into()
}

/// `KeyInit::new_from_slice` of `ChaCha20Poly1305`, in the `chacha20poly1305` crate: takes a key
/// of 32 bytes and refuses any other length with an error that reads "Invalid Length".
#[verifier::external_body]
pub(crate) fn accept_key(key: &[u8]) -> (r: Result<(), String>)
    ensures
        r is Ok == (key@.len() == 32),
        r matches Err(e) ==> e@ == "Invalid Length"@,
{
    ChaCha20Poly1305::new_from_slice(key).map(|_| ()).map_err(|e| e.to_string())
}

/// `Aead::encrypt` of `ChaCha20Poly1305`, in the `chacha20poly1305` crate: up to the length
/// limit it succeeds with a ciphertext that is longer than the data by the tag and that
/// decrypts to the data again. The same ciphertext with any other tag does not decrypt.
#[verifier::external_body]
pub(crate) fn aead_seal(key: &[u8; 32], nonce: &[u8; 12], data: &[u8]) -> (sealed: Option<
    Vec<u8>,
>)
    requires
        data@.len() <= MAX_SEALED_LEN,
    ensures
        sealed is Some,
        sealed->0@ == aead_sealed(key@, nonce@, data@),
        sealed->0@.len() == data@.len() + TAG_LEN,
        aead_opened(key@, nonce@, sealed->0@) == Some(data@),
        forall|other: Seq<u8>|
            other != sealed->0@ && other.len() == sealed->0@.len() && other.take(
                data@.len() as int,
            ) == sealed->0@.take(data@.len() as int) ==> #[trigger] aead_opened(
                key@,
                nonce@,
                other,
            ) is None,
{
    ChaCha20Poly1305::new(Key::from_slice(key)).encrypt(Nonce::from_slice(nonce), data).ok()
}

/// `Aead::decrypt` of `ChaCha20Poly1305`, in the `chacha20poly1305` crate: fails on a
/// ciphertext shorter than its tag, and gives back only data whose encryption is that very
/// ciphertext.
#[verifier::external_body]
pub(crate) fn aead_open(key: &[u8; 32], nonce: &[u8; 12], ciphertext: &[u8]) -> (data: Option<
    Vec<u8>,
>)
    requires
        ciphertext@.len() <= MAX_SEALED_LEN + TAG_LEN,
    ensures
        data is Some == aead_opened(key@, nonce@, ciphertext@) is Some,
        data matches Some(d) ==> aead_opened(key@, nonce@, ciphertext@) == Some(d@)
            && ciphertext@.len() == d@.len() + TAG_LEN && aead_sealed(key@, nonce@, d@)
            == ciphertext@,
{
    ChaCha20Poly1305::new(Key::from_slice(key)).decrypt(Nonce::from_slice(nonce), ciphertext).ok()
}

/// `Engine::encode` of `base64` with its `STANDARD` engine: the standard, padded Base64 text.
#[verifier::external_body]
pub(crate) fn base64_encode(data: &[u8]) -> (text: String)
    requires
        data@.len() <= MAX_SEALED_LEN + TAG_LEN,
    ensures
        text@ == base64_text(data@),
{
    STANDARD.encode(data)
}

/// `Engine::decode` of `base64` with its `STANDARD` engine: the bytes that a text stands for. It
/// takes canonical texts only, those that `Engine::encode` gives, and refuses every other.
#[verifier::external_body]
pub(crate) fn base64_decode(text: &str) -> (data: Option<Vec<u8>>)
    ensures
        data matches Some(d) ==> base64_text(d@) == text@,
        data is None ==> forall|d: Seq<u8>| #[trigger] base64_text(d) != text@,
{
    STANDARD.decode(text).ok()
}

/// `hex::encode` of `hex`: the bytes in lower-case hexadecimal.
#[verifier::external_body]
pub(crate) fn hex_encode(data: &[u8]) -> (text: String)
    ensures
        text@ == hex_text(data@),
{
    hex::encode(data)
}

/// `RngCore::fill_bytes` of `rand` on the thread's generator: twelve bytes by chance. Nothing
/// is promised of them.
#[verifier::external_body]
pub(crate) fn random_nonce() -> (nonce: [u8; 12]) {
    let mut nonce = [0u8; 12];
    rand::thread_rng().fill_bytes(&mut nonce);
    nonce
}

/// `from_ext` of `mime_guess`, with `first_or_octet_stream`: the media type guessed for an
/// extension, a function of the extension alone; for an empty one it is the generic type.
#[verifier::external_body]
pub(crate) fn guess_media_type(extension: &str) -> (r: String)
    ensures
        r@ == media_type(extension@),
        extension@.len() == 0 ==> r@ == "application/octet-stream"@,
{
    mime_guess::from_ext(extension).first_or_octet_stream().essence_str().to_string()
}

/// `PeerId::from_str` of `libp2p`: the identifier in its canonical text, or the text of the
/// error. Both are functions of the text alone.
#[verifier::external_body]
pub(crate) fn parse_peer(text: &str) -> (r: Result<String, String>)
    ensures
        result_text(r) == peer_text(text@),
{
    text.parse::<PeerId>().map(|p| p.to_string()).map_err(|e| e.to_string())
}

/// `Keypair::from_protobuf_encoding` of `libp2p`: the peer identifier of the key pair that was
/// decoded, in its text, or the text of the error. Both are functions of the bytes alone.
#[verifier::external_body]
pub(crate) fn read_identity(encoded: &[u8]) -> (r: Result<String, String>)
    ensures
        result_text(r) == identity_text(encoded@),
{
    Keypair::from_protobuf_encoding(encoded)
        .map(|k| k.public().to_peer_id().to_string())
        .map_err(|e| e.to_string())
}

/// `Keypair::generate_ed25519` of `libp2p`, with `to_protobuf_encoding`: the encoding of a key
/// pair drawn by chance. An ed25519 key pair can always be encoded, and what was encoded can be
/// decoded. Nothing is promised of which key pair it is.
#[verifier::external_body]
pub(crate) fn fresh_identity() -> (r: Result<Vec<u8>, String>)
    ensures
        r is Ok,
        identity_text(r->Ok_0@) is Ok,
{
    Keypair::generate_ed25519().to_protobuf_encoding().map_err(|e| e.to_string())
}

} // verus!
