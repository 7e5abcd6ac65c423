//! Promises of sealing: envelopes, history files, and the identity of a node.
#![allow(unused_imports)]

use crate::crypto;
use crate::crypto::{
    cipher_from_key, decrypt_bytes, encrypt_bytes, open_raw, seal_raw, seal_with_nonce, RoomCipher,
};
use crate::history::{
    build_history_response, open_history_response, HistoryFault, HistoryResponse, HistoryStore,
};
use crate::identity::{
    identity_written, load_or_create_identity, stored_identity, Identity, IdentityStep,
};
use crate::primitives;
use crate::types::{EncryptedEnvelope, StoredPath};
use vstd::prelude::*;

verus! {

/// Exactly the keys of 32 bytes make a cipher, and the cipher has that key.
pub proof fn law_keys_have_thirty_two_bytes(key: &[u8], r: Result<RoomCipher, String>)
    requires
        call_ensures(cipher_from_key, (key,), r),
    ensures
        key@.len() == 32 ==> (r matches Ok(c) && c@ == key@),
        key@.len() != 32 ==> (r matches Err(e) && e@ == "Invalid Length"@),
{
}

/// Data up to the limit of the cipher is sealed, whatever it is, and whoever has the key gets it
/// back byte for byte. The envelope holds a nonce of twelve bytes and sixteen bytes more than the
/// data.
pub proof fn law_what_is_sealed_opens(
    cipher: &RoomCipher,
    data: &[u8],
    sealed: Option<EncryptedEnvelope>,
    envelope: &EncryptedEnvelope,
    other: &RoomCipher,
    read: Option<Vec<u8>>,
)
    requires
        data@.len() <= 274877906816,
        call_ensures(encrypt_bytes, (cipher, data), sealed),
        sealed matches Some(e) ==> envelope.n@ == e.n@ && envelope.c@ == e.c@,
        other@ == cipher@,
        call_ensures(decrypt_bytes, (other, envelope), read),
    ensures
        sealed is Some,
        read matches Some(bytes) && bytes@ == data@,
        primitives::base64_bytes(envelope.n@) matches Some(n) && n.len() == 12,
        primitives::base64_bytes(envelope.c@) matches Some(c) && c.len() == data@.len() + 16,
{
}

/// Data is sealed exactly up to the limit of the cipher. What is sealed with a nonce is the
/// Base64 text of that nonce and that of the ciphertext.
pub proof fn law_an_envelope_holds_nonce_and_ciphertext(
    cipher: &RoomCipher,
    nonce: &[u8; 12],
    data: &[u8],
    sealed: Option<EncryptedEnvelope>,
    chance: Option<EncryptedEnvelope>,
    raw: Option<Vec<u8>>,
)
    requires
        call_ensures(seal_with_nonce, (cipher, nonce, data), sealed),
        call_ensures(encrypt_bytes, (cipher, data), chance),
        call_ensures(seal_raw, (cipher, nonce, data), raw),
    ensures
        sealed is Some <==> data@.len() <= 274877906816,
        chance is Some <==> data@.len() <= 274877906816,
        raw is Some <==> data@.len() <= 274877906816,
        raw matches Some(c) ==> c@ == primitives::aead_sealed(cipher@, nonce@, data@),
        sealed matches Some(e) ==> primitives::base64_bytes(e.n@) == Some(nonce@),
        sealed matches Some(e) ==> primitives::base64_bytes(e.c@) == Some(
            primitives::aead_sealed(cipher@, nonce@, data@),
        ),
{
    primitives::lemma_base64_round_trip(nonce@);
    primitives::lemma_base64_round_trip(primitives::aead_sealed(cipher@, nonce@, data@));
}

/// An envelope opens exactly where its texts are Base64, its nonce has twelve bytes, and the
/// cipher, asked with that nonce, opens the ciphertext; and to what the cipher gives.
pub proof fn law_an_envelope_opens_as_the_cipher_does(
    cipher: &RoomCipher,
    envelope: &EncryptedEnvelope,
    nonce: Seq<u8>,
    ciphertext: Seq<u8>,
    read: Option<Vec<u8>>,
)
    requires
        call_ensures(decrypt_bytes, (cipher, envelope), read),
    ensures
        primitives::base64_bytes(envelope.n@) is None ==> read is None,
        primitives::base64_bytes(envelope.c@) is None ==> read is None,
        primitives::base64_bytes(envelope.n@) == Some(nonce) && nonce.len() != 12 ==> read is None,
        primitives::base64_bytes(envelope.n@) == Some(nonce) && nonce.len() == 12
            && primitives::base64_bytes(envelope.c@) == Some(ciphertext) && ciphertext.len()
            <= 274877906832 ==> match primitives::aead_opened(cipher@, nonce, ciphertext) {
            Some(data) => read matches Some(bytes) && bytes@ == data,
            None => read is None,
        },
        primitives::base64_bytes(envelope.c@) == Some(ciphertext) && ciphertext.len()
            > 274877906832 ==> read is None,
{
}

/// A ciphertext opens exactly where the cipher opens it, and to what the cipher gives.
pub proof fn law_a_ciphertext_opens_as_the_cipher_does(
    cipher: &RoomCipher,
    nonce: &[u8; 12],
    ciphertext: &[u8],
    read: Option<Vec<u8>>,
)
    requires
        call_ensures(open_raw, (cipher, nonce, ciphertext), read),
    ensures
        ciphertext@.len() <= 274877906832 ==> match primitives::aead_opened(
            cipher@,
            nonce@,
            ciphertext@,
        ) {
            Some(data) => read matches Some(bytes) && bytes@ == data,
            None => read is None,
        },
        ciphertext@.len() > 274877906832 ==> read is None,
{
}

/// A history file is its nonce and then the ciphertext, and whoever has the key reads back what
/// was saved, byte for byte.
pub proof fn law_a_saved_history_is_read_back(
    store: &HistoryStore,
    nonce: &[u8; 12],
    json: &[u8],
    saved: Result<Vec<u8>, String>,
    file: &[u8],
    other: &HistoryStore,
    read: Result<Vec<u8>, HistoryFault>,
)
    requires
        json@.len() <= 274877906816,
        call_ensures(HistoryStore::save_with_nonce, (store, nonce, json), saved),
        saved matches Ok(bytes) ==> file@ == bytes@,
        other.key@ == store.key@,
        call_ensures(HistoryStore::load, (other, file), read),
    ensures
        saved is Ok,
        file@.len() == json@.len() + 28,
        file@.take(12) == nonce@,
        file@.skip(12) == primitives::aead_sealed(store.key@, nonce@, json@),
        read matches Ok(bytes) && bytes@ == json@,
{
    assert(file@.take(12) =~= nonce@);
    assert(file@.skip(12) =~= primitives::aead_sealed(store.key@, nonce@, json@));
}

/// The same of a file whose nonce was drawn by chance, whatever nonce that was.
pub proof fn law_a_history_saved_by_chance_is_read_back(
    store: &HistoryStore,
    json: &[u8],
    saved: Result<Vec<u8>, String>,
    file: &[u8],
    other: &HistoryStore,
    read: Result<Vec<u8>, HistoryFault>,
)
    requires
        call_ensures(HistoryStore::save, (store, json), saved),
        saved matches Ok(bytes) ==> file@ == bytes@,
        other.key@ == store.key@,
        call_ensures(HistoryStore::load, (other, file), read),
    ensures
        saved is Ok <==> json@.len() <= 274877906816,
        saved is Ok ==> file@.len() == json@.len() + 28,
        saved is Ok ==> file@.skip(12) == primitives::aead_sealed(
            store.key@,
            file@.take(12),
            json@,
        ),
        saved is Ok ==> (read matches Ok(bytes) && bytes@ == json@),
{
    if saved is Ok {
        let nonce = choose|nonce: Seq<u8>|
            nonce.len() == 12 && file@ == #[trigger] crate::history::history_file(
                store.key@,
                nonce,
                json@,
            );
        assert(file@.take(12) =~= nonce);
        assert(file@.skip(12) =~= primitives::aead_sealed(store.key@, nonce, json@));
    }
}

/// A history file is read by its first twelve bytes as the nonce and the rest as the ciphertext.
pub proof fn law_a_history_file_opens_as_the_cipher_does(
    store: &HistoryStore,
    file: &[u8],
    read: Result<Vec<u8>, HistoryFault>,
)
    requires
        call_ensures(HistoryStore::load, (store, file), read),
    ensures
        file@.len() < 12 ==> read == Err::<Vec<u8>, _>(HistoryFault::TooSmall),
        file@.len() > 274877906844 ==> read == Err::<Vec<u8>, _>(HistoryFault::Unreadable),
        12 <= file@.len() <= 274877906844 ==> match primitives::aead_opened(
            store.key@,
            file@.take(12),
            file@.skip(12),
        ) {
            Some(json) => read matches Ok(bytes) && bytes@ == json,
            None => read == Err::<Vec<u8>, _>(HistoryFault::Unreadable),
        },
{
}

/// A history of any length that is sealed for a peer is opened there whole and in order, by
/// whoever has the key: as many payloads as were sealed, each of them byte for byte.
pub proof fn law_a_history_is_exchanged_whole(
    cipher: &RoomCipher,
    payloads: &Vec<Vec<u8>>,
    response: HistoryResponse,
    received: &HistoryResponse,
    other: &RoomCipher,
    read: Option<Vec<Option<Vec<u8>>>>,
)
    requires
        forall|i: int| 0 <= i < payloads@.len() ==> (#[trigger] payloads@[i])@.len()
            <= 274877906816,
        call_ensures(build_history_response, (cipher, payloads), response),
        received.version == response.version,
        received.messages@ == response.messages@,
        other@ == cipher@,
        call_ensures(open_history_response, (other, received), read),
    ensures
        response.version == 1,
        response.messages@.len() == payloads@.len(),
        read is Some,
        read->0@.len() == payloads@.len(),
        forall|i: int|
            0 <= i < payloads@.len() ==> ((#[trigger] read->0@[i]) matches Some(p) && p@
                == payloads@[i]@),
{
    crate::history::law_history_sync_round_trip(
        cipher@,
        payloads@,
        response.messages@,
        read->0@,
    );
    assert(crate::history::opened_each(cipher@, response.messages@).len()
        == response.messages@.len());
    assert(crate::history::payload_views(read->0@).len() == read->0@.len());
}

/// Each envelope of a peer's history is opened on its own, at its own place: one that does not
/// open leaves the others as they are. Responses of another version are not opened.
pub proof fn law_each_envelope_is_opened_on_its_own(
    cipher: &RoomCipher,
    response: &HistoryResponse,
    read: Option<Vec<Option<Vec<u8>>>>,
    i: int,
    one: Option<Vec<u8>>,
)
    requires
        call_ensures(open_history_response, (cipher, response), read),
        call_ensures(decrypt_bytes, (cipher, &response.messages@[i]), one),
    ensures
        read is Some <==> response.version == 1,
        read is Some ==> read->0@.len() == response.messages@.len(),
        read is Some && 0 <= i < response.messages@.len() && one is None ==> read->0@[i] is None,
        read is Some && 0 <= i < response.messages@.len() && one is Some ==> (
        read->0@[i] matches Some(p) && p@ == one->0@),
{
    if read is Some {
        let views = crate::history::payload_views(read->0@);
        assert(views.len() == read->0@.len());
        assert(crate::history::opened_each(cipher@, response.messages@).len()
            == response.messages@.len());
        assert(0 <= i < views.len() ==> views[i] == crate::history::opened_each(cipher@, response.messages@)[i]);
    }
}

/// What is stored decides the identity of a node. Bytes that hold a key pair are that identity, as
/// they stand; bytes that hold none, and what could not be read, are errors, and nothing is made
/// in their place; only where nothing is stored a new identity is made.
pub proof fn law_what_is_stored_decides_the_identity(
    stored: Option<Result<Vec<u8>, String>>,
    r: Result<IdentityStep, String>,
)
    requires
        call_ensures(load_or_create_identity, (stored,), r),
    ensures
        r matches Ok(IdentityStep::Created(_)) <==> stored is None,
        stored matches Some(Ok(bytes)) ==> match primitives::identity_text(bytes@) {
            Ok(peer) => r matches Ok(IdentityStep::Loaded(identity)) && identity.encoded@ == bytes@
                && identity.peer@ == peer,
            Err(e) => r matches Err(m) && m@ == e,
        },
        stored matches Some(Err(e)) ==> r == Err::<IdentityStep, _>(e),
        r matches Ok(IdentityStep::Created(identity)) ==> primitives::identity_text(
            identity.encoded@,
        ) == Ok::<_, Seq<char>>(identity.peer@),
{
}

/// An identity that was made and written is the same the next time: the same bytes, and the same
/// peer.
pub proof fn law_an_identity_outlives_its_session(
    made: Result<IdentityStep, String>,
    written: Result<(), String>,
    used: Result<Identity, String>,
    bytes: Vec<u8>,
    again: Result<IdentityStep, String>,
)
    requires
        call_ensures(load_or_create_identity, (None::<Result<Vec<u8>, String>>,), made),
        made is Ok,
        made->Ok_0 is Created,
        call_ensures(identity_written, (made->Ok_0->Created_0, written), used),
        bytes@ == made->Ok_0->Created_0.encoded@,
        call_ensures(load_or_create_identity, (Some(Ok::<_, String>(bytes)),), again),
    ensures
        written is Ok ==> used == Ok::<_, String>(made->Ok_0->Created_0),
        written matches Err(e) ==> used == Err::<Identity, _>(e),
        again matches Ok(IdentityStep::Loaded(identity)) && identity.peer@
            == made->Ok_0->Created_0.peer@ && identity.encoded@ == bytes@,
{
}

/// Stored bytes come to what was read of them, whatever that was.
pub proof fn law_stored_bytes_come_to_what_was_read(
    encoded: Vec<u8>,
    read: Result<String, String>,
    r: Result<IdentityStep, String>,
)
    requires
        call_ensures(stored_identity, (encoded, read), r),
    ensures
        read matches Ok(peer) ==> r == Ok::<_, String>(
            IdentityStep::Loaded(Identity { encoded, peer }),
        ),
        read matches Err(e) ==> r == Err::<IdentityStep, _>(e),
{
}

} // verus!
