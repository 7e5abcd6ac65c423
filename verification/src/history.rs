//! The history of a room.

use crate::app_state::SharedState;
use crate::crypto;
use crate::crypto::{
    cipher_from_key, decrypt_bytes, encrypt_bytes, nonce_array, open_raw, seal_raw, RoomCipher,
    NONCE_LEN,
};
use crate::primitives;
use crate::primitives::{random_nonce, MAX_SEALED_LEN, TAG_LEN};
use crate::text::{joined, same_text, strip_prefix};
use crate::types::{ChatMessage, EncryptedEnvelope, StoredPath, APP_TAG};
use std::collections::VecDeque;
use vstd::prelude::*;
use vstd::slice::slice_subrange;

verus! {

/// Most messages that a history keeps.
pub const HISTORY_CAP: usize = 500;

/// Version of the format in which a history is kept.
pub const HISTORY_FILE_VERSION: u32 = 1;

/// Version of the protocol by which histories are exchanged.
pub const HISTORY_SYNC_VERSION: u32 = 1;

/// Asks a peer for its history.
#[derive(Debug, PartialEq, Eq)]
pub struct HistoryRequest {
    pub version: u32,
}

/// The history of a peer, one envelope a message.
#[derive(Debug, PartialEq, Eq)]
pub struct HistoryResponse {
    pub version: u32,
    pub messages: Vec<EncryptedEnvelope>,
}

/// What became of an attempt to publish a message.
#[derive(Debug, PartialEq, Eq)]
pub enum Publication {
    /// The publisher could not be reached because its lock is poisoned.
    Poisoned,
    /// No room is joined, so there is no publisher.
    NotReady,
    /// The publisher refused the message, with this reason.
    Failed(String),
    Sent,
}

/// What the ingestion of a peer's history came to.
#[derive(Debug, PartialEq, Eq)]
pub struct IngestReport {
    pub total: usize,
    pub fresh: Vec<ChatMessage>,
    pub dup: usize,
    pub decrypt_failed: usize,
}

/// Where a history is kept, and under which key.
pub struct HistoryStore {
    pub path: StoredPath,
    pub key: [u8; 32],
}

/// Why the file of a history cannot be read.
#[derive(Debug, PartialEq, Eq)]
pub enum HistoryFault {
    /// The file is too short to hold a nonce.
    TooSmall,
    /// The file was written under another key or tampered with.
    Unreadable,
}

/// The content of a history file: the nonce, then the ciphertext of `json`.
pub open spec fn history_file(key: Seq<u8>, nonce: Seq<u8>, json: Seq<u8>) -> Seq<u8> {
    nonce + primitives::aead_sealed(key, nonce, json)
}

/// What a history file holds for someone who has `key`.
pub open spec fn opened_file(key: Seq<u8>, file: Seq<u8>) -> Result<Seq<u8>, HistoryFault> {
    if file.len() < NONCE_LEN {
        Err(HistoryFault::TooSmall)
    } else {
        match crypto::opened_raw(key, file.take(NONCE_LEN as int), file.skip(NONCE_LEN as int)) {
            Some(json) => Ok(json),
            None => Err(HistoryFault::Unreadable),
        }
    }
}

/// Whether the file opens no more for someone who has `key` once its tag is altered.
pub open spec fn guards_its_tag(key: Seq<u8>, file: Seq<u8>) -> bool {
    forall|other: Seq<u8>| #[trigger]
        crypto::has_other_tag(file, other) ==> opened_file(key, other) is Err
}

impl HistoryStore {
    /// A store at `path` under `key`.
    pub fn new(path: StoredPath, key: [u8; 32]) -> (r: Self)
        ensures
            r.path == path,
            r.key == key,
    {
        HistoryStore { path, key }
    }

    fn cipher(&self) -> (r: Result<RoomCipher, String>)
        ensures
            r matches Ok(c) && c@ == self.key@,
    {
        cipher_from_key(self.key.as_slice())
    }

    /// Opens the content of a history file.
    pub fn load(&self, file: &[u8]) -> (r: Result<Vec<u8>, HistoryFault>)
        ensures
            match r {
                Ok(json) => opened_file(self.key@, file@) == Ok::<_, HistoryFault>(json@)
                    && file@ == history_file(
                    self.key@,
                    file@.take(NONCE_LEN as int),
                    json@,
                ),
                Err(fault) => opened_file(self.key@, file@) == Err::<Seq<u8>, _>(fault),
            },
    {
        if file.len() < NONCE_LEN {
            return Err(HistoryFault::TooSmall);
        }
        let cipher = match self.cipher() {
            Ok(c) => c,
            Err(_) => {
                return Err(HistoryFault::Unreadable);
            },
        };
        let head = slice_subrange(file, 0, NONCE_LEN);
        let rest = slice_subrange(file, NONCE_LEN, file.len());
        assert(head@ =~= file@.take(NONCE_LEN as int));
        assert(rest@ =~= file@.skip(NONCE_LEN as int));
        let nonce = nonce_array(head);
        match open_raw(&cipher, &nonce, rest) {
            Some(json) => {
                assert(file@ =~= head@ + rest@);
                Ok(json)
            },
            None => Err(HistoryFault::Unreadable),
        }
    }

    /// The content of a history file that holds `json`, sealed with the given nonce.
    pub fn save_with_nonce(&self, nonce: &[u8; 12], json: &[u8]) -> (r: Result<Vec<u8>, String>)
        ensures
            r is Ok == (json@.len() <= MAX_SEALED_LEN),
            r matches Ok(file) ==> guards_its_tag(self.key@, file@),
            r matches Ok(file) ==> file@ == history_file(self.key@, nonce@, json@) && file@.len()
                == NONCE_LEN + json@.len() + TAG_LEN
                && opened_file(self.key@, file@) == Ok::<_, HistoryFault>(json@),
            r matches Err(e) ==> e@ == "encrypt history: aead::Error"@,
    {
        let cipher = self.cipher()?;
        match seal_raw(&cipher, nonce, json) {
            Some(mut ciphertext) => {
                let ghost sealed = ciphertext@;
                let mut file: Vec<u8> = Vec::new();
                file.extend_from_slice(nonce.as_slice());
                assert(file@ =~= nonce@);
                file.append(&mut ciphertext);
                assert(file@ =~= nonce@ + sealed);
                assert(file@.take(NONCE_LEN as int) =~= nonce@);
                assert(file@.skip(NONCE_LEN as int) =~= sealed);
                assert forall|other: Seq<u8>| #[trigger] crypto::has_other_tag(
                    file@,
                    other,
                ) implies opened_file(self.key@, other) is Err by {
                    let head = other.take(NONCE_LEN as int);
                    let rest = other.skip(NONCE_LEN as int);
                    let body = other.len() - TAG_LEN;
                    assert(other.take(body) == file@.take(body));
                    assert(head =~= other.take(body).take(NONCE_LEN as int));
                    assert(head =~= file@.take(body).take(NONCE_LEN as int));
                    assert(rest.take(rest.len() - TAG_LEN) =~= other.take(body).skip(
                        NONCE_LEN as int,
                    ));
                    assert(sealed.take(sealed.len() - TAG_LEN) =~= file@.take(body).skip(
                        NONCE_LEN as int,
                    ));
                    assert(head =~= nonce@);
                    assert(other =~= head + rest);
                    assert(crypto::has_other_tag(sealed, rest));
                }
                Ok(file)
            },
            None => Err("encrypt history: aead::Error".to_owned()),
        }
    }

    /// The content of a history file that holds `json`, sealed with a fresh random nonce.
    /// Whatever the nonce, `load` gives `json` back.
    pub fn save(&self, json: &[u8]) -> (r: Result<Vec<u8>, String>)
        ensures
            r is Ok == (json@.len() <= MAX_SEALED_LEN),
            r matches Ok(file) ==> file@.len() == NONCE_LEN + json@.len() + TAG_LEN
                && guards_its_tag(self.key@, file@),
            r matches Ok(file) ==> opened_file(self.key@, file@) == Ok::<_, HistoryFault>(
                json@,
            ) && exists|nonce: Seq<u8>|
                nonce.len() == NONCE_LEN && file@ == #[trigger] history_file(
                    self.key@,
                    nonce,
                    json@,
                ),
            r matches Err(e) ==> e@ == "encrypt history: aead::Error"@,
    {
        let nonce = random_nonce();
        let r = self.save_with_nonce(&nonce, json);
        assert(r matches Ok(file) ==> file@ == history_file(self.key@, nonce@, json@));
        r
    }
}

impl Clone for HistoryRequest {
    fn clone(&self) -> (r: Self)
        ensures
            r == *self,
    {
        HistoryRequest { version: self.version }
    }
}

impl Clone for HistoryResponse {
    fn clone(&self) -> (r: Self)
        ensures
            r.version == self.version,
            r.messages@ == self.messages@,
    {
        let messages = self.messages.clone();
        assert(messages@ =~= self.messages@);
        HistoryResponse { version: self.version, messages }
    }
}

impl Clone for HistoryStore {
    fn clone(&self) -> (r: Self)
        ensures
            r == *self,
    {
        HistoryStore { path: self.path.clone(), key: self.key }
    }
}

/// Whether some message has this identifier.
pub open spec fn has_id(messages: Seq<ChatMessage>, id: Seq<char>) -> bool {
    exists|i: int| 0 <= i < messages.len() && (#[trigger] messages[i]).id@ == id
}

/// Whether no two messages have the same identifier.
pub open spec fn distinct_ids(messages: Seq<ChatMessage>) -> bool {
    forall|i: int, j: int|
        0 <= i < j < messages.len() ==> (#[trigger] messages[i]).id@ != (
        #[trigger] messages[j]).id@
}

/// The newest messages, as many as a history keeps.
pub open spec fn newest(messages: Seq<ChatMessage>) -> Seq<ChatMessage> {
    if messages.len() <= HISTORY_CAP {
        messages
    } else {
        messages.skip(messages.len() - HISTORY_CAP)
    }
}

/// A history after a message came in.
pub open spec fn appended(messages: Seq<ChatMessage>, msg: ChatMessage) -> Seq<ChatMessage> {
    if has_id(messages, msg.id@) {
        messages
    } else {
        newest(messages.push(msg))
    }
}

/// The messages of a history; nothing while no room is joined.
pub open spec fn history_messages(history: Option<VecDeque<ChatMessage>>) -> Option<
    Seq<ChatMessage>,
> {
    match history {
        Some(h) => Some(h@),
        None => None,
    }
}

/// Name of the file that holds the history of the room with this topic.
pub open spec fn topic_file_name(topic: Seq<char>) -> Seq<char> {
    let prefix = APP_TAG@ + "-"@;
    let hash_part = if prefix.is_prefix_of(topic) {
        topic.skip(prefix.len() as int)
    } else {
        topic
    };
    hash_part + ".bin"@
}

/// Where the history of the room with this topic is kept.
pub fn history_path_for(topic: &str) -> (r: StoredPath)
    ensures
        r.folder@ == "history"@,
        r.name@ == topic_file_name(topic@),
{
    let prefix = joined(APP_TAG, "-");
    let hash_part = match strip_prefix(topic, prefix.as_str()) {
        Some(rest) => {
            assert(prefix@.is_prefix_of(topic@)) by {
                assert(topic@.subrange(0, prefix@.len() as int) =~= prefix@);
            }
            assert(topic@.skip(prefix@.len() as int) =~= rest@);
            rest
        },
        None => topic,
    };
    StoredPath { folder: "history".to_owned(), name: joined(hash_part, ".bin") }
}

fn contains_id(messages: &VecDeque<ChatMessage>, id: &str) -> (r: bool)
    ensures
        r == has_id(messages@, id@),
{
    let mut i: usize = 0;
    while i < messages.len()
        invariant
            i <= messages@.len(),
            forall|j: int| 0 <= j < i ==> (#[trigger] messages@[j]).id@ != id@,
        decreases messages@.len() - i,
    {
        if same_text(messages[i].id.as_str(), id) {
            return true;
        }
        i = i + 1;
    }
    false
}

/// Adds a message to the history unless one with its identifier is there, and drops the oldest
/// beyond the cap. Says whether the message was added.
pub fn append_to_history_if_new(state: &mut SharedState, msg: ChatMessage) -> (r: bool)
    ensures
        r == (old(state).history is Some && !has_id(old(state).history->0@, msg.id@)),
        history_messages(final(state).history) == match history_messages(old(state).history) {
            Some(messages) => Some(appended(messages, msg)),
            None => None,
        },
        !r ==> *final(state) == *old(state),
        *final(state) == (SharedState { history: final(state).history, ..*old(state) }),
{
    match &state.history {
        Some(h) => {
            if contains_id(h, msg.id.as_str()) {
                return false;
            }
        },
        None => {
            return false;
        },
    }
    let taken = state.history.take();
    let mut h = match taken {
        Some(h) => h,
        None => VecDeque::new(),
    };
    h.push_back(msg);
    let ghost all = h@;
    while h.len() > HISTORY_CAP
        invariant
            h@.len() <= all.len(),
            h@ == all.skip(all.len() - h@.len()),
            all.len() > HISTORY_CAP ==> h@.len() >= HISTORY_CAP,
            all.len() <= HISTORY_CAP ==> h@ == all,
        decreases h@.len(),
    {
        let _oldest = h.pop_front();
        assert(h@ =~= all.skip(all.len() - h@.len()));
    }
    state.history = Some(h);
    true
}

/// Adds a message to the history, as `append_to_history_if_new` does.
pub fn append_to_history(state: &mut SharedState, msg: ChatMessage)
    ensures
        history_messages(final(state).history) == match history_messages(old(state).history) {
            Some(messages) => Some(appended(messages, msg)),
            None => None,
        },
        *final(state) == (SharedState { history: final(state).history, ..*old(state) }),
{
    let _added = append_to_history_if_new(state, msg);
}

/// The messages of the history, oldest arrival first; none while no room is joined.
pub fn history_snapshot(state: &SharedState) -> (r: Vec<ChatMessage>)
    ensures
        r@ == match history_messages(state.history) {
            Some(messages) => messages,
            None => Seq::empty(),
        },
{
    let mut r: Vec<ChatMessage> = Vec::new();
    if let Some(h) = &state.history {
        let mut i: usize = 0;
        while i < h.len()
            invariant
                i <= h@.len(),
                r@ == h@.take(i as int),
            decreases h@.len() - i,
        {
            r.push(h[i].clone());
            assert(h@.take(i + 1) =~= h@.take(i as int).push(h@[i as int]));
            i = i + 1;
        }
        assert(h@.take(h@.len() as int) =~= h@);
    }
    r
}

/// Those of `messages` that were sent at time `t`, in their order.
pub open spec fn at_time(messages: Seq<ChatMessage>, t: u64) -> Seq<ChatMessage>
    decreases messages.len(),
{
    if messages.len() == 0 {
        Seq::empty()
    } else if messages.last().timestamp == t {
        at_time(messages.drop_last(), t).push(messages.last())
    } else {
        at_time(messages.drop_last(), t)
    }
}

/// Whether the messages stand in the order of their timestamps.
pub open spec fn chronological(messages: Seq<ChatMessage>) -> bool {
    forall|i: int, j: int|
        0 <= i <= j < messages.len() ==> (#[trigger] messages[i]).timestamp <= (
        #[trigger] messages[j]).timestamp
}

/// Whether `sorted` holds the messages in the order of their timestamps, those of one time in
/// the order in which they stand in `messages`.
pub open spec fn stably_sorted(messages: Seq<ChatMessage>, sorted: Seq<ChatMessage>) -> bool {
    &&& chronological(sorted)
    &&& forall|t: u64| #[trigger] at_time(sorted, t) == at_time(messages, t)
}

proof fn lemma_at_time_concat(a: Seq<ChatMessage>, b: Seq<ChatMessage>, t: u64)
    ensures
        at_time(a + b, t) == at_time(a, t) + at_time(b, t),
    decreases b.len(),
{
    if b.len() == 0 {
        assert(a + b =~= a);
        assert(at_time(a, t) + at_time(b, t) =~= at_time(a, t));
    } else {
        lemma_at_time_concat(a, b.drop_last(), t);
        assert((a + b).drop_last() =~= a + b.drop_last());
        assert((a + b).last() == b.last());
        assert(at_time(a + b, t) =~= at_time(a, t) + at_time(b, t));
    }
}

proof fn lemma_at_time_none(messages: Seq<ChatMessage>, t: u64)
    requires
        forall|i: int| 0 <= i < messages.len() ==> (#[trigger] messages[i]).timestamp != t,
    ensures
        at_time(messages, t) == Seq::<ChatMessage>::empty(),
    decreases messages.len(),
{
    if messages.len() > 0 {
        assert(messages.last() == messages[messages.len() - 1]);
        assert forall|i: int| 0 <= i < messages.drop_last().len() implies (
        #[trigger] messages.drop_last()[i]).timestamp != t by {
            assert(messages.drop_last()[i] == messages[i]);
        }
        lemma_at_time_none(messages.drop_last(), t);
    }
}

/// Inserting a message after all that are not later keeps a sort stable.
proof fn lemma_insert_sorted(
    messages: Seq<ChatMessage>,
    sorted: Seq<ChatMessage>,
    at: int,
    msg: ChatMessage,
)
    requires
        stably_sorted(messages, sorted),
        0 <= at <= sorted.len(),
        forall|i: int| 0 <= i < at ==> (#[trigger] sorted[i]).timestamp <= msg.timestamp,
        forall|i: int|
            at <= i < sorted.len() ==> (#[trigger] sorted[i]).timestamp > msg.timestamp,
    ensures
        stably_sorted(messages.push(msg), sorted.insert(at, msg)),
{
    let after = sorted.insert(at, msg);
    let low = sorted.take(at);
    let high = sorted.skip(at);
    assert(sorted =~= low + high);
    assert(after =~= low.push(msg) + high);
    assert forall|i: int, j: int| 0 <= i <= j < after.len() implies (
    #[trigger] after[i]).timestamp <= (#[trigger] after[j]).timestamp by {
        if i < at {
            assert(after[i] == sorted[i]);
        } else if i > at {
            assert(after[i] == sorted[i - 1]);
        }
        if j < at {
            assert(after[j] == sorted[j]);
        } else if j > at {
            assert(after[j] == sorted[j - 1]);
        }
    }
    assert forall|t: u64| #[trigger]
        at_time(after, t) == at_time(messages.push(msg), t) by {
        lemma_at_time_concat(low, high, t);
        lemma_at_time_concat(low.push(msg), high, t);
        assert(low.push(msg).drop_last() =~= low);
        assert(messages.push(msg).drop_last() =~= messages);
        assert(at_time(sorted, t) == at_time(messages, t));
        if t == msg.timestamp {
            assert forall|i: int| 0 <= i < high.len() implies (#[trigger] high[i]).timestamp
                != t by {
                assert(high[i] == sorted[at + i]);
            }
            lemma_at_time_none(high, t);
            assert(at_time(after, t) =~= at_time(low, t).push(msg));
            assert(at_time(sorted, t) =~= at_time(low, t));
        }
    }
}

/// The messages of the history in the order of their timestamps; those of one time in the
/// order in which they arrived.
pub fn get_history(state: &SharedState) -> (r: Vec<ChatMessage>)
    ensures
        stably_sorted(
            match history_messages(state.history) {
                Some(messages) => messages,
                None => Seq::empty(),
            },
            r@,
        ),
{
    let messages = history_snapshot(state);
    let mut r: Vec<ChatMessage> = Vec::new();
    let n: usize = messages.len();
    let mut i: usize = 0;
    assert(messages@.take(0) =~= Seq::<ChatMessage>::empty());
    while i < n
        invariant
            i <= n,
            n == messages@.len(),
            stably_sorted(messages@.take(i as int), r@),
            r@.len() == i,
        decreases n - i,
    {
        let msg = messages[i].clone();
        let mut at: usize = r.len();
        while at > 0 && r[at - 1].timestamp > msg.timestamp
            invariant
                at <= r@.len(),
                forall|k: int|
                    at <= k < r@.len() ==> (#[trigger] r@[k]).timestamp > msg.timestamp,
            decreases at,
        {
            at = at - 1;
        }
        proof {
            assert forall|k: int| 0 <= k < at implies (#[trigger] r@[k]).timestamp
                <= msg.timestamp by {
                assert(r@[k].timestamp <= r@[at - 1].timestamp);
            }
            lemma_insert_sorted(messages@.take(i as int), r@, at as int, msg);
            assert(messages@.take(i + 1) =~= messages@.take(i as int).push(msg));
        }
        r.insert(at, msg);
        i = i + 1;
    }
    assert(messages@.take(n as int) =~= messages@);
    r
}

/// A message is among those of its time.
proof fn lemma_at_time_front(messages: Seq<ChatMessage>, i: int)
    requires
        0 <= i < messages.len(),
    ensures
        at_time(messages, messages[i].timestamp).len() > 0,
{
    let t = messages[i].timestamp;
    let low = messages.take(i + 1);
    let high = messages.skip(i + 1);
    assert(messages =~= low + high);
    lemma_at_time_concat(low, high, t);
    assert(low.last() == messages[i]);
}

/// There is one way only to sort a history: two orders that are both stable and chronological
/// are the same.
pub proof fn law_sorted_history_is_unique(
    messages: Seq<ChatMessage>,
    a: Seq<ChatMessage>,
    b: Seq<ChatMessage>,
)
    requires
        stably_sorted(messages, a),
        stably_sorted(messages, b),
    ensures
        a == b,
    decreases a.len(),
{
    assert forall|t: u64| #[trigger] at_time(a, t) == at_time(b, t) by {
        assert(at_time(a, t) == at_time(messages, t));
        assert(at_time(b, t) == at_time(messages, t));
    }
    if a.len() == 0 {
        if b.len() > 0 {
            lemma_at_time_front(b, 0);
            assert(at_time(a, b[0].timestamp) == at_time(b, b[0].timestamp));
        }
        assert(a =~= b);
    } else {
        let ta = a.last().timestamp;
        lemma_at_time_front(a, a.len() - 1);
        assert(at_time(b, ta).len() > 0);
        if b.len() == 0 {
            assert(false);
        }
        let tb = b.last().timestamp;
        lemma_at_time_front(b, b.len() - 1);
        assert(at_time(a, tb).len() > 0);
        if ta < tb {
            assert forall|i: int| 0 <= i < a.len() implies (#[trigger] a[i]).timestamp != tb by {
                assert(a[i].timestamp <= a[a.len() - 1].timestamp);
            }
            lemma_at_time_none(a, tb);
        }
        if tb < ta {
            assert forall|i: int| 0 <= i < b.len() implies (#[trigger] b[i]).timestamp != ta by {
                assert(b[i].timestamp <= b[b.len() - 1].timestamp);
            }
            lemma_at_time_none(b, ta);
        }
        assert(at_time(a, ta) == at_time(b, ta));
        assert(at_time(a, ta).last() == a.last());
        assert(at_time(b, ta).last() == b.last());
        let a1 = a.drop_last();
        let b1 = b.drop_last();
        assert forall|t: u64| #[trigger] at_time(a1, t) == at_time(b1, t) by {
            assert(at_time(a, t) == at_time(b, t));
            if t == ta {
                assert(at_time(a1, t) =~= at_time(a, t).drop_last());
                assert(at_time(b1, t) =~= at_time(b, t).drop_last());
            }
        }
        assert(stably_sorted(b1, a1));
        assert(stably_sorted(b1, b1));
        law_sorted_history_is_unique(b1, a1, b1);
        assert(a =~= a1.push(a.last()));
        assert(b =~= b1.push(b.last()));
    }
}

/// Those payloads that can be sealed, in their order.
pub open spec fn sealable(payloads: Seq<Vec<u8>>) -> Seq<Seq<u8>>
    decreases payloads.len(),
{
    if payloads.len() == 0 {
        Seq::empty()
    } else if payloads.last()@.len() <= MAX_SEALED_LEN {
        sealable(payloads.drop_last()).push(payloads.last()@)
    } else {
        sealable(payloads.drop_last())
    }
}

/// What each envelope holds for someone who has `key`.
pub open spec fn opened_each(key: Seq<u8>, envelopes: Seq<EncryptedEnvelope>) -> Seq<
    Option<Seq<u8>>,
> {
    Seq::new(envelopes.len(), |i: int| crypto::opened(key, envelopes[i].texts()))
}

/// The payloads, each present.
pub open spec fn each_some(payloads: Seq<Seq<u8>>) -> Seq<Option<Seq<u8>>> {
    Seq::new(payloads.len(), |i: int| Some(payloads[i]))
}

/// Whether each envelope seals the payload at its place under `key`, as `crypto::well_sealed` says.
pub open spec fn seals_each(
    key: Seq<u8>,
    envelopes: Seq<EncryptedEnvelope>,
    payloads: Seq<Seq<u8>>,
) -> bool {
    &&& envelopes.len() == payloads.len()
    &&& forall|i: int|
        0 <= i < envelopes.len() ==> crypto::well_sealed(
            key,
            (#[trigger] envelopes[i]).texts(),
            payloads[i],
        )
}

/// Seals the messages of a history, in their encoded form, for a peer that asked for it.
/// Everyone who has the key reads all of them, in their order.
pub fn build_history_response(cipher: &RoomCipher, payloads: &Vec<Vec<u8>>) -> (r:
    HistoryResponse)
    ensures
        r.version == HISTORY_SYNC_VERSION,
        seals_each(cipher@, r.messages@, sealable(payloads@)),
        opened_each(cipher@, r.messages@) == each_some(sealable(payloads@)),
{
    let mut messages: Vec<EncryptedEnvelope> = Vec::new();
    let n: usize = payloads.len();
    let mut i: usize = 0;
    assert(payloads@.take(0) =~= Seq::<Vec<u8>>::empty());
    while i < n
        invariant
            i <= n,
            n == payloads@.len(),
            seals_each(cipher@, messages@, sealable(payloads@.take(i as int))),
            opened_each(cipher@, messages@) =~= each_some(sealable(payloads@.take(i as int))),
        decreases n - i,
    {
        let ghost done = sealable(payloads@.take(i as int));
        let ghost before = messages@;
        assert(payloads@.take(i + 1).drop_last() =~= payloads@.take(i as int));
        if let Some(envelope) = encrypt_bytes(cipher, payloads[i].as_slice()) {
            messages.push(envelope);
            proof {
                let payload = payloads@[i as int]@;
                let next = done.push(payload);
                assert(sealable(payloads@.take(i + 1)) == next);
                assert forall|j: int| 0 <= j < messages@.len() implies crypto::well_sealed(
                    cipher@,
                    (#[trigger] messages@[j]).texts(),
                    next[j],
                ) by {
                    if j < before.len() {
                        assert(messages@[j] == before[j]);
                    }
                }
                assert forall|j: int| 0 <= j < messages@.len() implies opened_each(
                    cipher@,
                    messages@,
                )[j] == each_some(next)[j] by {
                    if j < before.len() {
                        assert(messages@[j] == before[j]);
                        assert(opened_each(cipher@, before)[j] == each_some(done)[j]);
                    }
                }
            }
        }
        i = i + 1;
    }
    assert(payloads@.take(n as int) =~= payloads@);
    HistoryResponse { version: HISTORY_SYNC_VERSION, messages }
}

/// The bytes of optional byte vectors.
pub open spec fn payload_views(payloads: Seq<Option<Vec<u8>>>) -> Seq<Option<Seq<u8>>> {
    Seq::new(
        payloads.len(),
        |i: int|
            match payloads[i] {
                Some(p) => Some(p@),
                None => None,
            },
    )
}

/// Opens the envelopes of a peer's history, each on its own. A response of another version is
/// ignored.
pub fn open_history_response(cipher: &RoomCipher, response: &HistoryResponse) -> (r: Option<
    Vec<Option<Vec<u8>>>,
>)
    ensures
        r is Some == (response.version == HISTORY_SYNC_VERSION),
        r matches Some(payloads) ==> payload_views(payloads@) == opened_each(
            cipher@,
            response.messages@,
        ),
{
    if response.version != HISTORY_SYNC_VERSION {
        return None;
    }
    let mut r: Vec<Option<Vec<u8>>> = Vec::new();
    let n: usize = response.messages.len();
    let mut i: usize = 0;
    while i < n
        invariant
            i <= n,
            n == response.messages@.len(),
            r@.len() == i,
            forall|j: int|
                0 <= j < i ==> #[trigger] payload_views(r@)[j] == crypto::opened(
                    cipher@,
                    response.messages@[j].texts(),
                ),
        decreases n - i,
    {
        let ghost before = r@;
        r.push(decrypt_bytes(cipher, &response.messages[i]));
        assert forall|j: int| 0 <= j < i + 1 implies #[trigger] payload_views(r@)[j]
            == crypto::opened(cipher@, response.messages@[j].texts()) by {
            if j < i {
                assert(payload_views(before)[j] == crypto::opened(
                    cipher@,
                    response.messages@[j].texts(),
                ));
            }
        }
        i = i + 1;
    }
    assert(payload_views(r@) =~= opened_each(cipher@, response.messages@));
    Some(r)
}

/// A history, and what happened to the messages that came in so far.
#[verifier::ext_equal]
pub struct Ingestion {
    pub history: Option<Seq<ChatMessage>>,
    pub fresh: Seq<ChatMessage>,
    pub dup: nat,
    pub failed: nat,
}

/// One more message comes in, or an envelope that gave none.
pub open spec fn ingest_step(so_far: Ingestion, item: Option<ChatMessage>) -> Ingestion {
    match item {
        None => Ingestion { failed: so_far.failed + 1, ..so_far },
        Some(msg) => match so_far.history {
            None => Ingestion { dup: so_far.dup + 1, ..so_far },
            Some(messages) => if has_id(messages, msg.id@) {
                Ingestion { dup: so_far.dup + 1, ..so_far }
            } else {
                Ingestion {
                    history: Some(appended(messages, msg)),
                    fresh: so_far.fresh.push(msg),
                    ..so_far
                }
            },
        },
    }
}

/// All of `items` come in, one after the other.
pub open spec fn ingested(
    history: Option<Seq<ChatMessage>>,
    items: Seq<Option<ChatMessage>>,
) -> Ingestion
    decreases items.len(),
{
    if items.len() == 0 {
        Ingestion { history, fresh: Seq::empty(), dup: 0, failed: 0 }
    } else {
        ingest_step(ingested(history, items.drop_last()), items.last())
    }
}

/// Takes the messages of a peer's history into the own one, each as
/// `append_to_history_if_new` does. `opened` holds nothing where an envelope did not open.
pub fn ingest_history_response(state: &mut SharedState, opened: Vec<Option<ChatMessage>>) -> (r:
    IngestReport)
    ensures
        ({
            let all = ingested(history_messages(old(state).history), opened@);
            &&& history_messages(final(state).history) == all.history
            &&& r.total == opened@.len()
            &&& r.fresh@ == all.fresh
            &&& r.dup == all.dup
            &&& r.decrypt_failed == all.failed
        }),
        r.fresh@.len() + r.dup + r.decrypt_failed == r.total,
        *final(state) == (SharedState { history: final(state).history, ..*old(state) }),
{
    let total: usize = opened.len();
    let mut fresh: Vec<ChatMessage> = Vec::new();
    let mut dup: usize = 0;
    let mut decrypt_failed: usize = 0;
    let mut i: usize = 0;
    assert(opened@.take(0) =~= Seq::<Option<ChatMessage>>::empty());
    while i < total
        invariant
            i <= total,
            total == opened@.len(),
            ({
                let all = ingested(history_messages(old(state).history), opened@.take(i as int));
                &&& history_messages(state.history) == all.history
                &&& fresh@ == all.fresh
                &&& dup == all.dup
                &&& decrypt_failed == all.failed
            }),
            fresh@.len() + dup + decrypt_failed == i,
            *state == (SharedState { history: state.history, ..*old(state) }),
        decreases total - i,
    {
        assert(opened@.take(i + 1).drop_last() =~= opened@.take(i as int));
        match &opened[i] {
            Some(msg) => {
                if append_to_history_if_new(state, msg.clone()) {
                    fresh.push(msg.clone());
                } else {
                    dup = dup + 1;
                }
            },
            None => {
                decrypt_failed = decrypt_failed + 1;
            },
        }
        i = i + 1;
    }
    assert(opened@.take(total as int) =~= opened@);
    IngestReport { total, fresh, dup, decrypt_failed }
}

/// Archives a message that was handed to the publisher. The network does not send a node its
/// own messages, so it keeps them itself; one that was not sent is not kept. Says whether the
/// history changed, and so is to be written.
pub fn send_message(state: &mut SharedState, message: ChatMessage, publication: Publication) -> (r:
    Result<bool, String>)
    ensures
        match publication {
            Publication::Poisoned => r matches Err(e) && e@ == "Publisher lock empoisonné"@,
            Publication::NotReady => r matches Err(e) && e@ == "Publisher non initialisé"@,
            Publication::Failed(reason) => r matches Err(e) && e@ == "Échec d'envoi : "@
                + reason@,
            Publication::Sent => {
                &&& r == Ok::<_, String>(
                    old(state).history is Some && !has_id(old(state).history->0@, message.id@),
                )
                &&& history_messages(final(state).history) == match history_messages(
                    old(state).history,
                ) {
                    Some(messages) => Some(appended(messages, message)),
                    None => None,
                }
            },
        },
        r is Err ==> *final(state) == *old(state),
        *final(state) == (SharedState { history: final(state).history, ..*old(state) }),
{
    match publication {
        Publication::Poisoned => Err("Publisher lock empoisonné".to_owned()),
        Publication::NotReady => Err("Publisher non initialisé".to_owned()),
        Publication::Failed(e) => Err(joined("Échec d'envoi : ", e.as_str())),
        Publication::Sent => Ok(append_to_history_if_new(state, message)),
    }
}

/// Empties the history. Gives back the file that holds it, which is to be removed.
pub fn clear_history(state: &mut SharedState) -> (r: Result<StoredPath, String>)
    ensures
        match old(state).history_store {
            Some(store) => {
                &&& r == Ok::<_, String>(store.path)
                &&& history_messages(final(state).history) == match old(state).history {
                    Some(_) => Some(Seq::<ChatMessage>::empty()),
                    None => None,
                }
            },
            None => {
                &&& r matches Err(e) && e@ == "Store non initialisé"@
                &&& *final(state) == *old(state)
            },
        },
        *final(state) == (SharedState { history: final(state).history, ..*old(state) }),
{
    let path = match &state.history_store {
        Some(store) => store.path.clone(),
        None => {
            return Err("Store non initialisé".to_owned());
        },
    };
    if state.history.is_some() {
        state.history = Some(VecDeque::new());
    }
    Ok(path)
}

/// The messages that a history file gives: none where there is no file or it could not be read
/// (`opened` is then nothing), where it did not open, or where what it holds is no history
/// (`decoded` is then nothing).
pub fn recovered_history(
    opened: Option<Result<Vec<u8>, HistoryFault>>,
    decoded: Option<Vec<ChatMessage>>,
) -> (r: Vec<ChatMessage>)
    ensures
        r@ == match (opened, decoded) {
            (Some(Ok(_)), Some(messages)) => messages@,
            _ => Seq::empty(),
        },
{
    match (opened, decoded) {
        (Some(Ok(_)), Some(messages)) => messages,
        _ => Vec::new(),
    }
}

/// Takes over the history of a room that is being joined, as it was loaded, and its store.
pub fn install_history(state: &mut SharedState, loaded: Vec<ChatMessage>, store: HistoryStore)
    ensures
        history_messages(final(state).history) == Some(loaded@),
        *final(state) == (SharedState {
            history: final(state).history,
            history_store: Some(store),
            ..*old(state)
        }),
{
    let mut history: VecDeque<ChatMessage> = VecDeque::new();
    let n: usize = loaded.len();
    let mut i: usize = 0;
    assert(loaded@.take(0) =~= Seq::<ChatMessage>::empty());
    while i < n
        invariant
            i <= n,
            n == loaded@.len(),
            history@ == loaded@.take(i as int),
        decreases n - i,
    {
        history.push_back(loaded[i].clone());
        assert(loaded@.take(i + 1) =~= loaded@.take(i as int).push(loaded@[i as int]));
        i = i + 1;
    }
    assert(loaded@.take(n as int) =~= loaded@);
    state.history = Some(history);
    state.history_store = Some(store);
}

/// A message that is new ends the history it is added to, and the history is then within the
/// cap. Identifiers that were distinct stay distinct.
pub proof fn law_append_keeps_a_history_sound(messages: Seq<ChatMessage>, msg: ChatMessage)
    ensures
        distinct_ids(messages) ==> distinct_ids(appended(messages, msg)),
        messages.len() <= HISTORY_CAP ==> appended(messages, msg).len() <= HISTORY_CAP,
        !has_id(messages, msg.id@) ==> appended(messages, msg).len() <= HISTORY_CAP && appended(
            messages,
            msg,
        ).last() == msg,
        messages.len() < HISTORY_CAP && !has_id(messages, msg.id@) ==> appended(messages, msg)
            == messages.push(msg),
        has_id(appended(messages, msg), msg.id@),
{
    let after = appended(messages, msg);
    if has_id(messages, msg.id@) {
    } else {
        let all = messages.push(msg);
        assert(after.last() == msg);
        assert(after[after.len() - 1].id@ == msg.id@);
        if distinct_ids(messages) {
            assert forall|i: int, j: int| 0 <= i < j < all.len() implies (
            #[trigger] all[i]).id@ != (#[trigger] all[j]).id@ by {
                assert(all[i] == messages[i]);
                if j < messages.len() {
                    assert(all[j] == messages[j]);
                }
            }
            let cut = all.len() - after.len();
            assert forall|i: int, j: int| 0 <= i < j < after.len() implies (
            #[trigger] after[i]).id@ != (#[trigger] after[j]).id@ by {
                assert(after[i] == all[i + cut]);
                assert(after[j] == all[j + cut]);
            }
        }
    }
}

/// A message that comes in twice in a row changes the history once.
pub proof fn law_append_is_idempotent(messages: Seq<ChatMessage>, msg: ChatMessage)
    ensures
        appended(appended(messages, msg), msg) == appended(messages, msg),
{
    law_append_keeps_a_history_sound(messages, msg);
}

/// The ingestion of a peer's history keeps identifiers distinct and the history within the
/// cap, and accounts for every item: it was new, known, or did not open.
pub proof fn law_ingestion_keeps_a_history_sound(
    messages: Seq<ChatMessage>,
    items: Seq<Option<ChatMessage>>,
)
    ensures
        ingested(Some(messages), items).history is Some,
        distinct_ids(messages) ==> distinct_ids(ingested(Some(messages), items).history->0),
        messages.len() <= HISTORY_CAP ==> ingested(Some(messages), items).history->0.len()
            <= HISTORY_CAP,
        ingested(Some(messages), items).fresh.len() + ingested(Some(messages), items).dup
            + ingested(Some(messages), items).failed == items.len(),
    decreases items.len(),
{
    if items.len() > 0 {
        law_ingestion_keeps_a_history_sound(messages, items.drop_last());
        let before = ingested(Some(messages), items.drop_last());
        if let Some(msg) = items.last() {
            law_append_keeps_a_history_sound(before.history->0, msg);
        }
    }
}

/// While no room is joined, ingestion changes nothing and finds nothing new.
pub proof fn law_ingestion_without_a_room(items: Seq<Option<ChatMessage>>)
    ensures
        ingested(None, items).history is None,
        ingested(None, items).fresh == Seq::<ChatMessage>::empty(),
    decreases items.len(),
{
    if items.len() > 0 {
        law_ingestion_without_a_room(items.drop_last());
    }
}

/// A peer whose messages are all known adds nothing: no message is shown twice.
pub proof fn law_known_messages_add_nothing(
    messages: Seq<ChatMessage>,
    items: Seq<Option<ChatMessage>>,
)
    requires
        forall|i: int|
            0 <= i < items.len() ==> ((#[trigger] items[i]) matches Some(msg) ==> has_id(
                messages,
                msg.id@,
            )),
    ensures
        ingested(Some(messages), items).history == Some(messages),
        ingested(Some(messages), items).fresh == Seq::<ChatMessage>::empty(),
    decreases items.len(),
{
    if items.len() > 0 {
        assert forall|i: int| 0 <= i < items.drop_last().len() implies ((
        #[trigger] items.drop_last()[i]) matches Some(msg) ==> has_id(messages, msg.id@)) by {
            assert(items.drop_last()[i] == items[i]);
        }
        law_known_messages_add_nothing(messages, items.drop_last());
        assert(items.last() == items[items.len() - 1]);
    }
}

/// A peer none of whose envelopes open, such as one of another room, adds nothing: each is
/// counted as unreadable.
pub proof fn law_unreadable_history_adds_nothing(
    history: Option<Seq<ChatMessage>>,
    items: Seq<Option<ChatMessage>>,
)
    requires
        forall|i: int| 0 <= i < items.len() ==> #[trigger] items[i] is None,
    ensures
        ingested(history, items) == (Ingestion {
            history,
            fresh: Seq::empty(),
            dup: 0,
            failed: items.len(),
        }),
    decreases items.len(),
{
    if items.len() > 0 {
        assert forall|i: int| 0 <= i < items.drop_last().len() implies #[trigger]
            items.drop_last()[i] is None by {
            assert(items.drop_last()[i] == items[i]);
        }
        law_unreadable_history_adds_nothing(history, items.drop_last());
        assert(items.last() == items[items.len() - 1]);
    }
}

/// As long as the cap is not reached nothing is lost: the history is the old one followed by
/// the new messages, and every message that opened is in it.
pub proof fn law_nothing_is_lost_below_the_cap(
    messages: Seq<ChatMessage>,
    items: Seq<Option<ChatMessage>>,
)
    requires
        messages.len() + items.len() <= HISTORY_CAP,
    ensures
        ingested(Some(messages), items).history == Some(
            messages + ingested(Some(messages), items).fresh,
        ),
        forall|i: int|
            0 <= i < items.len() ==> ((#[trigger] items[i]) matches Some(msg) ==> has_id(
                ingested(Some(messages), items).history->0,
                msg.id@,
            )),
        ingested(Some(messages), items).fresh.len() <= items.len(),
    decreases items.len(),
{
    let after = ingested(Some(messages), items);
    if items.len() == 0 {
        assert(messages + after.fresh =~= messages);
    } else {
        let rest = items.drop_last();
        law_nothing_is_lost_below_the_cap(messages, rest);
        let before = ingested(Some(messages), rest);
        let held = before.history->0;
        if let Some(msg) = items.last() {
            law_append_keeps_a_history_sound(held, msg);
            if !has_id(held, msg.id@) {
                assert(after.history->0 == held.push(msg));
                assert(after.history->0 =~= messages + after.fresh);
            }
        }
        assert forall|i: int| 0 <= i < items.len() implies ((#[trigger] items[i]) matches Some(
            msg,
        ) ==> has_id(after.history->0, msg.id@)) by {
            if let Some(msg) = items[i] {
                if i < rest.len() {
                    assert(rest[i] == items[i]);
                    let k = choose|k: int|
                        0 <= k < held.len() && (#[trigger] held[k]).id@ == msg.id@;
                    assert(after.history->0[k] == held[k]);
                }
            }
        }
    }
}

/// The messages, each present.
pub open spec fn each_message(messages: Seq<ChatMessage>) -> Seq<Option<ChatMessage>> {
    Seq::new(messages.len(), |i: int| Some(messages[i]))
}

/// One who joins late with an empty history ends up with exactly the history of the peer.
pub proof fn law_a_late_joiner_gets_the_history(messages: Seq<ChatMessage>)
    requires
        messages.len() <= HISTORY_CAP,
        distinct_ids(messages),
    ensures
        ingested(Some(Seq::empty()), each_message(messages)).history == Some(messages),
        ingested(Some(Seq::empty()), each_message(messages)).fresh == messages,
    decreases messages.len(),
{
    let items = each_message(messages);
    let empty = Seq::<ChatMessage>::empty();
    if messages.len() == 0 {
        assert(items =~= Seq::<Option<ChatMessage>>::empty());
        assert(messages =~= empty);
    } else {
        let rest = messages.drop_last();
        assert(items.drop_last() =~= each_message(rest));
        assert forall|i: int, j: int| 0 <= i < j < rest.len() implies (#[trigger] rest[i]).id@ != (
        #[trigger] rest[j]).id@ by {
            assert(rest[i] == messages[i]);
            assert(rest[j] == messages[j]);
        }
        law_a_late_joiner_gets_the_history(rest);
        let msg = messages.last();
        assert(!has_id(rest, msg.id@)) by {
            if has_id(rest, msg.id@) {
                let k = choose|k: int| 0 <= k < rest.len() && (#[trigger] rest[k]).id@ == msg.id@;
                assert(rest[k] == messages[k]);
                assert(messages[messages.len() - 1] == msg);
            }
        }
        law_append_keeps_a_history_sound(rest, msg);
        assert(rest.push(msg) =~= messages);
    }
}

proof fn lemma_sealable_all(payloads: Seq<Vec<u8>>)
    requires
        forall|i: int| 0 <= i < payloads.len() ==> (#[trigger] payloads[i])@.len()
            <= MAX_SEALED_LEN,
    ensures
        sealable(payloads).len() == payloads.len(),
        forall|i: int| 0 <= i < payloads.len() ==> #[trigger] sealable(payloads)[i]
            == payloads[i]@,
    decreases payloads.len(),
{
    if payloads.len() > 0 {
        let rest = payloads.drop_last();
        assert forall|i: int| 0 <= i < rest.len() implies (#[trigger] rest[i])@.len()
            <= MAX_SEALED_LEN by {
            assert(rest[i] == payloads[i]);
        }
        lemma_sealable_all(rest);
        assert(payloads.last() == payloads[payloads.len() - 1]);
        assert forall|i: int| 0 <= i < payloads.len() implies #[trigger] sealable(payloads)[i]
            == payloads[i]@ by {
            if i < rest.len() {
                assert(sealable(rest)[i] == rest[i]@);
            }
        }
    }
}

/// What is sent to a peer that asks for a history holds no more messages than that history: a
/// history within the cap makes a response within the cap.
pub proof fn law_responses_are_within_the_cap(payloads: Seq<Vec<u8>>)
    ensures
        sealable(payloads).len() <= payloads.len(),
        payloads.len() <= HISTORY_CAP ==> sealable(payloads).len() <= HISTORY_CAP,
    decreases payloads.len(),
{
    if payloads.len() > 0 {
        law_responses_are_within_the_cap(payloads.drop_last());
    }
}

/// A history that was sealed for a peer and opened there under the same key arrives whole and
/// in order. `sealed` is what `build_history_response` made of `payloads`, and `read` what
/// `open_history_response` made of that.
pub proof fn law_history_sync_round_trip(
    key: Seq<u8>,
    payloads: Seq<Vec<u8>>,
    sealed: Seq<EncryptedEnvelope>,
    read: Seq<Option<Vec<u8>>>,
)
    requires
        forall|i: int| 0 <= i < payloads.len() ==> (#[trigger] payloads[i])@.len()
            <= MAX_SEALED_LEN,
        opened_each(key, sealed) == each_some(sealable(payloads)),
        payload_views(read) == opened_each(key, sealed),
    ensures
        read.len() == payloads.len(),
        forall|i: int|
            0 <= i < payloads.len() ==> ((#[trigger] read[i]) matches Some(p) && p@
                == payloads[i]@),
{
    lemma_sealable_all(payloads);
    assert(payload_views(read).len() == payloads.len());
    assert forall|i: int| 0 <= i < payloads.len() implies ((#[trigger] read[i]) matches Some(p)
        && p@ == payloads[i]@) by {
        assert(payload_views(read)[i] == each_some(sealable(payloads))[i]);
    }
}

/// Rooms whose topics differ keep their histories in different files.
pub proof fn law_rooms_keep_separate_files(code: Seq<char>, other: Seq<char>)
    requires
        crate::room::room_topic(code) != crate::room::room_topic(other),
    ensures
        topic_file_name(crate::room::room_topic(code)) != topic_file_name(
            crate::room::room_topic(other),
        ),
{
    let prefix = APP_TAG@ + "-"@;
    let a = crate::room::room_topic(code);
    let b = crate::room::room_topic(other);
    let n = prefix.len() as int;
    assert(a.subrange(0, n) =~= prefix);
    assert(b.subrange(0, n) =~= prefix);
    if topic_file_name(a) == topic_file_name(b) {
        let fa = topic_file_name(a);
        let k = fa.len() - ".bin"@.len();
        assert(fa.take(k) =~= a.skip(n));
        assert(topic_file_name(b).take(k) =~= b.skip(n));
        assert(a =~= prefix + a.skip(n));
        assert(b =~= prefix + b.skip(n));
    }
}

/// A history file gives something under another key only where, with its nonce, both keys make
/// the very same ciphertext, tag included: of what was saved, and of what the other reads. `read`
/// is what `load` gave under the other key.
pub proof fn law_another_key_needs_the_same_file(
    key: Seq<u8>,
    other: Seq<u8>,
    nonce: Seq<u8>,
    json: Seq<u8>,
    read: Seq<u8>,
)
    requires
        nonce.len() == NONCE_LEN,
        opened_file(other, history_file(key, nonce, json)) == Ok::<_, HistoryFault>(read),
        history_file(key, nonce, json) == history_file(
            other,
            history_file(key, nonce, json).take(NONCE_LEN as int),
            read,
        ),
    ensures
        primitives::aead_sealed(key, nonce, json) == primitives::aead_sealed(other, nonce, read),
{
    let file = history_file(key, nonce, json);
    assert(file.take(NONCE_LEN as int) =~= nonce);
    assert(file.skip(NONCE_LEN as int) =~= primitives::aead_sealed(key, nonce, json));
    assert(history_file(other, nonce, read).skip(NONCE_LEN as int) =~= primitives::aead_sealed(
        other,
        nonce,
        read,
    ));
}

} // verus!
