//! Room codes, and what a room derives from its code.

use crate::primitives;
use crate::primitives::{hex_encode, sha256_digest, sha256_feed, sha256_start};
use crate::text;
use crate::text::{joined, trim};
use crate::types::{ManagerCmd, RoomConfig, RoomStatusResp, APP_TAG};
use vstd::prelude::*;
use vstd::slice::slice_subrange;
use vstd::string::*;
use vstd::utf8::*;

verus! {

/// Longest room code, in bytes of UTF-8.
pub const MAX_CODE_BYTES: usize = 120;

/// The symmetric key of the room with this code: `SHA256("lan-chat-v1|key|" + code)`.
pub open spec fn room_key(code: Seq<char>) -> Seq<u8> {
    primitives::sha256(encode_utf8("lan-chat-v1|key|"@ + code))
}

/// The topic of the room with this code: the tag, a dash, and the first eight bytes of
/// `SHA256("lan-chat-v1|topic|" + code)` in hexadecimal.
pub open spec fn room_topic(code: Seq<char>) -> Seq<char> {
    APP_TAG@ + "-"@ + primitives::hex_text(
        primitives::sha256(encode_utf8("lan-chat-v1|topic|"@ + code)).take(8),
    )
}

/// What a code that a user typed comes to: the code of the room, or why it is refused.
pub open spec fn checked_code(typed: Seq<char>) -> Result<Seq<char>, Seq<char>> {
    let code = text::trimmed(typed);
    if code.len() == 0 {
        Err("Le code de salon ne peut pas être vide."@)
    } else if encode_utf8(code).len() > MAX_CODE_BYTES {
        Err("Code de salon trop long (max 120 caractères)."@)
    } else {
        Ok(code)
    }
}

/// White space is gone from the end.
proof fn lemma_trimmed_end(s: Seq<char>)
    ensures
        text::trimmed_end(s).len() <= s.len(),
        text::trimmed_end(s) == s.take(text::trimmed_end(s).len() as int),
        text::trimmed_end(s).len() > 0 ==> !text::is_white_space(text::trimmed_end(s).last()),
    decreases s.len(),
{
    if s.len() > 0 && text::is_white_space(s.last()) {
        lemma_trimmed_end(s.drop_last());
        let n = text::trimmed_end(s).len() as int;
        assert(s.drop_last().take(n) =~= s.take(n));
    } else {
        assert(s.take(s.len() as int) =~= s);
    }
}

/// White space is gone from the beginning.
proof fn lemma_trimmed_start(s: Seq<char>)
    ensures
        text::trimmed_start(s).len() > 0 ==> !text::is_white_space(text::trimmed_start(s)[0]),
    decreases s.len(),
{
    if s.len() > 0 && text::is_white_space(s[0]) {
        lemma_trimmed_start(s.drop_first());
    }
}

/// A room code that was accepted is not empty, is within the limit and has no white space at
/// its ends; typed once more, it is accepted as it stands.
pub proof fn law_accepted_code_is_stable(typed: Seq<char>)
    requires
        checked_code(typed) is Ok,
    ensures
        ({
            let code = checked_code(typed)->Ok_0;
            &&& code.len() > 0
            &&& encode_utf8(code).len() <= MAX_CODE_BYTES
            &&& !text::is_white_space(code[0])
            &&& !text::is_white_space(code.last())
            &&& checked_code(code) == Ok::<_, Seq<char>>(code)
        }),
{
    let start = text::trimmed_start(typed);
    let code = text::trimmed(typed);
    lemma_trimmed_start(typed);
    lemma_trimmed_end(start);
    assert(code[0] == start[0]);
    assert(text::trimmed_start(code) == code);
    assert(text::trimmed_end(code) == code);
}

/// Codes that differ only in the white space around them name the same room: its topic and its
/// key are the same.
pub proof fn law_same_code_same_room(typed: Seq<char>, other: Seq<char>)
    requires
        text::trimmed(typed) == text::trimmed(other),
    ensures
        checked_code(typed) == checked_code(other),
        checked_code(typed) is Ok ==> {
            &&& room_topic(checked_code(typed)->Ok_0) == room_topic(checked_code(other)->Ok_0)
            &&& room_key(checked_code(typed)->Ok_0) == room_key(checked_code(other)->Ok_0)
        },
{
}

/// The encoding of two texts in a row is that of the first, then that of the second.
pub(crate) proof fn lemma_encode_concat(a: Seq<char>, b: Seq<char>)
    ensures
        encode_utf8(a + b) == encode_utf8(a) + encode_utf8(b),
    decreases a.len(),
{
    if a.len() == 0 {
        assert(a + b =~= b);
        assert(encode_utf8(a) + encode_utf8(b) =~= encode_utf8(b));
    } else {
        lemma_encode_concat(a.drop_first(), b);
        assert((a + b).drop_first() =~= a.drop_first() + b);
        assert((a + b)[0] == a[0]);
        assert(encode_utf8(a + b) =~= encode_utf8(a) + encode_utf8(b));
    }
}

/// The digest of two texts in a row.
fn digest_of(prefix: &str, code: &str) -> (r: [u8; 32])
    ensures
        r@ == primitives::sha256(encode_utf8(prefix@ + code@)),
{
    let mut hasher = sha256_start();
    sha256_feed(&mut hasher, prefix.as_bytes());
    sha256_feed(&mut hasher, code.as_bytes());
    proof {
        lemma_encode_concat(prefix@, code@);
        assert(Seq::<u8>::empty() + encode_utf8(prefix@) =~= encode_utf8(prefix@));
    }
    sha256_digest(hasher)
}

/// The topic that a digest makes: the tag, a dash, and its first eight bytes in hexadecimal.
pub fn topic_of(digest: &[u8; 32]) -> (r: String)
    ensures
        r@ == APP_TAG@ + "-"@ + primitives::hex_text(digest@.take(8)),
        r@.len() == 28,
{
    let head = slice_subrange(digest.as_slice(), 0, 8);
    assert(head@ =~= digest@.take(8));
    proof {
        reveal_strlit("-");
        reveal_strlit("lan-chat-v1");
    }
    joined(joined(APP_TAG, "-").as_str(), hex_encode(head).as_str())
}

/// The topic and the key of the room with this code. Both are functions of the code alone, so
/// everyone who knows the code derives the same ones.
pub fn derive_room(code: &str) -> (r: (String, [u8; 32]))
    ensures
        r.0@ == room_topic(code@),
        r.0@.len() == 28,
        r.1@ == room_key(code@),
{
    let key = digest_of("lan-chat-v1|key|", code);
    let digest = digest_of("lan-chat-v1|topic|", code);
    (topic_of(&digest), key)
}

/// Checks a code that a user typed, and makes the configuration of its room.
pub fn set_room_code(code: &str) -> (r: Result<RoomConfig, String>)
    ensures
        match r {
            Ok(config) => checked_code(code@) == Ok::<_, Seq<char>>(config.code@)
                && config.version == 1,
            Err(e) => checked_code(code@) == Err::<Seq<char>, _>(e@),
        },
{
    let trimmed = trim(code);
    if trimmed.is_empty() {
        return Err("Le code de salon ne peut pas être vide.".to_owned());
    }
    if trimmed.as_bytes().len() > MAX_CODE_BYTES {
        return Err("Code de salon trop long (max 120 caractères).".to_owned());
    }
    Ok(RoomConfig { version: 1, code: trimmed.to_owned() })
}

/// Whether a room is configured, and its name.
pub fn get_room_status(config: Option<RoomConfig>) -> (r: RoomStatusResp)
    ensures
        r.configured == config is Some,
        r.room_name == match config {
            Some(c) => Some(c.code),
            None => None,
        },
{
    match config {
        Some(c) => RoomStatusResp { configured: true, room_name: Some(c.code) },
        None => RoomStatusResp { configured: false, room_name: None },
    }
}

/// The command by which a configured room is joined, once its configuration was saved.
pub fn start_room(config: RoomConfig, saved: Result<(), String>) -> (r: Result<ManagerCmd, String>)
    ensures
        match saved {
            Ok(()) => r == Ok::<_, String>(ManagerCmd::StartRoom(config)),
            Err(e) => r matches Err(m) && m@ == "Écriture de room.json : "@ + e@,
        },
{
    match saved {
        Ok(()) => Ok(ManagerCmd::StartRoom(config)),
        Err(e) => Err(joined("Écriture de room.json : ", e.as_str())),
    }
}

/// The command by which the room is left, once its configuration was deleted.
pub fn leave_room(deleted: Result<(), String>) -> (r: Result<ManagerCmd, String>)
    ensures
        match deleted {
            Ok(()) => r == Ok::<_, String>(ManagerCmd::LeaveRoom),
            Err(e) => r matches Err(m) && m@ == "Suppression de room.json : "@ + e@,
        },
{
    match deleted {
        Ok(()) => Ok(ManagerCmd::LeaveRoom),
        Err(e) => Err(joined("Suppression de room.json : ", e.as_str())),
    }
}

/// Another name for leaving the room.
pub fn reset_room(deleted: Result<(), String>) -> (r: Result<ManagerCmd, String>)
    ensures
        match deleted {
            Ok(()) => r == Ok::<_, String>(ManagerCmd::LeaveRoom),
            Err(e) => r matches Err(m) && m@ == "Suppression de room.json : "@ + e@,
        },
{
    leave_room(deleted)
}

/// What became of a command that was sent to the manager.
#[derive(Debug, PartialEq, Eq)]
pub enum Delivery {
    /// There is no manager yet.
    NotReady,
    /// The manager is gone, with this reason.
    Closed(String),
    Sent,
}

/// What the user is told of a command that was sent to the manager.
pub fn command_outcome(delivery: Delivery) -> (r: Result<(), String>)
    ensures
        match delivery {
            Delivery::NotReady => r matches Err(m) && m@ == "Manager non initialisé"@,
            Delivery::Closed(e) => r matches Err(m) && m@ == "Canal manager fermé : "@ + e@,
            Delivery::Sent => r is Ok,
        },
{
    match delivery {
        Delivery::NotReady => Err("Manager non initialisé".to_owned()),
        Delivery::Closed(e) => Err(joined("Canal manager fermé : ", e.as_str())),
        Delivery::Sent => Ok(()),
    }
}

} // verus!
