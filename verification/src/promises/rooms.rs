//! Promises of rooms and their codes.
#![allow(unused_imports)]

use crate::history::history_path_for;
use crate::primitives;
use crate::promises::texts;
use crate::room;
use crate::room::{
    command_outcome, derive_room, get_room_status, leave_room, reset_room, set_room_code,
    start_room, topic_of, Delivery,
};
use crate::swarm::{open_room, RoomSetup};
use crate::types::{ManagerCmd, RoomConfig, RoomStatusResp, StoredPath};
use vstd::prelude::*;
use vstd::utf8::*;

verus! {

/// The value of a lower-case hexadecimal digit; -1 where `c` is none.
pub open spec fn hex_value(c: char) -> int {
    if '0' <= c && c <= '9' {
        c as int - '0' as int
    } else if 'a' <= c && c <= 'f' {
        c as int - 'a' as int + 10
    } else {
        -1
    }
}

/// Whether `s` spells `bytes` in lower-case hexadecimal.
pub open spec fn spells_bytes(s: Seq<char>, bytes: Seq<u8>) -> bool {
    &&& s.len() == 2 * bytes.len()
    &&& forall|i: int|
        0 <= i < bytes.len() ==> {
            &&& hex_value(s[2 * i]) >= 0
            &&& hex_value(s[2 * i + 1]) >= 0
            &&& hex_value(s[2 * i]) * 16 + hex_value(s[2 * i + 1]) == #[trigger] bytes[i]
        }
}

pub(crate) proof fn lemma_hex_text(bytes: Seq<u8>)
    ensures
        spells_bytes(primitives::hex_text(bytes), bytes),
{
    let s = primitives::hex_text(bytes);
    assert forall|i: int| 0 <= i < bytes.len() implies {
        &&& hex_value(s[2 * i]) >= 0
        &&& hex_value(s[2 * i + 1]) >= 0
        &&& hex_value(s[2 * i]) * 16 + hex_value(s[2 * i + 1]) == #[trigger] bytes[i]
    } by {
        let b = bytes[i];
        assert((2 * i) / 2 == i && (2 * i) % 2 == 0);
        assert((2 * i + 1) / 2 == i && (2 * i + 1) % 2 == 1);
        assert(s[2 * i] == primitives::hex_digit(b / 16));
        assert(s[2 * i + 1] == primitives::hex_digit(b % 16));
        lemma_hex_digit((b / 16) as u8);
        lemma_hex_digit((b % 16) as u8);
    }
}

proof fn lemma_hex_digit(d: u8)
    requires
        d < 16,
    ensures
        hex_value(primitives::hex_digit(d)) == d,
{
}

/// The bytes that are hashed for the key of the room with this code.
pub open spec fn key_input(code: Seq<char>) -> Seq<u8> {
    encode_utf8("lan-chat-v1|key|"@) + encode_utf8(code)
}

/// The bytes that are hashed for the topic of the room with this code.
pub open spec fn topic_input(code: Seq<char>) -> Seq<u8> {
    encode_utf8("lan-chat-v1|topic|"@) + encode_utf8(code)
}

/// The key of a room is the digest of a fixed prefix followed by every byte of its code, however
/// long; its topic is the tag, a dash, and sixteen digits that spell the first eight bytes of the
/// digest of another prefix followed by every byte of the code.
pub proof fn law_the_whole_code_makes_the_room(code: &str, r: (String, [u8; 32]))
    requires
        call_ensures(derive_room, (code,), r),
    ensures
        r.1@ == primitives::sha256(key_input(code@)),
        r.0@.len() == 28,
        r.0@.take(12) == "lan-chat-v1-"@,
        spells_bytes(r.0@.skip(12), primitives::sha256(topic_input(code@)).take(8)),
{
    room::lemma_encode_concat("lan-chat-v1|key|"@, code@);
    room::lemma_encode_concat("lan-chat-v1|topic|"@, code@);
    let head = primitives::sha256(topic_input(code@)).take(8);
    reveal_strlit("-");
    reveal_strlit("lan-chat-v1");
    reveal_strlit("lan-chat-v1-");
    assert(r.0@.take(12) =~= "lan-chat-v1-"@);
    assert(r.0@.skip(12) =~= primitives::hex_text(head));
    lemma_hex_text(head);
}

/// A topic shows the first eight bytes of the digest that it is made of.
pub proof fn law_a_topic_shows_its_digest(digest: &[u8; 32], r: String)
    requires
        call_ensures(topic_of, (digest,), r),
    ensures
        r@.len() == 28,
        r@.take(12) == "lan-chat-v1-"@,
        spells_bytes(r@.skip(12), digest@.take(8)),
{
    reveal_strlit("-");
    reveal_strlit("lan-chat-v1");
    reveal_strlit("lan-chat-v1-");
    assert(r@.take(12) =~= "lan-chat-v1-"@);
    assert(r@.skip(12) =~= primitives::hex_text(digest@.take(8)));
    lemma_hex_text(digest@.take(8));
}

proof fn lemma_inputs_differ(prefix: Seq<char>, a: Seq<char>, b: Seq<char>)
    requires
        a != b,
    ensures
        encode_utf8(prefix) + encode_utf8(a) != encode_utf8(prefix) + encode_utf8(b),
{
    encode_utf8_decode_utf8(a);
    encode_utf8_decode_utf8(b);
    let p = encode_utf8(prefix);
    let x = p + encode_utf8(a);
    let y = p + encode_utf8(b);
    assert(x.skip(p.len() as int) =~= encode_utf8(a));
    assert(y.skip(p.len() as int) =~= encode_utf8(b));
}

/// Different codes make different rooms: what is hashed for their keys differs, and so does what
/// is hashed for their topics. So two codes share a key or a topic only where the digests of
/// different inputs agree.
pub proof fn law_different_codes_hash_different_inputs(
    a: &str,
    b: &str,
    ra: (String, [u8; 32]),
    rb: (String, [u8; 32]),
)
    requires
        a@ != b@,
        call_ensures(derive_room, (a,), ra),
        call_ensures(derive_room, (b,), rb),
    ensures
        exists|x: Seq<u8>, y: Seq<u8>|
            x != y && ra.1@ == #[trigger] primitives::sha256(x) && rb.1@
                == #[trigger] primitives::sha256(y),
        exists|x: Seq<u8>, y: Seq<u8>|
            x != y && spells_bytes(ra.0@.skip(12), (#[trigger] primitives::sha256(x)).take(8))
                && spells_bytes(rb.0@.skip(12), (#[trigger] primitives::sha256(y)).take(8)),
        key_input(a@) != key_input(b@),
        topic_input(a@) != topic_input(b@),
{
    law_the_whole_code_makes_the_room(a, ra);
    law_the_whole_code_makes_the_room(b, rb);
    lemma_inputs_differ("lan-chat-v1|key|"@, a@, b@);
    lemma_inputs_differ("lan-chat-v1|topic|"@, a@, b@);
    assert(ra.1@ == primitives::sha256(key_input(a@)));
    assert(rb.1@ == primitives::sha256(key_input(b@)));
    let x = topic_input(a@);
    let y = topic_input(b@);
    assert(spells_bytes(ra.0@.skip(12), primitives::sha256(x).take(8)));
    assert(spells_bytes(rb.0@.skip(12), primitives::sha256(y).take(8)));
}

/// Keys and topics are kept apart: what is hashed for a key is never what is hashed for a topic.
pub proof fn law_keys_and_topics_are_kept_apart(a: Seq<char>, b: Seq<char>)
    ensures
        key_input(a) != topic_input(b),
{
    room::lemma_encode_concat("lan-chat-v1|key|"@, a);
    room::lemma_encode_concat("lan-chat-v1|topic|"@, b);
    let x = "lan-chat-v1|key|"@ + a;
    let y = "lan-chat-v1|topic|"@ + b;
    encode_utf8_decode_utf8(x);
    encode_utf8_decode_utf8(y);
    reveal_strlit("lan-chat-v1|key|");
    reveal_strlit("lan-chat-v1|topic|");
    assert(x[12] == 'k');
    assert(y[12] == 't');
}

/// Of what a user typed, white space around the code is taken away and nothing else. Codes of one
/// to 120 bytes are taken as they are; an empty one and a longer one are refused, each in its own
/// words.
pub proof fn law_typed_codes_are_judged_by_what_is_between_the_blanks(
    typed: &str,
    r: Result<RoomConfig, String>,
    before: Seq<char>,
    code: Seq<char>,
    after: Seq<char>,
)
    requires
        call_ensures(set_room_code, (typed,), r),
        typed@ == before + code + after,
        texts::is_blank(before),
        texts::is_blank(after),
        texts::is_tight(code),
    ensures
        code.len() > 0 && encode_utf8(code).len() <= 120 ==> (r matches Ok(config) && config.code@
            == code && config.version == 1),
        code.len() == 0 ==> (r matches Err(e) && e@
            == "Le code de salon ne peut pas être vide."@),
        code.len() > 0 && encode_utf8(code).len() > 120 ==> (r matches Err(e) && e@
            == "Code de salon trop long (max 120 caractères)."@),
{
    texts::lemma_trimmed_decomposition(before, code, after);
}

/// Everything that a node needs in a room follows from its code: two nodes with the same code have
/// the same topic and the same key, keep their history in a file named after the topic, under that
/// key, and have asked nobody for a history yet.
pub proof fn law_nodes_with_one_code_meet(
    a: &RoomConfig,
    b: &RoomConfig,
    code: &str,
    derived: (String, [u8; 32]),
    ra: Result<RoomSetup, String>,
    rb: Result<RoomSetup, String>,
)
    requires
        a.code@ == b.code@,
        code@ == a.code@,
        call_ensures(derive_room, (code,), derived),
        call_ensures(open_room, (a,), ra),
        call_ensures(open_room, (b,), rb),
    ensures
        ra matches Ok(x) && rb matches Ok(y) && {
            &&& x.topic@ == derived.0@
            &&& y.topic@ == derived.0@
            &&& x.session.cipher@ == derived.1@
            &&& y.session.cipher@ == derived.1@
            &&& x.store.key@ == derived.1@
            &&& x.store.path.folder@ == "history"@
            &&& x.store.path.name@ == derived.0@.skip(12) + ".bin"@
            &&& forall|p: Seq<char>| !(#[trigger] x.session.synced_peers@.contains_key(p))
        },
{
    law_the_whole_code_makes_the_room(code, derived);
    reveal_strlit("-");
    reveal_strlit("lan-chat-v1");
    reveal_strlit("lan-chat-v1-");
    let prefix = "lan-chat-v1"@ + "-"@;
    assert(prefix =~= "lan-chat-v1-"@);
    assert(derived.0@.subrange(0, 12) =~= derived.0@.take(12));
    assert(prefix.is_prefix_of(derived.0@));
}

/// The file of a history is named after what follows the tag in the topic, and after the whole
/// topic where it has no tag.
pub proof fn law_histories_are_named_after_their_topics(
    topic: &str,
    rest: Seq<char>,
    r: StoredPath,
)
    requires
        call_ensures(history_path_for, (topic,), r),
    ensures
        r.folder@ == "history"@,
        topic@ == "lan-chat-v1-"@ + rest ==> r.name@ == rest + ".bin"@,
        (topic@.len() < 12 || topic@.take(12) != "lan-chat-v1-"@) ==> r.name@ == topic@ + ".bin"@,
{
    reveal_strlit("-");
    reveal_strlit("lan-chat-v1");
    reveal_strlit("lan-chat-v1-");
    let prefix = "lan-chat-v1"@ + "-"@;
    assert(prefix =~= "lan-chat-v1-"@);
    if topic@ == prefix + rest {
        assert(topic@.subrange(0, 12) =~= prefix);
        assert(topic@.skip(12) =~= rest);
    }
    if prefix.is_prefix_of(topic@) {
        assert(topic@.take(12) =~= topic@.subrange(0, 12));
    }
}

/// Whatever the room, it is joined once its configuration was saved, and left once it was deleted;
/// otherwise the reason is told and no command is given.
pub proof fn law_rooms_are_joined_and_left(
    config: RoomConfig,
    done: Result<(), String>,
    started: Result<ManagerCmd, String>,
    left: Result<ManagerCmd, String>,
    reset: Result<ManagerCmd, String>,
)
    requires
        call_ensures(start_room, (config, done), started),
        call_ensures(leave_room, (done,), left),
        call_ensures(reset_room, (done,), reset),
    ensures
        done is Ok ==> started == Ok::<_, String>(ManagerCmd::StartRoom(config)) && left == Ok::<
            _,
            String,
        >(ManagerCmd::LeaveRoom) && reset == left,
        done matches Err(e) ==> (started matches Err(m) && m@ == "Écriture de room.json : "@ + e@),
        done matches Err(e) ==> (left matches Err(m) && m@ == "Suppression de room.json : "@
            + e@),
        done matches Err(e) ==> (reset matches Err(m) && m@ == "Suppression de room.json : "@
            + e@),
{
}

/// A command succeeds exactly where it was sent, and a room is reported exactly where one is
/// configured.
pub proof fn law_commands_and_rooms_are_reported(
    delivery: Delivery,
    told: Result<(), String>,
    config: Option<RoomConfig>,
    status: RoomStatusResp,
)
    requires
        call_ensures(command_outcome, (delivery,), told),
        call_ensures(get_room_status, (config,), status),
    ensures
        told is Ok <==> delivery == Delivery::Sent,
        delivery == Delivery::NotReady ==> told->Err_0@ == "Manager non initialisé"@,
        delivery matches Delivery::Closed(e) ==> told->Err_0@ == "Canal manager fermé : "@ + e@,
        status.configured <==> config is Some,
        config matches Some(c) ==> status.room_name == Some(c.code),
        config is None ==> status.room_name is None,
{
}

} // verus!
