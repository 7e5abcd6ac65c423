//! Promises of histories: what is kept, in which order it is shown, and what a peer gives.
#![allow(unused_imports)]

use crate::app_state::SharedState;
use crate::history;
use crate::history::{
    append_to_history, append_to_history_if_new, clear_history, get_history, history_snapshot,
    ingest_history_response, install_history, recovered_history, send_message, HistoryFault,
    HistoryRequest, HistoryStore, IngestReport, Publication,
};
use crate::swarm::{handle_swarm_event, Session, SwarmAction, SwarmInput};
use crate::types::{ChatMessage, StoredPath};
use std::collections::VecDeque;
use vstd::prelude::*;

verus! {

/// Whether no message of `held` has this identifier.
pub open spec fn is_unknown(held: Seq<ChatMessage>, id: Seq<char>) -> bool {
    forall|i: int| 0 <= i < held.len() ==> (#[trigger] held[i]).id@ != id
}

/// Whether `kept` is the end of `all`: all of it up to 500 messages, else the last 500.
pub open spec fn is_newest_of(all: Seq<ChatMessage>, kept: Seq<ChatMessage>) -> bool {
    &&& kept.len() == if all.len() <= 500 {
        all.len()
    } else {
        500
    }
    &&& forall|i: int|
        0 <= i < kept.len() ==> #[trigger] kept[i] == all[all.len() - kept.len() + i]
}

proof fn lemma_newest(all: Seq<ChatMessage>)
    ensures
        is_newest_of(all, history::newest(all)),
{
}

proof fn lemma_unknown(held: Seq<ChatMessage>, id: Seq<char>)
    ensures
        is_unknown(held, id) <==> !history::has_id(held, id),
{
    if !is_unknown(held, id) {
        let i = choose|i: int| 0 <= i < held.len() && (#[trigger] held[i]).id@ == id;
        assert(held[i].id@ == id);
    }
}

/// A message whose identifier the history does not hold is added at its end, however long the
/// history is, and then the last 500 are kept; one whose identifier it holds changes nothing.
/// Outside a room nothing is kept.
pub proof fn law_unknown_messages_are_appended(
    state: &mut SharedState,
    msg: ChatMessage,
    added: bool,
)
    requires
        call_ensures(append_to_history_if_new, (state, msg), added),
    ensures
        old(state).history is None ==> !added && *final(state) == *old(state),
        old(state).history is Some && is_unknown(old(state).history->0@, msg.id@) ==> {
            &&& added
            &&& final(state).history is Some
            &&& is_newest_of(old(state).history->0@.push(msg), final(state).history->0@)
            &&& final(state).history->0@.last() == msg
        },
        old(state).history is Some && !is_unknown(old(state).history->0@, msg.id@) ==> !added
            && *final(state) == *old(state),
        final(state).node == old(state).node,
        final(state).history_store == old(state).history_store,
        final(state).served_files == old(state).served_files,
        final(state).received_offers == old(state).received_offers,
        final(state).active_downloads == old(state).active_downloads,
{
    if old(state).history is Some {
        lemma_unknown(old(state).history->0@, msg.id@);
        lemma_newest(old(state).history->0@.push(msg));
    }
}

/// The same of `append_to_history`.
pub proof fn law_appending_is_appending_if_new(
    state: &mut SharedState,
    other: &mut SharedState,
    msg: ChatMessage,
    done: (),
    added: bool,
)
    requires
        *old(state) == *old(other),
        call_ensures(append_to_history, (state, msg), done),
        call_ensures(append_to_history_if_new, (other, msg), added),
    ensures
        final(state).history is Some <==> final(other).history is Some,
        final(state).history is Some ==> final(state).history->0@ == final(other).history->0@,
        *final(state) == (SharedState { history: final(state).history, ..*old(state) }),
{
}

/// What a user sends is archived as any message is, once it was published; what was not published
/// changes nothing, and the reason is told.
pub proof fn law_sent_messages_are_archived(
    state: &mut SharedState,
    other: &mut SharedState,
    msg: ChatMessage,
    publication: Publication,
    r: Result<bool, String>,
    added: bool,
)
    requires
        *old(state) == *old(other),
        call_ensures(send_message, (state, msg, publication), r),
        call_ensures(append_to_history_if_new, (other, msg), added),
    ensures
        publication == Publication::Sent ==> {
            &&& r == Ok::<_, String>(added)
            &&& final(state).history is Some <==> final(other).history is Some
            &&& final(state).history is Some ==> final(state).history->0@ == final(other).history->0@
        },
        publication != Publication::Sent ==> r is Err && *final(state) == *old(state),
        publication == Publication::Poisoned ==> r->Err_0@ == "Publisher lock empoisonné"@,
        publication == Publication::NotReady ==> r->Err_0@ == "Publisher non initialisé"@,
        publication matches Publication::Failed(e) ==> r->Err_0@ == "Échec d'envoi : "@ + e@,
        *final(state) == (SharedState { history: final(state).history, ..*old(state) }),
{
}

/// After ingestion the history is the newest 500 of the old one followed by the fresh messages.
proof fn lemma_ingested(held: Seq<ChatMessage>, items: Seq<Option<ChatMessage>>)
    ensures
        history::ingested(Some(held), items).history is Some,
        history::ingested(Some(held), items).fresh.len() == 0 ==> history::ingested(
            Some(held),
            items,
        ).history == Some(held),
        history::ingested(Some(held), items).fresh.len() > 0 ==> is_newest_of(
            held + history::ingested(Some(held), items).fresh,
            history::ingested(Some(held), items).history->0,
        ),
    decreases items.len(),
{
    if items.len() > 0 {
        let rest = items.drop_last();
        lemma_ingested(held, rest);
        let before = history::ingested(Some(held), rest);
        let after = history::ingested(Some(held), items);
        if let Some(msg) = items.last() {
            let h = before.history->0;
            if !history::has_id(h, msg.id@) {
                assert(after.fresh == before.fresh.push(msg));
                lemma_newest(h.push(msg));
                let all = held + before.fresh;
                assert(held + after.fresh =~= all.push(msg));
                if before.fresh.len() == 0 {
                    assert(all =~= held);
                }
                let k = after.history->0;
                assert forall|i: int| 0 <= i < k.len() implies #[trigger] k[i] == all.push(
                    msg,
                )[all.len() + 1 - k.len() + i] by {
                    assert(k[i] == h.push(msg)[h.len() + 1 - k.len() + i]);
                }
            }
        }
    }
}

/// Whatever a peer sends, and however long the own history is: each item is new, known or
/// unreadable; the new ones are told in order; and the history is then the newest 500 of the old
/// one followed by the new ones.
pub proof fn law_ingestion_keeps_the_newest_of_old_and_fresh(
    state: &mut SharedState,
    items: Vec<Option<ChatMessage>>,
    r: IngestReport,
)
    requires
        call_ensures(ingest_history_response, (state, items), r),
    ensures
        r.total == items@.len(),
        r.fresh@.len() + r.dup + r.decrypt_failed == items@.len(),
        old(state).history is Some ==> final(state).history is Some,
        old(state).history is Some && r.fresh@.len() > 0 ==> is_newest_of(
            old(state).history->0@ + r.fresh@,
            final(state).history->0@,
        ),
        old(state).history is Some && r.fresh@.len() == 0 ==> final(state).history->0@ == old(state).history->0@,
        old(state).history is None ==> final(state).history is None && r.fresh@.len() == 0,
        final(state).node == old(state).node,
        final(state).history_store == old(state).history_store,
        final(state).served_files == old(state).served_files,
        final(state).received_offers == old(state).received_offers,
        final(state).active_downloads == old(state).active_downloads,
{
    if old(state).history is Some {
        lemma_ingested(old(state).history->0@, items@);
    } else {
        history::law_ingestion_without_a_room(items@);
    }
}

/// One more item, at any length of the history: if it could not be read it is counted so; if the
/// history holds its identifier by then it is counted as known; else it is told as new, it ends
/// the history, and it is counted as neither.
pub proof fn law_each_item_is_judged_by_what_is_held_by_then(
    state: &mut SharedState,
    other: &mut SharedState,
    items: Vec<Option<ChatMessage>>,
    more: Vec<Option<ChatMessage>>,
    item: Option<ChatMessage>,
    r: IngestReport,
    s: IngestReport,
)
    requires
        *old(state) == *old(other),
        more@ == items@.push(item),
        call_ensures(ingest_history_response, (state, items), r),
        call_ensures(ingest_history_response, (other, more), s),
    ensures
        item is None ==> {
            &&& s.fresh@ == r.fresh@
            &&& s.dup == r.dup
            &&& s.decrypt_failed == r.decrypt_failed + 1
        },
        item is Some && old(state).history is Some && is_unknown(
            final(state).history->0@,
            item->0.id@,
        ) ==> {
            &&& s.fresh@ == r.fresh@.push(item->0)
            &&& s.dup == r.dup
            &&& s.decrypt_failed == r.decrypt_failed
            &&& final(other).history is Some
            &&& is_newest_of(
                final(state).history->0@.push(item->0),
                final(other).history->0@,
            )
            &&& final(other).history->0@.last() == item->0
        },
        item is Some && (old(state).history is None || !is_unknown(
            final(state).history->0@,
            item->0.id@,
        )) ==> {
            &&& s.fresh@ == r.fresh@
            &&& s.dup == r.dup + 1
            &&& s.decrypt_failed == r.decrypt_failed
        },
        s.fresh@.len() == r.fresh@.len() ==> (final(other).history is Some <==> final(state).history is Some),
        s.fresh@.len() == r.fresh@.len() && final(state).history is Some ==> final(other).history->0@ == final(state).history->0@,
{
    assert(more@.drop_last() =~= items@);
    assert(more@.last() == item);
    let h = history::history_messages(old(state).history);
    let before = history::ingested(h, items@);
    if old(state).history is Some {
        lemma_ingested(old(state).history->0@, items@);
        if let Some(msg) = item {
            lemma_unknown(final(state).history->0@, msg.id@);
            lemma_newest(final(state).history->0@.push(msg));
        }
    } else {
        history::law_ingestion_without_a_room(items@);
    }
}

/// Nothing comes of nothing.
pub proof fn law_an_empty_response_changes_nothing(
    state: &mut SharedState,
    items: Vec<Option<ChatMessage>>,
    r: IngestReport,
)
    requires
        items@.len() == 0,
        call_ensures(ingest_history_response, (state, items), r),
    ensures
        r.total == 0 && r.fresh@.len() == 0 && r.dup == 0 && r.decrypt_failed == 0,
        final(state).history is Some <==> old(state).history is Some,
        old(state).history is Some ==> final(state).history->0@ == old(state).history->0@,
{
}

/// Whether the items are messages with identifiers of their own, none of which is held.
pub open spec fn are_all_new(held: Seq<ChatMessage>, items: Seq<Option<ChatMessage>>) -> bool {
    &&& forall|i: int| 0 <= i < items.len() ==> (#[trigger] items[i]) is Some
    &&& forall|i: int| 0 <= i < items.len() ==> is_unknown(held, (#[trigger] items[i])->0.id@)
    &&& forall|i: int, j: int|
        0 <= i < j < items.len() ==> (#[trigger] items[i])->0.id@ != (#[trigger] items[j])->0.id@
}

proof fn lemma_all_new(held: Seq<ChatMessage>, items: Seq<Option<ChatMessage>>)
    requires
        are_all_new(held, items),
    ensures
        history::ingested(Some(held), items).fresh == items.map_values(
            |item: Option<ChatMessage>| item->0,
        ),
        history::ingested(Some(held), items).dup == 0,
        history::ingested(Some(held), items).failed == 0,
    decreases items.len(),
{
    let pick = |item: Option<ChatMessage>| item->0;
    if items.len() == 0 {
        assert(items.map_values(pick) =~= Seq::<ChatMessage>::empty());
    } else {
        let rest = items.drop_last();
        assert forall|i: int| 0 <= i < rest.len() implies (#[trigger] rest[i]) is Some
            && is_unknown(held, rest[i]->0.id@) by {
            assert(rest[i] == items[i]);
        }
        assert forall|i: int, j: int| 0 <= i < j < rest.len() implies (#[trigger] rest[i])->0.id@
            != (#[trigger] rest[j])->0.id@ by {
            assert(rest[i] == items[i]);
            assert(rest[j] == items[j]);
        }
        lemma_all_new(held, rest);
        lemma_ingested(held, rest);
        let before = history::ingested(Some(held), rest);
        let last = items[items.len() - 1];
        let msg = last->0;
        let h = before.history->0;
        let all = held + before.fresh;
        assert(is_unknown(h, msg.id@)) by {
            assert forall|i: int| 0 <= i < h.len() implies (#[trigger] h[i]).id@ != msg.id@ by {
                let k = if before.fresh.len() == 0 {
                    i
                } else {
                    all.len() - h.len() + i
                };
                assert(h[i] == all[k]);
                if k < held.len() {
                    assert(held[k].id@ != msg.id@);
                } else {
                    let j = k - held.len();
                    assert(all[k] == before.fresh[j]);
                    assert(before.fresh[j] == rest[j]->0);
                    assert(rest[j] == items[j]);
                    assert(items[j]->0.id@ != items[items.len() - 1]->0.id@);
                }
            }
        }
        lemma_unknown(h, msg.id@);
        assert(items.map_values(pick) =~= rest.map_values(pick).push(msg));
    }
}

/// Messages that are all new are all taken over and told, in their order, however full the history
/// is: none is passed over, and the newest 500 of all are kept.
pub proof fn law_new_messages_are_all_taken_over(
    state: &mut SharedState,
    items: Vec<Option<ChatMessage>>,
    r: IngestReport,
)
    requires
        old(state).history is Some,
        are_all_new(old(state).history->0@, items@),
        items@.len() > 0,
        call_ensures(ingest_history_response, (state, items), r),
    ensures
        r.fresh@.len() == items@.len(),
        forall|i: int| 0 <= i < items@.len() ==> #[trigger] r.fresh@[i] == items@[i]->0,
        r.dup == 0,
        r.decrypt_failed == 0,
        final(state).history is Some,
        is_newest_of(old(state).history->0@ + r.fresh@, final(state).history->0@),
{
    lemma_all_new(old(state).history->0@, items@);
    lemma_ingested(old(state).history->0@, items@);
}

/// The snapshot of a history is all of it, in its order.
pub proof fn law_a_snapshot_is_the_whole_history(state: &SharedState, r: Vec<ChatMessage>)
    requires
        call_ensures(history_snapshot, (state,), r),
    ensures
        state.history is Some ==> r@.len() == state.history->0@.len(),
        state.history is Some ==> forall|i: int|
            0 <= i < r@.len() ==> #[trigger] r@[i] == state.history->0@[i],
        state.history is None ==> r@.len() == 0,
{
}

proof fn lemma_at_time_is_a_filter(messages: Seq<ChatMessage>, t: u64)
    ensures
        history::at_time(messages, t) == messages.filter(|m: ChatMessage| m.timestamp == t),
    decreases messages.len(),
{
    reveal(Seq::filter);
    if messages.len() > 0 {
        lemma_at_time_is_a_filter(messages.drop_last(), t);
    }
}

/// How often `msg` occurs in `messages`.
pub open spec fn occurrences(messages: Seq<ChatMessage>, msg: ChatMessage) -> nat
    decreases messages.len(),
{
    if messages.len() == 0 {
        0
    } else {
        occurrences(messages.drop_last(), msg) + if messages.last() == msg {
            1nat
        } else {
            0nat
        }
    }
}

proof fn lemma_occurrences_at_time(messages: Seq<ChatMessage>, msg: ChatMessage)
    ensures
        occurrences(messages, msg) == occurrences(
            history::at_time(messages, msg.timestamp),
            msg,
        ),
    decreases messages.len(),
{
    if messages.len() > 0 {
        lemma_occurrences_at_time(messages.drop_last(), msg);
        let rest = history::at_time(messages.drop_last(), msg.timestamp);
        if messages.last().timestamp == msg.timestamp {
            assert(rest.push(messages.last()).drop_last() =~= rest);
        }
    }
}

/// The history is shown by time: every message of it as often as it is held and nothing else, an
/// earlier one never after a later one, and those of one time in the order in which they are held.
pub proof fn law_the_history_is_shown_by_time(
    state: &SharedState,
    r: Vec<ChatMessage>,
    msg: ChatMessage,
    t: u64,
)
    requires
        call_ensures(get_history, (state,), r),
        state.history is Some,
    ensures
        forall|i: int, j: int|
            0 <= i < j < r@.len() ==> (#[trigger] r@[i]).timestamp <= (#[trigger] r@[j]).timestamp,
        occurrences(r@, msg) == occurrences(state.history->0@, msg),
        r@.filter(|m: ChatMessage| m.timestamp == t) == state.history->0@.filter(
            |m: ChatMessage| m.timestamp == t,
        ),
{
    let held = state.history->0@;
    lemma_at_time_is_a_filter(r@, t);
    lemma_at_time_is_a_filter(held, t);
    assert(history::at_time(r@, t) == history::at_time(held, t));
    lemma_occurrences_at_time(r@, msg);
    lemma_occurrences_at_time(held, msg);
    assert(history::at_time(r@, msg.timestamp) == history::at_time(held, msg.timestamp));
}

/// Outside a room there is no history to show.
pub proof fn law_outside_a_room_nothing_is_shown(state: &SharedState, r: Vec<ChatMessage>)
    requires
        call_ensures(get_history, (state,), r),
        state.history is None,
    ensures
        r@.len() == 0,
{
    if r@.len() > 0 {
        let t = r@[0].timestamp;
        assert(history::at_time(r@, t) == history::at_time(Seq::<ChatMessage>::empty(), t));
        lemma_occurrences_at_time(r@, r@[0]);
        lemma_occurs(r@, 0);
    }
}

proof fn lemma_occurs(messages: Seq<ChatMessage>, i: int)
    requires
        0 <= i < messages.len(),
    ensures
        occurrences(messages, messages[i]) > 0,
    decreases messages.len(),
{
    if i < messages.len() - 1 {
        lemma_occurs(messages.drop_last(), i);
    }
}

/// Clearing empties the history of the room and names its file; without a room it is refused.
pub proof fn law_clearing_empties_the_history(
    state: &mut SharedState,
    r: Result<StoredPath, String>,
)
    requires
        call_ensures(clear_history, (state,), r),
    ensures
        old(state).history_store matches Some(store) ==> r == Ok::<_, String>(store.path),
        old(state).history_store is Some && old(state).history is Some ==> final(state).history is Some && final(state).history->0@.len() == 0,
        old(state).history_store is None ==> *final(state) == *old(state) && (r matches Err(e)
            && e@ == "Store non initialisé"@),
        old(state).history is None ==> final(state).history is None,
        *final(state) == (SharedState { history: final(state).history, ..*old(state) }),
{
}

/// A history that was loaded is taken over whole and in order, with its store, and a file that
/// gave nothing gives an empty history.
pub proof fn law_a_loaded_history_is_taken_over(
    state: &mut SharedState,
    opened: Option<Result<Vec<u8>, HistoryFault>>,
    decoded: Option<Vec<ChatMessage>>,
    loaded: Vec<ChatMessage>,
    store: HistoryStore,
    done: (),
)
    requires
        call_ensures(recovered_history, (opened, decoded), loaded),
        call_ensures(install_history, (state, loaded, store), done),
    ensures
        final(state).history is Some,
        (opened matches Some(Ok(_))) && decoded is Some ==> final(state).history->0@
            == decoded->0@,
        !((opened matches Some(Ok(_))) && decoded is Some) ==> final(state).history->0@.len() == 0,
        final(state).history_store == Some(store),
        final(state).node == old(state).node,
        final(state).served_files == old(state).served_files,
        final(state).received_offers == old(state).received_offers,
        final(state).active_downloads == old(state).active_downloads,
{
}

/// A node that is asked for its history sends every message that it holds, in order, however many
/// there are; and one who joins late, with no message yet, then holds them too: all of them up to
/// 500, else the newest 500. Nothing changes at the node that was asked.
pub proof fn law_a_late_joiner_gets_what_the_other_holds(
    session: &mut Session,
    state: &mut SharedState,
    request: HistoryRequest,
    actions: Vec<SwarmAction>,
    joiner: &mut SharedState,
    items: Vec<Option<ChatMessage>>,
    r: IngestReport,
)
    requires
        request.version == 1,
        call_ensures(
            handle_swarm_event,
            (session, state, SwarmInput::HistoryRequested(request)),
            actions,
        ),
        old(state).history is Some,
        forall|i: int, j: int|
            0 <= i < j < old(state).history->0@.len() ==> (#[trigger] old(state).history->0@[i]).id@ != (#[trigger] old(state).history->0@[j]).id@,
        old(joiner).history is Some,
        old(joiner).history->0@.len() == 0,
        actions@.len() == 1 && actions@[0] is SendHistory ==> items@
            == actions@[0]->SendHistory_0@.map_values(|m: ChatMessage| Some(m)),
        call_ensures(ingest_history_response, (joiner, items), r),
    ensures
        *final(state) == *old(state),
        actions@.len() == 1,
        actions@[0] is SendHistory,
        actions@[0]->SendHistory_0@.len() == old(state).history->0@.len(),
        forall|i: int|
            0 <= i < old(state).history->0@.len() ==> #[trigger] actions@[0]->SendHistory_0@[i]
                == old(state).history->0@[i],
        r.fresh@ == old(state).history->0@,
        final(joiner).history is Some,
        is_newest_of(old(state).history->0@, final(joiner).history->0@),
        old(state).history->0@.len() <= 500 ==> final(joiner).history->0@ == old(state).history->0@,
{
    let held = old(state).history->0@;
    let none = Seq::<ChatMessage>::empty();
    assert(old(joiner).history->0@ =~= none);
    assert forall|i: int| 0 <= i < items@.len() implies #[trigger] items@[i] == Some(held[i]) by {}
    assert(are_all_new(none, items@)) by {
        assert forall|i: int, j: int| 0 <= i < j < items@.len() implies (
        #[trigger] items@[i])->0.id@ != (#[trigger] items@[j])->0.id@ by {
            assert(held[i].id@ != held[j].id@);
        }
    }
    lemma_all_new(none, items@);
    lemma_ingested(none, items@);
    assert(r.fresh@ =~= held);
    assert(none + r.fresh@ =~= held);
    if held.len() == 0 {
        assert(final(joiner).history->0@ =~= held);
    }
    if held.len() <= 500 {
        assert(final(joiner).history->0@ =~= held);
    }
}

/// A request of another version gets no answer.
pub proof fn law_requests_of_another_version_get_no_answer(
    session: &mut Session,
    state: &mut SharedState,
    request: HistoryRequest,
    actions: Vec<SwarmAction>,
)
    requires
        request.version != 1,
        call_ensures(
            handle_swarm_event,
            (session, state, SwarmInput::HistoryRequested(request)),
            actions,
        ),
    ensures
        *final(state) == *old(state),
        actions@ == seq![SwarmAction::DropRequest],
{
    assert(actions@ =~= seq![SwarmAction::DropRequest]);
}

} // verus!
