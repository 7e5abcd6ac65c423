//! Promises of a node in the network: what it does on each event, and how it changes rooms.
#![allow(unused_imports)]

use crate::app_state::{
    active_downloads_cell, clear_shared_state, get_node_status, history_cell, history_store_cell,
    node_state, received_offers_cell, served_files_cell, set_node_status, SharedState,
};
use crate::crypto::decrypt_bytes;
use crate::files::{
    open_chunk, serve_chunk, ChunkRequest, ChunkResponse, ChunkStep, DownloadState, ServePlan,
    ServedFile,
};
use crate::history::{
    append_to_history_if_new, open_history_response, HistoryRequest, HistoryResponse,
    HistoryStore,
};
use crate::identity::Identity;
use crate::manager::{
    boot, identity_failed, swarm_failed, ManagerStep, NextRoom, SwarmManager,
};
use crate::registry::Registry;
use crate::swarm;
use crate::swarm::{
    handle_swarm_event, handle_wire_message, node_ready, Session, SwarmAction, SwarmInput,
    WireAction,
};
use crate::types::{
    ChatMessage, EncryptedEnvelope, FileOffer, ManagerCmd, NodeReadyPayload, NodeStatus,
    RoomConfig, StoredPath, WireMessage,
};
use std::collections::VecDeque;
use vstd::prelude::*;

verus! {

/// The peers that the actions add, in order.
pub open spec fn added_peers(actions: Seq<SwarmAction>) -> Seq<String>
    decreases actions.len(),
{
    if actions.len() == 0 {
        Seq::empty()
    } else {
        match actions.last() {
            SwarmAction::AddExplicitPeer(peer) => added_peers(actions.drop_last()).push(peer),
            _ => added_peers(actions.drop_last()),
        }
    }
}

/// How many of the actions ask this peer for its history.
pub open spec fn times_asked(actions: Seq<SwarmAction>, peer: Seq<char>) -> nat
    decreases actions.len(),
{
    if actions.len() == 0 {
        0
    } else {
        times_asked(actions.drop_last(), peer) + match actions.last() {
            SwarmAction::RequestHistory { peer: asked, .. } => if asked@ == peer {
                1nat
            } else {
                0nat
            },
            _ => 0nat,
        }
    }
}

/// Whether each action of a discovery is in its place: a peer is added; one that was just added may
/// be asked for its history, under version one; and that it was asked is announced at once.
pub open spec fn is_in_place(actions: Seq<SwarmAction>, i: int) -> bool {
    match actions[i] {
        SwarmAction::AddExplicitPeer(_) => true,
        SwarmAction::RequestHistory { peer, request } => {
            &&& request.version == 1
            &&& i > 0 && actions[i - 1] == SwarmAction::AddExplicitPeer(peer)
            &&& i + 1 < actions.len() && actions[i + 1] == SwarmAction::AnnounceSyncStart(peer)
        },
        SwarmAction::AnnounceSyncStart(peer) => {
            &&& i > 0
            &&& actions[i - 1] matches SwarmAction::RequestHistory { peer: asked, .. } && asked
                == peer
        },
        _ => false,
    }
}

proof fn lemma_push(actions: Seq<SwarmAction>, action: SwarmAction, peer: Seq<char>)
    ensures
        added_peers(actions.push(action)) == (match action {
            SwarmAction::AddExplicitPeer(p) => added_peers(actions).push(p),
            _ => added_peers(actions),
        }),
        times_asked(actions.push(action), peer) == times_asked(actions, peer) + (match action {
            SwarmAction::RequestHistory { peer: asked, .. } => if asked@ == peer {
                1nat
            } else {
                0nat
            },
            _ => 0nat,
        }),
{
    assert(actions.push(action).drop_last() =~= actions);
}

/// Whether this peer is among those.
pub open spec fn is_among(peers: Seq<String>, peer: Seq<char>) -> bool {
    exists|i: int| 0 <= i < peers.len() && (#[trigger] peers[i])@ == peer
}

proof fn lemma_discovered(synced: Set<Seq<char>>, peers: Seq<String>, peer: Seq<char>)
    ensures
        added_peers(swarm::discovered(synced, peers).actions) == peers,
        times_asked(swarm::discovered(synced, peers).actions, peer) == if is_among(peers, peer)
            && !synced.contains(peer) {
            1nat
        } else {
            0nat
        },
        forall|i: int|
            0 <= i < swarm::discovered(synced, peers).actions.len() ==> #[trigger] is_in_place(
                swarm::discovered(synced, peers).actions,
                i,
            ),
        swarm::discovered(synced, peers).synced.contains(peer) <==> synced.contains(peer)
            || is_among(peers, peer),
    decreases peers.len(),
{
    let actions = swarm::discovered(synced, peers).actions;
    if peers.len() == 0 {
        assert(added_peers(actions) =~= peers);
    } else {
        let rest = peers.drop_last();
        let last = peers.last();
        lemma_discovered(synced, rest, peer);
        lemma_discovered(synced, rest, last@);
        let before = swarm::discovered(synced, rest);
        let add = SwarmAction::AddExplicitPeer(last);
        let request = SwarmAction::RequestHistory {
            peer: last,
            request: HistoryRequest { version: 1 },
        };
        let announce = SwarmAction::AnnounceSyncStart(last);
        let one = before.actions.push(add);
        let two = one.push(request);
        lemma_push(before.actions, add, peer);
        lemma_push(one, request, peer);
        lemma_push(two, announce, peer);
        assert(rest.push(last) =~= peers);
        assert(actions == if before.synced.contains(last@) {
            one
        } else {
            two.push(announce)
        });
        assert(is_among(peers, peer) <==> is_among(rest, peer) || last@ == peer) by {
            if is_among(rest, peer) {
                let i = choose|i: int| 0 <= i < rest.len() && (#[trigger] rest[i])@ == peer;
                assert(peers[i]@ == peer);
            }
            if last@ == peer {
                assert(peers[peers.len() - 1]@ == peer);
            }
            if is_among(peers, peer) && last@ != peer {
                let i = choose|i: int| 0 <= i < peers.len() && (#[trigger] peers[i])@ == peer;
                assert(rest[i]@ == peer);
            }
        }
        assert forall|i: int| 0 <= i < actions.len() implies #[trigger] is_in_place(
            actions,
            i,
        ) by {
            let n = before.actions.len() as int;
            if i < n {
                assert(is_in_place(before.actions, i));
                assert(actions[i] == before.actions[i]);
                if i > 0 {
                    assert(actions[i - 1] == before.actions[i - 1]);
                }
                if i + 1 < n {
                    assert(actions[i + 1] == before.actions[i + 1]);
                }
            } else if i == n {
                assert(actions[i] == add);
            } else if i == n + 1 {
                assert(actions[i] == request);
                assert(actions[n] == add);
                assert(actions[n + 2] == announce);
            } else {
                assert(actions[i] == announce);
                assert(actions[n + 1] == request);
            }
        }
    }
}

/// Every peer that is discovered is added, in order and each time; a peer that the session has not
/// asked yet is asked for its history once, under version one, right after it was added, and that
/// is announced; one that was asked before is not asked again. Afterwards the session has asked
/// those it had asked and those discovered. Nothing else changes.
pub proof fn law_discovered_peers_are_added_and_asked_once(
    session: &mut Session,
    state: &mut SharedState,
    peers: Vec<String>,
    actions: Vec<SwarmAction>,
    peer: Seq<char>,
)
    requires
        call_ensures(
            handle_swarm_event,
            (session, state, SwarmInput::Discovered(peers)),
            actions,
        ),
    ensures
        added_peers(actions@) == peers@,
        times_asked(actions@, peer) == if is_among(peers@, peer) && !old(session).synced_peers@.contains_key(peer) {
            1nat
        } else {
            0nat
        },
        forall|i: int| 0 <= i < actions@.len() ==> #[trigger] is_in_place(actions@, i),
        final(session).synced_peers@.contains_key(peer) <==> old(session).synced_peers@.contains_key(peer) || is_among(peers@, peer),
        final(session).cipher == old(session).cipher,
        *final(state) == *old(state),
{
    lemma_discovered(old(session).synced_peers@.dom(), peers@, peer);
}

/// Over two discoveries of one session, whatever happened between them that left the peers asked as
/// they were, each peer is asked once at most.
pub proof fn law_a_peer_is_asked_once_a_session(
    session: &mut Session,
    state: &mut SharedState,
    peers: Vec<String>,
    actions: Vec<SwarmAction>,
    later_session: &mut Session,
    later_state: &mut SharedState,
    later_peers: Vec<String>,
    later_actions: Vec<SwarmAction>,
    peer: Seq<char>,
)
    requires
        call_ensures(
            handle_swarm_event,
            (session, state, SwarmInput::Discovered(peers)),
            actions,
        ),
        old(later_session).synced_peers == final(session).synced_peers,
        call_ensures(
            handle_swarm_event,
            (later_session, later_state, SwarmInput::Discovered(later_peers)),
            later_actions,
        ),
    ensures
        times_asked(actions@, peer) + times_asked(later_actions@, peer) <= 1,
{
    law_discovered_peers_are_added_and_asked_once(session, state, peers, actions, peer);
    law_discovered_peers_are_added_and_asked_once(
        later_session,
        later_state,
        later_peers,
        later_actions,
        peer,
    );
}

/// No event but a discovery changes whom the session has asked, and none changes its cipher.
pub proof fn law_only_discoveries_change_who_was_asked(
    session: &mut Session,
    state: &mut SharedState,
    event: SwarmInput,
    actions: Vec<SwarmAction>,
    peer: Seq<char>,
)
    requires
        event !is Discovered,
        call_ensures(handle_swarm_event, (session, state, event), actions),
    ensures
        final(session).synced_peers@.contains_key(peer) <==> old(session).synced_peers@.contains_key(peer),
        final(session).cipher == old(session).cipher,
{
    assert(final(session).synced_peers@.dom().contains(peer) <==> old(session).synced_peers@.dom().contains(peer));
}

/// Every peer that expired is no longer an explicit one, in order; nothing else is done.
pub proof fn law_expired_peers_are_removed(
    session: &mut Session,
    state: &mut SharedState,
    peers: Vec<String>,
    actions: Vec<SwarmAction>,
)
    requires
        call_ensures(handle_swarm_event, (session, state, SwarmInput::Expired(peers)), actions),
    ensures
        actions@.len() == peers@.len(),
        forall|i: int|
            0 <= i < peers@.len() ==> #[trigger] actions@[i] == SwarmAction::RemoveExplicitPeer(
                peers@[i],
            ),
        *final(state) == *old(state),
{
}

/// What was published is decoded exactly where it is an envelope that opens under the key of the
/// session, and then the bytes that it opens to; otherwise nothing is done.
pub proof fn law_what_opens_is_decoded(
    session: &mut Session,
    state: &mut SharedState,
    envelope: Option<EncryptedEnvelope>,
    actions: Vec<SwarmAction>,
    read: Option<Vec<u8>>,
)
    requires
        call_ensures(handle_swarm_event, (session, state, SwarmInput::Gossip(envelope)), actions),
        envelope is Some ==> call_ensures(
            decrypt_bytes,
            (&old(session).cipher, &envelope->0),
            read,
        ),
    ensures
        envelope is Some && read is Some ==> actions@.len() == 1 && (
        actions@[0] matches SwarmAction::Decode(bytes) && bytes@ == read->0@),
        envelope is None || read is None ==> actions@.len() == 0,
        *final(state) == *old(state),
{
}

/// A request for a chunk is answered as `serve_chunk` plans, and an answer is taken as `open_chunk`
/// decides; other answers, and other events, lead to nothing.
pub proof fn law_chunks_are_served_and_taken(
    session: &mut Session,
    state: &mut SharedState,
    req: ChunkRequest,
    actions: Vec<SwarmAction>,
    plan: ServePlan,
    session2: &mut Session,
    state2: &mut SharedState,
    file_id: String,
    data: EncryptedEnvelope,
    read: Option<Vec<u8>>,
    actions2: Vec<SwarmAction>,
    session3: &mut Session,
    state3: &mut SharedState,
    event: SwarmInput,
    actions3: Vec<SwarmAction>,
)
    requires
        call_ensures(
            handle_swarm_event,
            (session, state, SwarmInput::ChunkRequested(req)),
            actions,
        ),
        call_ensures(
            handle_swarm_event,
            (
                session2,
                state2,
                SwarmInput::ChunkAnswered(ChunkResponse::Chunk { file_id, data }),
            ),
            actions2,
        ),
        call_ensures(serve_chunk, (&*old(state), &req), plan),
        call_ensures(decrypt_bytes, (&old(session2).cipher, &data), read),
        event is Other || event == SwarmInput::ChunkAnswered(ChunkResponse::NotFound) || (
        event matches SwarmInput::ChunkAnswered(r) && r is Error),
        call_ensures(handle_swarm_event, (session3, state3, event), actions3),
    ensures
        actions@.len() == 1,
        actions@[0] is ServeChunk,
        req.version == 1 && old(state).served_files@.contains_key(req.file_id@) && req.offset < old(state).served_files@[req.file_id@].size ==> (
        actions@[0]->ServeChunk_0 matches ServePlan::Read { path, offset, length } && path == old(state).served_files@[req.file_id@].path && offset == req.offset && (length == req.length
            || offset + length == old(state).served_files@[req.file_id@].size) && length
            <= req.length && offset + length <= old(state).served_files@[req.file_id@].size),
        req.version == 1 && !old(state).served_files@.contains_key(req.file_id@)
            ==> actions@[0]->ServeChunk_0 == ServePlan::Reply(ChunkResponse::NotFound),
        plan is Read ==> actions@[0]->ServeChunk_0 == plan,
        plan == ServePlan::Reply(ChunkResponse::NotFound) ==> actions@[0]->ServeChunk_0 == plan,
        plan matches ServePlan::Reply(ChunkResponse::Error { message }) ==> (
        actions@[0]->ServeChunk_0 matches ServePlan::Reply(ChunkResponse::Error { message: m })
            && m@ == message@),
        *final(state) == *old(state),
        actions2@.len() == 1,
        actions2@[0] is TakeChunk,
        actions2@[0]->file_id == file_id,
        read is Some && old(state2).active_downloads@.contains_key(file_id@) ==> (
        actions2@[0]->step matches ChunkStep::Write { path, data: bytes } && path == old(state2).active_downloads@[file_id@].temp_path && bytes@ == read->0@),
        read is Some ==> *final(state2) == *old(state2),
        read is Some && !old(state2).active_downloads@.contains_key(file_id@)
            ==> actions2@[0]->step == ChunkStep::Ignored,
        read is None ==> (actions2@[0]->step matches ChunkStep::Failed { message } && message@
            == "decrypt failed"@) && !final(state2).active_downloads@.contains_key(file_id@),
        actions3@.len() == 0,
        *final(state3) == *old(state3),
{
}

/// A peer's history is handed on to be ingested, each envelope as it opens at its place, where it
/// is of version one; whatever came, and also where the peer could not be asked, it is announced
/// last that the exchange with that peer is over.
pub proof fn law_every_exchange_of_histories_ends(
    session: &mut Session,
    state: &mut SharedState,
    peer: String,
    response: HistoryResponse,
    actions: Vec<SwarmAction>,
    i: int,
    read: Option<Vec<u8>>,
    session2: &mut Session,
    state2: &mut SharedState,
    actions2: Vec<SwarmAction>,
)
    requires
        call_ensures(
            handle_swarm_event,
            (session, state, SwarmInput::HistoryAnswered { peer, response }),
            actions,
        ),
        call_ensures(decrypt_bytes, (&old(session).cipher, &response.messages@[i]), read),
        call_ensures(
            handle_swarm_event,
            (session2, state2, SwarmInput::HistoryFailed { peer }),
            actions2,
        ),
    ensures
        actions@.len() > 0,
        actions@.last() == SwarmAction::AnnounceSyncEnd(peer),
        response.version == 1 ==> actions@.len() == 2 && actions@[0] is IngestHistory && (
        actions@[0]->IngestHistory_0)@.len() == response.messages@.len(),
        response.version == 1 && 0 <= i < response.messages@.len() && read is None ==> (actions@[0]->IngestHistory_0)@[i] is None,
        response.version == 1 && 0 <= i < response.messages@.len() && read is Some ==> ((
        actions@[0]->IngestHistory_0)@[i] matches Some(p) && p@ == read->0@),
        response.version != 1 ==> actions@.len() == 1,
        *final(state) == *old(state),
        actions2@ == seq![SwarmAction::AnnounceSyncEnd(peer)],
        *final(state2) == *old(state2),
{
    if response.version == 1 {
        let payloads = (actions@[0]->IngestHistory_0)@;
        let views = crate::history::payload_views(payloads);
        assert(views.len() == payloads.len());
        assert(crate::history::opened_each(old(session).cipher@, response.messages@).len()
            == response.messages@.len());
        assert(0 <= i < views.len() ==> views[i] == crate::history::opened_each(
            old(session).cipher@,
            response.messages@,
        )[i]);
    }
}

/// A chat message is archived as any message is, and shown exactly where it was added. An offer is
/// noted under its identifier and shown, always; other offers stay. What could not be decoded leads
/// to nothing.
pub proof fn law_messages_are_archived_and_offers_noted(
    state: &mut SharedState,
    message: Option<WireMessage>,
    action: WireAction,
    other: &mut SharedState,
    added: bool,
    id: Seq<char>,
)
    requires
        call_ensures(handle_wire_message, (state, message), action),
        *old(other) == *old(state),
        message matches Some(WireMessage::Chat(msg)) ==> call_ensures(
            append_to_history_if_new,
            (other, msg),
            added,
        ),
    ensures
        message is None ==> action == WireAction::Ignore && *final(state) == *old(state),
        message matches Some(WireMessage::Chat(msg)) ==> action == (if added {
            WireAction::ShowMessage(msg)
        } else {
            WireAction::Ignore
        }),
        message matches Some(WireMessage::Chat(msg)) ==> {
            &&& final(state).history is Some <==> final(other).history is Some
            &&& final(state).history is Some ==> final(state).history->0@ == final(other).history->0@
            &&& *final(state) == (SharedState { history: final(state).history, ..*old(state) })
        },
        message matches Some(WireMessage::FileOffer(offer)) ==> {
            &&& action == WireAction::ShowOffer(offer)
            &&& final(state).received_offers@.contains_key(offer.id@)
            &&& final(state).received_offers@[offer.id@] == offer
            &&& id != offer.id@ ==> (final(state).received_offers@.contains_key(id) <==> old(state).received_offers@.contains_key(id))
            &&& id != offer.id@ && old(state).received_offers@.contains_key(id) ==> final(state).received_offers@[id] == old(state).received_offers@[id]
            &&& *final(state) == (SharedState {
                received_offers: final(state).received_offers,
                ..*old(state)
            })
        },
{
}

/// A node that is ready says which peer it is and which room it is in, and that is its status.
pub proof fn law_a_ready_node_says_who_and_where_it_is(
    state: &mut SharedState,
    peer_id: String,
    config: &RoomConfig,
    r: NodeReadyPayload,
    copy: NodeStatus,
)
    requires
        call_ensures(node_ready, (state, peer_id, config), r),
        call_ensures(get_node_status, (&*final(state),), copy),
    ensures
        r.peer_id == peer_id,
        r.room_name == config.code,
        copy == (NodeStatus::Ready { peer_id, room_name: config.code }),
        *final(state) == (SharedState { node: final(state).node, ..*old(state) }),
{
}

/// Whatever the command and whatever the node held: afterwards nothing of the room before is held,
/// a swarm that ran is to be aborted, the temporary file of every download is to be removed, and
/// the node is the peer that it was.
pub proof fn law_nothing_of_a_room_outlives_it(
    manager: &mut SwarmManager,
    state: &mut SharedState,
    cmd: ManagerCmd,
    step: ManagerStep,
    id: Seq<char>,
)
    requires
        call_ensures(SwarmManager::handle, (manager, state, cmd), step),
    ensures
        step.abort == old(manager).running,
        final(manager).running <==> cmd is StartRoom,
        final(manager).identity == old(manager).identity,
        final(state).history is None,
        final(state).history_store is None,
        !final(state).served_files@.contains_key(id),
        !final(state).received_offers@.contains_key(id),
        !final(state).active_downloads@.contains_key(id),
        old(state).active_downloads@.contains_key(id) ==> step.remove@.contains(
            old(state).active_downloads@[id].temp_path,
        ),
        cmd matches ManagerCmd::StartRoom(config) ==> final(state).node
            == NodeStatus::Initializing && (step.next matches NextRoom::Spawn { room, identity }
            && room == config && identity.encoded@ == old(manager).identity.encoded@
            && identity.peer@ == old(manager).identity.peer@),
        cmd is LeaveRoom ==> final(state).node == NodeStatus::AwaitingRoom && step.next
            == NextRoom::AnnounceAwaiting,
{
    if old(state).active_downloads@.contains_key(id) {
        lemma_listed(step.remove@, old(state).active_downloads@, id);
    }
}

proof fn lemma_listed(
    paths: Seq<StoredPath>,
    downloads: Map<Seq<char>, DownloadState>,
    id: Seq<char>,
)
    requires
        crate::app_state::lists_temp_paths(paths, downloads),
        downloads.contains_key(id),
    ensures
        paths.contains(downloads[id].temp_path),
{
    let ids = choose|ids: Seq<Seq<char>>| #[trigger]
        ids.no_duplicates() && ids.len() == paths.len() && (forall|id: Seq<char>| #[trigger]
            ids.contains(id) <==> downloads.contains_key(id)) && forall|i: int|
            0 <= i < paths.len() ==> #[trigger] paths[i] == downloads[ids[i]].temp_path;
    assert(ids.contains(id));
    let i = choose|i: int| 0 <= i < ids.len() && ids[i] == id;
    assert(paths[i] == downloads[id].temp_path);
}

/// Clearing leaves nothing of a room but the status, and lists the temporary file of every download
/// and no other.
pub proof fn law_clearing_leaves_nothing(
    state: &mut SharedState,
    paths: Vec<StoredPath>,
    id: Seq<char>,
    i: int,
)
    requires
        call_ensures(clear_shared_state, (state,), paths),
    ensures
        final(state).history is None,
        final(state).history_store is None,
        !final(state).served_files@.contains_key(id),
        !final(state).received_offers@.contains_key(id),
        !final(state).active_downloads@.contains_key(id),
        final(state).node == old(state).node,
        old(state).active_downloads@.contains_key(id) ==> paths@.contains(
            old(state).active_downloads@[id].temp_path,
        ),
        0 <= i < paths@.len() ==> exists|owner: Seq<char>| #[trigger]
            old(state).active_downloads@.contains_key(owner) && old(state).active_downloads@[owner].temp_path == paths@[i],
{
    let downloads = old(state).active_downloads@;
    if downloads.contains_key(id) {
        lemma_listed(paths@, downloads, id);
    }
    if 0 <= i < paths@.len() {
        lemma_owned(paths@, downloads, i);
    }
}

proof fn lemma_owned(
    paths: Seq<StoredPath>,
    downloads: Map<Seq<char>, DownloadState>,
    i: int,
)
    requires
        crate::app_state::lists_temp_paths(paths, downloads),
        0 <= i < paths.len(),
    ensures
        exists|owner: Seq<char>| #[trigger]
            downloads.contains_key(owner) && downloads[owner].temp_path == paths[i],
{
    let ids = choose|ids: Seq<Seq<char>>| #[trigger]
        ids.no_duplicates() && ids.len() == paths.len() && (forall|id: Seq<char>| #[trigger]
            ids.contains(id) <==> downloads.contains_key(id)) && forall|i: int|
            0 <= i < paths.len() ==> #[trigger] paths[i] == downloads[ids[i]].temp_path;
    assert(ids.contains(ids[i]));
    assert(paths[i] == downloads[ids[i]].temp_path);
    assert(downloads.contains_key(ids[i]));
}

/// A node that is started joins the room it is configured for, whatever room that is, and else
/// awaits one; a failure becomes its status, in full.
pub proof fn law_a_node_starts_in_its_room(
    state: &mut SharedState,
    config: Option<RoomConfig>,
    r: Option<ManagerCmd>,
    state2: &mut SharedState,
    error: &str,
    swarm_message: String,
    state3: &mut SharedState,
    identity_message: String,
)
    requires
        call_ensures(boot, (state, config), r),
        call_ensures(swarm_failed, (state2, error), swarm_message),
        call_ensures(identity_failed, (state3, error), identity_message),
    ensures
        config matches Some(c) ==> r == Some(ManagerCmd::StartRoom(c)) && *final(state) == *old(state),
        config is None ==> r is None && final(state).node == NodeStatus::AwaitingRoom,
        *final(state) == (SharedState { node: final(state).node, ..*old(state) }),
        swarm_message@ == "Erreur libp2p : "@ + error@,
        *final(state2) == (SharedState {
            node: NodeStatus::Error { message: swarm_message },
            ..*old(state2)
        }),
        identity_message@ == "Échec du chargement de l'identité : "@ + error@,
        *final(state3) == (SharedState {
            node: NodeStatus::Error { message: identity_message },
            ..*old(state3)
        }),
{
}

/// A fresh node is initializing and holds nothing; a status that is set is the status.
pub proof fn law_a_fresh_node_holds_nothing(
    fresh: SharedState,
    state: &mut SharedState,
    status: NodeStatus,
    done: (),
    seen: &NodeStatus,
    id: Seq<char>,
)
    requires
        call_ensures(SharedState::new, (), fresh),
        call_ensures(set_node_status, (state, status), done),
        call_ensures(node_state, (&*final(state),), seen),
    ensures
        fresh.node == NodeStatus::Initializing,
        fresh.history is None,
        fresh.history_store is None,
        !fresh.served_files@.contains_key(id),
        !fresh.received_offers@.contains_key(id),
        !fresh.active_downloads@.contains_key(id),
        *seen == status,
        *final(state) == (SharedState { node: status, ..*old(state) }),
{
}

/// A manager starts without a swarm, as the peer it was given.
pub proof fn law_a_manager_starts_without_a_swarm(identity: Identity, r: SwarmManager)
    requires
        call_ensures(SwarmManager::new, (identity,), r),
    ensures
        !r.running,
        r.identity == identity,
{
}

/// What is shown of the state is what it holds.
pub proof fn law_the_state_shows_what_it_holds(
    state: &SharedState,
    history: &Option<VecDeque<ChatMessage>>,
    store: &Option<HistoryStore>,
    served: &Registry<ServedFile>,
    offers: &Registry<FileOffer>,
    downloads: &Registry<DownloadState>,
)
    requires
        call_ensures(history_cell, (state,), history),
        call_ensures(history_store_cell, (state,), store),
        call_ensures(served_files_cell, (state,), served),
        call_ensures(received_offers_cell, (state,), offers),
        call_ensures(active_downloads_cell, (state,), downloads),
    ensures
        *history == state.history,
        *store == state.history_store,
        *served == state.served_files,
        *offers == state.received_offers,
        *downloads == state.active_downloads,
{
}

/// A store is at the path and under the key that it was made with.
pub proof fn law_a_store_is_where_it_was_made(path: StoredPath, key: [u8; 32], r: HistoryStore)
    requires
        call_ensures(HistoryStore::new, (path, key), r),
    ensures
        r.path == path,
        r.key == key,
{
}

/// Copies of messages, offers, envelopes, requests and what else is passed on are what they copy.
pub proof fn law_copies_are_what_they_copy(
    m: &ChatMessage,
    m2: ChatMessage,
    o: &FileOffer,
    o2: FileOffer,
    w: &WireMessage,
    w2: WireMessage,
    e: &EncryptedEnvelope,
    e2: EncryptedEnvelope,
    s: &NodeStatus,
    s2: NodeStatus,
    c: &RoomConfig,
    c2: RoomConfig,
    p: &StoredPath,
    p2: StoredPath,
)
    requires
        call_ensures(ChatMessage::clone, (m,), m2),
        call_ensures(FileOffer::clone, (o,), o2),
        call_ensures(WireMessage::clone, (w,), w2),
        call_ensures(EncryptedEnvelope::clone, (e,), e2),
        call_ensures(NodeStatus::clone, (s,), s2),
        call_ensures(RoomConfig::clone, (c,), c2),
        call_ensures(StoredPath::clone, (p,), p2),
    ensures
        m2 == *m,
        o2 == *o,
        w2 == *w,
        e2 == *e,
        s2 == *s,
        c2 == *c,
        p2 == *p,
{
}

/// The same of what is exchanged with peers and kept of files.
pub proof fn law_copies_of_exchanges_are_what_they_copy(
    q: &ChunkRequest,
    q2: ChunkRequest,
    a: &ChunkResponse,
    a2: ChunkResponse,
    f: &ServedFile,
    f2: ServedFile,
    d: &DownloadState,
    d2: DownloadState,
    h: &HistoryRequest,
    h2: HistoryRequest,
    r: &HistoryResponse,
    r2: HistoryResponse,
    n: &NodeReadyPayload,
    n2: NodeReadyPayload,
    i: &Identity,
    i2: Identity,
)
    requires
        call_ensures(ChunkRequest::clone, (q,), q2),
        call_ensures(ChunkResponse::clone, (a,), a2),
        call_ensures(ServedFile::clone, (f,), f2),
        call_ensures(DownloadState::clone, (d,), d2),
        call_ensures(HistoryRequest::clone, (h,), h2),
        call_ensures(HistoryResponse::clone, (r,), r2),
        call_ensures(NodeReadyPayload::clone, (n,), n2),
        call_ensures(Identity::clone, (i,), i2),
    ensures
        q2 == *q,
        a2 == *a,
        f2 == *f,
        d2 == *d,
        h2 == *h,
        r2.version == r.version,
        r2.messages@ == r.messages@,
        n2 == *n,
        i2.encoded@ == i.encoded@,
        i2.peer@ == i.peer@,
{
}

} // verus!
