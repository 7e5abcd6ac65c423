//! The life of a node in a room: what it does on each event of the network.

use crate::app_state::{set_node_status, SharedState};
use crate::crypto;
use crate::crypto::{cipher_from_key, decrypt_bytes, RoomCipher};
use crate::files;
use crate::files::{open_chunk, serve_chunk, ChunkRequest, ChunkResponse, ChunkStep, ServePlan};
use crate::history;
use crate::history::{
    append_to_history_if_new, history_path_for, history_snapshot, open_history_response,
    HistoryRequest, HistoryResponse, HistoryStore, HISTORY_SYNC_VERSION,
};
use crate::registry::Registry;
use crate::room;
use crate::room::derive_room;
use crate::text::joined;
use crate::types::{
    ChatMessage, EncryptedEnvelope, FileOffer, NodeReadyPayload, NodeStatus, RoomConfig,
    WireMessage,
};
use vstd::prelude::*;

verus! {

/// Name of the protocol by which histories are exchanged.
pub const HISTORY_SYNC_PROTOCOL: &'static str = "/lan-chat/history-sync/1";

/// Name of the protocol by which chunks of files are exchanged.
pub const FILE_TRANSFER_PROTOCOL: &'static str = "/lan-chat/file-transfer/1";

/// A node's stay in a room, from joining it to leaving it.
pub struct Session {
    pub cipher: RoomCipher,
    pub synced_peers: Registry<()>,
}

/// What a node needs to join a room.
pub struct RoomSetup {
    pub topic: String,
    pub session: Session,
    pub store: HistoryStore,
}

/// Derives what a node needs to join a room. Everything follows from the room's code.
pub fn open_room(config: &RoomConfig) -> (r: Result<RoomSetup, String>)
    ensures
        r matches Ok(setup) && {
            &&& setup.topic@ == room::room_topic(config.code@)
            &&& setup.session.cipher@ == room::room_key(config.code@)
            &&& setup.session.synced_peers@ == Map::<Seq<char>, ()>::empty()
            &&& setup.store.key@ == room::room_key(config.code@)
            &&& setup.store.path.folder@ == "history"@
            &&& setup.store.path.name@ == history::topic_file_name(room::room_topic(config.code@))
        },
{
    let (topic, key) = derive_room(config.code.as_str());
    let cipher = match cipher_from_key(key.as_slice()) {
        Ok(c) => c,
        Err(e) => {
            return Err(joined("Initialisation du chiffrement échouée : ", e.as_str()));
        },
    };
    let path = history_path_for(topic.as_str());
    Ok(
        RoomSetup {
            topic,
            session: Session { cipher, synced_peers: Registry::new() },
            store: HistoryStore::new(path, key),
        },
    )
}

/// The node has joined its room. What is given back is to be announced.
pub fn node_ready(state: &mut SharedState, peer_id: String, config: &RoomConfig) -> (r:
    NodeReadyPayload)
    ensures
        r == (NodeReadyPayload { peer_id, room_name: config.code }),
        *final(state) == (SharedState {
            node: NodeStatus::Ready { peer_id, room_name: config.code },
            ..*old(state)
        }),
{
    set_node_status(
        state,
        NodeStatus::Ready { peer_id: peer_id.clone(), room_name: config.code.clone() },
    );
    NodeReadyPayload { peer_id, room_name: config.code.clone() }
}

/// An event of the network.
#[derive(Debug, PartialEq, Eq)]
pub enum SwarmInput {
    /// These peers were discovered.
    Discovered(Vec<String>),
    /// These peers have not been seen for a while.
    Expired(Vec<String>),
    /// Something was published in the room; nothing where it is no envelope.
    Gossip(Option<EncryptedEnvelope>),
    /// A peer asks for a chunk of a file.
    ChunkRequested(ChunkRequest),
    /// A peer answered a request for a chunk.
    ChunkAnswered(ChunkResponse),
    /// A peer asks for the history.
    HistoryRequested(HistoryRequest),
    /// A peer sent its history.
    HistoryAnswered { peer: String, response: HistoryResponse },
    /// A peer could not be asked for its history.
    HistoryFailed { peer: String },
    /// Anything else.
    Other,
}

/// What is to be done on an event.
#[derive(Debug, PartialEq, Eq)]
pub enum SwarmAction {
    /// Exchange messages with this peer directly.
    AddExplicitPeer(String),
    /// No longer do so.
    RemoveExplicitPeer(String),
    /// Ask this peer for its history.
    RequestHistory { peer: String, request: HistoryRequest },
    /// Announce that the history of this peer was asked for.
    AnnounceSyncStart(String),
    /// Announce that the exchange with this peer is over.
    AnnounceSyncEnd(String),
    /// Decode these bytes and hand the message to `handle_wire_message`.
    Decode(Vec<u8>),
    /// Answer the request for a chunk so.
    ServeChunk(ServePlan),
    /// Do this with a chunk of the file.
    TakeChunk { file_id: String, step: ChunkStep },
    /// Encode these messages, have `build_history_response` seal them, and answer with that.
    SendHistory(Vec<ChatMessage>),
    /// Give no answer.
    DropRequest,
    /// Decode each that is there and hand them to `ingest_history_response`.
    IngestHistory(Vec<Option<Vec<u8>>>),
}

/// The peers that the session has asked for their history, and the actions so far.
#[verifier::ext_equal]
pub struct Discovery {
    pub synced: Set<Seq<char>>,
    pub actions: Seq<SwarmAction>,
}

/// What follows when one peer is discovered: it is asked for its history if the session has
/// not asked it before.
pub open spec fn discover_step(so_far: Discovery, peer: String) -> Discovery {
    let added = so_far.actions.push(SwarmAction::AddExplicitPeer(peer));
    if so_far.synced.contains(peer@) {
        Discovery { actions: added, ..so_far }
    } else {
        Discovery {
            synced: so_far.synced.insert(peer@),
            actions: added.push(
                SwarmAction::RequestHistory {
                    peer,
                    request: HistoryRequest { version: HISTORY_SYNC_VERSION },
                },
            ).push(SwarmAction::AnnounceSyncStart(peer)),
        }
    }
}

/// What follows when peers are discovered, one after the other.
pub open spec fn discovered(synced: Set<Seq<char>>, peers: Seq<String>) -> Discovery
    decreases peers.len(),
{
    if peers.len() == 0 {
        Discovery { synced, actions: Seq::empty() }
    } else {
        discover_step(discovered(synced, peers.drop_last()), peers.last())
    }
}

/// Each of the peers is no longer an explicit one.
pub open spec fn removals(peers: Seq<String>) -> Seq<SwarmAction> {
    Seq::new(peers.len(), |i: int| SwarmAction::RemoveExplicitPeer(peers[i]))
}

fn discover(session: &mut Session, peers: &Vec<String>) -> (r: Vec<SwarmAction>)
    ensures
        r@ == discovered(old(session).synced_peers@.dom(), peers@).actions,
        final(session).synced_peers@.dom() == discovered(
            old(session).synced_peers@.dom(),
            peers@,
        ).synced,
        final(session).cipher == old(session).cipher,
{
    let ghost synced = session.synced_peers@.dom();
    let mut actions: Vec<SwarmAction> = Vec::new();
    let n: usize = peers.len();
    let mut i: usize = 0;
    assert(peers@.take(0) =~= Seq::<String>::empty());
    while i < n
        invariant
            i <= n,
            n == peers@.len(),
            actions@ == discovered(synced, peers@.take(i as int)).actions,
            session.synced_peers@.dom() == discovered(synced, peers@.take(i as int)).synced,
            session.cipher == old(session).cipher,
        decreases n - i,
    {
        let peer = &peers[i];
        assert(peers@.take(i + 1).drop_last() =~= peers@.take(i as int));
        assert(peers@.take(i + 1).last() == *peer);
        actions.push(SwarmAction::AddExplicitPeer(peer.clone()));
        if !session.synced_peers.contains_key(peer.as_str()) {
            session.synced_peers.insert(peer.clone(), ());
            actions.push(
                SwarmAction::RequestHistory {
                    peer: peer.clone(),
                    request: HistoryRequest { version: HISTORY_SYNC_VERSION },
                },
            );
            actions.push(SwarmAction::AnnounceSyncStart(peer.clone()));
        }
        assert(session.synced_peers@.dom() =~= discovered(synced, peers@.take(i + 1)).synced);
        assert(actions@ =~= discovered(synced, peers@.take(i + 1)).actions);
        i = i + 1;
    }
    assert(peers@.take(n as int) =~= peers@);
    actions
}

fn expire(peers: &Vec<String>) -> (r: Vec<SwarmAction>)
    ensures
        r@ == removals(peers@),
{
    let mut actions: Vec<SwarmAction> = Vec::new();
    let n: usize = peers.len();
    let mut i: usize = 0;
    while i < n
        invariant
            i <= n,
            n == peers@.len(),
            actions@ == removals(peers@).take(i as int),
        decreases n - i,
    {
        actions.push(SwarmAction::RemoveExplicitPeer(peers[i].clone()));
        assert(actions@ =~= removals(peers@).take(i + 1));
        i = i + 1;
    }
    assert(removals(peers@).take(n as int) =~= removals(peers@));
    actions
}

/// Whether a session under `key` with these peers asked, and the shared state, go over to what
/// they should on an event, and `actions` are what is to be done. No event but a discovery
/// changes which peers were asked.
pub open spec fn reacts(
    key: Seq<u8>,
    synced: (Set<Seq<char>>, Set<Seq<char>>),
    before: SharedState,
    after: SharedState,
    event: SwarmInput,
    actions: Seq<SwarmAction>,
) -> bool {
    &&& event !is Discovered ==> synced.0 == synced.1
    &&& match event {
        SwarmInput::Discovered(peers) => {
            &&& after == before
            &&& actions == discovered(synced.0, peers@).actions
            &&& synced.1 == discovered(synced.0, peers@).synced
        },
        SwarmInput::Expired(peers) => after == before && actions == removals(peers@),
        SwarmInput::Gossip(None) => after == before && actions.len() == 0,
        SwarmInput::Gossip(Some(envelope)) => {
            &&& after == before
            &&& match crypto::opened(key, envelope.texts()) {
                Some(data) => actions.len() == 1 && (actions[0] matches SwarmAction::Decode(bytes)
                    && bytes@ == data),
                None => actions.len() == 0,
            }
        },
        SwarmInput::ChunkRequested(req) => {
            &&& after == before
            &&& actions.len() == 1
            &&& actions[0] matches SwarmAction::ServeChunk(plan) && files::is_plan(
                before.served_files@,
                req,
                plan,
            )
        },
        SwarmInput::ChunkAnswered(ChunkResponse::Chunk { file_id, data }) => {
            &&& actions.len() == 1
            &&& actions[0] matches SwarmAction::TakeChunk { file_id: id, step } && id == file_id
                && files::is_chunk_step(
                before,
                after,
                file_id@,
                crypto::opened(key, data.texts()),
                step,
            )
        },
        SwarmInput::ChunkAnswered(_) => after == before && actions.len() == 0,
        SwarmInput::HistoryRequested(req) => {
            &&& after == before
            &&& actions.len() == 1
            &&& if req.version == HISTORY_SYNC_VERSION {
                actions[0] matches SwarmAction::SendHistory(messages) && messages@
                    == match history::history_messages(before.history) {
                    Some(held) => held,
                    None => Seq::empty(),
                }
            } else {
                actions[0] == SwarmAction::DropRequest
            }
        },
        SwarmInput::HistoryAnswered { peer, response } => {
            &&& after == before
            &&& if response.version == HISTORY_SYNC_VERSION {
                &&& actions.len() == 2
                &&& actions[0] matches SwarmAction::IngestHistory(payloads)
                    && history::payload_views(payloads@) == history::opened_each(
                    key,
                    response.messages@,
                )
                &&& actions[1] == SwarmAction::AnnounceSyncEnd(peer)
            } else {
                actions == seq![SwarmAction::AnnounceSyncEnd(peer)]
            }
        },
        SwarmInput::HistoryFailed { peer } => after == before && actions
            == seq![SwarmAction::AnnounceSyncEnd(peer)],
        SwarmInput::Other => after == before && actions.len() == 0,
    }
}

/// Decides what a node does on an event of the network.
pub fn handle_swarm_event(session: &mut Session, state: &mut SharedState, event: SwarmInput) -> (r:
    Vec<SwarmAction>)
    ensures
        final(session).cipher == old(session).cipher,
        reacts(
            old(session).cipher@,
            (old(session).synced_peers@.dom(), final(session).synced_peers@.dom()),
            *old(state),
            *final(state),
            event,
            r@,
        ),
{
    let mut actions: Vec<SwarmAction> = Vec::new();
    match event {
        SwarmInput::Discovered(peers) => {
            return discover(session, &peers);
        },
        SwarmInput::Expired(peers) => {
            return expire(&peers);
        },
        SwarmInput::Gossip(Some(envelope)) => {
            if let Some(bytes) = decrypt_bytes(&session.cipher, &envelope) {
                actions.push(SwarmAction::Decode(bytes));
            }
        },
        SwarmInput::Gossip(None) => {},
        SwarmInput::ChunkRequested(req) => {
            actions.push(SwarmAction::ServeChunk(serve_chunk(state, &req)));
        },
        SwarmInput::ChunkAnswered(ChunkResponse::Chunk { file_id, data }) => {
            let step = open_chunk(state, &session.cipher, file_id.as_str(), &data);
            actions.push(SwarmAction::TakeChunk { file_id, step });
        },
        SwarmInput::ChunkAnswered(_) => {},
        SwarmInput::HistoryRequested(req) => {
            if req.version == HISTORY_SYNC_VERSION {
                actions.push(SwarmAction::SendHistory(history_snapshot(state)));
            } else {
                actions.push(SwarmAction::DropRequest);
            }
        },
        SwarmInput::HistoryAnswered { peer, response } => {
            if let Some(payloads) = open_history_response(&session.cipher, &response) {
                actions.push(SwarmAction::IngestHistory(payloads));
            }
            actions.push(SwarmAction::AnnounceSyncEnd(peer));
        },
        SwarmInput::HistoryFailed { peer } => {
            actions.push(SwarmAction::AnnounceSyncEnd(peer));
        },
        SwarmInput::Other => {},
    }
    actions
}

/// What is to be done with a message of the room.
#[derive(Debug, PartialEq, Eq)]
pub enum WireAction {
    /// Nothing.
    Ignore,
    /// Write the history, and show the message.
    ShowMessage(ChatMessage),
    /// Show the offer.
    ShowOffer(FileOffer),
}

/// Takes in what was published in the room; nothing where it could not be decoded. A chat
/// message is archived, and shown unless it is known; an offer is noted under its identifier,
/// in place of an earlier one.
pub fn handle_wire_message(state: &mut SharedState, message: Option<WireMessage>) -> (r: WireAction)
    ensures
        match message {
            None => r == WireAction::Ignore && *final(state) == *old(state),
            Some(WireMessage::Chat(msg)) => {
                &&& r == if old(state).history is Some && !history::has_id(
                    old(state).history->0@,
                    msg.id@,
                ) {
                    WireAction::ShowMessage(msg)
                } else {
                    WireAction::Ignore
                }
                &&& history::history_messages(final(state).history)
                    == match history::history_messages(old(state).history) {
                    Some(messages) => Some(history::appended(messages, msg)),
                    None => None,
                }
                &&& *final(state) == (SharedState {
                    history: final(state).history,
                    ..*old(state)
                })
            },
            Some(WireMessage::FileOffer(offer)) => {
                &&& r == WireAction::ShowOffer(offer)
                &&& final(state).received_offers@ == old(state).received_offers@.insert(
                    offer.id@,
                    offer,
                )
                &&& *final(state) == (SharedState {
                    received_offers: final(state).received_offers,
                    ..*old(state)
                })
            },
        },
{
    match message {
        None => WireAction::Ignore,
        Some(WireMessage::Chat(msg)) => {
            if append_to_history_if_new(state, msg.clone()) {
                WireAction::ShowMessage(msg)
            } else {
                WireAction::Ignore
            }
        },
        Some(WireMessage::FileOffer(offer)) => {
            state.received_offers.insert(offer.id.clone(), offer.clone());
            WireAction::ShowOffer(offer)
        },
    }
}

/// How many of the actions ask this peer for its history.
pub open spec fn requests_to(actions: Seq<SwarmAction>, peer: Seq<char>) -> nat
    decreases actions.len(),
{
    if actions.len() == 0 {
        0
    } else {
        let before = requests_to(actions.drop_last(), peer);
        match actions.last() {
            SwarmAction::RequestHistory { peer: asked, .. } => if asked@ == peer {
                before + 1
            } else {
                before
            },
            _ => before,
        }
    }
}

/// Whether this peer is among those discovered.
pub open spec fn among(peers: Seq<String>, peer: Seq<char>) -> bool {
    exists|i: int| 0 <= i < peers.len() && (#[trigger] peers[i])@ == peer
}

proof fn lemma_requests_push(actions: Seq<SwarmAction>, action: SwarmAction, peer: Seq<char>)
    ensures
        requests_to(actions.push(action), peer) == requests_to(actions, peer) + (match action {
            SwarmAction::RequestHistory { peer: asked, .. } => if asked@ == peer {
                1nat
            } else {
                0nat
            },
            _ => 0nat,
        }),
{
    assert(actions.push(action).drop_last() =~= actions);
}

/// A peer that is discovered is asked for its history once, however often it is discovered, and
/// not at all where the session has asked it before. Afterwards the session knows that it has
/// asked every peer discovered.
pub proof fn law_one_history_request_per_peer(
    synced: Set<Seq<char>>,
    peers: Seq<String>,
    peer: Seq<char>,
)
    ensures
        requests_to(discovered(synced, peers).actions, peer) == if among(peers, peer)
            && !synced.contains(peer) {
            1nat
        } else {
            0nat
        },
        discovered(synced, peers).synced.contains(peer) <==> synced.contains(peer) || among(
            peers,
            peer,
        ),
    decreases peers.len(),
{
    if peers.len() > 0 {
        let rest = peers.drop_last();
        let last = peers.last();
        law_one_history_request_per_peer(synced, rest, peer);
        let before = discovered(synced, rest);
        let added = before.actions.push(SwarmAction::AddExplicitPeer(last));
        lemma_requests_push(before.actions, SwarmAction::AddExplicitPeer(last), peer);
        let request = SwarmAction::RequestHistory {
            peer: last,
            request: HistoryRequest { version: HISTORY_SYNC_VERSION },
        };
        lemma_requests_push(added, request, peer);
        lemma_requests_push(added.push(request), SwarmAction::AnnounceSyncStart(last), peer);
        assert(among(peers, peer) <==> among(rest, peer) || last@ == peer) by {
            if among(rest, peer) {
                let i = choose|i: int| 0 <= i < rest.len() && (#[trigger] rest[i])@ == peer;
                assert(peers[i]@ == peer);
            }
            if last@ == peer {
                assert(peers[peers.len() - 1]@ == peer);
            }
            if among(peers, peer) && last@ != peer {
                let i = choose|i: int| 0 <= i < peers.len() && (#[trigger] peers[i])@ == peer;
                assert(rest[i]@ == peer);
            }
        }
    }
}

/// Peers discovered in two events are treated as if they had been discovered in one: so a
/// session asks each peer once, over all of its events.
pub proof fn law_discoveries_add_up(
    synced: Set<Seq<char>>,
    first: Seq<String>,
    second: Seq<String>,
)
    ensures
        discovered(synced, first + second).synced == discovered(
            discovered(synced, first).synced,
            second,
        ).synced,
        discovered(synced, first + second).actions == discovered(synced, first).actions
            + discovered(discovered(synced, first).synced, second).actions,
    decreases second.len(),
{
    if second.len() == 0 {
        assert(first + second =~= first);
        assert(discovered(synced, first).actions + Seq::<SwarmAction>::empty() =~= discovered(
            synced,
            first,
        ).actions);
    } else {
        law_discoveries_add_up(synced, first, second.drop_last());
        assert((first + second).drop_last() =~= first + second.drop_last());
        assert((first + second).last() == second.last());
        let a = discovered(synced, first + second).actions;
        let b = discovered(synced, first).actions + discovered(
            discovered(synced, first).synced,
            second,
        ).actions;
        assert(a =~= b);
    }
}

/// What one node of a room publishes, every other node of it reads, byte for byte, and takes in.
/// `envelope` is what `encrypt_bytes` made of `payload`.
pub proof fn law_published_messages_arrive(
    code: Seq<char>,
    payload: Seq<u8>,
    envelope: EncryptedEnvelope,
    synced: (Set<Seq<char>>, Set<Seq<char>>),
    before: SharedState,
    after: SharedState,
    actions: Seq<SwarmAction>,
)
    requires
        crypto::opened(room::room_key(code), envelope.texts()) == Some(payload),
        reacts(
            room::room_key(code),
            synced,
            before,
            after,
            SwarmInput::Gossip(Some(envelope)),
            actions,
        ),
    ensures
        after == before,
        actions.len() == 1,
        actions[0] matches SwarmAction::Decode(bytes) && bytes@ == payload,
{
}

/// What does not open under the key of the room, such as an envelope of another room or one
/// that was tampered with, is passed over in silence: nothing changes and nothing is done.
pub proof fn law_unreadable_envelopes_change_nothing(
    key: Seq<u8>,
    envelope: EncryptedEnvelope,
    synced: (Set<Seq<char>>, Set<Seq<char>>),
    before: SharedState,
    after: SharedState,
    actions: Seq<SwarmAction>,
)
    requires
        crypto::opened(key, envelope.texts()) is None,
        reacts(key, synced, before, after, SwarmInput::Gossip(Some(envelope)), actions),
    ensures
        after == before,
        actions == Seq::<SwarmAction>::empty(),
        synced.0 == synced.1,
{
}

} // verus!
