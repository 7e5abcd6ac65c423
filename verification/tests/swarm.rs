//! What a node does on the events of the network.

use lan_chat::app_state::{get_node_status, SharedState};
use lan_chat::crypto::{cipher_from_key, encrypt_bytes};
use lan_chat::files::{
    ChunkRequest, ChunkResponse, ChunkStep, DownloadState, ServePlan, ServedFile,
};
use lan_chat::history::{
    build_history_response, history_snapshot, install_history, HistoryRequest, HistoryResponse,
};
use lan_chat::swarm::{
    handle_swarm_event, handle_wire_message, node_ready, open_room, RoomSetup, Session,
    SwarmAction, SwarmInput, WireAction,
};
use lan_chat::types::{
    ChatMessage, FileOffer, NodeReadyPayload, NodeStatus, RoomConfig, StoredPath, WireMessage,
};

fn room(code: &str) -> RoomSetup {
    open_room(&RoomConfig { version: 1, code: code.to_string() }).ok().unwrap()
}

fn session() -> Session {
    room("test-a").session
}

fn message(id: &str) -> ChatMessage {
    ChatMessage {
        id: id.to_string(),
        sender_name: "Ada".to_string(),
        sender_id: "peer".to_string(),
        content: "hello".to_string(),
        timestamp: 1,
    }
}

fn joined_state(messages: Vec<ChatMessage>) -> SharedState {
    let mut state = SharedState::new();
    install_history(&mut state, messages, room("test-a").store);
    state
}

fn names(peers: &[&str]) -> Vec<String> {
    peers.iter().map(|p| p.to_string()).collect()
}

fn greeted(peer: &str) -> Vec<SwarmAction> {
    vec![
        SwarmAction::AddExplicitPeer(peer.to_string()),
        SwarmAction::RequestHistory {
            peer: peer.to_string(),
            request: HistoryRequest { version: 1 },
        },
        SwarmAction::AnnounceSyncStart(peer.to_string()),
    ]
}

#[test]
fn a_room_is_opened_from_its_code() {
    let setup = room("alpha-cafe-7");
    assert_eq!(setup.topic, "lan-chat-v1-be5cdbaf636b5fcb");
    assert_eq!(
        setup.store.path,
        StoredPath { folder: "history".to_string(), name: "be5cdbaf636b5fcb.bin".to_string() }
    );
    assert_eq!(setup.store.key[..4], [0x2f, 0xf2, 0x56, 0xf5]);
    assert_eq!(setup.session.synced_peers.len(), 0);
}

#[test]
fn a_ready_node_names_its_room() {
    let mut state = SharedState::new();
    let config = RoomConfig { version: 1, code: "test-a".to_string() };
    assert_eq!(
        node_ready(&mut state, "me".to_string(), &config),
        NodeReadyPayload { peer_id: "me".to_string(), room_name: "test-a".to_string() }
    );
    assert_eq!(
        get_node_status(&state),
        NodeStatus::Ready { peer_id: "me".to_string(), room_name: "test-a".to_string() }
    );
}

#[test]
fn each_peer_is_asked_once_a_session() {
    let mut session = session();
    let mut state = joined_state(vec![]);
    let first = handle_swarm_event(
        &mut session,
        &mut state,
        SwarmInput::Discovered(names(&["a", "b", "a"])),
    );
    let mut expected = greeted("a");
    expected.extend(greeted("b"));
    expected.push(SwarmAction::AddExplicitPeer("a".to_string()));
    assert_eq!(first, expected);
    let second =
        handle_swarm_event(&mut session, &mut state, SwarmInput::Discovered(names(&["b", "c"])));
    let mut expected = vec![SwarmAction::AddExplicitPeer("b".to_string())];
    expected.extend(greeted("c"));
    assert_eq!(second, expected);
}

#[test]
fn an_expired_peer_is_not_asked_again() {
    let mut session = session();
    let mut state = joined_state(vec![]);
    handle_swarm_event(&mut session, &mut state, SwarmInput::Discovered(names(&["a"])));
    assert_eq!(
        handle_swarm_event(&mut session, &mut state, SwarmInput::Expired(names(&["a", "z"]))),
        vec![
            SwarmAction::RemoveExplicitPeer("a".to_string()),
            SwarmAction::RemoveExplicitPeer("z".to_string())
        ]
    );
    assert_eq!(
        handle_swarm_event(&mut session, &mut state, SwarmInput::Discovered(names(&["a"]))),
        vec![SwarmAction::AddExplicitPeer("a".to_string())]
    );
}

#[test]
fn a_message_of_the_room_is_read() {
    let mut here = session();
    let there = room("test-a").session;
    let mut state = joined_state(vec![]);
    let envelope = encrypt_bytes(&there.cipher, b"payload").unwrap();
    assert_eq!(
        handle_swarm_event(&mut here, &mut state, SwarmInput::Gossip(Some(envelope))),
        vec![SwarmAction::Decode(b"payload".to_vec())]
    );
}

#[test]
fn a_message_of_another_room_is_passed_over() {
    let mut here = session();
    let there = room("test-b").session;
    let mut state = joined_state(vec![]);
    let envelope = encrypt_bytes(&there.cipher, b"payload").unwrap();
    assert!(handle_swarm_event(&mut here, &mut state, SwarmInput::Gossip(Some(envelope)))
        .is_empty());
    assert!(handle_swarm_event(&mut here, &mut state, SwarmInput::Gossip(None)).is_empty());
    assert!(handle_swarm_event(&mut here, &mut state, SwarmInput::Other).is_empty());
}

#[test]
fn requests_for_chunks_are_planned() {
    let mut session = session();
    let mut state = joined_state(vec![]);
    state
        .served_files
        .insert("f".to_string(), ServedFile { path: "/x".to_string(), size: 10 });
    let request =
        ChunkRequest { version: 1, file_id: "f".to_string(), offset: 8, length: 100 };
    assert_eq!(
        handle_swarm_event(&mut session, &mut state, SwarmInput::ChunkRequested(request)),
        vec![SwarmAction::ServeChunk(ServePlan::Read {
            path: "/x".to_string(),
            offset: 8,
            length: 2
        })]
    );
}

#[test]
fn answered_chunks_are_taken() {
    let mut session = session();
    let mut state = joined_state(vec![]);
    let temp = StoredPath { folder: "files".to_string(), name: ".f.part".to_string() };
    state.active_downloads.insert(
        "f".to_string(),
        DownloadState {
            sender_peer: "p".to_string(),
            size: 5,
            expected_hash: "h".to_string(),
            received_bytes: 0,
            temp_path: temp.clone(),
            final_path: temp.clone(),
        },
    );
    let data = encrypt_bytes(&session.cipher, b"abc").unwrap();
    let answer = ChunkResponse::Chunk { file_id: "f".to_string(), data };
    assert_eq!(
        handle_swarm_event(&mut session, &mut state, SwarmInput::ChunkAnswered(answer)),
        vec![SwarmAction::TakeChunk {
            file_id: "f".to_string(),
            step: ChunkStep::Write { path: temp, data: b"abc".to_vec() },
        }]
    );
    for answer in
        [ChunkResponse::NotFound, ChunkResponse::Error { message: "read: eof".to_string() }]
    {
        assert!(handle_swarm_event(&mut session, &mut state, SwarmInput::ChunkAnswered(answer))
            .is_empty());
    }
    assert!(state.active_downloads.contains_key("f"));
}

#[test]
fn the_history_is_sent_to_those_who_ask() {
    let mut session = session();
    let mut state = joined_state(vec![message("a"), message("b")]);
    assert_eq!(
        handle_swarm_event(
            &mut session,
            &mut state,
            SwarmInput::HistoryRequested(HistoryRequest { version: 1 })
        ),
        vec![SwarmAction::SendHistory(vec![message("a"), message("b")])]
    );
    assert_eq!(
        handle_swarm_event(
            &mut session,
            &mut state,
            SwarmInput::HistoryRequested(HistoryRequest { version: 2 })
        ),
        vec![SwarmAction::DropRequest]
    );
}

#[test]
fn an_answered_history_is_ingested() {
    let mut session = session();
    let mut state = joined_state(vec![]);
    let mut response = build_history_response(&session.cipher, &vec![b"one".to_vec()]);
    let stranger = cipher_from_key(&[3; 32]).ok().unwrap();
    response.messages.push(encrypt_bytes(&stranger, b"two").unwrap());
    assert_eq!(
        handle_swarm_event(
            &mut session,
            &mut state,
            SwarmInput::HistoryAnswered { peer: "p".to_string(), response }
        ),
        vec![
            SwarmAction::IngestHistory(vec![Some(b"one".to_vec()), None]),
            SwarmAction::AnnounceSyncEnd("p".to_string())
        ]
    );
}

#[test]
fn every_exchange_of_histories_ends() {
    let mut session = session();
    let mut state = joined_state(vec![]);
    let over = vec![SwarmAction::AnnounceSyncEnd("p".to_string())];
    let response = HistoryResponse { version: 9, messages: vec![] };
    assert_eq!(
        handle_swarm_event(
            &mut session,
            &mut state,
            SwarmInput::HistoryAnswered { peer: "p".to_string(), response }
        ),
        over
    );
    assert_eq!(
        handle_swarm_event(
            &mut session,
            &mut state,
            SwarmInput::HistoryFailed { peer: "p".to_string() }
        ),
        over
    );
}

#[test]
fn chat_messages_are_shown_once() {
    let mut state = joined_state(vec![]);
    let chat = || Some(WireMessage::Chat(message("a")));
    assert_eq!(handle_wire_message(&mut state, chat()), WireAction::ShowMessage(message("a")));
    assert_eq!(handle_wire_message(&mut state, chat()), WireAction::Ignore);
    assert_eq!(history_snapshot(&state), vec![message("a")]);
    assert_eq!(handle_wire_message(&mut state, None), WireAction::Ignore);
    let mut outside = SharedState::new();
    assert_eq!(handle_wire_message(&mut outside, chat()), WireAction::Ignore);
}

#[test]
fn offers_are_noted() {
    let mut state = joined_state(vec![]);
    let offer = |size: u64| FileOffer {
        id: "f".to_string(),
        sender_name: "Ada".to_string(),
        sender_id: "p".to_string(),
        timestamp: 1,
        filename: "a.png".to_string(),
        size,
        mime: "image/png".to_string(),
        hash: "h".to_string(),
    };
    for size in [1, 2] {
        assert_eq!(
            handle_wire_message(&mut state, Some(WireMessage::FileOffer(offer(size)))),
            WireAction::ShowOffer(offer(size))
        );
    }
    assert_eq!(state.received_offers.get("f"), Some(&offer(2)));
    assert_eq!(state.received_offers.len(), 1);
}
