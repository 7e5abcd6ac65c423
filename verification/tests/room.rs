//! Room codes, the derivation of rooms, and the manager.

use lan_chat::app_state::{
    active_downloads_cell, get_node_status, history_cell, history_store_cell, node_state,
    received_offers_cell, served_files_cell, set_node_status, SharedState,
};
use lan_chat::files::{DownloadState, ServedFile};
use lan_chat::history::{install_history, HistoryStore};
use lan_chat::identity::Identity;
use lan_chat::manager::{
    boot, identity_failed, swarm_failed, ManagerStep, NextRoom, SwarmManager,
};
use lan_chat::room::{
    command_outcome, derive_room, get_room_status, leave_room, reset_room, set_room_code,
    start_room, topic_of, Delivery,
};
use lan_chat::types::{
    FileOffer, ManagerCmd, NodeStatus, RoomConfig, RoomStatusResp, StoredPath,
};

fn hex(bytes: &[u8]) -> String {
    bytes.iter().map(|b| format!("{:02x}", b)).collect()
}

fn config(code: &str) -> RoomConfig {
    RoomConfig { version: 1, code: code.to_string() }
}

fn stored(folder: &str, name: &str) -> StoredPath {
    StoredPath { folder: folder.to_string(), name: name.to_string() }
}

fn identity() -> Identity {
    Identity { encoded: vec![8, 1], peer: "me".to_string() }
}

fn spawned(code: &str) -> NextRoom {
    NextRoom::Spawn { room: config(code), identity: identity() }
}

fn occupied_state() -> SharedState {
    let mut state = SharedState::new();
    install_history(&mut state, vec![], HistoryStore::new(stored("history", "ab.bin"), [7; 32]));
    state
        .served_files
        .insert("s".to_string(), ServedFile { path: "/tmp/s".to_string(), size: 3 });
    state.received_offers.insert(
        "o".to_string(),
        FileOffer {
            id: "o".to_string(),
            sender_name: "n".to_string(),
            sender_id: "p".to_string(),
            timestamp: 1,
            filename: "f".to_string(),
            size: 2,
            mime: "m".to_string(),
            hash: "h".to_string(),
        },
    );
    for id in ["x", "y"] {
        state.active_downloads.insert(
            id.to_string(),
            DownloadState {
                sender_peer: "p".to_string(),
                size: 5,
                expected_hash: "h".to_string(),
                received_bytes: 1,
                temp_path: stored("files", &format!(".{}.part", id)),
                final_path: stored("files", id),
            },
        );
    }
    state
}

fn is_empty(state: &SharedState) -> bool {
    history_cell(state).is_none()
        && history_store_cell(state).is_none()
        && served_files_cell(state).len() == 0
        && received_offers_cell(state).len() == 0
        && active_downloads_cell(state).len() == 0
}

#[test]
fn a_room_is_derived_from_its_code() {
    let (topic, key) = derive_room("alpha-cafe-7");
    assert_eq!(topic, "lan-chat-v1-be5cdbaf636b5fcb");
    assert_eq!(hex(&key), "2ff256f54a48f5e9bc318a368d34f920483e3db4c8f37ecd8fadb7dbfdd22de4");
    let (topic, key) = derive_room("été");
    assert_eq!(topic, "lan-chat-v1-a08d14719078ade1");
    assert_eq!(hex(&key), "09d5d7bcc4c52563563e8ab18a64c95e98104ae97c5d18526a7bab4f6f99437e");
}

#[test]
fn different_codes_make_different_rooms() {
    let (topic_a, key_a) = derive_room("test-a");
    let (topic_b, key_b) = derive_room("test-b");
    assert_eq!(topic_b, "lan-chat-v1-13f36d94cfb47b67");
    assert_ne!(topic_a, topic_b);
    assert_ne!(key_a, key_b);
}

#[test]
fn room_codes_are_trimmed() {
    assert_eq!(set_room_code("  alpha-cafe-7\n"), Ok(config("alpha-cafe-7")));
    assert_eq!(set_room_code("alpha-cafe-7"), Ok(config("alpha-cafe-7")));
}

#[test]
fn blank_room_codes_are_refused() {
    let refused = Err("Le code de salon ne peut pas être vide.".to_string());
    assert_eq!(set_room_code(""), refused);
    assert_eq!(set_room_code(" \t "), refused);
}

#[test]
fn long_room_codes_are_refused() {
    assert_eq!(set_room_code(&"a".repeat(120)), Ok(config(&"a".repeat(120))));
    let refused = Err("Code de salon trop long (max 120 caractères).".to_string());
    assert_eq!(set_room_code(&"a".repeat(121)), refused);
    assert_eq!(set_room_code(&"é".repeat(60)), Ok(config(&"é".repeat(60))));
    assert_eq!(set_room_code(&"é".repeat(61)), refused);
    assert_eq!(set_room_code(&format!("  {}  ", "a".repeat(120))), Ok(config(&"a".repeat(120))));
}

#[test]
fn the_room_status_names_the_room() {
    assert_eq!(
        get_room_status(Some(config("x"))),
        RoomStatusResp { configured: true, room_name: Some("x".to_string()) }
    );
    assert_eq!(get_room_status(None), RoomStatusResp { configured: false, room_name: None });
}

#[test]
fn commands_follow_the_configuration() {
    assert_eq!(start_room(config("x"), Ok(())), Ok(ManagerCmd::StartRoom(config("x"))));
    assert_eq!(
        start_room(config("x"), Err("disk full".to_string())),
        Err("Écriture de room.json : disk full".to_string())
    );
    assert_eq!(leave_room(Ok(())), Ok(ManagerCmd::LeaveRoom));
    assert_eq!(reset_room(Ok(())), Ok(ManagerCmd::LeaveRoom));
    let refused = Err("Suppression de room.json : denied".to_string());
    assert_eq!(leave_room(Err("denied".to_string())), refused);
    assert_eq!(reset_room(Err("denied".to_string())), refused);
}

#[test]
fn command_outcomes_are_reported() {
    assert_eq!(command_outcome(Delivery::Sent), Ok(()));
    assert_eq!(command_outcome(Delivery::NotReady), Err("Manager non initialisé".to_string()));
    assert_eq!(
        command_outcome(Delivery::Closed("channel closed".to_string())),
        Err("Canal manager fermé : channel closed".to_string())
    );
}

#[test]
fn a_fresh_node_is_initializing_and_empty() {
    let mut state = SharedState::new();
    assert_eq!(*node_state(&state), NodeStatus::Initializing);
    assert!(is_empty(&state));
    set_node_status(&mut state, NodeStatus::AwaitingRoom);
    assert_eq!(get_node_status(&state), NodeStatus::AwaitingRoom);
}

#[test]
fn starting_a_room_clears_the_one_before() {
    let mut state = occupied_state();
    let mut manager = SwarmManager { running: true, identity: identity() };
    let mut step = manager.handle(&mut state, ManagerCmd::StartRoom(config("test-b")));
    step.remove.sort_by_key(|p| p.name.clone());
    assert_eq!(
        step,
        ManagerStep {
            abort: true,
            remove: vec![stored("files", ".x.part"), stored("files", ".y.part")],
            next: spawned("test-b"),
        }
    );
    assert!(manager.running);
    assert!(is_empty(&state));
    assert_eq!(get_node_status(&state), NodeStatus::Initializing);
}

#[test]
fn leaving_a_room_awaits_the_next() {
    let mut state = occupied_state();
    let mut manager = SwarmManager { running: true, identity: identity() };
    let step = manager.handle(&mut state, ManagerCmd::LeaveRoom);
    assert!(step.abort);
    assert_eq!(step.remove.len(), 2);
    assert_eq!(step.next, NextRoom::AnnounceAwaiting);
    assert!(!manager.running);
    assert!(is_empty(&state));
    assert_eq!(get_node_status(&state), NodeStatus::AwaitingRoom);
}

#[test]
fn a_room_may_be_started_twice() {
    let mut state = SharedState::new();
    let mut manager = SwarmManager::new(identity());
    assert!(!manager.running);
    let first = manager.handle(&mut state, ManagerCmd::StartRoom(config("a")));
    assert!(manager.running);
    let second = manager.handle(&mut state, ManagerCmd::StartRoom(config("a")));
    assert!(!first.abort);
    assert!(second.abort);
    assert_eq!(first.next, spawned("a"));
    assert_eq!(second.next, spawned("a"));
    assert!(manager.running);
}

#[test]
fn booting_joins_the_configured_room() {
    let mut state = SharedState::new();
    assert_eq!(boot(&mut state, Some(config("a"))), Some(ManagerCmd::StartRoom(config("a"))));
    assert_eq!(get_node_status(&state), NodeStatus::Initializing);
    assert_eq!(boot(&mut state, None), None);
    assert_eq!(get_node_status(&state), NodeStatus::AwaitingRoom);
}

#[test]
fn failures_become_the_status() {
    let mut state = SharedState::new();
    assert_eq!(swarm_failed(&mut state, "no socket"), "Erreur libp2p : no socket");
    assert_eq!(
        get_node_status(&state),
        NodeStatus::Error { message: "Erreur libp2p : no socket".to_string() }
    );
    let message = "Échec du chargement de l'identité : bad key".to_string();
    assert_eq!(identity_failed(&mut state, "bad key"), message);
    assert_eq!(get_node_status(&state), NodeStatus::Error { message });
}

#[test]
fn a_node_is_the_same_peer_in_every_room() {
    let mut state = SharedState::new();
    let mut manager = SwarmManager::new(identity());
    manager.handle(&mut state, ManagerCmd::StartRoom(config("a")));
    manager.handle(&mut state, ManagerCmd::LeaveRoom);
    let step = manager.handle(&mut state, ManagerCmd::StartRoom(config("b")));
    assert_eq!(step.next, spawned("b"));
    assert_eq!(manager.identity, identity());
}

#[test]
fn a_topic_shows_eight_bytes_of_the_digest() {
    let mut digest = [0u8; 32];
    for i in 0..32 {
        digest[i] = 0xf0 + (i as u8) % 16;
    }
    assert_eq!(topic_of(&digest), "lan-chat-v1-f0f1f2f3f4f5f6f7");
    assert_eq!(topic_of(&[0x0a; 32]), "lan-chat-v1-0a0a0a0a0a0a0a0a");
}
