//! The history of a room and its exchange between peers.

use lan_chat::app_state::SharedState;
use lan_chat::crypto::{cipher_from_key, RoomCipher};
use lan_chat::history::{
    append_to_history, append_to_history_if_new, build_history_response, clear_history,
    get_history, history_path_for, history_snapshot, ingest_history_response, install_history,
    open_history_response, recovered_history, send_message, HistoryFault, HistoryRequest, HistoryResponse,
    HistoryStore, IngestReport, Publication, HISTORY_CAP,
};
use lan_chat::types::{ChatMessage, StoredPath};

fn numbered_key() -> [u8; 32] {
    let mut key = [0u8; 32];
    for i in 0..32 {
        key[i] = i as u8;
    }
    key
}

fn path() -> StoredPath {
    StoredPath { folder: "history".to_string(), name: "ab.bin".to_string() }
}

fn store() -> HistoryStore {
    HistoryStore::new(path(), numbered_key())
}

fn cipher(byte: u8) -> RoomCipher {
    cipher_from_key(&[byte; 32]).ok().unwrap()
}

fn message(id: &str, timestamp: u64) -> ChatMessage {
    ChatMessage {
        id: id.to_string(),
        sender_name: "Ada".to_string(),
        sender_id: "peer".to_string(),
        content: format!("content of {}", id),
        timestamp,
    }
}

fn joined_state(messages: Vec<ChatMessage>) -> SharedState {
    let mut state = SharedState::new();
    install_history(&mut state, messages, store());
    state
}

fn ids(messages: &[ChatMessage]) -> Vec<String> {
    messages.iter().map(|m| m.id.clone()).collect()
}

#[test]
fn history_files_are_named_by_the_topic() {
    let named = |name: &str| StoredPath { folder: "history".to_string(), name: name.to_string() };
    assert_eq!(history_path_for("lan-chat-v1-be5cdbaf636b5fcb"), named("be5cdbaf636b5fcb.bin"));
    assert_eq!(history_path_for("something-else"), named("something-else.bin"));
    assert_eq!(history_path_for("lan-chat-v1-"), named(".bin"));
}

#[test]
fn a_history_file_is_the_nonce_and_the_ciphertext() {
    let nonce = [0, 1, 2, 3, 4, 5, 6, 7, 8, 9, 10, 11];
    let file = store().save_with_nonce(&nonce, b"hello room").unwrap();
    let hex: String = file.iter().map(|b| format!("{:02x}", b)).collect();
    assert_eq!(
        hex,
        "000102030405060708090a0be19e646c4637d72fd8eebcf39b6e87a1da0e471a2f69be01ae56"
    );
    assert_eq!(store().load(&file), Ok(b"hello room".to_vec()));
}

#[test]
fn a_saved_history_loads() {
    let file = store().save(b"{\"version\":1}").unwrap();
    assert_eq!(file.len(), 12 + 13 + 16);
    assert_eq!(store().load(&file), Ok(b"{\"version\":1}".to_vec()));
}

#[test]
fn damaged_history_files_are_refused() {
    let file = store().save(b"[]").unwrap();
    assert_eq!(store().load(&file[..11]), Err(HistoryFault::TooSmall));
    assert_eq!(store().load(&[]), Err(HistoryFault::TooSmall));
    assert_eq!(store().load(&file[..12]), Err(HistoryFault::Unreadable));
    let mut broken = file.clone();
    broken[20] ^= 1;
    assert_eq!(store().load(&broken), Err(HistoryFault::Unreadable));
    let mut retagged = file.clone();
    retagged[29] ^= 0x80;
    assert_eq!(store().load(&retagged), Err(HistoryFault::Unreadable));
    let other = HistoryStore::new(path(), [1; 32]);
    assert_eq!(other.load(&file), Err(HistoryFault::Unreadable));
}

#[test]
fn new_messages_are_appended() {
    let mut state = joined_state(vec![]);
    assert!(append_to_history_if_new(&mut state, message("a", 1)));
    append_to_history(&mut state, message("b", 2));
    assert_eq!(history_snapshot(&state), vec![message("a", 1), message("b", 2)]);
}

#[test]
fn known_identifiers_are_passed_over() {
    let mut state = joined_state(vec![message("a", 1)]);
    assert!(!append_to_history_if_new(&mut state, message("a", 99)));
    append_to_history(&mut state, message("a", 99));
    assert_eq!(history_snapshot(&state), vec![message("a", 1)]);
}

#[test]
fn nothing_is_archived_outside_a_room() {
    let mut state = SharedState::new();
    assert!(!append_to_history_if_new(&mut state, message("a", 1)));
    assert!(history_snapshot(&state).is_empty());
    assert!(get_history(&state).is_empty());
}

#[test]
fn the_oldest_messages_fall_out_at_the_cap() {
    let mut state = joined_state(vec![]);
    for i in 0..(HISTORY_CAP + 3) {
        assert!(append_to_history_if_new(&mut state, message(&i.to_string(), i as u64)));
    }
    let held = history_snapshot(&state);
    assert_eq!(held.len(), 500);
    assert_eq!(held[0].id, "3");
    assert_eq!(held[499].id, "502");
    assert!(append_to_history_if_new(&mut state, message("0", 0)));
    assert_eq!(history_snapshot(&state)[0].id, "4");
}

#[test]
fn the_history_is_shown_in_order_of_time() {
    let state = joined_state(vec![
        message("c", 30),
        message("a", 10),
        message("x", 20),
        message("b", 10),
        message("y", 20),
    ]);
    assert_eq!(ids(&get_history(&state)), ["a", "b", "x", "y", "c"]);
    assert_eq!(ids(&history_snapshot(&state)), ["c", "a", "x", "b", "y"]);
}

#[test]
fn sent_messages_are_archived() {
    let mut state = joined_state(vec![]);
    assert_eq!(send_message(&mut state, message("a", 1), Publication::Sent), Ok(true));
    assert_eq!(send_message(&mut state, message("a", 1), Publication::Sent), Ok(false));
    assert_eq!(ids(&history_snapshot(&state)), ["a"]);
}

#[test]
fn unsent_messages_are_not_archived() {
    let mut state = joined_state(vec![]);
    for (publication, error) in [
        (Publication::Poisoned, "Publisher lock empoisonné"),
        (Publication::NotReady, "Publisher non initialisé"),
        (Publication::Failed("channel closed".to_string()), "Échec d'envoi : channel closed"),
    ] {
        assert_eq!(
            send_message(&mut state, message("a", 1), publication),
            Err(error.to_string())
        );
    }
    assert!(history_snapshot(&state).is_empty());
}

#[test]
fn clearing_the_history_names_its_file() {
    let mut state = joined_state(vec![message("a", 1)]);
    assert_eq!(clear_history(&mut state), Ok(path()));
    assert!(history_snapshot(&state).is_empty());
    assert!(append_to_history_if_new(&mut state, message("a", 1)));
    let mut bare = SharedState::new();
    assert_eq!(clear_history(&mut bare), Err("Store non initialisé".to_string()));
}

#[test]
fn a_history_is_exchanged_whole_and_in_order() {
    let payloads = vec![b"one".to_vec(), b"".to_vec(), b"three".to_vec()];
    let response = build_history_response(&cipher(1), &payloads);
    assert_eq!(response.version, 1);
    assert_eq!(response.messages.len(), 3);
    assert_eq!(
        open_history_response(&cipher(1), &response),
        Some(vec![Some(b"one".to_vec()), Some(b"".to_vec()), Some(b"three".to_vec())])
    );
}

#[test]
fn an_outsider_reads_nothing_of_a_history() {
    let response = build_history_response(&cipher(1), &vec![b"one".to_vec(), b"two".to_vec()]);
    assert_eq!(open_history_response(&cipher(2), &response), Some(vec![None, None]));
    let mut state = joined_state(vec![message("a", 1)]);
    assert_eq!(
        ingest_history_response(&mut state, vec![None, None]),
        IngestReport { total: 2, fresh: vec![], dup: 0, decrypt_failed: 2 }
    );
    assert_eq!(ids(&history_snapshot(&state)), ["a"]);
}

#[test]
fn responses_of_another_version_are_ignored() {
    let response = HistoryResponse { version: 2, messages: vec![] };
    assert_eq!(open_history_response(&cipher(1), &response), None);
    assert_eq!(response.clone(), response);
    assert_eq!(HistoryRequest { version: 2 }.clone(), HistoryRequest { version: 2 });
}

#[test]
fn a_late_joiner_gets_the_whole_history() {
    let held: Vec<ChatMessage> = (0..50).map(|i| message(&i.to_string(), i)).collect();
    let mut late = joined_state(vec![]);
    let report = ingest_history_response(&mut late, held.iter().cloned().map(Some).collect());
    assert_eq!(report.fresh, held);
    assert_eq!(history_snapshot(&late), held);
    let again = ingest_history_response(&mut late, held.iter().cloned().map(Some).collect());
    assert_eq!(again, IngestReport { total: 50, fresh: vec![], dup: 50, decrypt_failed: 0 });
    assert_eq!(history_snapshot(&late), held);
}

#[test]
fn every_item_of_an_ingestion_is_accounted_for() {
    let mut state = joined_state(vec![message("a", 1)]);
    let report = ingest_history_response(
        &mut state,
        vec![Some(message("a", 1)), None, Some(message("b", 2)), Some(message("b", 3))],
    );
    assert_eq!(
        report,
        IngestReport { total: 4, fresh: vec![message("b", 2)], dup: 2, decrypt_failed: 1 }
    );
    assert_eq!(history_snapshot(&state), vec![message("a", 1), message("b", 2)]);
}

#[test]
fn ingestion_outside_a_room_keeps_nothing() {
    let mut state = SharedState::new();
    let report = ingest_history_response(&mut state, vec![Some(message("a", 1)), None]);
    assert_eq!(report, IngestReport { total: 2, fresh: vec![], dup: 1, decrypt_failed: 1 });
    assert!(history_snapshot(&state).is_empty());
}

#[test]
fn a_response_is_within_the_cap() {
    let mut state = joined_state(vec![]);
    for i in 0..(HISTORY_CAP + 10) {
        append_to_history(&mut state, message(&i.to_string(), i as u64));
    }
    let payloads: Vec<Vec<u8>> =
        history_snapshot(&state).iter().map(|m| m.id.as_bytes().to_vec()).collect();
    assert_eq!(build_history_response(&cipher(1), &payloads).messages.len(), HISTORY_CAP);
}

#[test]
fn faulty_history_files_give_no_messages() {
    let messages = || Some(vec![message("a", 1)]);
    assert_eq!(recovered_history(Some(Ok(b"[]".to_vec())), messages()), vec![message("a", 1)]);
    assert!(recovered_history(Some(Ok(b"?".to_vec())), None).is_empty());
    assert!(recovered_history(Some(Err(HistoryFault::TooSmall)), messages()).is_empty());
    assert!(recovered_history(Some(Err(HistoryFault::Unreadable)), None).is_empty());
    assert!(recovered_history(None, messages()).is_empty());
}
