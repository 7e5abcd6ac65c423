//! Offers, downloads and the check of what arrived.

use lan_chat::app_state::SharedState;
use lan_chat::crypto::{cipher_from_key, decrypt_bytes, encrypt_bytes, RoomCipher};
use lan_chat::files::{
    abort_download, accept_peer, chunk_write_failed, dedupe_filename, digest_text, download_file, download_renamed,
    final_path, finalize_download, ingest_chunk, offer_file, offer_published, open_chunk,
    partial_path, prepare_download, prepare_offer, seal_chunk, serve_chunk, ChunkProgress,
    ChunkRequest, ChunkResponse, ChunkStep, ContentHasher, DownloadState, FileFault, FinalizeStep,
    NextStep, OfferDraft, ReadOutcome, ServePlan, ServedFile, SwarmFileCmd, FILE_CHUNK_SIZE,
    MAX_FILE_SIZE,
};
use lan_chat::history::Publication;
use lan_chat::types::{FileOffer, NodeStatus, StoredPath};

const PEER: &str = "12D3KooWDpJ7As7BWAwRMfu1VU2WCqNjvq387JEYKDBj4kx6nXTN";

fn cipher() -> RoomCipher {
    cipher_from_key(&[5; 32]).ok().unwrap()
}

fn stored(name: &str) -> StoredPath {
    StoredPath { folder: "files".to_string(), name: name.to_string() }
}

fn ready_state() -> SharedState {
    let mut state = SharedState::new();
    state.node = NodeStatus::Ready { peer_id: PEER.to_string(), room_name: "x".to_string() };
    state
}

fn offer(size: u64, hash: &str) -> FileOffer {
    FileOffer {
        id: "f1".to_string(),
        sender_name: "Ada".to_string(),
        sender_id: PEER.to_string(),
        timestamp: 7,
        filename: "foo.pdf".to_string(),
        size,
        mime: "application/pdf".to_string(),
        hash: hash.to_string(),
    }
}

fn request(offset: u64, length: u32) -> ChunkRequest {
    ChunkRequest { version: 1, file_id: "f1".to_string(), offset, length }
}

fn asks(offset: u64, length: u32) -> SwarmFileCmd {
    SwarmFileCmd::RequestChunk { peer: PEER.to_string(), request: request(offset, length) }
}

fn started(size: u64, hash: &str) -> SharedState {
    let mut state = SharedState::new();
    let cmd = download_file(
        &mut state,
        "f1",
        &offer(size, hash),
        PEER.to_string(),
        partial_path("f1"),
        final_path("foo.pdf".to_string()),
    );
    assert_eq!(cmd, Ok(asks(0, size.min(262144) as u32)));
    state
}

fn hash_of(pieces: &[&[u8]]) -> String {
    let mut hasher = ContentHasher::new();
    for piece in pieces {
        hasher.update(piece);
    }
    hasher.finish()
}

#[test]
fn content_is_hashed_piece_by_piece() {
    let abc = "ba7816bf8f01cfea414140de5dae2223b00361a396177a9cb410ff61f20015ad";
    assert_eq!(hash_of(&[b"abc"]), abc);
    assert_eq!(hash_of(&[b"a", b"", b"bc"]), abc);
    assert_eq!(
        hash_of(&[]),
        "e3b0c44298fc1c149afbf4c8996fb92427ae41e4649b934ca495991b7852b855"
    );
}

#[test]
fn a_free_name_is_kept() {
    assert_eq!(dedupe_filename("foo.pdf", |_: &str| false), "foo.pdf");
}

#[test]
fn taken_names_are_numbered() {
    assert_eq!(dedupe_filename("foo.pdf", |n: &str| n == "foo.pdf"), "foo (1).pdf");
    assert_eq!(
        dedupe_filename("foo.pdf", |n: &str| n == "foo.pdf" || n == "foo (1).pdf"),
        "foo (2).pdf"
    );
    assert_eq!(dedupe_filename("notes", |n: &str| n == "notes"), "notes (1)");
    assert_eq!(dedupe_filename("a.tar.gz", |n: &str| n == "a.tar.gz"), "a.tar (1).gz");
    assert_eq!(dedupe_filename(".profile", |n: &str| n == ".profile"), " (1).profile");
    assert_eq!(dedupe_filename("end.", |n: &str| n == "end."), "end (1).");
}

#[test]
fn a_name_is_given_up_after_many_attempts() {
    assert_eq!(dedupe_filename("foo.pdf", |_: &str| true), "foo.pdf");
    assert_eq!(dedupe_filename("foo.pdf", |n: &str| n != "foo (9999).pdf"), "foo (9999).pdf");
    assert_eq!(dedupe_filename("foo.pdf", |n: &str| n != "foo (10000).pdf"), "foo.pdf");
}

#[test]
fn candidate_names_do_not_repeat() {
    let seen = std::cell::RefCell::new(std::collections::HashSet::new());
    dedupe_filename("1.1", |n: &str| {
        assert!(seen.borrow_mut().insert(n.to_string()));
        true
    });
    assert_eq!(seen.borrow().len(), 10000);
}

#[test]
fn unfit_files_are_not_offered() {
    let state = ready_state();
    let prepare = |is_file: bool, size: Result<u64, String>| {
        prepare_offer(&state, "/x/a.png".to_string(), is_file, size, Some("a.png".to_string()))
            .err()
    };
    assert_eq!(
        prepare(false, Err("gone".to_string())),
        Some("Le chemin n'est pas un fichier : /x/a.png".to_string())
    );
    assert_eq!(
        prepare(true, Err("denied".to_string())),
        Some("Lecture metadata : denied".to_string())
    );
    assert_eq!(prepare(true, Ok(0)), Some("Fichier vide.".to_string()));
    assert_eq!(
        prepare(true, Ok(MAX_FILE_SIZE + 1)),
        Some("Fichier trop gros (524288001 octets, max 524288000 octets).".to_string())
    );
    assert_eq!(prepare(true, Ok(MAX_FILE_SIZE)), None);
}

#[test]
fn nothing_is_offered_before_the_node_is_ready() {
    let state = SharedState::new();
    assert_eq!(
        prepare_offer(&state, "/x/a".to_string(), true, Ok(1), Some("a".to_string())),
        Err("Nœud P2P pas encore prêt.".to_string())
    );
}

#[test]
fn the_media_type_follows_the_extension() {
    let state = ready_state();
    let mime = |name: Option<&str>| {
        prepare_offer(&state, "/x".to_string(), true, Ok(1), name.map(|n| n.to_string()))
            .unwrap()
            .mime
    };
    assert_eq!(mime(Some("a.png")), "image/png");
    assert_eq!(mime(Some("A.PNG")), "image/png");
    assert_eq!(mime(Some("b.tar.pdf")), "application/pdf");
    assert_eq!(mime(Some("c")), "application/octet-stream");
    assert_eq!(mime(Some(".png")), "application/octet-stream");
    assert_eq!(mime(Some("d.nosuchthing")), "application/octet-stream");
    assert_eq!(mime(None), "application/octet-stream");
}

#[test]
fn an_offered_file_is_served() {
    let mut state = ready_state();
    let draft =
        prepare_offer(&state, "/x/a.png".to_string(), true, Ok(9), Some("a.png".to_string()))
            .unwrap();
    assert_eq!(
        draft,
        OfferDraft {
            path: "/x/a.png".to_string(),
            size: 9,
            filename: "a.png".to_string(),
            sender_id: PEER.to_string(),
            mime: "image/png".to_string(),
        }
    );
    let made = offer_file(
        &mut state,
        draft,
        "f1".to_string(),
        "Ada".to_string(),
        7,
        Ok("h".to_string()),
    )
    .unwrap();
    assert_eq!(
        made,
        FileOffer {
            id: "f1".to_string(),
            sender_name: "Ada".to_string(),
            sender_id: PEER.to_string(),
            timestamp: 7,
            filename: "a.png".to_string(),
            size: 9,
            mime: "image/png".to_string(),
            hash: "h".to_string(),
        }
    );
    assert_eq!(
        serve_chunk(&state, &request(4, 100)),
        ServePlan::Read { path: "/x/a.png".to_string(), offset: 4, length: 5 }
    );
}

#[test]
fn a_nameless_file_gets_a_name() {
    let draft = prepare_offer(&ready_state(), "/x/..".to_string(), true, Ok(1), None).unwrap();
    assert_eq!(draft.filename, "file.bin");
}

#[test]
fn a_file_that_cannot_be_hashed_is_not_served() {
    let mut state = ready_state();
    let draft =
        prepare_offer(&state, "/x/a".to_string(), true, Ok(9), Some("a".to_string())).unwrap();
    assert_eq!(
        offer_file(
            &mut state,
            draft,
            "f1".to_string(),
            "Ada".to_string(),
            7,
            Err("io".to_string())
        ),
        Err("io".to_string())
    );
    assert_eq!(state.served_files.len(), 0);
}

#[test]
fn the_publication_of_an_offer_is_reported() {
    assert_eq!(offer_published(offer(1, "h"), Publication::Sent), Ok(offer(1, "h")));
    for (publication, error) in [
        (Publication::Poisoned, "Publisher lock empoisonné"),
        (Publication::NotReady, "Publisher non initialisé"),
        (Publication::Failed("closed".to_string()), "Envoi offre échoué : closed"),
    ] {
        assert_eq!(offer_published(offer(1, "h"), publication), Err(error.to_string()));
    }
}

#[test]
fn downloads_are_checked() {
    let mut state = SharedState::new();
    assert_eq!(
        prepare_download(&state, "f1", PEER),
        Err("Offre de fichier inconnue (expirée ?)".to_string())
    );
    state.received_offers.insert("f1".to_string(), offer(MAX_FILE_SIZE + 1, "h"));
    assert_eq!(
        prepare_download(&state, "f1", "nobody"),
        Err("Fichier trop gros (524288001 octets > max 524288000 octets).".to_string())
    );
    state.received_offers.insert("f1".to_string(), offer(MAX_FILE_SIZE, "h"));
    assert_eq!(
        prepare_download(&state, "f1", PEER),
        Ok((offer(MAX_FILE_SIZE, "h"), PEER.to_string()))
    );
}

#[test]
fn peers_have_to_be_identified() {
    let mut state = SharedState::new();
    state.received_offers.insert("f1".to_string(), offer(1, "h"));
    assert_eq!(
        prepare_download(&state, "f1", ""),
        Err("PeerId invalide : invalid multihash".to_string())
    );
    let sha512 = "8VvpQP172H8eRFLJzH9mTosjkSAyYVh3sx4FF6dxXpHXfZPPjKrJsqsHE3b6e3KrYrjnA3hNytZuCo2LEA6WwB8p93";
    assert_eq!(
        prepare_download(&state, "f1", sha512),
        Err("PeerId invalide : unsupported multihash code '19'".to_string())
    );
    let e = prepare_download(&state, "f1", "0OIl").unwrap_err();
    assert!(e.starts_with("PeerId invalide : base-58 decode error: "), "{}", e);
    let hashed = "QmRZxqmfd6isQRZ7AU9pUc7oTS95Ji2JENyBKsF8ZvdLFR";
    assert_eq!(prepare_download(&state, "f1", hashed), Ok((offer(1, "h"), hashed.to_string())));
}

#[test]
fn a_download_starts_at_the_beginning() {
    let state = started(1_000_000, "h");
    assert_eq!(
        state.active_downloads.get("f1"),
        Some(&DownloadState {
            sender_peer: PEER.to_string(),
            size: 1_000_000,
            expected_hash: "h".to_string(),
            received_bytes: 0,
            temp_path: stored(".f1.part"),
            final_path: stored("foo.pdf"),
        })
    );
    started(10, "h");
    started(0, "h");
}

#[test]
fn a_download_is_not_started_twice() {
    let mut state = started(10, "h");
    let again = download_file(
        &mut state,
        "f1",
        &offer(99, "other"),
        PEER.to_string(),
        partial_path("f1"),
        final_path("bar".to_string()),
    );
    assert_eq!(again, Err("Téléchargement déjà en cours pour ce fichier.".to_string()));
    assert_eq!(state.active_downloads.get("f1").unwrap().size, 10);
    abort_download(&mut state, "f1");
    assert_eq!(state.active_downloads.len(), 0);
    abort_download(&mut state, "f1");
}

#[test]
fn requests_are_answered_within_the_file() {
    let mut state = SharedState::new();
    state
        .served_files
        .insert("f1".to_string(), ServedFile { path: "/x/a".to_string(), size: 300_000 });
    let read = |offset: u64, length: usize| ServePlan::Read {
        path: "/x/a".to_string(),
        offset,
        length,
    };
    assert_eq!(serve_chunk(&state, &request(0, 262_144)), read(0, 262_144));
    assert_eq!(serve_chunk(&state, &request(262_144, 262_144)), read(262_144, 37_856));
    assert_eq!(serve_chunk(&state, &request(300_000, 5)), read(300_000, 0));
    assert_eq!(serve_chunk(&state, &request(u64::MAX, u32::MAX)), read(u64::MAX, 0));
}

#[test]
fn unfit_requests_are_refused() {
    let state = SharedState::new();
    assert_eq!(
        serve_chunk(&state, &request(0, 1)),
        ServePlan::Reply(ChunkResponse::NotFound)
    );
    let newer = ChunkRequest { version: 2, ..request(0, 1) };
    assert_eq!(
        serve_chunk(&state, &newer),
        ServePlan::Reply(ChunkResponse::Error {
            message: "unsupported chunk-request version 2".to_string()
        })
    );
}

#[test]
fn chunks_are_sealed_for_the_room() {
    match seal_chunk(&cipher(), &request(0, 3), ReadOutcome::Data(b"abc".to_vec())) {
        ChunkResponse::Chunk { file_id, data } => {
            assert_eq!(file_id, "f1");
            assert_eq!(decrypt_bytes(&cipher(), &data), Some(b"abc".to_vec()));
        }
        other => panic!("{:?}", other),
    }
}

#[test]
fn read_failures_are_told_to_the_peer() {
    for (outcome, message) in [
        (ReadOutcome::OpenFailed("gone".to_string()), "open: gone"),
        (ReadOutcome::SeekFailed("bad".to_string()), "seek: bad"),
        (ReadOutcome::ReadFailed("eof".to_string()), "read: eof"),
    ] {
        assert_eq!(
            seal_chunk(&cipher(), &request(0, 3), outcome),
            ChunkResponse::Error { message: message.to_string() }
        );
    }
}

#[test]
fn a_chunk_is_written_to_its_download() {
    let mut state = started(10, "h");
    let data = encrypt_bytes(&cipher(), b"abc").unwrap();
    assert_eq!(
        open_chunk(&mut state, &cipher(), "f1", &data),
        ChunkStep::Write { path: stored(".f1.part"), data: b"abc".to_vec() }
    );
    assert_eq!(open_chunk(&mut state, &cipher(), "f2", &data), ChunkStep::Ignored);
    assert!(state.active_downloads.contains_key("f1"));
}

#[test]
fn a_chunk_that_does_not_open_ends_its_download() {
    let mut state = started(10, "h");
    let other = cipher_from_key(&[6; 32]).ok().unwrap();
    let data = encrypt_bytes(&other, b"abc").unwrap();
    assert_eq!(
        open_chunk(&mut state, &cipher(), "f1", &data),
        ChunkStep::Failed { message: "decrypt failed".to_string() }
    );
    assert!(!state.active_downloads.contains_key("f1"));
}

#[test]
fn a_failed_write_ends_its_download() {
    let mut state = started(10, "h");
    assert_eq!(
        chunk_write_failed(&mut state, "f1", "disk full"),
        Some(FileFault { message: "write: disk full".to_string(), remove: stored(".f1.part") })
    );
    assert!(!state.active_downloads.contains_key("f1"));
    assert_eq!(chunk_write_failed(&mut state, "f1", "disk full"), None);
}

#[test]
fn progress_leads_to_the_next_chunk() {
    let mut state = started(600_000, "h");
    assert_eq!(
        ingest_chunk(&mut state, "f1", 262_144),
        Some(ChunkProgress {
            received: 262_144,
            total: 600_000,
            next: NextStep::Request(asks(262_144, 262_144)),
        })
    );
    assert_eq!(
        ingest_chunk(&mut state, "f1", 262_144),
        Some(ChunkProgress {
            received: 524_288,
            total: 600_000,
            next: NextStep::Request(asks(524_288, 75_712)),
        })
    );
    assert_eq!(
        ingest_chunk(&mut state, "f1", 75_712),
        Some(ChunkProgress {
            received: 600_000,
            total: 600_000,
            next: NextStep::Finalize { temp_path: stored(".f1.part") },
        })
    );
    assert_eq!(ingest_chunk(&mut state, "f2", 1), None);
}

#[test]
fn surplus_bytes_complete_a_download() {
    let mut state = started(10, "h");
    assert_eq!(
        ingest_chunk(&mut state, "f1", 11),
        Some(ChunkProgress {
            received: 11,
            total: 10,
            next: NextStep::Finalize { temp_path: stored(".f1.part") },
        })
    );
}

#[test]
fn a_download_with_the_offered_hash_is_kept() {
    let hash = hash_of(&[b"abc"]);
    let mut state = started(3, &hash);
    assert_eq!(
        finalize_download(&mut state, "f1", &stored(".f1.part"), Ok(hash)),
        FinalizeStep::Rename { from: stored(".f1.part"), to: stored("foo.pdf") }
    );
    assert!(state.active_downloads.contains_key("f1"));
    assert_eq!(download_renamed(&mut state, "f1", &stored(".f1.part"), Ok(())), Ok(()));
    assert!(!state.active_downloads.contains_key("f1"));
}

#[test]
fn a_download_with_another_hash_is_thrown_away() {
    let mut state = started(3, &hash_of(&[b"abc"]));
    assert_eq!(
        finalize_download(&mut state, "f1", &stored(".f1.part"), Ok(hash_of(&[b"abd"]))),
        FinalizeStep::Failed(FileFault {
            message: "hash mismatch".to_string(),
            remove: stored(".f1.part")
        })
    );
    assert!(!state.active_downloads.contains_key("f1"));
}

#[test]
fn finalization_may_fail() {
    let mut state = started(3, "h");
    assert_eq!(
        finalize_download(&mut state, "f1", &stored(".f1.part"), Err("io".to_string())),
        FinalizeStep::Failed(FileFault {
            message: "hash compute failed: io".to_string(),
            remove: stored(".f1.part")
        })
    );
    assert!(!state.active_downloads.contains_key("f1"));
    assert_eq!(
        finalize_download(&mut state, "f1", &stored(".f1.part"), Ok("h".to_string())),
        FinalizeStep::Ignored
    );
    let mut state = started(3, "h");
    assert_eq!(
        download_renamed(&mut state, "f1", &stored(".f1.part"), Err("denied".to_string())),
        Err(FileFault { message: "rename: denied".to_string(), remove: stored(".f1.part") })
    );
    assert!(!state.active_downloads.contains_key("f1"));
}

#[test]
fn a_file_is_transferred_as_it_is() {
    let content: Vec<u8> = (0..(2 * FILE_CHUNK_SIZE + 1000)).map(|i| (i * 7 % 251) as u8).collect();
    let hash = hash_of(&[&content]);
    let mut sender = SharedState::new();
    sender.served_files.insert(
        "f1".to_string(),
        ServedFile { path: "/x/a".to_string(), size: content.len() as u64 },
    );
    let mut receiver = SharedState::new();
    let mut cmd = download_file(
        &mut receiver,
        "f1",
        &offer(content.len() as u64, &hash),
        PEER.to_string(),
        partial_path("f1"),
        final_path("foo.pdf".to_string()),
    )
    .unwrap();
    let mut gathered: Vec<u8> = Vec::new();
    let mut chunks = 0;
    loop {
        let SwarmFileCmd::RequestChunk { request, .. } = cmd;
        let read = match serve_chunk(&sender, &request) {
            ServePlan::Read { offset, length, .. } => {
                content[offset as usize..offset as usize + length].to_vec()
            }
            other => panic!("{:?}", other),
        };
        let sealed = match seal_chunk(&cipher(), &request, ReadOutcome::Data(read)) {
            ChunkResponse::Chunk { data, .. } => data,
            other => panic!("{:?}", other),
        };
        let data = match open_chunk(&mut receiver, &cipher(), "f1", &sealed) {
            ChunkStep::Write { data, .. } => data,
            other => panic!("{:?}", other),
        };
        gathered.extend_from_slice(&data);
        chunks += 1;
        match ingest_chunk(&mut receiver, "f1", data.len() as u64).unwrap().next {
            NextStep::Request(next) => cmd = next,
            NextStep::Finalize { .. } => break,
        }
    }
    assert_eq!(chunks, 3);
    assert_eq!(gathered, content);
    assert!(matches!(
        finalize_download(&mut receiver, "f1", &partial_path("f1"), Ok(hash_of(&[&gathered]))),
        FinalizeStep::Rename { .. }
    ));
}

#[test]
fn digests_are_written_in_hexadecimal() {
    assert_eq!(digest_text(&[0xa5; 32]), "a5".repeat(32));
}

#[test]
fn a_peer_is_accepted_with_its_offer() {
    assert_eq!(
        accept_peer(offer(1, "h"), Ok("p".to_string())),
        Ok((offer(1, "h"), "p".to_string()))
    );
    assert_eq!(
        accept_peer(offer(1, "h"), Err("nobody".to_string())),
        Err("PeerId invalide : nobody".to_string())
    );
}
