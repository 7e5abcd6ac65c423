//! Sharing of files: offers, downloads in chunks, and the check of what arrived.

use crate::app_state::SharedState;
use crate::crypto;
use crate::crypto::{decrypt_bytes, encrypt_bytes, RoomCipher};
use crate::history::Publication;
use crate::primitives;
use crate::primitives::{
    guess_media_type, hex_encode, parse_peer, sha256_digest, sha256_feed, sha256_start,
    MAX_SEALED_LEN,
};
use crate::text;
use crate::text::{decimal, joined, same_text, split_last_dot};
use crate::types::{EncryptedEnvelope, FileOffer, NodeStatus, StoredPath};
use sha2::Sha256;
use vstd::prelude::*;

verus! {

/// Most bytes that are asked for at a time.
pub const FILE_CHUNK_SIZE: u32 = 262144;

/// Size of the largest file that is offered or downloaded.
pub const MAX_FILE_SIZE: u64 = 524288000;

/// Version of the protocol by which chunks are exchanged.
pub const CHUNK_VERSION: u32 = 1;

/// How many names are tried for a download whose own name is taken.
pub const DEDUPE_ATTEMPTS: u64 = 10000;

/// A file that this node serves on demand.
#[derive(Debug, PartialEq, Eq)]
pub struct ServedFile {
    pub path: String,
    pub size: u64,
}

/// A download under way.
#[derive(Debug, PartialEq, Eq)]
pub struct DownloadState {
    pub sender_peer: String,
    pub size: u64,
    pub expected_hash: String,
    pub received_bytes: u64,
    pub temp_path: StoredPath,
    pub final_path: StoredPath,
}

/// What the swarm is to do for a download.
#[derive(Debug, PartialEq, Eq)]
pub enum SwarmFileCmd {
    RequestChunk { peer: String, request: ChunkRequest },
}

/// Asks for `length` bytes of a file, from `offset` on.
#[derive(Debug, PartialEq, Eq)]
pub struct ChunkRequest {
    pub version: u32,
    pub file_id: String,
    pub offset: u64,
    pub length: u32,
}

/// Answer to a request for a chunk.
#[derive(Debug, PartialEq, Eq)]
pub enum ChunkResponse {
    Chunk { file_id: String, data: EncryptedEnvelope },
    NotFound,
    Error { message: String },
}

impl Clone for ChunkRequest {
    fn clone(&self) -> (r: Self)
        ensures
            r == *self,
    {
        ChunkRequest {
            version: self.version,
            file_id: self.file_id.clone(),
            offset: self.offset,
            length: self.length,
        }
    }
}

impl Clone for ChunkResponse {
    fn clone(&self) -> (r: Self)
        ensures
            r == *self,
    {
        match self {
            ChunkResponse::Chunk { file_id, data } => ChunkResponse::Chunk {
                file_id: file_id.clone(),
                data: data.clone(),
            },
            ChunkResponse::NotFound => ChunkResponse::NotFound,
            ChunkResponse::Error { message } => ChunkResponse::Error { message: message.clone() },
        }
    }
}

impl Clone for ServedFile {
    fn clone(&self) -> (r: Self)
        ensures
            r == *self,
    {
        ServedFile { path: self.path.clone(), size: self.size }
    }
}

impl Clone for DownloadState {
    fn clone(&self) -> (r: Self)
        ensures
            r == *self,
    {
        DownloadState {
            sender_peer: self.sender_peer.clone(),
            size: self.size,
            expected_hash: self.expected_hash.clone(),
            received_bytes: self.received_bytes,
            temp_path: self.temp_path.clone(),
            final_path: self.final_path.clone(),
        }
    }
}

/// Digest of a file's content, computed piece by piece. Its view is the content so far.
pub struct ContentHasher {
    hasher: Sha256,
}

impl View for ContentHasher {
    type V = Seq<u8>;

    closed spec fn view(&self) -> Seq<u8> {
        primitives::absorbed(self.hasher)
    }
}

/// The SHA-256 digest of `content` in hexadecimal.
pub open spec fn content_hash(content: Seq<u8>) -> Seq<char> {
    primitives::hex_text(primitives::sha256(content))
}

/// A digest as it stands in an offer: in hexadecimal.
pub fn digest_text(digest: &[u8; 32]) -> (r: String)
    ensures
        r@ == primitives::hex_text(digest@),
        r@.len() == 64,
{
    hex_encode(digest.as_slice())
}

impl ContentHasher {
    /// Nothing has been read yet.
    pub fn new() -> (r: Self)
        ensures
            r@ == Seq::<u8>::empty(),
    {
        ContentHasher { hasher: sha256_start() }
    }

    /// The next piece of the content was read.
    pub fn update(&mut self, piece: &[u8])
        ensures
            final(self)@ == old(self)@ + piece@,
    {
        sha256_feed(&mut self.hasher, piece);
    }

    /// The digest of the whole content.
    pub fn finish(self) -> (r: String)
        ensures
            r@ == content_hash(self@),
            r@.len() == 64,
    {
        digest_text(&sha256_digest(self.hasher))
    }
}

/// The `n`-th name that is tried for a file: its own, then `foo (1).pdf`, `foo (2).pdf` and so
/// on for `foo.pdf`.
pub open spec fn dedupe_candidate(filename: Seq<char>, n: nat) -> Seq<char> {
    let at = text::last_position(filename, '.');
    if n == 0 {
        filename
    } else if at >= 0 {
        filename.take(at) + " ("@ + text::decimal_text(n) + ")"@ + filename.skip(at)
    } else {
        filename + " ("@ + text::decimal_text(n) + ")"@
    }
}

/// Whether `taken` may answer `answer` when asked for the name `name`.
pub open spec fn answers<F: Fn(&str) -> bool>(taken: F, name: Seq<char>, answer: bool) -> bool {
    exists|s: &str| #[trigger] s@ == name && call_ensures(taken, (s,), answer)
}

/// Whether the names before the `n`-th were all found taken.
pub open spec fn taken_before<F: Fn(&str) -> bool>(taken: F, filename: Seq<char>, n: nat) -> bool {
    forall|m: nat| m < n ==> #[trigger] answers(taken, dedupe_candidate(filename, m), true)
}

fn numbered_name(filename: &str, n: u64) -> (r: String)
    requires
        n > 0,
    ensures
        r@ == dedupe_candidate(filename@, n as nat),
{
    let number = joined(joined(" (", decimal(n).as_str()).as_str(), ")");
    match split_last_dot(filename) {
        Some((stem, ext)) => {
            let r = joined(joined(stem, number.as_str()).as_str(), joined(".", ext).as_str());
            proof {
                let at = text::last_position(filename@, '.');
                reveal_strlit(".");
                assert(filename@.skip(at) =~= "."@ + filename@.skip(at + 1));
                assert(r@ =~= dedupe_candidate(filename@, n as nat));
            }
            r
        },
        None => {
            let r = joined(filename, number.as_str());
            assert(r@ =~= dedupe_candidate(filename@, n as nat));
            r
        },
    }
}

/// A name for a file that is not taken: the first of its candidates that `taken` denies; its
/// own once all have been tried.
pub fn dedupe_filename<F: Fn(&str) -> bool>(filename: &str, taken: F) -> (r: String)
    requires
        forall|s: &str| call_requires(taken, (s,)),
    ensures
        ({
            ||| exists|n: nat|
                n < DEDUPE_ATTEMPTS && r@ == #[trigger] dedupe_candidate(filename@, n)
                    && taken_before(taken, filename@, n) && answers(taken, r@, false)
            ||| r@ == filename@ && taken_before(taken, filename@, DEDUPE_ATTEMPTS as nat)
        }),
{
    if !taken(filename) {
        assert(filename@ == dedupe_candidate(filename@, 0));
        assert(answers(taken, filename@, false));
        return filename.to_owned();
    }
    assert(answers(taken, dedupe_candidate(filename@, 0), true));
    let mut n: u64 = 1;
    while n < DEDUPE_ATTEMPTS
        invariant
            1 <= n <= DEDUPE_ATTEMPTS,
            forall|s: &str| call_requires(taken, (s,)),
            taken_before(taken, filename@, n as nat),
        decreases DEDUPE_ATTEMPTS - n,
    {
        let candidate = numbered_name(filename, n);
        let name = candidate.as_str();
        if !taken(name) {
            assert(answers(taken, dedupe_candidate(filename@, n as nat), false));
            return candidate;
        }
        assert(answers(taken, dedupe_candidate(filename@, n as nat), true));
        n = n + 1;
    }
    filename.to_owned()
}

/// What follows the last dot of a file name; nothing where the name has no dot, begins with
/// its only dot, or is the parent directory's.
pub open spec fn extension_of(name: Seq<char>) -> Seq<char> {
    let at = text::last_position(name, '.');
    if at <= 0 || name == ".."@ {
        Seq::empty()
    } else {
        name.skip(at + 1)
    }
}

fn no_text() -> (r: &'static str)
    ensures
        r@ == Seq::<char>::empty(),
{
    let r = "";
    proof {
        reveal_strlit("");
    }
    assert(r@ =~= Seq::<char>::empty());
    r
}

fn media_type_of(name: &str) -> (r: String)
    ensures
        r@ == primitives::media_type(extension_of(name@)),
{
    if same_text(name, "..") {
        return guess_media_type(no_text());
    }
    match split_last_dot(name) {
        Some((stem, ext)) => if stem.is_empty() {
            guess_media_type(no_text())
        } else {
            guess_media_type(ext)
        },
        None => guess_media_type(no_text()),
    }
}

/// A file that was found fit to be offered.
#[derive(Debug, PartialEq, Eq)]
pub struct OfferDraft {
    pub path: String,
    pub size: u64,
    pub filename: String,
    pub sender_id: String,
    pub mime: String,
}

/// What is said of a file that is too large to be offered.
pub open spec fn too_large_to_offer(size: u64) -> Seq<char> {
    "Fichier trop gros ("@ + text::decimal_text(size as nat) + " octets, max "@
        + text::decimal_text(MAX_FILE_SIZE as nat) + " octets)."@
}

/// What is said of a file that is too large to be downloaded.
pub open spec fn too_large_to_download(size: u64) -> Seq<char> {
    "Fichier trop gros ("@ + text::decimal_text(size as nat) + " octets > max "@
        + text::decimal_text(MAX_FILE_SIZE as nat) + " octets)."@
}

fn too_large_text(size: u64, middle: &str) -> (r: String)
    ensures
        r@ == "Fichier trop gros ("@ + text::decimal_text(size as nat) + middle@
            + text::decimal_text(MAX_FILE_SIZE as nat) + " octets)."@,
{
    let head = joined("Fichier trop gros (", decimal(size).as_str());
    let both = joined(joined(head.as_str(), middle).as_str(), decimal(MAX_FILE_SIZE).as_str());
    joined(both.as_str(), " octets).")
}

/// Why a file cannot be offered, if so: the first of the reasons that holds.
pub open spec fn offer_refusal(
    node: NodeStatus,
    path: Seq<char>,
    is_file: bool,
    size: Result<u64, String>,
) -> Option<Seq<char>> {
    if !is_file {
        Some("Le chemin n'est pas un fichier : "@ + path)
    } else {
        match size {
            Err(e) => Some("Lecture metadata : "@ + e@),
            Ok(n) => if n == 0 {
                Some("Fichier vide."@)
            } else if n > MAX_FILE_SIZE {
                Some(too_large_to_offer(n))
            } else if !(node is Ready) {
                Some("Nœud P2P pas encore prêt."@)
            } else {
                None
            },
        }
    }
}

/// Checks a file that is to be offered. `size` is what the file system says of it, and
/// `file_name` the last part of its path.
pub fn prepare_offer(
    state: &SharedState,
    path: String,
    is_file: bool,
    size: Result<u64, String>,
    file_name: Option<String>,
) -> (r: Result<OfferDraft, String>)
    ensures
        match r {
            Ok(draft) => {
                &&& offer_refusal(state.node, path@, is_file, size) is None
                &&& draft.path == path
                &&& size == Ok::<_, String>(draft.size)
                &&& 0 < draft.size <= MAX_FILE_SIZE
                &&& state.node matches NodeStatus::Ready { peer_id, .. } && draft.sender_id
                    == peer_id
                &&& match file_name {
                    Some(name) => draft.filename == name && draft.mime@ == primitives::media_type(
                        extension_of(name@),
                    ),
                    None => draft.filename@ == "file.bin"@ && draft.mime@
                        == "application/octet-stream"@,
                }
            },
            Err(e) => offer_refusal(state.node, path@, is_file, size) == Some(e@),
        },
{
    if !is_file {
        return Err(joined("Le chemin n'est pas un fichier : ", path.as_str()));
    }
    let bytes: u64 = match size {
        Ok(n) => n,
        Err(e) => {
            return Err(joined("Lecture metadata : ", e.as_str()));
        },
    };
    if bytes == 0 {
        return Err("Fichier vide.".to_owned());
    }
    if bytes > MAX_FILE_SIZE {
        return Err(too_large_text(bytes, " octets, max "));
    }
    let sender_id = match &state.node {
        NodeStatus::Ready { peer_id, .. } => peer_id.clone(),
        _ => {
            return Err("Nœud P2P pas encore prêt.".to_owned());
        },
    };
    let (filename, mime) = match file_name {
        Some(name) => {
            let mime = media_type_of(name.as_str());
            (name, mime)
        },
        None => ("file.bin".to_owned(), guess_media_type(no_text())),
    };
    Ok(OfferDraft { path, size: bytes, filename, sender_id, mime })
}

/// Makes the offer of a file whose content was hashed, and serves the file from then on. Where
/// the hash could not be computed nothing is served.
pub fn offer_file(
    state: &mut SharedState,
    draft: OfferDraft,
    file_id: String,
    sender_name: String,
    timestamp: u64,
    hash: Result<String, String>,
) -> (r: Result<FileOffer, String>)
    ensures
        match hash {
            Ok(digest) => {
                &&& r == Ok::<_, String>(
                    FileOffer {
                        id: file_id,
                        sender_name,
                        sender_id: draft.sender_id,
                        timestamp,
                        filename: draft.filename,
                        size: draft.size,
                        mime: draft.mime,
                        hash: digest,
                    },
                )
                &&& final(state).served_files@ == old(state).served_files@.insert(
                    file_id@,
                    (ServedFile { path: draft.path, size: draft.size }),
                )
            },
            Err(e) => {
                &&& r == Err::<FileOffer, _>(e)
                &&& *final(state) == *old(state)
            },
        },
        *final(state) == (SharedState { served_files: final(state).served_files, ..*old(state) }),
{
    let digest = match hash {
        Ok(h) => h,
        Err(e) => {
            return Err(e);
        },
    };
    let offer = FileOffer {
        id: file_id.clone(),
        sender_name,
        sender_id: draft.sender_id,
        timestamp,
        filename: draft.filename,
        size: draft.size,
        mime: draft.mime,
        hash: digest,
    };
    state.served_files.insert(file_id, ServedFile { path: draft.path, size: draft.size });
    Ok(offer)
}

/// The answer to whoever offered a file, once its offer was handed to the publisher.
pub fn offer_published(offer: FileOffer, publication: Publication) -> (r: Result<
    FileOffer,
    String,
>)
    ensures
        match publication {
            Publication::Poisoned => r matches Err(e) && e@ == "Publisher lock empoisonné"@,
            Publication::NotReady => r matches Err(e) && e@ == "Publisher non initialisé"@,
            Publication::Failed(reason) => r matches Err(e) && e@ == "Envoi offre échoué : "@
                + reason@,
            Publication::Sent => r == Ok::<_, String>(offer),
        },
{
    match publication {
        Publication::Poisoned => Err("Publisher lock empoisonné".to_owned()),
        Publication::NotReady => Err("Publisher non initialisé".to_owned()),
        Publication::Failed(reason) => Err(joined("Envoi offre échoué : ", reason.as_str())),
        Publication::Sent => Ok(offer),
    }
}

/// Why a download cannot be started, if so: the first of the reasons that holds.
pub open spec fn download_refusal(
    offers: Map<Seq<char>, FileOffer>,
    file_id: Seq<char>,
    sender_peer: Seq<char>,
) -> Option<Seq<char>> {
    if !offers.contains_key(file_id) {
        Some("Offre de fichier inconnue (expirée ?)"@)
    } else if offers[file_id].size > MAX_FILE_SIZE {
        Some(too_large_to_download(offers[file_id].size))
    } else {
        match primitives::peer_text(sender_peer) {
            Err(e) => Some("PeerId invalide : "@ + e),
            Ok(_) => None,
        }
    }
}

/// Joins an offer with the peer that it is downloaded from, which has to be identified: `parsed`
/// is the canonical text of its identifier, or why it has none.
pub fn accept_peer(offer: FileOffer, parsed: Result<String, String>) -> (r: Result<
    (FileOffer, String),
    String,
>)
    ensures
        match parsed {
            Ok(peer) => r == Ok::<_, String>((offer, peer)),
            Err(e) => r matches Err(m) && m@ == "PeerId invalide : "@ + e@,
        },
{
    match parsed {
        Ok(peer) => Ok((offer, peer)),
        Err(e) => Err(joined("PeerId invalide : ", e.as_str())),
    }
}

/// Checks the download of an offered file from a peer. Gives back the offer and the canonical
/// text of the peer's identifier.
pub fn prepare_download(state: &SharedState, file_id: &str, sender_peer: &str) -> (r: Result<
    (FileOffer, String),
    String,
>)
    ensures
        match r {
            Ok((offer, peer)) => {
                &&& download_refusal(state.received_offers@, file_id@, sender_peer@) is None
                &&& offer == state.received_offers@[file_id@]
                &&& offer.size <= MAX_FILE_SIZE
                &&& primitives::peer_text(sender_peer@) == Ok::<_, Seq<char>>(peer@)
            },
            Err(e) => download_refusal(state.received_offers@, file_id@, sender_peer@) == Some(e@),
        },
{
    let offer = match state.received_offers.get(file_id) {
        Some(o) => o.clone(),
        None => {
            return Err("Offre de fichier inconnue (expirée ?)".to_owned());
        },
    };
    if offer.size > MAX_FILE_SIZE {
        return Err(too_large_text(offer.size, " octets > max "));
    }
    accept_peer(offer, parse_peer(sender_peer))
}

/// Where the content of a download is gathered until it is whole.
pub fn partial_path(file_id: &str) -> (r: StoredPath)
    ensures
        r.folder@ == "files"@,
        r.name@ == "."@ + file_id@ + ".part"@,
{
    StoredPath {
        folder: "files".to_owned(),
        name: joined(joined(".", file_id).as_str(), ".part"),
    }
}

/// Where a download with this name ends up.
pub fn final_path(name: String) -> (r: StoredPath)
    ensures
        r.folder@ == "files"@,
        r.name == name,
{
    StoredPath { folder: "files".to_owned(), name }
}

/// How many bytes are asked for next, of a file of `total` bytes of which `received` are here.
pub open spec fn next_length(received: int, total: int) -> int {
    if total - received < FILE_CHUNK_SIZE {
        total - received
    } else {
        FILE_CHUNK_SIZE as int
    }
}

/// Whether `cmd` asks `peer` for the next chunk of the file.
pub open spec fn asks_for_next(
    cmd: SwarmFileCmd,
    peer: String,
    file_id: Seq<char>,
    received: u64,
    total: u64,
) -> bool {
    cmd matches SwarmFileCmd::RequestChunk { peer: p, request } && {
        &&& p == peer
        &&& request.version == CHUNK_VERSION
        &&& request.file_id@ == file_id
        &&& request.offset == received
        &&& request.length == next_length(received as int, total as int)
    }
}

fn next_request(peer: &String, file_id: &str, received: u64, total: u64) -> (r: SwarmFileCmd)
    requires
        received <= total,
    ensures
        asks_for_next(r, *peer, file_id@, received, total),
{
    let left: u64 = total - received;
    let length: u32 = if left < FILE_CHUNK_SIZE as u64 {
        left as u32
    } else {
        FILE_CHUNK_SIZE
    };
    SwarmFileCmd::RequestChunk {
        peer: peer.clone(),
        request: ChunkRequest {
            version: CHUNK_VERSION,
            file_id: file_id.to_owned(),
            offset: received,
            length,
        },
    }
}

/// Starts a download and asks for its first chunk, unless it is under way already.
pub fn download_file(
    state: &mut SharedState,
    file_id: &str,
    offer: &FileOffer,
    peer: String,
    temp_path: StoredPath,
    final_path: StoredPath,
) -> (r: Result<SwarmFileCmd, String>)
    ensures
        match r {
            Ok(cmd) => {
                &&& !old(state).active_downloads@.contains_key(file_id@)
                &&& final(state).active_downloads@ == old(state).active_downloads@.insert(
                    file_id@,
                    (DownloadState {
                        sender_peer: peer,
                        size: offer.size,
                        expected_hash: offer.hash,
                        received_bytes: 0,
                        temp_path,
                        final_path,
                    }),
                )
                &&& asks_for_next(cmd, peer, file_id@, 0, offer.size)
            },
            Err(e) => {
                &&& old(state).active_downloads@.contains_key(file_id@)
                &&& e@ == "Téléchargement déjà en cours pour ce fichier."@
                &&& *final(state) == *old(state)
            },
        },
        *final(state) == (SharedState {
            active_downloads: final(state).active_downloads,
            ..*old(state)
        }),
{
    if state.active_downloads.contains_key(file_id) {
        return Err("Téléchargement déjà en cours pour ce fichier.".to_owned());
    }
    let cmd = next_request(&peer, file_id, 0, offer.size);
    state.active_downloads.insert(
        file_id.to_owned(),
        DownloadState {
            sender_peer: peer,
            size: offer.size,
            expected_hash: offer.hash.clone(),
            received_bytes: 0,
            temp_path,
            final_path,
        },
    );
    Ok(cmd)
}

/// Gives a download up.
pub fn abort_download(state: &mut SharedState, file_id: &str)
    ensures
        final(state).active_downloads@ == old(state).active_downloads@.remove(file_id@),
        *final(state) == (SharedState {
            active_downloads: final(state).active_downloads,
            ..*old(state)
        }),
{
    state.active_downloads.remove(file_id);
}

/// How a request for a chunk is to be answered.
#[derive(Debug, PartialEq, Eq)]
pub enum ServePlan {
    /// Answer this.
    Reply(ChunkResponse),
    /// Read exactly `length` bytes of the file at `path`, from `offset` on, and answer with
    /// what `seal_chunk` makes of them.
    Read { path: String, offset: u64, length: usize },
}

/// What became of an attempt to read a chunk.
#[derive(Debug, PartialEq, Eq)]
pub enum ReadOutcome {
    OpenFailed(String),
    SeekFailed(String),
    ReadFailed(String),
    Data(Vec<u8>),
}

/// How many bytes of a file of `size` bytes a request for `length` bytes from `offset` on gets.
pub open spec fn served_length(size: int, offset: int, length: int) -> int {
    if offset >= size {
        0
    } else if length < size - offset {
        length
    } else {
        size - offset
    }
}

/// Whether a request for a chunk is answered as it should be: by an error where it is of
/// another version, by a refusal where the file is not served, and else by what the file has.
pub open spec fn is_plan(
    served_files: Map<Seq<char>, ServedFile>,
    req: ChunkRequest,
    plan: ServePlan,
) -> bool {
    if req.version != CHUNK_VERSION {
        plan matches ServePlan::Reply(ChunkResponse::Error { message }) && message@
            == "unsupported chunk-request version "@ + text::decimal_text(req.version as nat)
    } else if !served_files.contains_key(req.file_id@) {
        plan == ServePlan::Reply(ChunkResponse::NotFound)
    } else {
        let served = served_files[req.file_id@];
        plan matches ServePlan::Read { path, offset, length } && {
            &&& path == served.path
            &&& offset == req.offset
            &&& length == served_length(served.size as int, req.offset as int, req.length as int)
        }
    }
}

/// Decides how a request for a chunk is answered. No more of a file is read than it had when it
/// was offered.
pub fn serve_chunk(state: &SharedState, req: &ChunkRequest) -> (r: ServePlan)
    ensures
        is_plan(state.served_files@, *req, r),
{
    if req.version != CHUNK_VERSION {
        return ServePlan::Reply(
            ChunkResponse::Error {
                message: joined(
                    "unsupported chunk-request version ",
                    decimal(req.version as u64).as_str(),
                ),
            },
        );
    }
    match state.served_files.get(req.file_id.as_str()) {
        Some(served) => {
            let remaining: u64 = if req.offset >= served.size {
                0
            } else {
                served.size - req.offset
            };
            let length: u32 = if (req.length as u64) < remaining {
                req.length
            } else {
                remaining as u32
            };
            ServePlan::Read {
                path: served.path.clone(),
                offset: req.offset,
                length: length as usize,
            }
        },
        None => ServePlan::Reply(ChunkResponse::NotFound),
    }
}

/// The answer to a request whose chunk was read, or could not be.
pub fn seal_chunk(cipher: &RoomCipher, req: &ChunkRequest, outcome: ReadOutcome) -> (r:
    ChunkResponse)
    ensures
        match outcome {
            ReadOutcome::OpenFailed(e) => r matches ChunkResponse::Error { message } && message@
                == "open: "@ + e@,
            ReadOutcome::SeekFailed(e) => r matches ChunkResponse::Error { message } && message@
                == "seek: "@ + e@,
            ReadOutcome::ReadFailed(e) => r matches ChunkResponse::Error { message } && message@
                == "read: "@ + e@,
            ReadOutcome::Data(bytes) => if bytes@.len() <= MAX_SEALED_LEN {
                r matches ChunkResponse::Chunk { file_id, data } && {
                    &&& file_id == req.file_id
                    &&& crypto::well_sealed(cipher@, data.texts(), bytes@)
                }
            } else {
                r matches ChunkResponse::Error { message } && message@ == "encrypt failed"@
            },
        },
{
    match outcome {
        ReadOutcome::OpenFailed(e) => ChunkResponse::Error { message: joined("open: ", e.as_str()) },
        ReadOutcome::SeekFailed(e) => ChunkResponse::Error { message: joined("seek: ", e.as_str()) },
        ReadOutcome::ReadFailed(e) => ChunkResponse::Error { message: joined("read: ", e.as_str()) },
        ReadOutcome::Data(bytes) => match encrypt_bytes(cipher, bytes.as_slice()) {
            Some(data) => ChunkResponse::Chunk { file_id: req.file_id.clone(), data },
            None => ChunkResponse::Error { message: "encrypt failed".to_owned() },
        },
    }
}

/// What is to be done with a chunk that arrived.
#[derive(Debug, PartialEq, Eq)]
pub enum ChunkStep {
    /// The download failed, with this reason.
    Failed { message: String },
    /// Nobody waits for the chunk any more.
    Ignored,
    /// Append `data` to the file at `path`.
    Write { path: StoredPath, data: Vec<u8> },
}

/// Whether `step` is right for a chunk that arrived: one that does not open ends the download,
/// one that nobody waits for is ignored, and any other is written.
pub open spec fn is_chunk_step(
    before: SharedState,
    after: SharedState,
    file_id: Seq<char>,
    plain: Option<Seq<u8>>,
    step: ChunkStep,
) -> bool {
    match plain {
        None => {
            &&& step matches ChunkStep::Failed { message } && message@ == "decrypt failed"@
            &&& after.active_downloads@ == before.active_downloads@.remove(file_id)
            &&& after == (SharedState { active_downloads: after.active_downloads, ..before })
        },
        Some(bytes) => {
            &&& after == before
            &&& if before.active_downloads@.contains_key(file_id) {
                step matches ChunkStep::Write { path, data } && data@ == bytes && path
                    == before.active_downloads@[file_id].temp_path
            } else {
                step == ChunkStep::Ignored
            }
        },
    }
}

/// Opens a chunk that arrived for a download. One that does not open ends the download.
pub fn open_chunk(
    state: &mut SharedState,
    cipher: &RoomCipher,
    file_id: &str,
    envelope: &EncryptedEnvelope,
) -> (r: ChunkStep)
    ensures
        is_chunk_step(
            *old(state),
            *final(state),
            file_id@,
            crypto::opened(cipher@, envelope.texts()),
            r,
        ),
{
    match decrypt_bytes(cipher, envelope) {
        None => {
            abort_download(state, file_id);
            ChunkStep::Failed { message: "decrypt failed".to_owned() }
        },
        Some(data) => match state.active_downloads.get(file_id) {
            Some(download) => ChunkStep::Write { path: download.temp_path.clone(), data },
            None => ChunkStep::Ignored,
        },
    }
}

/// Why a download failed, and the file that is to be removed on that account.
#[derive(Debug, PartialEq, Eq)]
pub struct FileFault {
    pub message: String,
    pub remove: StoredPath,
}

/// A chunk could not be written, which ends its download. Nothing happens where the download
/// is gone.
pub fn chunk_write_failed(state: &mut SharedState, file_id: &str, error: &str) -> (r: Option<
    FileFault,
>)
    ensures
        if old(state).active_downloads@.contains_key(file_id@) {
            r matches Some(fault) && fault.message@ == "write: "@ + error@ && fault.remove == old(
                state,
            ).active_downloads@[file_id@].temp_path
        } else {
            r is None
        },
        final(state).active_downloads@ == old(state).active_downloads@.remove(file_id@),
        *final(state) == (SharedState {
            active_downloads: final(state).active_downloads,
            ..*old(state)
        }),
{
    let r = match state.active_downloads.get(file_id) {
        Some(download) => Some(
            FileFault {
                message: joined("write: ", error),
                remove: download.temp_path.clone(),
            },
        ),
        None => None,
    };
    abort_download(state, file_id);
    r
}

/// What follows once a chunk was written.
#[derive(Debug, PartialEq, Eq)]
pub enum NextStep {
    /// Ask for the next chunk.
    Request(SwarmFileCmd),
    /// The content is whole: hash the file at `temp_path` and call `finalize_download`.
    Finalize { temp_path: StoredPath },
}

/// How far a download is.
#[derive(Debug, PartialEq, Eq)]
pub struct ChunkProgress {
    pub received: u64,
    pub total: u64,
    pub next: NextStep,
}

/// Whether a chunk of `written` bytes is counted as it should be: its download has received so
/// many bytes more, and is asked for the next ones or, once its size is reached, checked. Nothing
/// happens where the download is gone.
pub open spec fn counts_chunk(
    before: SharedState,
    after: SharedState,
    file_id: Seq<char>,
    written: u64,
    r: Option<ChunkProgress>,
) -> bool {
    &&& if before.active_downloads@.contains_key(file_id) {
        let download = before.active_downloads@[file_id];
        let received = (download.received_bytes + written) as u64;
        &&& after.active_downloads@ == before.active_downloads@.insert(
            file_id,
            (DownloadState { received_bytes: received, ..download }),
        )
        &&& r matches Some(progress) && {
            &&& progress.received == received
            &&& progress.total == download.size
            &&& if received >= download.size {
                progress.next == NextStep::Finalize { temp_path: download.temp_path }
            } else {
                progress.next matches NextStep::Request(cmd) && asks_for_next(
                    cmd,
                    download.sender_peer,
                    file_id,
                    received,
                    download.size,
                )
            }
        }
    } else {
        r is None && after == before
    }
    &&& after == (SharedState { active_downloads: after.active_downloads, ..before })
}

/// Counts a chunk of `written` bytes that was appended to the temporary file of its download,
/// and decides what follows. Nothing happens where the download is gone.
pub fn ingest_chunk(state: &mut SharedState, file_id: &str, written: u64) -> (r: Option<
    ChunkProgress,
>)
    requires
        old(state).active_downloads@.contains_key(file_id@) ==> old(
            state,
        ).active_downloads@[file_id@].received_bytes + written <= u64::MAX,
    ensures
        counts_chunk(*old(state), *final(state), file_id@, written, r),
{
    let mut download = match state.active_downloads.get(file_id) {
        Some(d) => d.clone(),
        None => {
            return None;
        },
    };
    download.received_bytes = download.received_bytes + written;
    let received: u64 = download.received_bytes;
    let total: u64 = download.size;
    let next = if received >= total {
        NextStep::Finalize { temp_path: download.temp_path.clone() }
    } else {
        NextStep::Request(next_request(&download.sender_peer, file_id, received, total))
    };
    state.active_downloads.insert(file_id.to_owned(), download);
    Some(ChunkProgress { received, total, next })
}

/// What is to be done with a download whose content is whole.
#[derive(Debug, PartialEq, Eq)]
pub enum FinalizeStep {
    Failed(FileFault),
    /// Nobody waits for the download any more.
    Ignored,
    /// Move the file, and report the outcome to `download_renamed`.
    Rename { from: StoredPath, to: StoredPath },
}

/// Compares the hash of a download's content with that of its offer. Only a file whose hash is
/// the offered one is moved to its final place; any other ends the download.
pub fn finalize_download(
    state: &mut SharedState,
    file_id: &str,
    temp_path: &StoredPath,
    hash: Result<String, String>,
) -> (r: FinalizeStep)
    ensures
        match hash {
            Err(e) => {
                &&& r matches FinalizeStep::Failed(fault) && fault.message@
                    == "hash compute failed: "@ + e@ && fault.remove == *temp_path
                &&& final(state).active_downloads@ == old(state).active_downloads@.remove(file_id@)
            },
            Ok(actual) => if !old(state).active_downloads@.contains_key(file_id@) {
                &&& r == FinalizeStep::Ignored
                &&& *final(state) == *old(state)
            } else if actual@ != old(state).active_downloads@[file_id@].expected_hash@ {
                &&& r matches FinalizeStep::Failed(fault) && fault.message@ == "hash mismatch"@
                    && fault.remove == *temp_path
                &&& final(state).active_downloads@ == old(state).active_downloads@.remove(file_id@)
            } else {
                &&& r == FinalizeStep::Rename {
                    from: *temp_path,
                    to: old(state).active_downloads@[file_id@].final_path,
                }
                &&& *final(state) == *old(state)
            },
        },
        *final(state) == (SharedState {
            active_downloads: final(state).active_downloads,
            ..*old(state)
        }),
{
    let actual = match hash {
        Ok(h) => h,
        Err(e) => {
            abort_download(state, file_id);
            return FinalizeStep::Failed(
                FileFault {
                    message: joined("hash compute failed: ", e.as_str()),
                    remove: temp_path.clone(),
                },
            );
        },
    };
    let (expected, to) = match state.active_downloads.get(file_id) {
        Some(download) => (download.expected_hash.clone(), download.final_path.clone()),
        None => {
            return FinalizeStep::Ignored;
        },
    };
    if !same_text(actual.as_str(), expected.as_str()) {
        abort_download(state, file_id);
        return FinalizeStep::Failed(
            FileFault { message: "hash mismatch".to_owned(), remove: temp_path.clone() },
        );
    }
    FinalizeStep::Rename { from: temp_path.clone(), to }
}

/// Ends a download whose file was moved to its final place, or could not be.
pub fn download_renamed(
    state: &mut SharedState,
    file_id: &str,
    temp_path: &StoredPath,
    outcome: Result<(), String>,
) -> (r: Result<(), FileFault>)
    ensures
        match outcome {
            Ok(()) => r is Ok,
            Err(e) => r matches Err(fault) && fault.message@ == "rename: "@ + e@ && fault.remove
                == *temp_path,
        },
        final(state).active_downloads@ == old(state).active_downloads@.remove(file_id@),
        *final(state) == (SharedState {
            active_downloads: final(state).active_downloads,
            ..*old(state)
        }),
{
    abort_download(state, file_id);
    match outcome {
        Ok(()) => Ok(()),
        Err(e) => Err(
            FileFault { message: joined("rename: ", e.as_str()), remove: temp_path.clone() },
        ),
    }
}

/// What a download gathers from `received` on, when it asks for one chunk after the other and
/// each is served from `content`.
pub open spec fn gathered(content: Seq<u8>, received: int) -> Seq<u8>
    decreases content.len() - received,
{
    if 0 <= received < content.len() {
        let length = served_length(
            content.len() as int,
            received,
            next_length(received, content.len() as int),
        );
        if length > 0 {
            content.subrange(received, received + length) + gathered(content, received + length)
        } else {
            Seq::empty()
        }
    } else {
        Seq::empty()
    }
}

/// While a download is not whole, the chunk that it asks for is not empty, is no larger than a
/// chunk may be, does not go beyond the file, and is served in full.
pub proof fn law_every_chunk_makes_progress(received: int, total: int)
    requires
        0 <= received < total,
    ensures
        0 < next_length(received, total) <= FILE_CHUNK_SIZE,
        received + next_length(received, total) <= total,
        served_length(total, received, next_length(received, total)) == next_length(
            received,
            total,
        ),
{
}

proof fn lemma_gathered(content: Seq<u8>, received: int)
    requires
        0 <= received <= content.len(),
    ensures
        gathered(content, received) == content.skip(received),
    decreases content.len() - received,
{
    if received < content.len() {
        law_every_chunk_makes_progress(received, content.len() as int);
        let length = next_length(received, content.len() as int);
        lemma_gathered(content, received + length);
        assert(content.subrange(received, received + length) + content.skip(received + length)
            =~= content.skip(received));
    } else {
        assert(content.skip(received) =~= Seq::<u8>::empty());
    }
}

/// A download gathers the file as it is: the chunks that it asks for, one after the other, are
/// the whole content in order. So its hash is the one that was offered.
pub proof fn law_download_gathers_the_content(content: Seq<u8>)
    ensures
        gathered(content, 0) == content,
        content_hash(gathered(content, 0)) == content_hash(content),
{
    lemma_gathered(content, 0);
    assert(content.skip(0) =~= content);
}

/// Whatever is asked for, nothing beyond the end of the file is served, nor more than was asked
/// for.
pub proof fn law_nothing_beyond_the_file_is_served(size: int, offset: int, length: int)
    requires
        0 <= size,
        0 <= offset,
        0 <= length,
    ensures
        0 <= served_length(size, offset, length) <= length,
        served_length(size, offset, length) > 0 ==> offset + served_length(size, offset, length)
            <= size,
{
}

proof fn lemma_digit_distinct(m: nat, n: nat)
    requires
        m < 10,
        n < 10,
        text::digit_char(m) == text::digit_char(n),
    ensures
        m == n,
{
}

proof fn lemma_decimal_distinct(m: nat, n: nat)
    requires
        text::decimal_text(m) == text::decimal_text(n),
    ensures
        m == n,
    decreases m,
{
    let a = text::decimal_text(m);
    let b = text::decimal_text(n);
    if m < 10 && n < 10 {
        assert(a[0] == text::digit_char(m));
        assert(b[0] == text::digit_char(n));
        lemma_digit_distinct(m, n);
    } else if m < 10 {
        lemma_decimal_length(n / 10);
        assert(a.len() == 1);
        assert(b.len() > 1);
    } else if n < 10 {
        lemma_decimal_length(m / 10);
        assert(a.len() > 1);
        assert(b.len() == 1);
    } else {
        assert(a.last() == text::digit_char(m % 10));
        assert(b.last() == text::digit_char(n % 10));
        lemma_digit_distinct(m % 10, n % 10);
        assert(a.drop_last() =~= text::decimal_text(m / 10));
        assert(b.drop_last() =~= text::decimal_text(n / 10));
        lemma_decimal_distinct(m / 10, n / 10);
    }
}

proof fn lemma_decimal_length(n: nat)
    ensures
        text::decimal_text(n).len() > 0,
{
}

/// The names that are tried for a download all differ.
pub proof fn law_candidate_names_differ(filename: Seq<char>, m: nat, n: nat)
    requires
        m != n,
    ensures
        dedupe_candidate(filename, m) != dedupe_candidate(filename, n),
{
    if dedupe_candidate(filename, m) == dedupe_candidate(filename, n) {
        let at = text::last_position(filename, '.');
        reveal_strlit(" (");
        lemma_last_position(filename);
        let stem = if at >= 0 {
            filename.take(at)
        } else {
            filename
        };
        let a = dedupe_candidate(filename, m);
        let b = dedupe_candidate(filename, n);
        assert(a.len() == b.len());
        if m > 0 && n > 0 {
            let from = stem.len() + 2;
            let to = from + text::decimal_text(m).len();
            assert(text::decimal_text(m).len() == text::decimal_text(n).len());
            assert(a.subrange(from as int, to as int) =~= text::decimal_text(m));
            assert(b.subrange(from as int, to as int) =~= text::decimal_text(n));
            lemma_decimal_distinct(m, n);
        }
    }
}

proof fn lemma_last_position(s: Seq<char>)
    ensures
        -1 <= text::last_position(s, '.') < s.len(),
    decreases s.len(),
{
    if s.len() > 0 && s.last() != '.' {
        lemma_last_position(s.drop_last());
    }
}

} // verus!
