//! Promises of file sharing: offers, downloads, and the check of what arrived.
#![allow(unused_imports)]

use crate::app_state::SharedState;
use crate::crypto::{decrypt_bytes, RoomCipher};
use crate::files;
use crate::files::{
    abort_download, accept_peer, chunk_write_failed, dedupe_filename, digest_text, download_file,
    download_renamed, final_path, finalize_download, ingest_chunk, offer_file, offer_published,
    open_chunk, partial_path, prepare_download, prepare_offer, seal_chunk, serve_chunk,
    ChunkProgress, ChunkRequest, ChunkResponse, ChunkStep, ContentHasher, DownloadState,
    FileFault, FinalizeStep, NextStep, OfferDraft, ReadOutcome, ServePlan, ServedFile,
    SwarmFileCmd,
};
use crate::history::Publication;
use crate::primitives;
use crate::promises::rooms;
use crate::promises::texts;
use crate::text;
use crate::types::{EncryptedEnvelope, FileOffer, NodeStatus, StoredPath};
use vstd::prelude::*;

verus! {

/// However a content is cut into pieces, its hash is the digest of all of it, spelled in sixty-four
/// digits. Here: a piece that is fed adds to what was fed, and the end gives the digest of all.
pub proof fn law_a_content_is_hashed_whole(
    start: ContentHasher,
    hasher: &mut ContentHasher,
    piece: &[u8],
    done: (),
    end: ContentHasher,
    r: String,
)
    requires
        call_ensures(ContentHasher::new, (), start),
        call_ensures(ContentHasher::update, (hasher, piece), done),
        call_ensures(ContentHasher::finish, (end,), r),
    ensures
        start@.len() == 0,
        final(hasher)@ == old(hasher)@ + piece@,
        rooms::spells_bytes(r@, primitives::sha256(end@)),
        r@.len() == 64,
{
    rooms::lemma_hex_text(primitives::sha256(end@));
}

/// A digest is spelled byte by byte.
pub proof fn law_a_digest_is_spelled(digest: &[u8; 32], r: String)
    requires
        call_ensures(digest_text, (digest,), r),
    ensures
        rooms::spells_bytes(r@, digest@),
{
    rooms::lemma_hex_text(digest@);
}

/// The name `stem` with a number in brackets, and then `ext`.
pub open spec fn is_numbered(name: Seq<char>, stem: Seq<char>, ext: Seq<char>, n: nat) -> bool {
    exists|number: Seq<char>|
        name == #[trigger] (stem + " ("@ + number + ")"@ + ext) && texts::is_decimal(
            number,
            n as int,
        )
}

proof fn lemma_candidate(stem: Seq<char>, ext: Seq<char>, n: nat)
    requires
        n > 0,
        (ext.len() == 0 && !stem.contains('.')) || (ext.len() > 0 && ext[0] == '.' && !ext.skip(
            1,
        ).contains('.')),
    ensures
        is_numbered(files::dedupe_candidate(stem + ext, n), stem, ext, n),
{
    let name = stem + ext;
    let number = text::decimal_text(n);
    texts::lemma_decimal_text(n);
    if ext.len() == 0 {
        assert(name =~= stem);
        texts::lemma_last_dot(stem);
        let at = text::last_position(stem, '.');
        if at >= 0 {
            assert(stem.contains(stem[at]));
        }
        assert(files::dedupe_candidate(name, n) =~= stem + " ("@ + number + ")"@ + ext);
    } else {
        texts::lemma_dot_is_last(stem, ext.skip(1));
        assert(name =~= stem + seq!['.'] + ext.skip(1));
        assert(name.take(stem.len() as int) =~= stem);
        assert(name.skip(stem.len() as int) =~= ext);
        assert(files::dedupe_candidate(name, n) =~= stem + " ("@ + number + ")"@ + ext);
    }
}

/// Whether `taken` may say this of a name.
pub open spec fn may_say<F: Fn(&str) -> bool>(taken: F, name: Seq<char>, answer: bool) -> bool {
    exists|s: &str| #[trigger] s@ == name && call_ensures(taken, (s,), answer)
}

/// Whether the name with this number was found taken.
pub open spec fn is_number_taken<F: Fn(&str) -> bool>(
    taken: F,
    stem: Seq<char>,
    ext: Seq<char>,
    n: nat,
) -> bool {
    exists|name: Seq<char>|
        is_numbered(name, stem, ext, n) && #[trigger] may_say(taken, name, true)
}

/// A file keeps its name unless that is taken. A file whose name is `stem` and then an extension
/// with its dot, or nothing, gets the first number from one on whose name is not taken, between the
/// stem and the extension; its own name again once 9999 numbers are taken.
pub proof fn law_a_download_gets_the_first_free_name<F: Fn(&str) -> bool>(
    filename: &str,
    taken: F,
    stem: Seq<char>,
    ext: Seq<char>,
    r: String,
)
    requires
        call_ensures(dedupe_filename::<F>, (filename, taken), r),
        filename@ == stem + ext,
        (ext.len() == 0 && !stem.contains('.')) || (ext.len() > 0 && ext[0] == '.' && !ext.skip(
            1,
        ).contains('.')),
    ensures
        !may_say(taken, filename@, true) ==> r@ == filename@,
        r@ == filename@ || exists|n: nat|
            0 < n < 10000 && #[trigger] is_numbered(r@, stem, ext, n) && may_say(taken, r@, false)
                && (forall|m: nat| 0 < m < n ==> #[trigger] is_number_taken(taken, stem, ext, m)),
        r@ == filename@ ==> may_say(taken, filename@, false) || (forall|m: nat|
            0 < m < 10000 ==> #[trigger] is_number_taken(taken, stem, ext, m)),
{
    assert(files::dedupe_candidate(filename@, 0) == filename@);
    assert forall|name: Seq<char>, answer: bool| files::answers(taken, name, answer) implies
        #[trigger] may_say(taken, name, answer) by {}
    if !(r@ == filename@ && files::taken_before(taken, filename@, 10000)) {
        let n = choose|n: nat|
            n < files::DEDUPE_ATTEMPTS && r@ == #[trigger] files::dedupe_candidate(filename@, n)
                && files::taken_before(taken, filename@, n) && files::answers(taken, r@, false);
        assert(may_say(taken, r@, false));
        if n > 0 {
            assert(files::answers(taken, files::dedupe_candidate(filename@, 0), true));
            assert(may_say(taken, filename@, true));
            lemma_candidate(stem, ext, n);
            assert(is_numbered(r@, stem, ext, n));
            assert forall|m: nat| 0 < m < n implies #[trigger] is_number_taken(
                taken,
                stem,
                ext,
                m,
            ) by {
                let c = files::dedupe_candidate(filename@, m);
                assert(files::answers(taken, c, true));
                assert(may_say(taken, c, true));
                lemma_candidate(stem, ext, m);
            }
        }
    } else {
        assert(files::answers(taken, files::dedupe_candidate(filename@, 0), true));
        assert(may_say(taken, filename@, true));
        assert forall|m: nat| 0 < m < 10000 implies #[trigger] is_number_taken(
            taken,
            stem,
            ext,
            m,
        ) by {
            let c = files::dedupe_candidate(filename@, m);
            assert(files::answers(taken, c, true));
            assert(may_say(taken, c, true));
            lemma_candidate(stem, ext, m);
        }
    }
}

/// A file is found fit to be offered exactly where it is a file, its size is known, from one byte
/// to 500 MiB, and the node is ready; otherwise the first of these that fails is told.
pub proof fn law_files_are_judged_before_they_are_offered(
    state: &SharedState,
    path: String,
    is_file: bool,
    size: Result<u64, String>,
    file_name: Option<String>,
    r: Result<OfferDraft, String>,
)
    requires
        call_ensures(prepare_offer, (state, path, is_file, size, file_name), r),
    ensures
        r is Ok <==> is_file && size is Ok && 0 < size->Ok_0 <= 524288000 && state.node is Ready,
        !is_file ==> r->Err_0@ == "Le chemin n'est pas un fichier : "@ + path@,
        is_file && size is Err ==> r->Err_0@ == "Lecture metadata : "@ + size->Err_0@,
        is_file && size == Ok::<_, String>(0u64) ==> r->Err_0@ == "Fichier vide."@,
        is_file && size is Ok && size->Ok_0 > 524288000 ==> exists|n: Seq<char>, m: Seq<char>|
            r->Err_0@ == #[trigger] ("Fichier trop gros ("@ + n + " octets, max "@ + m
                + " octets)."@) && texts::is_decimal(n, size->Ok_0 as int)
                && texts::is_decimal(m, 524288000),
        is_file && size is Ok && 0 < size->Ok_0 <= 524288000 && !(state.node is Ready)
            ==> r->Err_0@ == "Nœud P2P pas encore prêt."@,
        r matches Ok(draft) ==> draft.path == path && draft.size == size->Ok_0,
        r matches Ok(draft) ==> (state.node matches NodeStatus::Ready { peer_id, .. }
            && draft.sender_id == peer_id),
        r matches Ok(draft) ==> (file_name matches Some(name) ==> draft.filename == name),
        r matches Ok(draft) ==> (file_name is None ==> draft.filename@ == "file.bin"@
            && draft.mime@ == "application/octet-stream"@),
{
    if is_file && size is Ok && size->Ok_0 > 524288000 {
        let n = text::decimal_text(size->Ok_0 as nat);
        let m = text::decimal_text(524288000);
        texts::lemma_decimal_text(size->Ok_0 as nat);
        texts::lemma_decimal_text(524288000);
        assert(r->Err_0@ == "Fichier trop gros ("@ + n + " octets, max "@ + m + " octets)."@);
    }
}

/// The media type of an offer is that of all that follows the last dot of the name, however long
/// that is; a name without a dot, or with one only at its beginning, has the media type of no
/// extension.
pub proof fn law_the_media_type_goes_by_the_whole_extension(
    state: &SharedState,
    path: String,
    size: Result<u64, String>,
    name: String,
    r: Result<OfferDraft, String>,
    stem: Seq<char>,
    ext: Seq<char>,
)
    requires
        call_ensures(prepare_offer, (state, path, true, size, Some(name)), r),
        r is Ok,
        !ext.contains('.'),
    ensures
        stem.len() > 0 && name@ == stem + seq!['.'] + ext ==> r->Ok_0.mime@
            == primitives::media_type(ext),
        name@ == seq!['.'] + ext ==> r->Ok_0.mime@ == primitives::media_type(Seq::empty()),
        name@ == ext ==> r->Ok_0.mime@ == primitives::media_type(Seq::empty()),
{
    reveal_strlit("..");
    if stem.len() > 0 && name@ == stem + seq!['.'] + ext {
        texts::lemma_dot_is_last(stem, ext);
        assert(name@.skip((stem.len() + 1) as int) =~= ext);
        if name@ == ".."@ {
            assert(name@.len() == 2);
            if ext.len() > 0 {
                assert(name@[1] == ext[0] || name@[1] == '.');
                assert(ext.contains(ext[0]));
                assert(name@[(stem.len() + 1) as int] == ext[0]);
            }
            assert(ext =~= Seq::<char>::empty());
        }
    }
    if name@ == seq!['.'] + ext {
        let none = Seq::<char>::empty();
        texts::lemma_dot_is_last(none, ext);
        assert(none + seq!['.'] + ext =~= seq!['.'] + ext);
    }
    if name@ == ext {
        texts::lemma_last_dot(ext);
        let at = text::last_position(ext, '.');
        if at >= 0 {
            assert(ext.contains(ext[at]));
        }
    }
}

/// A file whose content was hashed is offered as it was found, and is served from then on, beside
/// what was served before; without a hash nothing is offered or served.
pub proof fn law_an_offered_file_is_served(
    state: &mut SharedState,
    draft: OfferDraft,
    file_id: String,
    sender_name: String,
    timestamp: u64,
    hash: Result<String, String>,
    r: Result<FileOffer, String>,
    other: Seq<char>,
)
    requires
        call_ensures(offer_file, (state, draft, file_id, sender_name, timestamp, hash), r),
    ensures
        hash matches Ok(digest) ==> (r matches Ok(offer) && {
            &&& offer.id == file_id
            &&& offer.sender_name == sender_name
            &&& offer.sender_id == draft.sender_id
            &&& offer.timestamp == timestamp
            &&& offer.filename == draft.filename
            &&& offer.size == draft.size
            &&& offer.mime == draft.mime
            &&& offer.hash == digest
        }),
        hash is Ok ==> final(state).served_files@.contains_key(file_id@) && final(state).served_files@[file_id@].path == draft.path && final(state).served_files@[file_id@].size
            == draft.size,
        other != file_id@ ==> (final(state).served_files@.contains_key(other) <==> old(state).served_files@.contains_key(other)),
        other != file_id@ && old(state).served_files@.contains_key(other) ==> final(state).served_files@[other] == old(state).served_files@[other],
        hash matches Err(e) ==> r == Err::<FileOffer, _>(e) && *final(state) == *old(state),
        *final(state) == (SharedState { served_files: final(state).served_files, ..*old(state) }),
{
}

/// An offer stands exactly where it was published; otherwise the reason is told.
pub proof fn law_an_offer_stands_where_it_was_published(
    offer: FileOffer,
    publication: Publication,
    r: Result<FileOffer, String>,
)
    requires
        call_ensures(offer_published, (offer, publication), r),
    ensures
        publication == Publication::Sent <==> r is Ok,
        publication == Publication::Sent ==> r == Ok::<_, String>(offer),
        publication == Publication::Poisoned ==> r->Err_0@ == "Publisher lock empoisonné"@,
        publication == Publication::NotReady ==> r->Err_0@ == "Publisher non initialisé"@,
        publication matches Publication::Failed(e) ==> r->Err_0@ == "Envoi offre échoué : "@ + e@,
{
}

/// A download is found fit exactly where its offer was received, its size is at most 500 MiB, and
/// the peer is identified; otherwise the first of these that fails is told.
pub proof fn law_downloads_are_judged_before_they_start(
    state: &SharedState,
    file_id: &str,
    sender_peer: &str,
    r: Result<(FileOffer, String), String>,
)
    requires
        call_ensures(prepare_download, (state, file_id, sender_peer), r),
    ensures
        r is Ok <==> state.received_offers@.contains_key(file_id@)
            && state.received_offers@[file_id@].size <= 524288000 && primitives::peer_text(
            sender_peer@,
        ) is Ok,
        r matches Ok((offer, peer)) ==> offer == state.received_offers@[file_id@] && Ok::<
            _,
            Seq<char>,
        >(peer@) == primitives::peer_text(sender_peer@),
        !state.received_offers@.contains_key(file_id@) ==> r->Err_0@
            == "Offre de fichier inconnue (expirée ?)"@,
        state.received_offers@.contains_key(file_id@) && state.received_offers@[file_id@].size
            > 524288000 ==> exists|n: Seq<char>, m: Seq<char>|
            r->Err_0@ == #[trigger] ("Fichier trop gros ("@ + n + " octets > max "@ + m
                + " octets)."@) && texts::is_decimal(
                n,
                state.received_offers@[file_id@].size as int,
            ) && texts::is_decimal(m, 524288000),
        state.received_offers@.contains_key(file_id@) && state.received_offers@[file_id@].size
            <= 524288000 ==> (primitives::peer_text(sender_peer@) matches Err(e) ==> r->Err_0@
            == "PeerId invalide : "@ + e),
{
    if state.received_offers@.contains_key(file_id@) && state.received_offers@[file_id@].size
        > 524288000 {
        let size = state.received_offers@[file_id@].size as nat;
        let n = text::decimal_text(size);
        let m = text::decimal_text(524288000);
        texts::lemma_decimal_text(size);
        texts::lemma_decimal_text(524288000);
        assert(r->Err_0@ == "Fichier trop gros ("@ + n + " octets > max "@ + m + " octets)."@);
    }
}

/// A peer is taken as it was identified, with the offer as it is.
pub proof fn law_a_peer_is_taken_as_identified(
    offer: FileOffer,
    parsed: Result<String, String>,
    r: Result<(FileOffer, String), String>,
)
    requires
        call_ensures(accept_peer, (offer, parsed), r),
    ensures
        parsed matches Ok(peer) ==> r == Ok::<_, String>((offer, peer)),
        parsed matches Err(e) ==> (r matches Err(m) && m@ == "PeerId invalide : "@ + e@),
{
}

/// Whether `cmd` asks this peer, under version one, for `length` bytes of the file from `offset`.
pub open spec fn is_request(
    cmd: SwarmFileCmd,
    peer: Seq<char>,
    file_id: Seq<char>,
    offset: int,
    length: int,
) -> bool {
    let SwarmFileCmd::RequestChunk { peer: p, request } = cmd;
    &&& p@ == peer
    &&& request.version == 1
    &&& request.file_id@ == file_id
    &&& request.offset == offset
    &&& request.length == length
}

/// The smaller of two numbers.
pub open spec fn least(a: int, b: int) -> int {
    if a < b {
        a
    } else {
        b
    }
}

/// A download that is not under way starts with nothing received, as the offer says, and asks the
/// peer for the first bytes, at most 256 KiB; other downloads stay. One that is under way goes on
/// as it was.
pub proof fn law_a_download_starts_from_the_beginning(
    state: &mut SharedState,
    file_id: &str,
    offer: &FileOffer,
    peer: String,
    temp: StoredPath,
    target: StoredPath,
    r: Result<SwarmFileCmd, String>,
    other: Seq<char>,
)
    requires
        call_ensures(download_file, (state, file_id, offer, peer, temp, target), r),
    ensures
        r is Ok <==> !old(state).active_downloads@.contains_key(file_id@),
        r matches Ok(cmd) ==> is_request(
            cmd,
            peer@,
            file_id@,
            0,
            least(262144, offer.size as int),
        ),
        r is Ok ==> final(state).active_downloads@.contains_key(file_id@) && final(state).active_downloads@[file_id@] == (DownloadState {
            sender_peer: peer,
            size: offer.size,
            expected_hash: offer.hash,
            received_bytes: 0,
            temp_path: temp,
            final_path: target,
        }),
        r is Ok && other != file_id@ ==> (final(state).active_downloads@.contains_key(other)
            <==> old(state).active_downloads@.contains_key(other)),
        r is Ok && other != file_id@ && old(state).active_downloads@.contains_key(other) ==> final(state).active_downloads@[other] == old(state).active_downloads@[other],
        r matches Err(e) ==> e@ == "Téléchargement déjà en cours pour ce fichier."@
            && *final(state) == *old(state),
        *final(state) == (SharedState {
            active_downloads: final(state).active_downloads,
            ..*old(state)
        }),
{
}

/// A download that is given up is gone, and no other.
pub proof fn law_only_the_download_given_up_is_gone(
    state: &mut SharedState,
    file_id: &str,
    done: (),
    other: Seq<char>,
)
    requires
        call_ensures(abort_download, (state, file_id), done),
    ensures
        !final(state).active_downloads@.contains_key(file_id@),
        other != file_id@ ==> (final(state).active_downloads@.contains_key(other) <==> old(state).active_downloads@.contains_key(other)),
        other != file_id@ && old(state).active_downloads@.contains_key(other) ==> final(state).active_downloads@[other] == old(state).active_downloads@[other],
        *final(state) == (SharedState {
            active_downloads: final(state).active_downloads,
            ..*old(state)
        }),
{
}

/// A request of version one for a file that is served is answered from that file, at the place
/// asked for: with all that was asked for, or with all that is left of the file. Any other request
/// is refused, each in its own words.
pub proof fn law_requests_are_answered_from_the_file(
    state: &SharedState,
    req: &ChunkRequest,
    plan: ServePlan,
)
    requires
        call_ensures(serve_chunk, (state, req), plan),
    ensures
        req.version == 1 && state.served_files@.contains_key(req.file_id@) ==> (
        plan matches ServePlan::Read { path, offset, length } && {
            let served = state.served_files@[req.file_id@];
            &&& path == served.path
            &&& offset == req.offset
            &&& length == if req.offset >= served.size {
                0
            } else {
                least(req.length as int, served.size - req.offset)
            }
        }),
        req.version == 1 && !state.served_files@.contains_key(req.file_id@) ==> plan
            == ServePlan::Reply(ChunkResponse::NotFound),
        req.version != 1 ==> (plan matches ServePlan::Reply(ChunkResponse::Error { message })
            && exists|n: Seq<char>|
            message@ == #[trigger] ("unsupported chunk-request version "@ + n)
                && texts::is_decimal(n, req.version as int)),
{
    if req.version != 1 {
        let n = text::decimal_text(req.version as nat);
        texts::lemma_decimal_text(req.version as nat);
        let message = plan->Reply_0->message;
        assert(message@ == "unsupported chunk-request version "@ + n);
    }
}

/// A chunk that was read is sealed under its file's identifier, and whoever has the key of the room
/// gets the bytes as they were read; where it could not be read, the peer is told why.
pub proof fn law_a_chunk_reaches_the_peer_as_it_was_read(
    cipher: &RoomCipher,
    req: &ChunkRequest,
    outcome: ReadOutcome,
    r: ChunkResponse,
    other: &RoomCipher,
    read: Option<Vec<u8>>,
)
    requires
        call_ensures(seal_chunk, (cipher, req, outcome), r),
        other@ == cipher@,
        r is Chunk ==> call_ensures(decrypt_bytes, (other, &r->data), read),
    ensures
        outcome matches ReadOutcome::Data(bytes) ==> (bytes@.len() <= 274877906816 ==> r is Chunk
            && r->file_id == req.file_id && (read matches Some(got) && got@ == bytes@)),
        outcome matches ReadOutcome::Data(bytes) ==> (bytes@.len() > 274877906816 ==> (
        r matches ChunkResponse::Error { message } && message@ == "encrypt failed"@)),
        outcome matches ReadOutcome::OpenFailed(e) ==> (r matches ChunkResponse::Error { message }
            && message@ == "open: "@ + e@),
        outcome matches ReadOutcome::SeekFailed(e) ==> (r matches ChunkResponse::Error { message }
            && message@ == "seek: "@ + e@),
        outcome matches ReadOutcome::ReadFailed(e) ==> (r matches ChunkResponse::Error { message }
            && message@ == "read: "@ + e@),
{
}

/// A chunk that opens is written, as it opened, to the temporary file of its download, whatever was
/// received before; then it is counted, and nothing else of the download changes. The next request
/// goes to the same peer, for the bytes that follow, at most 256 KiB; once the size is reached, the
/// temporary file is named to be checked. Other downloads stay.
pub proof fn law_a_chunk_is_written_counted_and_followed(
    state: &mut SharedState,
    cipher: &RoomCipher,
    file_id: &str,
    envelope: &EncryptedEnvelope,
    read: Option<Vec<u8>>,
    step: ChunkStep,
    later: &mut SharedState,
    progress: Option<ChunkProgress>,
    other: Seq<char>,
)
    requires
        call_ensures(decrypt_bytes, (cipher, envelope), read),
        call_ensures(open_chunk, (state, cipher, file_id, envelope), step),
        old(state).active_downloads@.contains_key(file_id@),
        read is Some,
        *old(later) == *final(state),
        old(state).active_downloads@[file_id@].received_bytes + read->0@.len() <= u64::MAX,
        call_ensures(ingest_chunk, (later, file_id, read->0@.len() as u64), progress),
    ensures
        ({
            let download = old(state).active_downloads@[file_id@];
            let received = download.received_bytes + read->0@.len();
            &&& step matches ChunkStep::Write { path, data } && path == download.temp_path && data@
                == read->0@
            &&& *final(state) == *old(state)
            &&& final(later).active_downloads@.contains_key(file_id@)
            &&& final(later).active_downloads@[file_id@].received_bytes == received
            &&& final(later).active_downloads@[file_id@].temp_path == download.temp_path
            &&& final(later).active_downloads@[file_id@].final_path == download.final_path
            &&& final(later).active_downloads@[file_id@].size == download.size
            &&& final(later).active_downloads@[file_id@].expected_hash == download.expected_hash
            &&& final(later).active_downloads@[file_id@].sender_peer == download.sender_peer
            &&& progress is Some
            &&& progress->0.received == received
            &&& progress->0.total == download.size
            &&& received >= download.size ==> progress->0.next == NextStep::Finalize {
                temp_path: download.temp_path,
            }
            &&& received < download.size ==> progress->0.next is Request && is_request(
                progress->0.next->Request_0,
                download.sender_peer@,
                file_id@,
                received,
                least(262144, download.size - received),
            )
        }),
        other != file_id@ ==> (final(later).active_downloads@.contains_key(other) <==> old(state).active_downloads@.contains_key(other)),
        other != file_id@ && old(state).active_downloads@.contains_key(other) ==> final(later).active_downloads@[other] == old(state).active_downloads@[other],
        *final(later) == (SharedState {
            active_downloads: final(later).active_downloads,
            ..*old(state)
        }),
{
}

/// A chunk that does not open ends its download and no other; one that nobody waits for changes
/// nothing and is not counted.
pub proof fn law_chunks_that_do_not_open_or_are_not_awaited(
    state: &mut SharedState,
    cipher: &RoomCipher,
    file_id: &str,
    envelope: &EncryptedEnvelope,
    read: Option<Vec<u8>>,
    step: ChunkStep,
    later: &mut SharedState,
    written: u64,
    progress: Option<ChunkProgress>,
    other: Seq<char>,
)
    requires
        call_ensures(decrypt_bytes, (cipher, envelope), read),
        call_ensures(open_chunk, (state, cipher, file_id, envelope), step),
        !old(later).active_downloads@.contains_key(file_id@),
        call_ensures(ingest_chunk, (later, file_id, written), progress),
    ensures
        read is None ==> (step matches ChunkStep::Failed { message } && message@
            == "decrypt failed"@),
        read is None ==> !final(state).active_downloads@.contains_key(file_id@),
        read is None && other != file_id@ ==> (final(state).active_downloads@.contains_key(other)
            <==> old(state).active_downloads@.contains_key(other)),
        read is None && other != file_id@ && old(state).active_downloads@.contains_key(other)
            ==> final(state).active_downloads@[other] == old(state).active_downloads@[other],
        read is Some ==> *final(state) == *old(state),
        read is Some && !old(state).active_downloads@.contains_key(file_id@) ==> step
            == ChunkStep::Ignored,
        progress is None,
        *final(later) == *old(later),
        *final(state) == (SharedState {
            active_downloads: final(state).active_downloads,
            ..*old(state)
        }),
{
}

/// A chunk that could not be written ends its download and no other, and its temporary file is to
/// be removed.
pub proof fn law_a_failed_write_ends_the_download(
    state: &mut SharedState,
    file_id: &str,
    error: &str,
    r: Option<FileFault>,
    other: Seq<char>,
)
    requires
        call_ensures(chunk_write_failed, (state, file_id, error), r),
    ensures
        r is Some <==> old(state).active_downloads@.contains_key(file_id@),
        r matches Some(fault) ==> fault.message@ == "write: "@ + error@ && fault.remove == old(state).active_downloads@[file_id@].temp_path,
        !final(state).active_downloads@.contains_key(file_id@),
        other != file_id@ ==> (final(state).active_downloads@.contains_key(other) <==> old(state).active_downloads@.contains_key(other)),
        other != file_id@ && old(state).active_downloads@.contains_key(other) ==> final(state).active_downloads@[other] == old(state).active_downloads@[other],
        *final(state) == (SharedState {
            active_downloads: final(state).active_downloads,
            ..*old(state)
        }),
{
}

/// A file is moved to its final place exactly where its hash could be computed and is the one that
/// was offered, character for character; with another hash, or none, it is to be removed and its
/// download ends, and no other.
pub proof fn law_only_the_offered_content_is_kept(
    state: &mut SharedState,
    file_id: &str,
    temp: &StoredPath,
    hash: Result<String, String>,
    step: FinalizeStep,
    other: Seq<char>,
)
    requires
        old(state).active_downloads@.contains_key(file_id@),
        call_ensures(finalize_download, (state, file_id, temp, hash), step),
    ensures
        ({
            let download = old(state).active_downloads@[file_id@];
            &&& step is Rename <==> hash is Ok && hash->Ok_0@ == download.expected_hash@
            &&& step is Rename ==> step->from == *temp && step->to == download.final_path
                && *final(state) == *old(state)
            &&& step !is Rename ==> step is Failed && step->Failed_0.remove == *temp && !final(state).active_downloads@.contains_key(file_id@)
            &&& hash is Ok && hash->Ok_0@ != download.expected_hash@ ==> step->Failed_0.message@
                == "hash mismatch"@
            &&& hash is Err ==> step->Failed_0.message@ == "hash compute failed: "@
                + hash->Err_0@
        }),
        other != file_id@ ==> (final(state).active_downloads@.contains_key(other) <==> old(state).active_downloads@.contains_key(other)),
        other != file_id@ && old(state).active_downloads@.contains_key(other) ==> final(state).active_downloads@[other] == old(state).active_downloads@[other],
        *final(state) == (SharedState {
            active_downloads: final(state).active_downloads,
            ..*old(state)
        }),
{
}

/// A download that is gone by then is not moved.
pub proof fn law_a_download_that_is_gone_is_not_moved(
    state: &mut SharedState,
    file_id: &str,
    temp: &StoredPath,
    hash: Result<String, String>,
    step: FinalizeStep,
)
    requires
        !old(state).active_downloads@.contains_key(file_id@),
        call_ensures(finalize_download, (state, file_id, temp, hash), step),
    ensures
        hash is Ok ==> step == FinalizeStep::Ignored && *final(state) == *old(state),
        hash is Err ==> step is Failed,
{
}

/// Once its file was moved, or could not be, a download is over, and no other.
pub proof fn law_a_moved_download_is_over(
    state: &mut SharedState,
    file_id: &str,
    temp: &StoredPath,
    outcome: Result<(), String>,
    r: Result<(), FileFault>,
    other: Seq<char>,
)
    requires
        call_ensures(download_renamed, (state, file_id, temp, outcome), r),
    ensures
        r is Ok <==> outcome is Ok,
        outcome matches Err(e) ==> (r matches Err(fault) && fault.message@ == "rename: "@ + e@
            && fault.remove == *temp),
        !final(state).active_downloads@.contains_key(file_id@),
        other != file_id@ ==> (final(state).active_downloads@.contains_key(other) <==> old(state).active_downloads@.contains_key(other)),
        other != file_id@ && old(state).active_downloads@.contains_key(other) ==> final(state).active_downloads@[other] == old(state).active_downloads@[other],
        *final(state) == (SharedState {
            active_downloads: final(state).active_downloads,
            ..*old(state)
        }),
{
}

/// The temporary files of different downloads differ, and no temporary file is named otherwise than
/// by its download.
pub proof fn law_downloads_have_files_of_their_own(
    a: &str,
    b: &str,
    pa: StoredPath,
    pb: StoredPath,
    name: String,
    target: StoredPath,
)
    requires
        call_ensures(partial_path, (a,), pa),
        call_ensures(partial_path, (b,), pb),
        call_ensures(final_path, (name,), target),
    ensures
        a@ != b@ ==> pa.name@ != pb.name@,
        pa.name@ == "."@ + a@ + ".part"@,
        pa.folder@ == "files"@,
        target.folder@ == "files"@,
        target.name@ == name@,
{
    if pa.name@ == pb.name@ {
        reveal_strlit(".");
        reveal_strlit(".part");
        assert(pa.name@.len() == pb.name@.len());
        assert(pa.name@.subrange(1, (1 + a@.len()) as int) =~= a@);
        assert(pb.name@.subrange(1, (1 + b@.len()) as int) =~= b@);
    }
}

} // verus!
