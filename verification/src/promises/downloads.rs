//! Promises of a whole download, from its first request to the check of what arrived.
#![allow(unused_imports)]

use crate::app_state::SharedState;
use crate::crypto::{decrypt_bytes, RoomCipher};
use crate::files;
use crate::files::{
    download_file, finalize_download, ingest_chunk, open_chunk, serve_chunk, ChunkProgress,
    ChunkRequest, ChunkStep, DownloadState, FinalizeStep, NextStep, ServePlan, SwarmFileCmd,
};
use crate::promises::transfers;
use crate::types::{EncryptedEnvelope, FileOffer, StoredPath};
use vstd::prelude::*;

verus! {

/// One chunk of a download: the state before it, once it was decided on, and once it was counted;
/// what the envelope that arrived opened to; what was decided; and what followed.
pub struct Turn {
    pub before: SharedState,
    pub between: SharedState,
    pub after: SharedState,
    pub chunk: Seq<u8>,
    pub step: ChunkStep,
    pub progress: Option<ChunkProgress>,
}

/// Whether a turn goes as `open_chunk` and then `ingest_chunk` promise.
pub open spec fn is_turn(file_id: Seq<char>, turn: Turn) -> bool {
    &&& turn.chunk.len() <= u64::MAX
    &&& turn.before.active_downloads@.contains_key(file_id)
        ==> turn.before.active_downloads@[file_id].received_bytes + turn.chunk.len() <= u64::MAX
    &&& files::is_chunk_step(turn.before, turn.between, file_id, Some(turn.chunk), turn.step)
    &&& files::counts_chunk(
        turn.between,
        turn.after,
        file_id,
        turn.chunk.len() as u64,
        turn.progress,
    )
}

/// Calls of `open_chunk` and then `ingest_chunk` on an envelope that opens make a turn.
pub proof fn law_calls_make_a_turn(
    cipher: &RoomCipher,
    file_id: &str,
    envelope: &EncryptedEnvelope,
    read: Option<Vec<u8>>,
    state: &mut SharedState,
    step: ChunkStep,
    later: &mut SharedState,
    progress: Option<ChunkProgress>,
)
    requires
        call_ensures(decrypt_bytes, (cipher, envelope), read),
        read is Some,
        old(state).active_downloads@.contains_key(file_id@) ==> old(state).active_downloads@[file_id@].received_bytes + read->0@.len() <= u64::MAX,
        read->0@.len() <= u64::MAX,
        call_ensures(open_chunk, (state, cipher, file_id, envelope), step),
        *old(later) == *final(state),
        call_ensures(ingest_chunk, (later, file_id, read->0@.len() as u64), progress),
    ensures
        is_turn(
            file_id@,
            Turn {
                before: *old(state),
                between: *final(state),
                after: *final(later),
                chunk: read->0@,
                step,
                progress,
            },
        ),
{
}

/// Whether the turns follow each other.
pub open spec fn is_run(file_id: Seq<char>, run: Seq<Turn>) -> bool {
    &&& forall|i: int| 0 <= i < run.len() ==> is_turn(file_id, #[trigger] run[i])
    &&& forall|i: int, j: int|
        0 <= i && j == i + 1 && j < run.len() ==> (#[trigger] run[i]).after == (
        #[trigger] run[j]).before
}

/// The chunks of a run, one after the other.
pub open spec fn chunks_of(run: Seq<Turn>) -> Seq<u8>
    decreases run.len(),
{
    if run.len() == 0 {
        Seq::empty()
    } else {
        chunks_of(run.drop_last()) + run.last().chunk
    }
}

/// What a run appends to the file at `path`.
pub open spec fn appended_to(path: StoredPath, run: Seq<Turn>) -> Seq<u8>
    decreases run.len(),
{
    if run.len() == 0 {
        Seq::empty()
    } else {
        let before = appended_to(path, run.drop_last());
        match run.last().step {
            ChunkStep::Write { path: p, data } => if p == path {
                before + data@
            } else {
                before
            },
            _ => before,
        }
    }
}

proof fn lemma_turn(file_id: Seq<char>, turn: Turn)
    requires
        is_turn(file_id, turn),
        turn.before.active_downloads@.contains_key(file_id),
    ensures
        ({
            let download = turn.before.active_downloads@[file_id];
            let received = download.received_bytes + turn.chunk.len();
            &&& turn.step matches ChunkStep::Write { path, data } && path == download.temp_path
                && data@ == turn.chunk
            &&& turn.after.active_downloads@.contains_key(file_id)
            &&& turn.after.active_downloads@[file_id] == (DownloadState {
                received_bytes: received as u64,
                ..download
            })
            &&& turn.progress is Some
            &&& turn.progress->0.received == received
            &&& received >= download.size ==> turn.progress->0.next == NextStep::Finalize {
                temp_path: download.temp_path,
            }
            &&& received < download.size ==> turn.progress->0.next is Request
                && transfers::is_request(
                turn.progress->0.next->Request_0,
                download.sender_peer@,
                file_id,
                received,
                transfers::least(262144, download.size - received),
            )
        }),
{
}

proof fn lemma_run(file_id: Seq<char>, run: Seq<Turn>)
    requires
        run.len() > 0,
        is_run(file_id, run),
        run[0].before.active_downloads@.contains_key(file_id),
    ensures
        ({
            let download = run[0].before.active_downloads@[file_id];
            let last = run.last();
            &&& appended_to(download.temp_path, run) == chunks_of(run)
            &&& download.received_bytes + chunks_of(run).len() <= u64::MAX
            &&& last.before.active_downloads@.contains_key(file_id)
            &&& last.before.active_downloads@[file_id] == (DownloadState {
                received_bytes: (download.received_bytes + chunks_of(
                    run.drop_last(),
                ).len()) as u64,
                ..download
            })
            &&& last.after.active_downloads@.contains_key(file_id)
            &&& last.after.active_downloads@[file_id] == (DownloadState {
                received_bytes: (download.received_bytes + chunks_of(run).len()) as u64,
                ..download
            })
        }),
    decreases run.len(),
{
    let rest = run.drop_last();
    let last = run.last();
    assert(last == run[run.len() - 1]);
    if rest.len() == 0 {
        assert(chunks_of(rest) =~= Seq::<u8>::empty());
        assert(chunks_of(run) =~= last.chunk);
        lemma_turn(file_id, last);
        assert(appended_to(run[0].before.active_downloads@[file_id].temp_path, rest)
            =~= Seq::<u8>::empty());
    } else {
        assert forall|i: int| 0 <= i < rest.len() implies is_turn(
            file_id,
            #[trigger] rest[i],
        ) by {
            assert(rest[i] == run[i]);
        }
        assert forall|i: int, j: int| 0 <= i && j == i + 1 && j < rest.len() implies (
        #[trigger] rest[i]).after == (#[trigger] rest[j]).before by {
            assert(rest[i] == run[i]);
            assert(rest[j] == run[j]);
        }
        lemma_run(file_id, rest);
        assert(rest.last() == run[run.len() - 2]);
        assert(run[run.len() - 2].after == run[run.len() - 1].before);
        lemma_turn(file_id, last);
    }
}

/// All chunks of a download are appended, as they opened and in their order, to one and the same
/// file, whatever the size and however many there are: its temporary file. Nothing is appended to
/// any other. The last turn names that file to be checked exactly where the size is reached.
pub proof fn law_a_download_is_gathered_in_one_file(
    file_id: Seq<char>,
    run: Seq<Turn>,
    other: StoredPath,
)
    requires
        run.len() > 0,
        is_run(file_id, run),
        run[0].before.active_downloads@.contains_key(file_id),
    ensures
        ({
            let download = run[0].before.active_downloads@[file_id];
            let received = download.received_bytes + chunks_of(run).len();
            &&& appended_to(download.temp_path, run) == chunks_of(run)
            &&& other != download.temp_path ==> appended_to(other, run).len() == 0
            &&& run.last().progress is Some
            &&& run.last().progress->0.received == received
            &&& run.last().progress->0.next is Finalize <==> received >= download.size
            &&& run.last().progress->0.next is Finalize ==> run.last().progress->0.next->temp_path
                == download.temp_path
            &&& run.last().after.active_downloads@[file_id].temp_path == download.temp_path
            &&& run.last().after.active_downloads@[file_id].final_path == download.final_path
            &&& run.last().after.active_downloads@[file_id].expected_hash
                == download.expected_hash
        }),
    decreases run.len(),
{
    lemma_run(file_id, run);
    lemma_turn(file_id, run.last());
    if run.len() > 1 {
        let rest = run.drop_last();
        lemma_prefix(file_id, run);
        law_a_download_is_gathered_in_one_file(file_id, rest, other);
    } else {
        assert(appended_to(other, run.drop_last()) =~= Seq::<u8>::empty());
    }
}

proof fn lemma_prefix(file_id: Seq<char>, run: Seq<Turn>)
    requires
        run.len() > 1,
        is_run(file_id, run),
    ensures
        is_run(file_id, run.drop_last()),
        run.drop_last()[0] == run[0],
        run.drop_last().last().after == run.last().before,
{
    let rest = run.drop_last();
    assert forall|i: int| 0 <= i < rest.len() implies is_turn(
        file_id,
        #[trigger] rest[i],
    ) by {
        assert(rest[i] == run[i]);
    }
    assert forall|i: int, j: int| 0 <= i && j == i + 1 && j < rest.len() implies (
    #[trigger] rest[i]).after == (#[trigger] rest[j]).before by {
        assert(rest[i] == run[i]);
        assert(rest[j] == run[j]);
    }
    assert(run[run.len() - 2].after == run[run.len() - 1].before);
}

/// Whether `chunk` is what the sender, who serves a file with this content, reads for the request.
pub open spec fn is_answer(
    sender: &SharedState,
    content: Seq<u8>,
    cmd: SwarmFileCmd,
    chunk: Seq<u8>,
) -> bool {
    exists|plan: ServePlan| #[trigger]
        call_ensures(serve_chunk, (sender, &cmd->request), plan) && (plan is Read ==> chunk
            == content.subrange(plan->offset as int, plan->offset + plan->length))
}

/// Whether each chunk of a run is the answer to the request before it, the first to `cmd`.
pub open spec fn is_answered(
    sender: &SharedState,
    content: Seq<u8>,
    cmd: SwarmFileCmd,
    run: Seq<Turn>,
) -> bool {
    &&& run.len() > 0 ==> is_answer(sender, content, cmd, run[0].chunk)
    &&& forall|i: int, j: int|
        0 <= i && j == i + 1 && j < run.len() ==> is_answer(
            sender,
            content,
            (#[trigger] run[i]).progress->0.next->Request_0,
            (#[trigger] run[j]).chunk,
        )
}

proof fn lemma_answer(
    sender: &SharedState,
    content: Seq<u8>,
    cmd: SwarmFileCmd,
    chunk: Seq<u8>,
    peer: Seq<char>,
    file_id: Seq<char>,
    received: int,
)
    requires
        is_answer(sender, content, cmd, chunk),
        sender.served_files@.contains_key(file_id),
        sender.served_files@[file_id].size == content.len(),
        0 <= received <= content.len(),
        transfers::is_request(
            cmd,
            peer,
            file_id,
            received,
            transfers::least(262144, content.len() - received),
        ),
    ensures
        chunk == content.subrange(
            received,
            received + transfers::least(262144, content.len() - received),
        ),
{
    let plan = choose|plan: ServePlan| #[trigger]
        call_ensures(serve_chunk, (sender, &cmd->request), plan) && (plan is Read ==> chunk
            == content.subrange(plan->offset as int, plan->offset + plan->length));
    transfers::law_requests_are_answered_from_the_file(sender, &cmd->request, plan);
    if received == content.len() {
        assert(chunk =~= content.subrange(received, received));
    }
}

proof fn lemma_answered(
    file_id: Seq<char>,
    sender: &SharedState,
    content: Seq<u8>,
    cmd: SwarmFileCmd,
    peer: Seq<char>,
    run: Seq<Turn>,
)
    requires
        run.len() > 0,
        is_run(file_id, run),
        run[0].before.active_downloads@.contains_key(file_id),
        run[0].before.active_downloads@[file_id].received_bytes == 0,
        run[0].before.active_downloads@[file_id].size == content.len(),
        sender.served_files@.contains_key(file_id),
        sender.served_files@[file_id].size == content.len(),
        transfers::is_request(
            cmd,
            peer,
            file_id,
            0,
            transfers::least(262144, content.len() as int),
        ),
        is_answered(sender, content, cmd, run),
        forall|i: int|
            0 <= i < run.len() - 1 ==> (#[trigger] run[i]).progress->0.next is Request,
    ensures
        chunks_of(run).len() <= content.len(),
        chunks_of(run) == content.take(chunks_of(run).len() as int),
    decreases run.len(),
{
    let rest = run.drop_last();
    let last = run.last();
    assert(last == run[run.len() - 1]);
    lemma_run(file_id, run);
    if rest.len() == 0 {
        lemma_answer(sender, content, cmd, last.chunk, peer, file_id, 0);
        assert(chunks_of(rest) =~= Seq::<u8>::empty());
        assert(chunks_of(run) =~= content.take(chunks_of(run).len() as int));
    } else {
        lemma_prefix(file_id, run);
        assert forall|i: int, j: int| 0 <= i && j == i + 1 && j < rest.len() implies is_answer(
            sender,
            content,
            (#[trigger] rest[i]).progress->0.next->Request_0,
            (#[trigger] rest[j]).chunk,
        ) by {
            assert(rest[i] == run[i]);
            assert(rest[j] == run[j]);
        }
        assert forall|i: int| 0 <= i < rest.len() - 1 implies (
        #[trigger] rest[i]).progress->0.next is Request by {
            assert(rest[i] == run[i]);
        }
        lemma_answered(file_id, sender, content, cmd, peer, rest);
        lemma_run(file_id, rest);
        let prev = run[run.len() - 2];
        assert(prev == rest.last());
        lemma_turn(file_id, prev);
        let received = chunks_of(rest).len() as int;
        assert(prev.progress->0.next is Request);
        assert(is_answer(
            sender,
            content,
            run[run.len() - 2].progress->0.next->Request_0,
            run[run.len() - 1].chunk,
        ));
        let sender_peer = prev.before.active_downloads@[file_id].sender_peer@;
        lemma_answer(
            sender,
            content,
            prev.progress->0.next->Request_0,
            last.chunk,
            sender_peer,
            file_id,
            received,
        );
        assert(chunks_of(run) =~= content.take(chunks_of(run).len() as int));
    }
}

/// A file of any size that is served is downloaded as it is: when a download that was started from
/// its offer has had every request answered, and the last turn names a file to be checked, that
/// file has been given the content of the served one, byte for byte, and it is the temporary file
/// that the download was started with. With the hash that was offered it is then moved to the final
/// path that the download was started with.
pub proof fn law_a_served_file_is_downloaded_as_it_is(
    file_id: &str,
    sender: &SharedState,
    content: Seq<u8>,
    start: &mut SharedState,
    offer: &FileOffer,
    peer: String,
    temp: StoredPath,
    target: StoredPath,
    cmd: Result<SwarmFileCmd, String>,
    run: Seq<Turn>,
    end: &mut SharedState,
    hash: Result<String, String>,
    step: FinalizeStep,
)
    requires
        call_ensures(download_file, (start, file_id, offer, peer, temp, target), cmd),
        cmd is Ok,
        offer.size == content.len(),
        sender.served_files@.contains_key(file_id@),
        sender.served_files@[file_id@].size == content.len(),
        run.len() > 0,
        run[0].before == *final(start),
        is_run(file_id@, run),
        is_answered(sender, content, cmd->Ok_0, run),
        forall|i: int|
            0 <= i < run.len() - 1 ==> (#[trigger] run[i]).progress->0.next is Request,
        run.last().progress->0.next is Finalize,
        *old(end) == run.last().after,
        call_ensures(finalize_download, (end, file_id, &temp, hash), step),
    ensures
        run.last().progress->0.next->temp_path == temp,
        appended_to(temp, run) == content,
        hash is Ok && hash->Ok_0@ == offer.hash@ ==> step == (FinalizeStep::Rename {
            from: temp,
            to: target,
        }),
        hash is Ok && hash->Ok_0@ != offer.hash@ ==> step is Failed,
{
    transfers::law_a_download_starts_from_the_beginning(
        start,
        file_id,
        offer,
        peer,
        temp,
        target,
        cmd,
        file_id@,
    );
    law_a_download_is_gathered_in_one_file(file_id@, run, temp);
    lemma_answered(file_id@, sender, content, cmd->Ok_0, peer@, run);
    lemma_run(file_id@, run);
    assert(content.take(content.len() as int) =~= content);
    transfers::law_only_the_offered_content_is_kept(end, file_id, &temp, hash, step, file_id@);
}

} // verus!
