//! A run from its plan to its end: the cancellation signal, the workers for
//! a file, and what is written when they are through.

use vstd::prelude::*;
use crate::partition::{is_partition, lemma_chunks_tile, lemma_chunks_within, partition, Chunk};
use crate::progress::ProgressEvent;
use crate::store::{rendered, starts_with_header, with_batch, work_start, LineStore};
use crate::worker::{range_message, Phase, Worker};

verus! {

/// The cancellation signal of a run.
#[derive(Debug)]
pub struct TranslatorState {
    /// Whether the run has been asked to stop.
    pub stop_flag: bool,
}

impl TranslatorState {
    /// A signal that is not set.
    pub fn new() -> (state: TranslatorState)
        ensures
            !state.stop_flag,
    {
        TranslatorState { stop_flag: false }
    }

    /// Clears the signal, as at the start of a run.
    pub fn reset(&mut self)
        ensures
            !final(self).stop_flag,
    {
        self.stop_flag = false;
    }

    /// Sets the signal. Setting it again changes nothing.
    pub fn request_stop(&mut self)
        ensures
            final(self).stop_flag,
    {
        self.stop_flag = true;
    }

    /// Whether the signal is set.
    pub fn stop_requested(&self) -> (r: bool)
        ensures
            r == self.stop_flag,
    {
        self.stop_flag
    }
}

/// The chunks for the lines of `store` and `threads` workers: a header, if
/// there is one, belongs to none of them.
pub fn plan_chunks(store: &LineStore, threads: usize) -> (chunks: Vec<Chunk>)
    ensures
        is_partition(
            chunks@,
            work_start(store@),
            (store@.len() - work_start(store@)) as nat,
            threads as nat,
        ),
{
    let offset = store.first_work_line();
    let total = store.len() - offset;
    partition(offset, total, threads)
}

/// The chunks of a list of workers, in order.
pub open spec fn chunks_of(workers: Seq<(Worker, ProgressEvent)>) -> Seq<Chunk> {
    Seq::new(workers.len(), |k: int| workers[k].0.chunk)
}

/// One worker for each chunk, numbered from 1 in the order of the chunks,
/// each with the report of its range.
pub fn start_workers(chunks: &Vec<Chunk>, batch_size: usize) -> (workers: Vec<
    (Worker, ProgressEvent),
>)
    requires
        batch_size > 0,
        forall|k: int| 0 <= k < chunks.len() ==> (#[trigger] chunks[k]).start <= chunks[k].end,
    ensures
        workers.len() == chunks.len(),
        forall|k: int|
            0 <= k < workers.len() ==> {
                let w = (#[trigger] workers[k]).0;
                &&& w.wf()
                &&& w.thread_id == k + 1
                &&& w.chunk == chunks[k]
                &&& w.batch_size == batch_size
                &&& w.processed == 0
                &&& w.phase == Phase::Ready
                &&& workers[k].1.holds(
                    w.thread_id,
                    0,
                    w.total(),
                    range_message(chunks[k]),
                    false,
                )
            },
{
    let mut workers: Vec<(Worker, ProgressEvent)> = Vec::new();
    let mut k: usize = 0;
    while k < chunks.len()
        invariant
            k <= chunks.len(),
            batch_size > 0,
            workers.len() == k,
            forall|j: int| 0 <= j < chunks.len() ==> (#[trigger] chunks[j]).start <= chunks[j].end,
            forall|j: int|
                0 <= j < k ==> {
                    let w = (#[trigger] workers[j]).0;
                    &&& w.wf()
                    &&& w.thread_id == j + 1
                    &&& w.chunk == chunks[j]
                    &&& w.batch_size == batch_size
                    &&& w.processed == 0
                    &&& w.phase == Phase::Ready
                    &&& workers[j].1.holds(
                        w.thread_id,
                        0,
                        w.total(),
                        range_message(chunks[j]),
                        false,
                    )
                },
        decreases chunks.len() - k,
    {
        let chunk = chunks[k];
        let started = Worker::start(k + 1, chunk, batch_size);
        workers.push(started);
        k += 1;
    }
    workers
}

/// The workers for the lines of `store`: one for each chunk, numbered from
/// 1 in file order, each with the report of its range. A header, if there is
/// one, belongs to none of them.
pub fn plan_workers(store: &LineStore, threads: usize, batch_size: usize) -> (workers: Vec<
    (Worker, ProgressEvent),
>)
    requires
        batch_size > 0,
    ensures
        is_partition(
            chunks_of(workers@),
            work_start(store@),
            (store@.len() - work_start(store@)) as nat,
            threads as nat,
        ),
        forall|k: int|
            0 <= k < workers.len() ==> {
                let w = (#[trigger] workers[k]).0;
                &&& w.wf()
                &&& w.thread_id == k + 1
                &&& w.chunk.end <= store@.len()
                &&& w.batch_size == batch_size
                &&& w.processed == 0
                &&& w.phase == Phase::Ready
                &&& workers[k].1.holds(
                    w.thread_id,
                    0,
                    w.total(),
                    range_message(w.chunk),
                    false,
                )
            },
{
    let chunks = plan_chunks(store, threads);
    proof {
        let offset = work_start(store@);
        let total = (store@.len() - offset) as nat;
        lemma_chunks_tile(chunks@, offset, total, threads as nat);
        assert forall|k: int| 0 <= k < chunks.len() implies (#[trigger] chunks[k]).end
            <= store@.len() by {
            lemma_chunks_within(chunks@, offset, total, threads as nat, k);
        }
    }
    let workers = start_workers(&chunks, batch_size);
    proof {
        assert(chunks_of(workers@) =~= chunks@);
    }
    workers
}

/// What is written when the workers are through: the text of the file where
/// the run was not cancelled, and nothing where it was.
pub fn finish_run(store: &LineStore, state: &TranslatorState) -> (out: Option<String>)
    ensures
        match out {
            Some(text) => !state.stop_flag && text@ == rendered(store@),
            None => state.stop_flag,
        },
{
    if state.stop_requested() {
        None
    } else {
        Some(store.render())
    }
}

/// A batch of translated lines bound for the positions from `start` on.
pub struct BatchWrite {
    pub start: int,
    pub lines: Seq<Seq<char>>,
}

/// The lines of a file after some batches have been written, in any order
/// and from any workers.
pub open spec fn after_writes(lines: Seq<Seq<char>>, writes: Seq<BatchWrite>) -> Seq<Seq<char>>
    decreases writes.len(),
{
    if writes.len() == 0 {
        lines
    } else {
        with_batch(after_writes(lines, writes.drop_last()), writes.last().start, writes.last().lines)
    }
}

/// Whether position `i` lies in one of the batches.
pub open spec fn touched(writes: Seq<BatchWrite>, i: int) -> bool {
    exists|k: int|
        0 <= k < writes.len() && (#[trigger] writes[k]).start <= i < writes[k].start
            + writes[k].lines.len()
}

/// A run never changes the number of lines, however many batches were
/// written before it ended or was cancelled, and a line that no batch
/// reached is as it was in the file.
pub proof fn lemma_run_keeps_lines(lines: Seq<Seq<char>>, writes: Seq<BatchWrite>)
    ensures
        after_writes(lines, writes).len() == lines.len(),
        forall|i: int|
            0 <= i < lines.len() && !touched(writes, i) ==> after_writes(lines, writes)[i]
                == lines[i],
    decreases writes.len(),
{
    if writes.len() > 0 {
        let earlier = writes.drop_last();
        lemma_run_keeps_lines(lines, earlier);
        assert forall|i: int| 0 <= i < lines.len() && !touched(writes, i) implies after_writes(
            lines,
            writes,
        )[i] == lines[i] by {
            let last = writes[writes.len() - 1];
            assert(!(last.start <= i < last.start + last.lines.len()));
            if touched(earlier, i) {
                let k = choose|k: int|
                    0 <= k < earlier.len() && (#[trigger] earlier[k]).start <= i < earlier[k].start
                        + earlier[k].lines.len();
                assert(writes[k] == earlier[k]);
            }
        }
    }
}

/// A header belongs to no chunk: every chunk begins after it.
pub proof fn lemma_header_in_no_chunk(
    lines: Seq<Seq<char>>,
    chunks: Seq<Chunk>,
    workers: nat,
    k: int,
)
    requires
        starts_with_header(lines),
        is_partition(chunks, work_start(lines), (lines.len() - work_start(lines)) as nat, workers),
        0 <= k < chunks.len(),
    ensures
        !chunks[k].contains(0),
        1 <= chunks[k].start < chunks[k].end <= lines.len(),
{
    lemma_chunks_within(
        chunks,
        work_start(lines),
        (lines.len() - work_start(lines)) as nat,
        workers,
        k,
    );
}

/// A header comes out as it went in: where every batch lies at position 1
/// or later, as the batches of all chunks do, the first line is untouched.
pub proof fn lemma_header_kept(lines: Seq<Seq<char>>, writes: Seq<BatchWrite>)
    requires
        lines.len() > 0,
        forall|k: int| 0 <= k < writes.len() ==> (#[trigger] writes[k]).start >= 1,
    ensures
        after_writes(lines, writes).len() == lines.len(),
        after_writes(lines, writes)[0] == lines[0],
{
    lemma_run_keeps_lines(lines, writes);
    assert(!touched(writes, 0));
}

} // verus!
