//! One worker's way through its chunk, batch by batch.
//!
//! A worker is a state machine. Whoever drives it asks what to do next,
//! handing in the cancellation signal as it stands at that moment, carries
//! out the translation that the worker asks for, and hands the result back.

use vstd::prelude::*;
use crate::partition::Chunk;
use crate::batch::{resolve_batch, resolved_lines, ApiOutcome};
use crate::progress::{api_error_message, exception_message, ready_message, ProgressEvent};
use crate::store::{with_batch, written, LineStore};
use crate::text::texts;

verus! {

/// What a worker says of its chunk when it starts: the positions of its
/// first and last line, and 0 for both where the chunk is empty.
pub open spec fn range_message(chunk: Chunk) -> Seq<char> {
    if chunk.start < chunk.end {
        ready_message(chunk.start as nat, (chunk.end - 1) as nat)
    } else {
        ready_message(0, 0)
    }
}

/// Where a worker stands.
#[derive(Clone, Copy, Debug, PartialEq, Eq, Structural)]
pub enum Phase {
    /// About to look at the cancellation signal: at the start and after
    /// each batch.
    Ready,
    /// A batch has been handed out and its translation is awaited.
    Running,
    /// The worker found the run cancelled; it hands out no more batches.
    Stopped,
    /// The worker has dealt with every line of its chunk.
    Finished,
}

/// A worker: its chunk, how many lines go into one batch, and how far it is.
#[derive(Clone, Copy, Debug)]
pub struct Worker {
    pub thread_id: usize,
    pub chunk: Chunk,
    pub batch_size: usize,
    pub processed: usize,
    pub phase: Phase,
}

/// What a worker wants done next.
#[derive(Debug)]
pub enum Step {
    /// Translate the lines of this range and hand the result to
    /// [`Worker::complete`].
    Translate(Chunk),
    /// The run was cancelled: report it; the worker is through.
    Stopped(ProgressEvent),
    /// The chunk is done: report it; the worker is through.
    Finished(ProgressEvent),
    /// Nothing: the worker is through, or awaits the batch that it handed
    /// out.
    Idle,
}

impl Worker {
    /// The number of lines in the worker's chunk.
    pub open spec fn total(&self) -> int {
        self.chunk.end - self.chunk.start
    }

    /// The position of the first line that the worker has not dealt with.
    pub open spec fn position(&self) -> int {
        self.chunk.start + self.processed
    }

    /// The number of lines in the worker's next batch: a full batch, or
    /// what is left of the chunk where that is less.
    pub open spec fn batch_len(&self) -> int {
        if self.total() - self.processed <= self.batch_size {
            self.total() - self.processed
        } else {
            self.batch_size as int
        }
    }

    /// The worker's state is consistent.
    pub open spec fn wf(&self) -> bool {
        &&& self.chunk.start <= self.chunk.end
        &&& self.batch_size > 0
        &&& self.processed <= self.total()
        &&& self.phase == Phase::Running ==> self.processed < self.total()
        &&& self.phase == Phase::Finished ==> self.processed == self.total()
    }

    /// Whether the worker is through: it hands out no further batch.
    pub open spec fn is_terminal(&self) -> bool {
        self.phase == Phase::Stopped || self.phase == Phase::Finished
    }

    /// The phase that a poll leaves the worker in, given the cancellation
    /// signal. Only a worker that is ready moves: to `Finished` where no
    /// line is left, else to `Stopped` where the signal is set, else to
    /// `Running`.
    pub open spec fn phase_after_poll(&self, stop_requested: bool) -> Phase {
        if self.phase != Phase::Ready {
            self.phase
        } else if self.processed == self.total() {
            Phase::Finished
        } else if stop_requested {
            Phase::Stopped
        } else {
            Phase::Running
        }
    }

    /// A worker for `chunk`, and its first report: the range of positions
    /// that it was given.
    pub fn start(thread_id: usize, chunk: Chunk, batch_size: usize) -> (r: (Worker, ProgressEvent))
        requires
            chunk.start <= chunk.end,
            batch_size > 0,
        ensures
            r.0.wf(),
            r.0.thread_id == thread_id,
            r.0.chunk == chunk,
            r.0.batch_size == batch_size,
            r.0.processed == 0,
            r.0.phase == Phase::Ready,
            r.1.holds(
                thread_id,
                0,
                chunk.end - chunk.start,
                range_message(chunk),
                false,
            ),
    {
        let worker = Worker { thread_id, chunk, batch_size, processed: 0, phase: Phase::Ready };
        let total = chunk.end - chunk.start;
        let event = if chunk.start < chunk.end {
            ProgressEvent::ready(thread_id, total, chunk.start, chunk.end - 1)
        } else {
            ProgressEvent::ready(thread_id, total, 0, 0)
        };
        (worker, event)
    }

    /// What the worker does next, given the cancellation signal.
    ///
    /// A worker that is ready and has lines left looks at the signal: if it
    /// is set, the worker stops and says so; if not, it hands out its next
    /// batch. A worker that is ready and has no lines left finishes,
    /// whatever the signal. In every other phase nothing happens.
    pub fn poll(&mut self, stop_requested: bool) -> (step: Step)
        requires
            old(self).wf(),
        ensures
            final(self).wf(),
            final(self).thread_id == old(self).thread_id,
            final(self).chunk == old(self).chunk,
            final(self).batch_size == old(self).batch_size,
            final(self).processed == old(self).processed,
            final(self).phase == old(self).phase_after_poll(stop_requested),
            old(self).phase != Phase::Ready ==> step is Idle,
            old(self).phase == Phase::Ready && old(self).processed == old(self).total() ==> {
                &&& final(self).phase == Phase::Finished
                &&& step matches Step::Finished(e)
                &&& e.holds(
                    old(self).thread_id,
                    old(self).total(),
                    old(self).total(),
                    "Finished."@,
                    false,
                )
            },
            old(self).phase == Phase::Ready && old(self).processed < old(self).total()
                && stop_requested ==> {
                &&& final(self).phase == Phase::Stopped
                &&& step matches Step::Stopped(e)
                &&& e.holds(
                    old(self).thread_id,
                    old(self).processed as int,
                    old(self).total(),
                    "Stopped."@,
                    false,
                )
            },
            old(self).phase == Phase::Ready && old(self).processed < old(self).total()
                && !stop_requested ==> {
                &&& final(self).phase == Phase::Running
                &&& step matches Step::Translate(batch)
                &&& batch.start == old(self).position()
                &&& batch.end == old(self).position() + old(self).batch_len()
            },
    {
        let total = self.chunk.end - self.chunk.start;
        match self.phase {
            Phase::Ready => {
                if self.processed == total {
                    self.phase = Phase::Finished;
                    Step::Finished(ProgressEvent::finished(self.thread_id, total))
                } else if stop_requested {
                    self.phase = Phase::Stopped;
                    Step::Stopped(ProgressEvent::stopped(self.thread_id, self.processed, total))
                } else {
                    let left = total - self.processed;
                    let count: usize = if left <= self.batch_size {
                        left
                    } else {
                        self.batch_size
                    };
                    let start = self.chunk.start + self.processed;
                    self.phase = Phase::Running;
                    Step::Translate(Chunk { start, end: start + count })
                }
            },
            _ => Step::Idle,
        }
    }

    /// Takes the translation of the batch that is out: writes it to the
    /// store, line by line at the batch's positions, counts the batch as
    /// dealt with and reports the new count. No line outside the batch
    /// changes.
    pub fn complete(&mut self, store: &mut LineStore, translated: &Vec<String>) -> (e:
        ProgressEvent)
        requires
            old(self).wf(),
            old(self).phase == Phase::Running,
            old(self).chunk.end <= old(store)@.len(),
        ensures
            final(self).wf(),
            final(self).thread_id == old(self).thread_id,
            final(self).chunk == old(self).chunk,
            final(self).batch_size == old(self).batch_size,
            final(self).phase == Phase::Ready,
            final(self).processed == old(self).processed + old(self).batch_len(),
            final(store)@ == with_batch(
                old(store)@,
                old(self).position(),
                written(old(self).batch_len() as nat, texts(translated@)),
            ),
            final(store)@.len() == old(store)@.len(),
            e.holds(
                old(self).thread_id,
                final(self).processed as int,
                old(self).total(),
                Seq::<char>::empty(),
                false,
            ),
    {
        let total = self.chunk.end - self.chunk.start;
        let left = total - self.processed;
        let count: usize = if left <= self.batch_size {
            left
        } else {
            self.batch_size
        };
        store.write_batch(self.chunk.start + self.processed, count, translated);
        self.processed = self.processed + count;
        self.phase = Phase::Ready;
        ProgressEvent::advanced(self.thread_id, self.processed, total)
    }

    /// Takes the outcome of the call for the batch that is out: works out
    /// the lines that come back for the batch as it stands in the store,
    /// writes them, counts the batch as dealt with, and returns what is to
    /// be reported, first the failure of the call, if it failed, then the
    /// new count. Where the call failed the store is left as it was.
    pub fn settle(&mut self, store: &mut LineStore, outcome: &ApiOutcome) -> (r: (
        Option<ProgressEvent>,
        ProgressEvent,
    ))
        requires
            old(self).wf(),
            old(self).phase == Phase::Running,
            old(self).chunk.end <= old(store)@.len(),
        ensures
            final(self).wf(),
            final(self).thread_id == old(self).thread_id,
            final(self).chunk == old(self).chunk,
            final(self).batch_size == old(self).batch_size,
            final(self).phase == Phase::Ready,
            final(self).processed == old(self).processed + old(self).batch_len(),
            final(store)@ == with_batch(
                old(store)@,
                old(self).position(),
                resolved_lines(
                    old(store)@.subrange(
                        old(self).position(),
                        old(self).position() + old(self).batch_len(),
                    ),
                    *outcome,
                ),
            ),
            final(store)@.len() == old(store)@.len(),
            !(*outcome is Answered) ==> final(store)@ == old(store)@,
            match *outcome {
                ApiOutcome::Failed(why) => r.0 matches Some(e) && e.holds(
                    old(self).thread_id,
                    old(self).processed as int,
                    old(self).total(),
                    exception_message(why@),
                    true,
                ),
                ApiOutcome::Rejected(status) => r.0 matches Some(e) && e.holds(
                    old(self).thread_id,
                    old(self).processed as int,
                    old(self).total(),
                    api_error_message(status@),
                    true,
                ),
                ApiOutcome::Answered(_) => r.0 is None,
            },
            r.1.holds(
                old(self).thread_id,
                final(self).processed as int,
                old(self).total(),
                Seq::<char>::empty(),
                false,
            ),
    {
        let total = self.chunk.end - self.chunk.start;
        let left = total - self.processed;
        let count: usize = if left <= self.batch_size {
            left
        } else {
            self.batch_size
        };
        let start = self.chunk.start + self.processed;
        let lines = store.range(start, start + count);
        let resolved = resolve_batch(&lines, outcome, self.thread_id, self.processed, total);
        proof {
            assert(texts(lines@).len() == lines.len());
            assert(texts(resolved.0@).len() == resolved.0.len());
            if !(*outcome is Answered) {
                assert(with_batch(store@, start as int, texts(resolved.0@)) =~= store@);
            }
        }
        let advanced = self.complete(store, &resolved.0);
        (resolved.1, advanced)
    }
}

/// A worker that is through stays through: no poll moves it, whatever the
/// signal, so it hands out no further batch.
pub proof fn lemma_terminal_is_final(w: Worker, stop_requested: bool)
    requires
        w.is_terminal(),
    ensures
        w.phase_after_poll(stop_requested) == w.phase,
{
}

/// Cancellation holds at the next poll: a ready worker with lines left that
/// finds the signal set stops, and a worker never starts a batch while the
/// signal is set.
pub proof fn lemma_cancellation_stops_worker(w: Worker)
    requires
        w.wf(),
    ensures
        w.phase == Phase::Ready && w.processed < w.total() ==> w.phase_after_poll(true)
            == Phase::Stopped,
        w.phase != Phase::Running ==> w.phase_after_poll(true) != Phase::Running,
{
}

/// A worker writes within its chunk: the batch that is out lies between the
/// chunk's first and last line.
pub proof fn lemma_batch_within_chunk(w: Worker)
    requires
        w.wf(),
        w.phase == Phase::Running,
    ensures
        w.chunk.start <= w.position(),
        w.batch_len() > 0,
        w.position() + w.batch_len() <= w.chunk.end,
{
}

} // verus!
