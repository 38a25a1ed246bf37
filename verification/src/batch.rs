//! The translation of one batch, given how the call to the endpoint ended.
//!
//! Whatever the endpoint did, a batch comes back with one line for each
//! line that went in. Where the call failed, the lines come back as they
//! were and the failure is reported; nothing is tried again.

use vstd::prelude::*;
use crate::progress::{api_error_message, exception_message, ProgressEvent};
use crate::reply::{answers_of, reassemble, translated_batch};
use crate::text::texts;

verus! {

/// How a call to the endpoint ended.
#[derive(Clone, Debug)]
pub enum ApiOutcome {
    /// The request could not be carried out; the text says why.
    Failed(String),
    /// The endpoint answered with a status that is not a success; the text
    /// is that status.
    Rejected(String),
    /// The endpoint answered; the text is the content of its answer.
    Answered(String),
}

/// The lines that come back for `lines`, given how the call ended.
pub open spec fn resolved_lines(lines: Seq<Seq<char>>, outcome: ApiOutcome) -> Seq<Seq<char>> {
    match outcome {
        ApiOutcome::Answered(content) => translated_batch(lines, answers_of(content@)),
        _ => lines,
    }
}

/// A copy of `lines`.
pub fn copy_lines(lines: &Vec<String>) -> (out: Vec<String>)
    ensures
        texts(out@) == texts(lines@),
{
    let mut out: Vec<String> = Vec::new();
    let mut i: usize = 0;
    while i < lines.len()
        invariant
            i <= lines.len(),
            out.len() == i,
            forall|j: int| 0 <= j < i ==> out@[j]@ == lines@[j]@,
        decreases lines.len() - i,
    {
        out.push(lines[i].clone());
        i += 1;
    }
    assert(texts(out@) =~= texts(lines@));
    out
}

/// The lines that come back for a batch, and what is reported of the call:
/// nothing where the endpoint answered, an error event where it did not.
/// `current` and `total` say how far the worker `thread_id` is; they go into
/// the event.
pub fn resolve_batch(
    lines: &Vec<String>,
    outcome: &ApiOutcome,
    thread_id: usize,
    current: usize,
    total: usize,
) -> (r: (Vec<String>, Option<ProgressEvent>))
    ensures
        r.0.len() == lines.len(),
        texts(r.0@) == resolved_lines(texts(lines@), *outcome),
        match *outcome {
            ApiOutcome::Failed(why) => r.1 matches Some(e) && e.holds(
                thread_id,
                current as int,
                total as int,
                exception_message(why@),
                true,
            ),
            ApiOutcome::Rejected(status) => r.1 matches Some(e) && e.holds(
                thread_id,
                current as int,
                total as int,
                api_error_message(status@),
                true,
            ),
            ApiOutcome::Answered(_) => r.1 is None,
        },
{
    match outcome {
        ApiOutcome::Failed(why) => {
            let out = copy_lines(lines);
            assert(out.len() == texts(out@).len());
            (out, Some(ProgressEvent::exception(thread_id, current, total, why.as_str())))
        },
        ApiOutcome::Rejected(status) => {
            let out = copy_lines(lines);
            assert(out.len() == texts(out@).len());
            (out, Some(ProgressEvent::api_error(thread_id, current, total, status.as_str())))
        },
        ApiOutcome::Answered(content) => (reassemble(lines, content.as_str()), None),
    }
}

/// A call that fails leaves every line of the batch as it was.
pub proof fn lemma_failure_keeps_batch(lines: Seq<Seq<char>>, outcome: ApiOutcome)
    requires
        !(outcome is Answered),
    ensures
        resolved_lines(lines, outcome) == lines,
{
}

/// However the call ended, as many lines come back as went in.
pub proof fn lemma_resolved_count(lines: Seq<Seq<char>>, outcome: ApiOutcome)
    ensures
        resolved_lines(lines, outcome).len() == lines.len(),
{
}

} // verus!
