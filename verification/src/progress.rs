//! What a worker reports to whoever started the run.

use vstd::prelude::*;
use vstd::string::StringExecFns;
use crate::text::to_string;

verus! {

/// A snapshot of one worker's progress.
#[derive(Clone, Debug)]
pub struct ProgressEvent {
    /// The worker's number; the first worker is number 1.
    pub thread_id: usize,
    /// The number of lines that the worker has dealt with.
    pub current: usize,
    /// The number of lines in the worker's chunk.
    pub total: usize,
    /// What happened; empty for plain progress.
    pub message: String,
    /// Whether the message adds to the worker's log or replaces its status.
    pub append: bool,
}

impl ProgressEvent {
    /// Whether the event holds exactly these values.
    pub open spec fn holds(
        &self,
        thread_id: usize,
        current: int,
        total: int,
        message: Seq<char>,
        append: bool,
    ) -> bool {
        &&& self.thread_id == thread_id
        &&& self.current == current
        &&& self.total == total
        &&& self.message@ == message
        &&& self.append == append
    }
}

/// The character that stands for the digit `d`.
pub open spec fn digit(d: nat) -> char {
    if d == 0 {
        '0'
    } else if d == 1 {
        '1'
    } else if d == 2 {
        '2'
    } else if d == 3 {
        '3'
    } else if d == 4 {
        '4'
    } else if d == 5 {
        '5'
    } else if d == 6 {
        '6'
    } else if d == 7 {
        '7'
    } else if d == 8 {
        '8'
    } else {
        '9'
    }
}

/// `n` in decimal notation, without leading zeros.
pub open spec fn decimal(n: nat) -> Seq<char>
    decreases n,
{
    if n < 10 {
        seq![digit(n)]
    } else {
        decimal(n / 10).push(digit(n % 10))
    }
}

/// The character that stands for the digit `d`.
pub fn digit_char(d: usize) -> (c: char)
    requires
        d < 10,
    ensures
        c == digit(d as nat),
{
    match d {
        0 => '0',
        1 => '1',
        2 => '2',
        3 => '3',
        4 => '4',
        5 => '5',
        6 => '6',
        7 => '7',
        8 => '8',
        _ => '9',
    }
}

/// Appends `n` in decimal notation to `out`.
pub fn push_decimal(out: &mut Vec<char>, n: usize)
    ensures
        final(out)@ == old(out)@ + decimal(n as nat),
    decreases n,
{
    if n >= 10 {
        push_decimal(out, n / 10);
    }
    out.push(digit_char(n % 10));
    assert(out@ =~= old(out)@ + decimal(n as nat));
}

/// `n` in decimal notation.
pub fn decimal_string(n: usize) -> (s: String)
    ensures
        s@ == decimal(n as nat),
{
    let mut digits: Vec<char> = Vec::new();
    push_decimal(&mut digits, n);
    assert(digits@.subrange(0, digits@.len() as int) =~= decimal(n as nat));
    to_string(&digits, 0, digits.len())
}

/// What a worker says of its chunk when it starts: the positions of its
/// first and last line.
pub open spec fn ready_message(first: nat, last: nat) -> Seq<char> {
    "Ready. Range: "@ + decimal(first) + "-"@ + decimal(last)
}

/// What is reported when the endpoint answers with a status that is not a
/// success.
pub open spec fn api_error_message(status: Seq<char>) -> Seq<char> {
    "API Error: "@ + status
}

/// What is reported when the request could not be carried out.
pub open spec fn exception_message(failure: Seq<char>) -> Seq<char> {
    "Exception: "@ + failure
}

impl ProgressEvent {
    /// The report of a worker that is about to start on lines `first` to
    /// `last`.
    pub fn ready(thread_id: usize, total: usize, first: usize, last: usize) -> (e: ProgressEvent)
        ensures
            e.thread_id == thread_id,
            e.current == 0,
            e.total == total,
            e.message@ == ready_message(first as nat, last as nat),
            !e.append,
    {
        let mut message = "Ready. Range: ".to_owned();
        message.append(decimal_string(first).as_str());
        message.append("-");
        message.append(decimal_string(last).as_str());
        ProgressEvent { thread_id, current: 0, total, message, append: false }
    }

    /// The report of a worker that has dealt with `current` of its lines.
    pub fn advanced(thread_id: usize, current: usize, total: usize) -> (e: ProgressEvent)
        ensures
            e.thread_id == thread_id,
            e.current == current,
            e.total == total,
            e.message@ == Seq::<char>::empty(),
            !e.append,
    {
        ProgressEvent { thread_id, current, total, message: String::new(), append: false }
    }

    /// The report of a worker that found the run cancelled.
    pub fn stopped(thread_id: usize, current: usize, total: usize) -> (e: ProgressEvent)
        ensures
            e.thread_id == thread_id,
            e.current == current,
            e.total == total,
            e.message@ == "Stopped."@,
            !e.append,
    {
        ProgressEvent { thread_id, current, total, message: "Stopped.".to_owned(), append: false }
    }

    /// The report of a worker that has dealt with all its lines.
    pub fn finished(thread_id: usize, total: usize) -> (e: ProgressEvent)
        ensures
            e.thread_id == thread_id,
            e.current == total,
            e.total == total,
            e.message@ == "Finished."@,
            !e.append,
    {
        ProgressEvent {
            thread_id,
            current: total,
            total,
            message: "Finished.".to_owned(),
            append: false,
        }
    }

    /// The report of an answer whose status is not a success.
    pub fn api_error(thread_id: usize, current: usize, total: usize, status: &str) -> (e:
        ProgressEvent)
        ensures
            e.thread_id == thread_id,
            e.current == current,
            e.total == total,
            e.message@ == api_error_message(status@),
            e.append,
    {
        let mut message = "API Error: ".to_owned();
        message.append(status);
        ProgressEvent { thread_id, current, total, message, append: true }
    }

    /// The report of a request that could not be carried out.
    pub fn exception(thread_id: usize, current: usize, total: usize, failure: &str) -> (e:
        ProgressEvent)
        ensures
            e.thread_id == thread_id,
            e.current == current,
            e.total == total,
            e.message@ == exception_message(failure@),
            e.append,
    {
        let mut message = "Exception: ".to_owned();
        message.append(failure);
        ProgressEvent { thread_id, current, total, message, append: true }
    }
}

} // verus!
