//! Reading an answer that arrives as a stream of server-sent event frames.
//!
//! The answer comes in pieces of bytes. Each piece is read as text, line by
//! line. A line that, trimmed, begins with `data: ` is a frame: what follows
//! is its payload. The payload `[DONE]` ends the stream, and nothing that
//! comes after it counts. Any other payload is a JSON value that may carry a
//! fragment of the answer; one that cannot be read, or carries none, adds
//! nothing.

use vstd::prelude::*;
use vstd::string::StringExecFns;
use crate::json::{delta_content, json_of, parse_value, read_choice_content};
use crate::text::{
    has_prefix, lines_of, rows, same_text, slice, split_lines, starts_with, to_chars, to_string,
    trim, trimmed,
};

verus! {

/// The text that a piece of bytes is read as: what `String::from_utf8_lossy`
/// makes of them.
pub uninterp spec fn lossy_text(bytes: Seq<u8>) -> Seq<char>;

/// `String::from_utf8_lossy`. Trusted: the text is the one that
/// [`lossy_text`] names, which depends on the bytes alone.
#[verifier::external_body]
pub(crate) fn decode_lossy(bytes: &[u8]) -> (text: String)
    ensures
        text@ == lossy_text(bytes@),
{
    String::from_utf8_lossy(bytes).into_owned()
}

/// The payload of the frame that `line` holds, if it holds one.
pub open spec fn payload_of(line: Seq<char>) -> Option<Seq<char>> {
    let t = trimmed(line);
    if has_prefix(t, "data: "@) {
        Some(t.skip("data: "@.len() as int))
    } else {
        None
    }
}

/// The fragment of the answer that a payload carries; empty where the
/// payload is no JSON value or the value has no fragment.
pub open spec fn fragment_of(payload: Seq<char>) -> Seq<char> {
    match json_of(payload) {
        Some(j) => match delta_content(j) {
            Some(fragment) => fragment,
            None => Seq::empty(),
        },
        None => Seq::empty(),
    }
}

/// What has been read of a streamed answer: the text so far, and whether
/// the stream has ended.
pub struct Progress {
    pub text: Seq<char>,
    pub done: bool,
}

/// What has been read after one more line.
pub open spec fn after_line(p: Progress, line: Seq<char>) -> Progress {
    if p.done {
        p
    } else {
        match payload_of(line) {
            Some(payload) => if payload == "[DONE]"@ {
                Progress { text: p.text, done: true }
            } else {
                Progress { text: p.text + fragment_of(payload), done: false }
            },
            None => p,
        }
    }
}

/// What has been read after some more lines, taken in order.
pub open spec fn after_lines(p: Progress, lines: Seq<Seq<char>>) -> Progress
    decreases lines.len(),
{
    if lines.len() == 0 {
        p
    } else {
        after_line(after_lines(p, lines.drop_last()), lines.last())
    }
}

/// Collects the text of a streamed answer.
pub struct StreamDecoder {
    content: String,
    done: bool,
}

impl View for StreamDecoder {
    type V = Progress;

    closed spec fn view(&self) -> Progress {
        Progress { text: self.content@, done: self.done }
    }
}

impl StreamDecoder {
    /// A decoder that has read nothing yet.
    pub fn new() -> (d: StreamDecoder)
        ensures
            d@.text == Seq::<char>::empty(),
            !d@.done,
    {
        StreamDecoder { content: String::new(), done: false }
    }

    /// Whether the stream has ended.
    pub fn is_done(&self) -> (r: bool)
        ensures
            r == self@.done,
    {
        self.done
    }

    /// The text read so far.
    pub fn content(&self) -> (s: &String)
        ensures
            s@ == self@.text,
    {
        &self.content
    }

    /// Reads one line.
    pub fn feed_line(&mut self, line: &Vec<char>)
        ensures
            final(self)@ == after_line(old(self)@, line@),
    {
        if self.done {
            return ;
        }
        let t = trim(line);
        let prefix = to_chars("data: ");
        if !starts_with(&t, &prefix) {
            return ;
        }
        let payload = slice(&t, prefix.len(), t.len());
        assert(payload@ == t@.skip("data: "@.len() as int));
        let sentinel = to_chars("[DONE]");
        if same_text(&payload, &sentinel) {
            self.done = true;
            return ;
        }
        let data = to_string(&payload, 0, payload.len());
        assert(data@ == payload@) by {
            assert(payload@.subrange(0, payload@.len() as int) =~= payload@);
        }
        match parse_value(data.as_str()) {
            Ok(v) => {
                match read_choice_content(&v, "delta") {
                    Some(fragment) => {
                        self.content.append(fragment);
                    },
                    None => {
                        assert(self.content@ + Seq::<char>::empty() =~= self.content@);
                    },
                }
            },
            Err(_) => {
                assert(self.content@ + Seq::<char>::empty() =~= self.content@);
            },
        }
    }

    /// Reads a piece of text, line by line.
    pub fn feed_text(&mut self, piece: &str)
        ensures
            final(self)@ == after_lines(old(self)@, lines_of(piece@)),
    {
        let chars = to_chars(piece);
        let lines = split_lines(&chars);
        let mut i: usize = 0;
        while i < lines.len()
            invariant
                i <= lines.len(),
                self@ == after_lines(old(self)@, rows(lines@).take(i as int)),
            decreases lines.len() - i,
        {
            proof {
                let upto = rows(lines@).take(i + 1);
                assert(upto.drop_last() =~= rows(lines@).take(i as int));
                assert(upto.last() == lines@[i as int]@);
            }
            self.feed_line(&lines[i]);
            i += 1;
        }
        assert(rows(lines@).take(lines.len() as int) =~= rows(lines@));
    }

    /// Reads a piece of bytes as it came from the network.
    pub fn feed(&mut self, piece: &[u8])
        ensures
            final(self)@ == after_lines(old(self)@, lines_of(lossy_text(piece@))),
    {
        let text = decode_lossy(piece);
        self.feed_text(text.as_str());
    }
}

/// Once the stream has ended, nothing that is read changes what was read.
pub proof fn lemma_nothing_after_end(p: Progress, lines: Seq<Seq<char>>)
    requires
        p.done,
    ensures
        after_lines(p, lines) == p,
    decreases lines.len(),
{
    if lines.len() > 0 {
        lemma_nothing_after_end(p, lines.drop_last());
    }
}

} // verus!
