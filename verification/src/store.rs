//! The lines of the file being translated, each at its position.

use vstd::prelude::*;
use vstd::string::StringExecFns;
use crate::text::{
    has_prefix, lines_of, push_char, rows, split_lines, starts_with, texts, to_chars, to_string,
};

verus! {

/// The prefix that marks a first line as a header.
pub open spec fn header_marker() -> Seq<char> {
    seq!['0', ':', ':', ':']
}

/// Whether the first of `lines` is a header: such a line is not translated.
pub open spec fn starts_with_header(lines: Seq<Seq<char>>) -> bool {
    lines.len() > 0 && has_prefix(lines[0], header_marker())
}

/// The position of the first line that is to be translated.
pub open spec fn work_start(lines: Seq<Seq<char>>) -> nat {
    if starts_with_header(lines) {
        1
    } else {
        0
    }
}

/// What a file holds once `lines` are written to it: each line, followed by
/// a line feed.
pub open spec fn rendered(lines: Seq<Seq<char>>) -> Seq<char>
    decreases lines.len(),
{
    if lines.len() == 0 {
        Seq::empty()
    } else {
        rendered(lines.drop_last()) + lines.last() + seq!['\n']
    }
}

/// `lines` after the lines of `batch` have been written at the positions
/// from `start` on: as many lines as before, those positions replaced, all
/// others as they were.
pub open spec fn with_batch(lines: Seq<Seq<char>>, start: int, batch: Seq<Seq<char>>) -> Seq<
    Seq<char>,
> {
    Seq::new(
        lines.len(),
        |i: int|
            if start <= i < start + batch.len() {
                batch[i - start]
            } else {
                lines[i]
            },
    )
}

/// The lines of a batch of `count` lines that are written back, given what
/// the translation returned: one for each line of the batch for which a line
/// was returned.
pub open spec fn written(count: nat, translated: Seq<Seq<char>>) -> Seq<Seq<char>> {
    if translated.len() <= count {
        translated
    } else {
        translated.take(count as int)
    }
}

/// The lines of a file, in file order. The number of lines never changes.
pub struct LineStore {
    lines: Vec<String>,
}

impl View for LineStore {
    type V = Seq<Seq<char>>;

    closed spec fn view(&self) -> Seq<Seq<char>> {
        texts(self.lines@)
    }
}

impl LineStore {
    /// The store of the lines of `content`.
    pub fn from_content(content: &str) -> (store: LineStore)
        ensures
            store@ == lines_of(content@),
    {
        let chars = to_chars(content);
        let parts = split_lines(&chars);
        let mut lines: Vec<String> = Vec::new();
        let mut i: usize = 0;
        while i < parts.len()
            invariant
                i <= parts.len(),
                texts(lines@) == rows(parts@).take(i as int),
            decreases parts.len() - i,
        {
            let part = &parts[i];
            let line = to_string(part, 0, part.len());
            proof {
                assert(part@.subrange(0, part@.len() as int) =~= part@);
                assert(texts(lines@.push(line)) =~= texts(lines@).push(line@));
                assert(rows(parts@).take(i + 1) =~= rows(parts@).take(i as int).push(part@));
            }
            lines.push(line);
            i += 1;
        }
        proof {
            assert(rows(parts@).take(parts.len() as int) =~= rows(parts@));
        }
        LineStore { lines }
    }

    /// The store of the given lines.
    pub fn from_lines(lines: Vec<String>) -> (store: LineStore)
        ensures
            store@ == texts(lines@),
    {
        LineStore { lines }
    }

    /// The number of lines.
    pub fn len(&self) -> (n: usize)
        ensures
            n == self@.len(),
    {
        self.lines.len()
    }

    /// Whether the first line is a header.
    pub fn has_header(&self) -> (r: bool)
        ensures
            r == starts_with_header(self@),
    {
        if self.lines.len() == 0 {
            return false;
        }
        let first = to_chars(self.lines[0].as_str());
        let mut marker: Vec<char> = Vec::new();
        marker.push('0');
        marker.push(':');
        marker.push(':');
        marker.push(':');
        assert(marker@ =~= header_marker());
        starts_with(&first, &marker)
    }

    /// The position of the first line that is to be translated.
    pub fn first_work_line(&self) -> (n: usize)
        ensures
            n == work_start(self@),
    {
        if self.has_header() {
            1
        } else {
            0
        }
    }

    /// The line at position `index`.
    pub fn line(&self, index: usize) -> (text: &String)
        requires
            index < self@.len(),
        ensures
            text@ == self@[index as int],
    {
        &self.lines[index]
    }

    /// Replaces the line at position `index`; every other line stays.
    pub fn write(&mut self, index: usize, text: String)
        requires
            index < old(self)@.len(),
        ensures
            final(self)@ == old(self)@.update(index as int, text@),
    {
        self.lines[index] = text;
        assert(self@ =~= old(self)@.update(index as int, text@));
    }

    /// The lines at the positions `start..end`, in order.
    pub fn range(&self, start: usize, end: usize) -> (batch: Vec<String>)
        requires
            start <= end <= self@.len(),
        ensures
            texts(batch@) == self@.subrange(start as int, end as int),
    {
        let mut batch: Vec<String> = Vec::new();
        let mut i: usize = start;
        while i < end
            invariant
                start <= i <= end <= self@.len(),
                texts(batch@) == self@.subrange(start as int, i as int),
            decreases end - i,
        {
            let line = self.lines[i].clone();
            proof {
                assert(texts(batch@.push(line)) =~= texts(batch@).push(line@));
                assert(self@.subrange(start as int, i + 1) =~= self@.subrange(
                    start as int,
                    i as int,
                ).push(line@));
            }
            batch.push(line);
            i += 1;
        }
        batch
    }

    /// All lines, in file order.
    pub fn serialize(&self) -> (lines: Vec<String>)
        ensures
            texts(lines@) == self@,
    {
        let lines = self.range(0, self.lines.len());
        proof {
            assert(self@.subrange(0, self@.len() as int) =~= self@);
        }
        lines
    }

    /// Writes the translation of a batch of `count` lines that begins at
    /// position `start`. Every line outside the batch stays as it was.
    pub fn write_batch(&mut self, start: usize, count: usize, translated: &Vec<String>)
        requires
            start + count <= old(self)@.len(),
        ensures
            final(self)@ == with_batch(
                old(self)@,
                start as int,
                written(count as nat, texts(translated@)),
            ),
            final(self)@.len() == old(self)@.len(),
    {
        let n: usize = if translated.len() <= count {
            translated.len()
        } else {
            count
        };
        let ghost batch = written(count as nat, texts(translated@));
        let mut i: usize = 0;
        let len = self.lines.len();
        assert(start + count <= len);
        assert(self@ =~= with_batch(self@, start as int, batch.take(0)));
        while i < n
            invariant
                i <= n,
                start + n <= usize::MAX,
                n == batch.len(),
                n <= translated.len(),
                start + n <= self@.len(),
                self@.len() == old(self)@.len(),
                forall|j: int| 0 <= j < n ==> batch[j] == translated@[j]@,
                self@ == with_batch(old(self)@, start as int, batch.take(i as int)),
            decreases n - i,
        {
            self.write(start + i, translated[i].clone());
            i += 1;
            assert(self@ =~= with_batch(old(self)@, start as int, batch.take(i as int)));
        }
        assert(batch.take(n as int) =~= batch);
    }

    /// The text of the file that holds these lines.
    pub fn render(&self) -> (out: String)
        ensures
            out@ == rendered(self@),
    {
        let mut out = String::new();
        let mut i: usize = 0;
        while i < self.lines.len()
            invariant
                i <= self.lines.len(),
                out@ == rendered(self@.take(i as int)),
            decreases self.lines.len() - i,
        {
            proof {
                assert(self@.take(i + 1).drop_last() =~= self@.take(i as int));
            }
            out.append(self.lines[i].as_str());
            push_char(&mut out, '\n');
            i += 1;
            assert(out@ =~= rendered(self@.take(i as int)));
        }
        assert(self@.take(self.lines.len() as int) =~= self@);
        out
    }
}

/// Writing a batch changes no line outside it and never the number of lines.
pub proof fn lemma_write_keeps_others(lines: Seq<Seq<char>>, start: int, batch: Seq<Seq<char>>)
    ensures
        with_batch(lines, start, batch).len() == lines.len(),
        forall|i: int|
            0 <= i < lines.len() && !(start <= i < start + batch.len()) ==> with_batch(
                lines,
                start,
                batch,
            )[i] == lines[i],
{
}

} // verus!
