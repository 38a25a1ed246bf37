//! Reading the model's answer and putting a batch back together.
//!
//! An answer is text, one `identifier:::translation` per line. Whatever it
//! holds, a batch comes back with as many lines as went in, in the same
//! order: a line whose identifier was answered carries the translation, and
//! every other line comes back as it was.

use vstd::prelude::*;
use crate::text::{
    append_chars, find, lemma_absent_in_pieces, lemma_absent_in_trimmed, rows, same_text, slice,
    split, split_at_first, split_on, split_once, texts, to_chars, to_string, trim, trimmed,
};

verus! {

/// The three colons that part an identifier from its text.
pub open spec fn delimiter() -> Seq<char> {
    seq![':', ':', ':']
}

/// The answers that `pieces` hold, by identifier. A piece without the
/// delimiter holds none; identifier and translation are trimmed; of two
/// pieces with one identifier the later one counts.
pub open spec fn answers_in(pieces: Seq<Seq<char>>) -> Map<Seq<char>, Seq<char>>
    decreases pieces.len(),
{
    if pieces.len() == 0 {
        Map::empty()
    } else {
        let earlier = answers_in(pieces.drop_last());
        match split_at_first(pieces.last(), delimiter()) {
            Some((id, translation)) => earlier.insert(trimmed(id), trimmed(translation)),
            None => earlier,
        }
    }
}

/// The answers that the text of a reply holds: it is trimmed, cut into
/// lines at each line feed, and read line by line.
pub open spec fn answers_of(content: Seq<char>) -> Map<Seq<char>, Seq<char>> {
    answers_in(split_on(trimmed(content), '\n'))
}

/// The line that goes out for `line`, given the answers: its trimmed
/// identifier, the delimiter and the translation where the identifier was
/// answered, and `line` itself where it was not or where it has no
/// identifier.
pub open spec fn translated_line(line: Seq<char>, answers: Map<Seq<char>, Seq<char>>) -> Seq<
    char,
> {
    match split_at_first(line, delimiter()) {
        Some((id, _)) => if answers.contains_key(trimmed(id)) {
            trimmed(id) + delimiter() + answers[trimmed(id)]
        } else {
            line
        },
        None => line,
    }
}

/// The batch that goes out for `lines`, given the answers: line by line.
pub open spec fn translated_batch(lines: Seq<Seq<char>>, answers: Map<Seq<char>, Seq<char>>) -> Seq<
    Seq<char>,
> {
    Seq::new(lines.len(), |i: int| translated_line(lines[i], answers))
}

/// The answers of a reply, in the order in which they were read.
pub struct ReplyTable {
    entries: Vec<(Vec<char>, Vec<char>)>,
}

/// The map that a list of entries stands for: a later entry replaces an
/// earlier one with the same identifier.
pub open spec fn map_of(entries: Seq<(Vec<char>, Vec<char>)>) -> Map<Seq<char>, Seq<char>>
    decreases entries.len(),
{
    if entries.len() == 0 {
        Map::empty()
    } else {
        map_of(entries.drop_last()).insert(entries.last().0@, entries.last().1@)
    }
}

impl View for ReplyTable {
    type V = Map<Seq<char>, Seq<char>>;

    closed spec fn view(&self) -> Map<Seq<char>, Seq<char>> {
        map_of(self.entries@)
    }
}

/// The delimiter, as characters.
pub fn delimiter_chars() -> (d: Vec<char>)
    ensures
        d@ == delimiter(),
{
    let mut d: Vec<char> = Vec::new();
    d.push(':');
    d.push(':');
    d.push(':');
    assert(d@ =~= delimiter());
    d
}

impl ReplyTable {
    /// Reads the text of a reply.
    pub fn parse(content: &str) -> (table: ReplyTable)
        ensures
            table@ == answers_of(content@),
    {
        let chars = to_chars(content);
        let body = trim(&chars);
        let pieces = split(&body, '\n');
        let delim = delimiter_chars();
        let mut entries: Vec<(Vec<char>, Vec<char>)> = Vec::new();
        let mut i: usize = 0;
        while i < pieces.len()
            invariant
                i <= pieces.len(),
                delim@ == delimiter(),
                map_of(entries@) == answers_in(rows(pieces@).take(i as int)),
            decreases pieces.len() - i,
        {
            proof {
                let upto = rows(pieces@).take(i + 1);
                assert(upto.drop_last() =~= rows(pieces@).take(i as int));
                assert(upto.last() == pieces@[i as int]@);
            }
            match split_once(&pieces[i], &delim) {
                Some((id, translation)) => {
                    let entry = (trim(&id), trim(&translation));
                    proof {
                        assert(entries@.push(entry).drop_last() =~= entries@);
                    }
                    entries.push(entry);
                },
                None => {},
            }
            i += 1;
        }
        proof {
            assert(rows(pieces@).take(pieces.len() as int) =~= rows(pieces@));
        }
        ReplyTable { entries }
    }

    /// The translation that the reply gives for `id`, if it gives one.
    pub fn get(&self, id: &Vec<char>) -> (r: Option<Vec<char>>)
        ensures
            match r {
                Some(translation) => self@.contains_key(id@) && self@[id@] == translation@,
                None => !self@.contains_key(id@),
            },
    {
        let mut i: usize = self.entries.len();
        proof {
            assert(self.entries@.take(i as int) =~= self.entries@);
        }
        while i > 0
            invariant
                i <= self.entries.len(),
                map_of(self.entries@).contains_key(id@) == map_of(
                    self.entries@.take(i as int),
                ).contains_key(id@),
                map_of(self.entries@).contains_key(id@) ==> map_of(self.entries@)[id@] == map_of(
                    self.entries@.take(i as int),
                )[id@],
            decreases i,
        {
            proof {
                let upto = self.entries@.take(i as int);
                assert(upto.drop_last() =~= self.entries@.take(i - 1));
                assert(upto.last() == self.entries@[i - 1]);
            }
            i -= 1;
            if same_text(&self.entries[i].0, id) {
                let found = &self.entries[i].1;
                return Some(slice(found, 0, found.len()));
            }
        }
        None
    }

    /// The line that goes out for `line`.
    pub fn apply(&self, line: &String) -> (out: String)
        ensures
            out@ == translated_line(line@, self@),
    {
        let chars = to_chars(line.as_str());
        let delim = delimiter_chars();
        match split_once(&chars, &delim) {
            Some((id, _)) => {
                let key = trim(&id);
                match self.get(&key) {
                    Some(translation) => {
                        let mut text = key;
                        append_chars(&mut text, &delim);
                        append_chars(&mut text, &translation);
                        let out = to_string(&text, 0, text.len());
                        proof {
                            assert(text@.subrange(0, text@.len() as int) =~= text@);
                        }
                        out
                    },
                    None => line.clone(),
                }
            },
            None => line.clone(),
        }
    }
}

/// Puts a batch back together from the text of the model's reply: one line
/// out for each line in, in the same order.
pub fn reassemble(lines: &Vec<String>, content: &str) -> (out: Vec<String>)
    ensures
        out.len() == lines.len(),
        texts(out@) == translated_batch(texts(lines@), answers_of(content@)),
{
    let table = ReplyTable::parse(content);
    let mut out: Vec<String> = Vec::new();
    let mut i: usize = 0;
    while i < lines.len()
        invariant
            i <= lines.len(),
            out.len() == i,
            table@ == answers_of(content@),
            forall|j: int| 0 <= j < i ==> out@[j]@ == translated_line(lines@[j]@, table@),
        decreases lines.len() - i,
    {
        let line = table.apply(&lines[i]);
        out.push(line);
        i += 1;
    }
    assert(texts(out@) =~= translated_batch(texts(lines@), answers_of(content@)));
    out
}

/// A batch comes back with as many lines as went in, whatever was answered.
pub proof fn lemma_batch_keeps_count(lines: Seq<Seq<char>>, answers: Map<Seq<char>, Seq<char>>)
    ensures
        translated_batch(lines, answers).len() == lines.len(),
{
}

/// Order is kept: what goes out at a position depends on the line that came
/// in at that position and on the answers, and on no other line.
pub proof fn lemma_batch_keeps_order(
    lines: Seq<Seq<char>>,
    answers: Map<Seq<char>, Seq<char>>,
    i: int,
)
    requires
        0 <= i < lines.len(),
    ensures
        translated_batch(lines, answers)[i] == translated_line(lines[i], answers),
        split_at_first(lines[i], delimiter()) is None ==> translated_batch(lines, answers)[i]
            == lines[i],
        split_at_first(lines[i], delimiter()) matches Some(parts) ==> {
            let id = trimmed(parts.0);
            translated_batch(lines, answers)[i] == (if answers.contains_key(id) {
                id + delimiter() + answers[id]
            } else {
                lines[i]
            })
        },
{
}

/// An empty reply changes nothing: the batch comes back as it went in.
pub proof fn lemma_no_answers_no_change(lines: Seq<Seq<char>>)
    ensures
        translated_batch(lines, Map::empty()) == lines,
{
    assert(translated_batch(lines, Map::empty()) =~= lines);
}

/// A reply that omits identifiers leaves those lines as they were.
pub proof fn lemma_omitted_line_kept(line: Seq<char>, answers: Map<Seq<char>, Seq<char>>)
    requires
        split_at_first(line, delimiter()) matches Some(parts) ==> !answers.contains_key(
            trimmed(parts.0),
        ),
    ensures
        translated_line(line, answers) == line,
{
}

/// An answer to an identifier that no line of the batch carries is ignored:
/// the batch comes back as it would without that answer.
pub proof fn lemma_unknown_answer_ignored(
    lines: Seq<Seq<char>>,
    answers: Map<Seq<char>, Seq<char>>,
    id: Seq<char>,
)
    requires
        forall|i: int|
            0 <= i < lines.len() ==> (#[trigger] split_at_first(lines[i], delimiter()) matches Some(
                parts,
            ) ==> trimmed(parts.0) != id),
    ensures
        translated_batch(lines, answers.remove(id)) == translated_batch(lines, answers),
{
    assert forall|i: int| 0 <= i < lines.len() implies translated_line(
        lines[i],
        answers.remove(id),
    ) == translated_line(lines[i], answers) by {
        assert(split_at_first(lines[i], delimiter()) matches Some(parts) ==> trimmed(parts.0)
            != id);
    }
    assert(translated_batch(lines, answers.remove(id)) =~= translated_batch(lines, answers));
}

/// Of two answers to one identifier the later one counts: the last piece
/// that carries an identifier decides its translation.
pub proof fn lemma_later_answer_wins(earlier: Seq<Seq<char>>, last: Seq<char>)
    requires
        split_at_first(last, delimiter()) is Some,
    ensures
        ({
            let parts = split_at_first(last, delimiter())->0;
            let answers = answers_in(earlier.push(last));
            answers.contains_key(trimmed(parts.0)) && answers[trimmed(parts.0)] == trimmed(parts.1)
        }),
{
    assert(earlier.push(last).drop_last() =~= earlier);
}

/// A reply none of whose lines holds the delimiter answers nothing.
pub proof fn lemma_unstructured_reply_answers_nothing(pieces: Seq<Seq<char>>)
    requires
        forall|i: int| 0 <= i < pieces.len() ==> split_at_first(pieces[i], delimiter()) is None,
    ensures
        answers_in(pieces) == Map::<Seq<char>, Seq<char>>::empty(),
    decreases pieces.len(),
{
    if pieces.len() > 0 {
        lemma_unstructured_reply_answers_nothing(pieces.drop_last());
    }
}

/// A reply that holds the delimiter nowhere changes nothing: whatever else
/// it holds, the batch comes back as it went in.
pub proof fn lemma_reply_without_delimiter(lines: Seq<Seq<char>>, content: Seq<char>)
    requires
        find(content, delimiter()) is None,
    ensures
        answers_of(content) == Map::<Seq<char>, Seq<char>>::empty(),
        translated_batch(lines, answers_of(content)) == lines,
{
    lemma_absent_in_trimmed(content, delimiter());
    lemma_absent_in_pieces(trimmed(content), '\n', delimiter());
    lemma_unstructured_reply_answers_nothing(split_on(trimmed(content), '\n'));
    lemma_no_answers_no_change(lines);
}

} // verus!
