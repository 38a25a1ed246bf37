//! Character-level text primitives: searching, splitting and trimming,
//! each stated over the sequence of characters that a string denotes.

use vstd::prelude::*;

verus! {

/// Whether `c` counts as white space when text is trimmed: exactly what
/// `char::is_whitespace` answers for `c`.
pub uninterp spec fn is_whitespace(c: char) -> bool;

/// `char::is_whitespace`. Trusted: the answer is the one that
/// [`is_whitespace`] names, which depends on the character alone.
#[verifier::external_body]
pub(crate) fn char_is_whitespace(c: char) -> (r: bool)
    ensures
        r == is_whitespace(c),
{
    c.is_whitespace()
}

/// `String::push`. Trusted: the character is appended and nothing else
/// changes.
#[verifier::external_body]
pub(crate) fn push_char(s: &mut String, c: char)
    ensures
        final(s)@ == old(s)@.push(c),
{
    s.push(c)
}

/// The characters of `s`, in order.
pub fn to_chars(s: &str) -> (v: Vec<char>)
    ensures
        v@ == s@,
{
    let mut v: Vec<char> = Vec::new();
    for c in it: s.chars()
        invariant
            it.seq() == s@,
            v@ == s@.take(it.index() as int),
    {
        v.push(c);
    }
    v
}

/// The string made of the characters `v[from..to]`.
pub fn to_string(v: &Vec<char>, from: usize, to: usize) -> (s: String)
    requires
        from <= to <= v.len(),
    ensures
        s@ == v@.subrange(from as int, to as int),
{
    let mut s = String::new();
    let mut i: usize = from;
    while i < to
        invariant
            from <= i <= to <= v.len(),
            s@ == v@.subrange(from as int, i as int),
        decreases to - i,
    {
        push_char(&mut s, v[i]);
        i += 1;
        assert(s@ =~= v@.subrange(from as int, i as int));
    }
    s
}

/// `pat` occurs in `s` at position `i`.
pub open spec fn matches_at(s: Seq<char>, pat: Seq<char>, i: int) -> bool {
    &&& 0 <= i
    &&& i + pat.len() <= s.len()
    &&& s.subrange(i, i + pat.len()) == pat
}

/// The least position at or after `i` where `pat` occurs in `s`.
pub open spec fn find_from(s: Seq<char>, pat: Seq<char>, i: int) -> Option<int>
    decreases s.len() + 1 - i,
{
    if i < 0 || i + pat.len() > s.len() {
        None
    } else if matches_at(s, pat, i) {
        Some(i)
    } else {
        find_from(s, pat, i + 1)
    }
}

/// The least position where `pat` occurs in `s`.
pub open spec fn find(s: Seq<char>, pat: Seq<char>) -> Option<int> {
    find_from(s, pat, 0)
}

/// [`find_from`] returns the least occurrence at or after its start, and
/// `None` exactly when there is none.
pub proof fn lemma_find_from(s: Seq<char>, pat: Seq<char>, i: int)
    requires
        0 <= i,
    ensures
        match find_from(s, pat, i) {
            Some(k) => i <= k && matches_at(s, pat, k) && forall|j: int|
                i <= j < k ==> !matches_at(s, pat, j),
            None => forall|j: int| i <= j ==> !matches_at(s, pat, j),
        },
    decreases s.len() + 1 - i,
{
    if i + pat.len() > s.len() {
    } else if matches_at(s, pat, i) {
    } else {
        lemma_find_from(s, pat, i + 1);
    }
}

/// Whether `pat` occurs in `s` at position `i`.
pub fn occurs_at(s: &Vec<char>, pat: &Vec<char>, i: usize) -> (r: bool)
    ensures
        r == matches_at(s@, pat@, i as int),
{
    if pat.len() > s.len() || i > s.len() - pat.len() {
        return false;
    }
    let mut k: usize = 0;
    while k < pat.len()
        invariant
            k <= pat.len(),
            i + pat.len() <= s.len(),
            forall|j: int| 0 <= j < k ==> s@[i + j] == pat@[j],
        decreases pat.len() - k,
    {
        if s[i + k] != pat[k] {
            assert(s@.subrange(i as int, i + pat.len())[k as int] == s@[i + k]);
            return false;
        }
        k += 1;
    }
    assert(s@.subrange(i as int, i + pat.len()) =~= pat@);
    true
}

/// The least position at or after `from` where `pat` occurs in `s`.
pub fn find_in(s: &Vec<char>, pat: &Vec<char>, from: usize) -> (r: Option<usize>)
    ensures
        match r {
            Some(k) => find_from(s@, pat@, from as int) == Some(k as int),
            None => find_from(s@, pat@, from as int) is None,
        },
{
    let mut i: usize = from;
    while i <= s.len() && pat.len() <= s.len() - i
        invariant
            from <= i,
            find_from(s@, pat@, from as int) == find_from(s@, pat@, i as int),
        decreases s.len() - i,
    {
        if occurs_at(s, pat, i) {
            return Some(i);
        }
        assert(i < s.len()) by {
            if i == s.len() {
                assert(s@.subrange(i as int, i + pat.len()) =~= pat@);
            }
        }
        i += 1;
    }
    None
}

/// A copy of the characters `v[from..to]`.
pub fn slice(v: &Vec<char>, from: usize, to: usize) -> (r: Vec<char>)
    requires
        from <= to <= v.len(),
    ensures
        r@ == v@.subrange(from as int, to as int),
{
    let mut r: Vec<char> = Vec::new();
    let mut i: usize = from;
    while i < to
        invariant
            from <= i <= to <= v.len(),
            r@ == v@.subrange(from as int, i as int),
        decreases to - i,
    {
        r.push(v[i]);
        i += 1;
        assert(r@ =~= v@.subrange(from as int, i as int));
    }
    r
}

/// What stands before and after the first occurrence of `pat` in `s`, or
/// `None` where `pat` does not occur.
pub open spec fn split_at_first(s: Seq<char>, pat: Seq<char>) -> Option<(Seq<char>, Seq<char>)> {
    match find(s, pat) {
        Some(i) => Some((s.take(i), s.skip(i + pat.len()))),
        None => None,
    }
}

/// Splits `s` at the first occurrence of `pat`.
pub fn split_once(s: &Vec<char>, pat: &Vec<char>) -> (r: Option<(Vec<char>, Vec<char>)>)
    ensures
        match r {
            Some((head, tail)) => split_at_first(s@, pat@) == Some((head@, tail@)),
            None => split_at_first(s@, pat@) is None,
        },
{
    match find_in(s, pat, 0) {
        Some(i) => {
            proof {
                lemma_find_from(s@, pat@, 0);
            }
            assert(matches_at(s@, pat@, i as int));
            let head = slice(s, 0, i);
            let tail = slice(s, i + pat.len(), s.len());
            Some((head, tail))
        },
        None => None,
    }
}

/// `s` begins with `pat`.
pub open spec fn has_prefix(s: Seq<char>, pat: Seq<char>) -> bool {
    matches_at(s, pat, 0)
}

/// Whether `s` begins with `pat`.
pub fn starts_with(s: &Vec<char>, pat: &Vec<char>) -> (r: bool)
    ensures
        r == has_prefix(s@, pat@),
{
    occurs_at(s, pat, 0)
}

/// The number of white-space characters at the start of `s`.
pub open spec fn leading_space(s: Seq<char>) -> nat
    decreases s.len(),
{
    if s.len() > 0 && is_whitespace(s[0]) {
        1 + leading_space(s.skip(1))
    } else {
        0
    }
}

/// The number of white-space characters at the end of `s`.
pub open spec fn trailing_space(s: Seq<char>) -> nat
    decreases s.len(),
{
    if s.len() > 0 && is_whitespace(s.last()) {
        1 + trailing_space(s.drop_last())
    } else {
        0
    }
}

/// `s` without the white space at its start and at its end.
pub open spec fn trimmed(s: Seq<char>) -> Seq<char> {
    let rest = s.skip(leading_space(s) as int);
    rest.take(rest.len() - trailing_space(rest))
}

/// [`leading_space`] counts a run of white space that the first other
/// character, or the end of the text, closes.
pub proof fn lemma_leading_space(s: Seq<char>, n: int)
    requires
        0 <= n <= s.len(),
        forall|j: int| 0 <= j < n ==> is_whitespace(s[j]),
        n < s.len() ==> !is_whitespace(s[n]),
    ensures
        leading_space(s) == n,
    decreases n,
{
    if n > 0 {
        lemma_leading_space(s.skip(1), n - 1);
    }
}

/// [`trailing_space`] counts a run of white space that the last other
/// character, or the start of the text, opens.
pub proof fn lemma_trailing_space(s: Seq<char>, n: int)
    requires
        0 <= n <= s.len(),
        forall|j: int| s.len() - n <= j < s.len() ==> is_whitespace(s[j]),
        n < s.len() ==> !is_whitespace(s[s.len() - n - 1]),
    ensures
        trailing_space(s) == n,
    decreases n,
{
    if n > 0 {
        lemma_trailing_space(s.drop_last(), n - 1);
    }
}

/// Removes the white space at both ends of `s`.
pub fn trim(s: &Vec<char>) -> (r: Vec<char>)
    ensures
        r@ == trimmed(s@),
{
    let mut start: usize = 0;
    while start < s.len() && char_is_whitespace(s[start])
        invariant
            start <= s.len(),
            forall|j: int| 0 <= j < start ==> is_whitespace(s@[j]),
        decreases s.len() - start,
    {
        start += 1;
    }
    let mut end: usize = s.len();
    while end > start && char_is_whitespace(s[end - 1])
        invariant
            start <= end <= s.len(),
            forall|j: int| end <= j < s.len() ==> is_whitespace(s@[j]),
        decreases end,
    {
        end -= 1;
    }
    proof {
        lemma_leading_space(s@, start as int);
        let rest = s@.skip(start as int);
        lemma_trailing_space(rest, s.len() - end);
        assert(rest.take(rest.len() - (s.len() - end)) =~= s@.subrange(start as int, end as int));
    }
    slice(s, start, end)
}

/// What each of the character vectors in `v` denotes.
pub open spec fn rows(v: Seq<Vec<char>>) -> Seq<Seq<char>> {
    Seq::new(v.len(), |i: int| v[i]@)
}

/// What each of the strings in `v` denotes.
pub open spec fn texts(v: Seq<String>) -> Seq<Seq<char>> {
    Seq::new(v.len(), |i: int| v[i]@)
}

/// The pieces into which the occurrences of `c` cut `s`: one more than
/// there are occurrences, empty pieces included.
pub open spec fn split_on(s: Seq<char>, c: char) -> Seq<Seq<char>>
    decreases s.len(),
{
    match find(s, seq![c]) {
        Some(i) if 0 <= i < s.len() => seq![s.take(i)] + split_on(s.skip(i + 1), c),
        _ => seq![s],
    }
}

/// Where the first `c` of `s` stands at `k` (or, with `k` the length of
/// `s`, nowhere), [`find`] says so.
pub proof fn lemma_find_char(s: Seq<char>, c: char, k: int)
    requires
        0 <= k <= s.len(),
        forall|j: int| 0 <= j < k ==> s[j] != c,
        k < s.len() ==> s[k] == c,
    ensures
        find(s, seq![c]) == (if k < s.len() {
            Some(k)
        } else {
            None
        }),
{
    let pat = seq![c];
    lemma_find_from(s, pat, 0);
    if k < s.len() {
        assert(s.subrange(k, k + 1) =~= pat);
        assert(matches_at(s, pat, k));
    }
    match find(s, pat) {
        Some(r) => {
            assert(matches_at(s, pat, r));
            assert(s.subrange(r, r + 1)[0] == s[r]);
        },
        None => {},
    }
}

/// Cuts `s` at every occurrence of `c`.
pub fn split(s: &Vec<char>, c: char) -> (r: Vec<Vec<char>>)
    ensures
        rows(r@) == split_on(s@, c),
{
    let mut r: Vec<Vec<char>> = Vec::new();
    let mut start: usize = 0;
    let mut i: usize = 0;
    proof {
        assert(s@.skip(0) =~= s@);
        assert(rows(r@) + split_on(s@, c) =~= split_on(s@, c));
    }
    while i < s.len()
        invariant
            start <= i <= s.len(),
            forall|j: int| start <= j < i ==> s@[j] != c,
            rows(r@) + split_on(s@.skip(start as int), c) == split_on(s@, c),
        decreases s.len() - i,
    {
        if s[i] == c {
            let piece = slice(s, start, i);
            proof {
                let rest = s@.skip(start as int);
                lemma_find_char(rest, c, i - start);
                assert(rest.take(i - start) =~= piece@);
                assert(rest.skip(i - start + 1) =~= s@.skip(i + 1));
                assert(rows(r@.push(piece)) =~= rows(r@) + seq![piece@]);
                assert(rows(r@) + (seq![piece@] + split_on(s@.skip(i + 1), c)) =~= rows(r@) + seq![
                    piece@,
                ] + split_on(s@.skip(i + 1), c));
            }
            r.push(piece);
            start = i + 1;
        }
        i += 1;
    }
    let piece = slice(s, start, s.len());
    proof {
        let rest = s@.skip(start as int);
        lemma_find_char(rest, c, rest.len() as int);
        assert(rest =~= piece@);
        assert(rows(r@.push(piece)) =~= rows(r@) + seq![piece@]);
    }
    r.push(piece);
    r
}

/// `s` without one carriage return at its end, if it has one.
pub open spec fn strip_cr(s: Seq<char>) -> Seq<char> {
    if s.len() > 0 && s.last() == '\r' {
        s.drop_last()
    } else {
        s
    }
}

/// The lines of a text. A line ends with a line feed, or with a carriage
/// return and a line feed, neither of which belongs to it; what follows the
/// last line feed is a line too, as it stands, unless it is empty.
pub open spec fn lines_of(s: Seq<char>) -> Seq<Seq<char>> {
    let pieces = split_on(s, '\n');
    let closed = pieces.drop_last().map_values(|l: Seq<char>| strip_cr(l));
    if pieces.last().len() == 0 {
        closed
    } else {
        closed.push(pieces.last())
    }
}

/// [`split_on`] always yields at least one piece.
pub proof fn lemma_split_on_nonempty(s: Seq<char>, c: char)
    ensures
        split_on(s, c).len() >= 1,
    decreases s.len(),
{
    match find(s, seq![c]) {
        Some(i) if 0 <= i < s.len() => {
            lemma_split_on_nonempty(s.skip(i + 1), c);
        },
        _ => {},
    }
}

/// The lines of `s`.
pub fn split_lines(s: &Vec<char>) -> (r: Vec<Vec<char>>)
    ensures
        rows(r@) == lines_of(s@),
{
    let mut pieces = split(s, '\n');
    proof {
        lemma_split_on_nonempty(s@, '\n');
        assert(rows(pieces@).len() == pieces@.len());
    }
    let ghost all = split_on(s@, '\n');
    let ghost whole = pieces@;
    let last = pieces.pop().unwrap();
    assert(last@ == all.last()) by {
        assert(rows(whole)[all.len() - 1] == all.last());
    }
    assert forall|j: int| 0 <= j < pieces.len() implies pieces@[j]@ == all[j] by {
        assert(rows(whole)[j] == all[j]);
    }
    let mut r: Vec<Vec<char>> = Vec::new();
    let mut i: usize = 0;
    while i < pieces.len()
        invariant
            i <= pieces.len(),
            pieces.len() == all.len() - 1,
            forall|j: int| 0 <= j < pieces.len() ==> pieces@[j]@ == all[j],
            rows(r@) == all.drop_last().map_values(|l: Seq<char>| strip_cr(l)).take(i as int),
        decreases pieces.len() - i,
    {
        let piece = &pieces[i];
        let n = piece.len();
        let line = if n > 0 && piece[n - 1] == '\r' {
            slice(piece, 0, n - 1)
        } else {
            slice(piece, 0, n)
        };
        proof {
            let closed = all.drop_last().map_values(|l: Seq<char>| strip_cr(l));
            assert(piece@.subrange(0, n as int) =~= piece@);
            if n > 0 {
                assert(piece@.subrange(0, n - 1) =~= piece@.drop_last());
            }
            assert(line@ == strip_cr(all[i as int]));
            assert(closed[i as int] == strip_cr(all.drop_last()[i as int]));
            assert(closed.take(i + 1) =~= closed.take(i as int).push(closed[i as int]));
            assert(rows(r@.push(line)) =~= rows(r@).push(line@));
        }
        r.push(line);
        i += 1;
    }
    proof {
        let closed = all.drop_last().map_values(|l: Seq<char>| strip_cr(l));
        assert(closed.take(i as int) =~= closed);
    }
    if last.len() > 0 {
        proof {
            assert(rows(r@.push(last)) =~= rows(r@).push(last@));
        }
        r.push(last);
    }
    r
}

/// Whether two character vectors hold the same text.
pub fn same_text(a: &Vec<char>, b: &Vec<char>) -> (r: bool)
    ensures
        r == (a@ == b@),
{
    if a.len() != b.len() {
        return false;
    }
    let mut i: usize = 0;
    while i < a.len()
        invariant
            i <= a.len(),
            a.len() == b.len(),
            forall|j: int| 0 <= j < i ==> a@[j] == b@[j],
        decreases a.len() - i,
    {
        if a[i] != b[i] {
            return false;
        }
        i += 1;
    }
    assert(a@ =~= b@);
    true
}

/// Appends the characters of `src` to `dst`.
pub fn append_chars(dst: &mut Vec<char>, src: &Vec<char>)
    ensures
        final(dst)@ == old(dst)@ + src@,
{
    let ghost before = dst@;
    let mut i: usize = 0;
    while i < src.len()
        invariant
            i <= src.len(),
            dst@ == before + src@.take(i as int),
        decreases src.len() - i,
    {
        dst.push(src[i]);
        i += 1;
        assert(dst@ =~= before + src@.take(i as int));
    }
    assert(src@.take(src.len() as int) =~= src@);
}

/// A text in which `pat` does not occur has no part in which it does.
pub proof fn lemma_absent_in_part(s: Seq<char>, pat: Seq<char>, from: int, to: int)
    requires
        0 <= from <= to <= s.len(),
        find(s, pat) is None,
    ensures
        find(s.subrange(from, to), pat) is None,
{
    let part = s.subrange(from, to);
    lemma_find_from(s, pat, 0);
    lemma_find_from(part, pat, 0);
    if let Some(k) = find(part, pat) {
        assert(s.subrange(from + k, from + k + pat.len()) =~= part.subrange(k, k + pat.len()));
        assert(matches_at(s, pat, from + k));
    }
}

/// White space at the start of a text is part of the text.
pub proof fn lemma_leading_space_bound(s: Seq<char>)
    ensures
        leading_space(s) <= s.len(),
    decreases s.len(),
{
    if s.len() > 0 && is_whitespace(s[0]) {
        lemma_leading_space_bound(s.skip(1));
    }
}

/// White space at the end of a text is part of the text.
pub proof fn lemma_trailing_space_bound(s: Seq<char>)
    ensures
        trailing_space(s) <= s.len(),
    decreases s.len(),
{
    if s.len() > 0 && is_whitespace(s.last()) {
        lemma_trailing_space_bound(s.drop_last());
    }
}

/// Trimming a text in which `pat` does not occur gives one in which it
/// does not occur.
pub proof fn lemma_absent_in_trimmed(s: Seq<char>, pat: Seq<char>)
    requires
        find(s, pat) is None,
    ensures
        find(trimmed(s), pat) is None,
{
    lemma_leading_space_bound(s);
    let lead = leading_space(s) as int;
    let rest = s.skip(lead);
    lemma_trailing_space_bound(rest);
    let keep = rest.len() - trailing_space(rest);
    assert(rest.take(keep) =~= s.subrange(lead, lead + keep));
    lemma_absent_in_part(s, pat, lead, lead + keep);
}

/// Cutting a text in which `pat` does not occur gives pieces in none of
/// which it occurs.
pub proof fn lemma_absent_in_pieces(s: Seq<char>, c: char, pat: Seq<char>)
    requires
        find(s, pat) is None,
    ensures
        forall|k: int|
            0 <= k < split_on(s, c).len() ==> find(#[trigger] split_on(s, c)[k], pat) is None,
    decreases s.len(),
{
    match find(s, seq![c]) {
        Some(i) if 0 <= i < s.len() => {
            let rest = s.skip(i + 1);
            assert(s.take(i) =~= s.subrange(0, i));
            assert(rest =~= s.subrange(i + 1, s.len() as int));
            lemma_absent_in_part(s, pat, 0, i);
            lemma_absent_in_part(s, pat, i + 1, s.len() as int);
            lemma_absent_in_pieces(rest, c, pat);
            let pieces = split_on(s, c);
            assert forall|k: int| 0 <= k < pieces.len() implies find(
                #[trigger] pieces[k],
                pat,
            ) is None by {
                if k > 0 {
                    assert(pieces[k] == split_on(rest, c)[k - 1]);
                }
            }
        },
        _ => {},
    }
}

} // verus!
