//! The list of models that an endpoint offers, in alphabetical order.

use vstd::prelude::*;
use vstd::string::StringExecFns;
use crate::json::{json_view, json_views, member, member_of, text_of, Json};
use crate::text::{texts, to_chars};

verus! {

/// `a` comes before `b`, or is `b`, in the order of strings: at the first
/// position where they differ the character of `a` has the smaller code
/// point, or `a` ends there.
pub open spec fn lex_le(a: Seq<char>, b: Seq<char>) -> bool
    decreases a.len(),
{
    if a.len() == 0 {
        true
    } else if b.len() == 0 {
        false
    } else if a[0] == b[0] {
        lex_le(a.skip(1), b.skip(1))
    } else {
        (a[0] as int) < (b[0] as int)
    }
}

/// Each text comes before, or is, every text after it.
pub open spec fn ordered(s: Seq<Seq<char>>) -> bool {
    forall|i: int, j: int| 0 <= i < j < s.len() ==> lex_le(s[i], s[j])
}

/// Of two texts one comes before the other, or they are the same.
pub proof fn lemma_lex_total(a: Seq<char>, b: Seq<char>)
    ensures
        lex_le(a, b) || lex_le(b, a),
    decreases a.len(),
{
    if a.len() > 0 && b.len() > 0 {
        if a[0] == b[0] {
            lemma_lex_total(a.skip(1), b.skip(1));
        } else {
            assert(a[0] as int != b[0] as int);
        }
    }
}

/// The order of texts is transitive.
pub proof fn lemma_lex_transitive(a: Seq<char>, b: Seq<char>, c: Seq<char>)
    requires
        lex_le(a, b),
        lex_le(b, c),
    ensures
        lex_le(a, c),
    decreases a.len(),
{
    if a.len() > 0 && b.len() > 0 && c.len() > 0 {
        if a[0] == b[0] && b[0] == c[0] {
            lemma_lex_transitive(a.skip(1), b.skip(1), c.skip(1));
        }
    }
}

/// Whether `a` comes before `b`, or is `b`, in the order of strings.
pub fn text_le(a: &str, b: &str) -> (r: bool)
    ensures
        r == lex_le(a@, b@),
{
    let x = to_chars(a);
    let y = to_chars(b);
    let mut i: usize = 0;
    proof {
        assert(x@.skip(0) =~= x@);
        assert(y@.skip(0) =~= y@);
    }
    while i < x.len() && i < y.len()
        invariant
            i <= x.len(),
            i <= y.len(),
            x@ == a@,
            y@ == b@,
            lex_le(x@, y@) == lex_le(x@.skip(i as int), y@.skip(i as int)),
        decreases x.len() - i,
    {
        proof {
            assert(x@.skip(i as int)[0] == x@[i as int]);
            assert(y@.skip(i as int)[0] == y@[i as int]);
        }
        if x[i] != y[i] {
            return x[i] < y[i];
        }
        proof {
            assert(x@.skip(i as int).skip(1) =~= x@.skip(i + 1));
            assert(y@.skip(i as int).skip(1) =~= y@.skip(i + 1));
        }
        i += 1;
    }
    i == x.len()
}

/// The texts in alphabetical order: the same texts, each as often as
/// before.
pub fn sort_texts(items: &Vec<String>) -> (out: Vec<String>)
    ensures
        ordered(texts(out@)),
        texts(out@).to_multiset() == texts(items@).to_multiset(),
{
    let mut out: Vec<String> = Vec::new();
    let mut i: usize = 0;
    proof {
        assert(texts(out@) =~= texts(items@.take(0)));
    }
    while i < items.len()
        invariant
            i <= items.len(),
            ordered(texts(out@)),
            texts(out@).to_multiset() == texts(items@.take(i as int)).to_multiset(),
        decreases items.len() - i,
    {
        let item = items[i].clone();
        let mut p: usize = 0;
        while p < out.len() && text_le(out[p].as_str(), item.as_str())
            invariant
                p <= out.len(),
                forall|j: int| 0 <= j < p ==> lex_le(out@[j]@, item@),
            decreases out.len() - p,
        {
            p += 1;
        }
        proof {
            let before = texts(out@);
            let after = before.insert(p as int, item@);
            assert(texts(out@.insert(p as int, item)) =~= after);
            assert forall|a: int, b: int| 0 <= a < b < after.len() implies lex_le(
                after[a],
                after[b],
            ) by {
                if b == p {
                    assert(after[a] == before[a]);
                } else if a == p {
                    assert(after[b] == before[b - 1]);
                    lemma_lex_total(before[p as int], item@);
                    if b - 1 > p {
                        lemma_lex_transitive(item@, before[p as int], before[b - 1]);
                    }
                } else {
                    let a0 = if a < p {
                        a
                    } else {
                        a - 1
                    };
                    let b0 = if b < p {
                        b
                    } else {
                        b - 1
                    };
                    assert(after[a] == before[a0] && after[b] == before[b0]);
                }
            }
            vstd::seq_lib::to_multiset_insert(before, p as int, item@);
            let taken = texts(items@.take(i as int));
            assert(texts(items@.take(i + 1)) =~= taken.push(item@));
            vstd::seq_lib::to_multiset_build(taken, item@);
        }
        out.insert(p, item);
        i += 1;
    }
    assert(items@.take(items.len() as int) =~= items@);
    out
}

/// The identifier of an entry of a listing: its member `id`, where that is
/// a string.
pub open spec fn id_of(entry: Json) -> Option<Seq<char>> {
    match member_of(entry, "id"@) {
        Some(id) => text_of(id),
        None => None,
    }
}

/// The identifiers of the entries that have one, in the order of the
/// entries.
pub open spec fn ids_in(entries: Seq<Json>) -> Seq<Seq<char>>
    decreases entries.len(),
{
    if entries.len() == 0 {
        Seq::empty()
    } else {
        let before = ids_in(entries.drop_last());
        match id_of(entries.last()) {
            Some(id) => before.push(id),
            None => before,
        }
    }
}

/// The entries of a listing: the array under `data` where the listing has
/// a member `data`, and the listing itself where it has none and is an
/// array. A listing of any other form has no entries.
pub open spec fn entries_of(listing: Json) -> Seq<Json> {
    match member_of(listing, "data"@) {
        Some(Json::Array(entries)) => entries,
        Some(_) => Seq::empty(),
        None => match listing {
            Json::Array(entries) => entries,
            _ => Seq::empty(),
        },
    }
}

/// The identifiers that a listing holds, as listed.
pub open spec fn listed_ids(listing: Json) -> Seq<Seq<char>> {
    ids_in(entries_of(listing))
}

/// The identifiers of the entries that have one.
pub fn collect_ids(entries: &Vec<serde_json::Value>) -> (ids: Vec<String>)
    ensures
        texts(ids@) == ids_in(json_views(entries@)),
{
    let mut ids: Vec<String> = Vec::new();
    let mut i: usize = 0;
    proof {
        assert(texts(ids@) =~= ids_in(json_views(entries@).take(0)));
    }
    while i < entries.len()
        invariant
            i <= entries.len(),
            texts(ids@) == ids_in(json_views(entries@).take(i as int)),
        decreases entries.len() - i,
    {
        proof {
            let upto = json_views(entries@).take(i + 1);
            assert(upto.drop_last() =~= json_views(entries@).take(i as int));
            assert(upto.last() == json_view(entries@[i as int]));
        }
        match member(&entries[i], "id") {
            Some(m) => match m.as_str() {
                Some(id) => {
                    let owned = id.to_owned();
                    proof {
                        assert(texts(ids@.push(owned)) =~= texts(ids@).push(id@));
                    }
                    ids.push(owned);
                },
                None => {},
            },
            None => {},
        }
        i += 1;
    }
    assert(json_views(entries@).take(entries.len() as int) =~= json_views(entries@));
    ids
}

/// The models that a listing offers, in alphabetical order.
pub fn model_ids(listing: &serde_json::Value) -> (ids: Vec<String>)
    ensures
        ordered(texts(ids@)),
        texts(ids@).to_multiset() == listed_ids(json_view(*listing)).to_multiset(),
{
    let found: Vec<String> = match member(listing, "data") {
        Some(data) => match data.as_array() {
            Some(entries) => collect_ids(entries),
            None => Vec::new(),
        },
        None => match listing.as_array() {
            Some(entries) => collect_ids(entries),
            None => Vec::new(),
        },
    };
    assert(texts(found@) =~= listed_ids(json_view(*listing)));
    sort_texts(&found)
}

/// What is reported where the listing could not be fetched because the
/// endpoint answered with a status that is not a success.
pub fn fetch_failure(status: &str) -> (message: String)
    ensures
        message@ == "Failed to fetch models: "@ + status@,
{
    let mut message = "Failed to fetch models: ".to_owned();
    message.append(status);
    message
}

} // verus!
