//! Dividing the lines of a file among workers: contiguous runs of near-equal
//! length, in file order, none of them empty.

use vstd::prelude::*;

verus! {

/// A contiguous run of line positions, `start` included and `end` not.
#[derive(Clone, Copy, Debug, PartialEq, Eq, Structural)]
pub struct Chunk {
    pub start: usize,
    pub end: usize,
}

impl Chunk {
    /// The number of lines in the chunk.
    pub open spec fn span(&self) -> int {
        self.end - self.start
    }

    /// Whether position `i` belongs to the chunk.
    pub open spec fn contains(&self, i: int) -> bool {
        self.start <= i < self.end
    }

    /// The number of lines in the chunk.
    pub fn len(&self) -> (n: usize)
        requires
            self.start <= self.end,
        ensures
            n == self.span(),
    {
        self.end - self.start
    }
}

/// `a` divided by `b`, rounded up; 0 where `b` is 0.
pub open spec fn ceil_div(a: nat, b: nat) -> nat {
    if b == 0 {
        0
    } else if a % b == 0 {
        a / b
    } else {
        a / b + 1
    }
}

/// The number of workers that a request for `workers` of them stands for:
/// a request for none counts as a request for one.
pub open spec fn effective_workers(workers: nat) -> nat {
    if workers == 0 {
        1
    } else {
        workers
    }
}

/// The length of each chunk but the last, for `total` lines and `workers`
/// workers.
pub open spec fn chunk_size(total: nat, workers: nat) -> nat {
    ceil_div(total, effective_workers(workers))
}

/// The number of chunks for `total` lines and `workers` workers.
pub open spec fn chunk_count(total: nat, workers: nat) -> nat {
    ceil_div(total, chunk_size(total, workers))
}

/// The `k`-th chunk of `total` lines that begin at position `offset`.
pub open spec fn chunk_at(offset: nat, total: nat, workers: nat, k: int) -> (int, int) {
    let size = chunk_size(total, workers);
    let start = offset + k * size;
    let end = if (k + 1) * size <= total {
        offset + (k + 1) * size
    } else {
        (offset + total) as int
    };
    (start, end)
}

/// Whether `chunks` are the chunks of `total` lines that begin at `offset`.
pub open spec fn is_partition(chunks: Seq<Chunk>, offset: nat, total: nat, workers: nat) -> bool {
    &&& chunks.len() == chunk_count(total, workers)
    &&& forall|k: int|
        0 <= k < chunks.len() ==> {
            &&& (#[trigger] chunks[k]).start == chunk_at(offset, total, workers, k).0
            &&& chunks[k].end == chunk_at(offset, total, workers, k).1
        }
}

/// [`ceil_div`] is the least number of parts of size `b` that hold `a`.
pub proof fn lemma_ceil_div_bounds(a: nat, b: nat)
    requires
        b > 0,
    ensures
        ceil_div(a, b) * b >= a,
        (ceil_div(a, b) - 1) * b < a || a == 0,
        a == 0 <==> ceil_div(a, b) == 0,
{
    let q = a / b;
    let r = a % b;
    assert(a == b * q + r && 0 <= r < b) by (nonlinear_arith)
        requires
            q == a / b,
            r == a % b,
            b > 0,
    ;
    assert((q + 1) * b == q * b + b && (q - 1) * b == q * b - b && q * b == b * q)
        by (nonlinear_arith);
    if a == 0 {
        assert(q == 0) by (nonlinear_arith)
            requires
                0 == b * q + r,
                0 <= r,
                b > 0,
                q >= 0,
        ;
    } else if r == 0 {
        assert(q != 0) by (nonlinear_arith)
            requires
                a == b * q,
                a > 0,
        ;
    }
}

/// The number `n` with `(n - 1) * b < a <= n * b` is [`ceil_div`]`(a, b)`.
pub proof fn lemma_ceil_div_unique(a: nat, b: nat, n: int)
    requires
        b > 0,
        (n - 1) * b < a,
        a <= n * b,
    ensures
        n == ceil_div(a, b),
{
    lemma_ceil_div_bounds(a, b);
    let c = ceil_div(a, b) as int;
    assert(n == c) by (nonlinear_arith)
        requires
            b > 0,
            (n - 1) * b < a,
            a <= n * b,
            c * b >= a,
            (c - 1) * b < a || a == 0,
            a == 0 <==> c == 0,
            c >= 0,
    ;
}

/// `a` divided by `b`, rounded up.
pub fn div_ceil(a: usize, b: usize) -> (q: usize)
    requires
        b > 0,
    ensures
        q == ceil_div(a as nat, b as nat),
{
    if a % b == 0 {
        a / b
    } else {
        assert(a / b < usize::MAX) by (nonlinear_arith)
            requires
                b > 0,
                a % b != 0,
                a <= usize::MAX,
        ;
        a / b + 1
    }
}

/// Divides `total` lines, the first of which stands at position `offset`,
/// among `workers` workers.
pub fn partition(offset: usize, total: usize, workers: usize) -> (chunks: Vec<Chunk>)
    requires
        offset + total <= usize::MAX,
    ensures
        is_partition(chunks@, offset as nat, total as nat, workers as nat),
{
    let w: usize = if workers == 0 {
        1
    } else {
        workers
    };
    let size = div_ceil(total, w);
    proof {
        lemma_ceil_div_bounds(total as nat, w as nat);
    }
    let mut chunks: Vec<Chunk> = Vec::new();
    let mut done: usize = 0;
    assert(chunks.len() * size == 0) by (nonlinear_arith)
        requires
            chunks.len() == 0,
    ;
    while done < total
        invariant
            offset + total <= usize::MAX,
            size == chunk_size(total as nat, workers as nat),
            total > 0 ==> size > 0,
            done <= total,
            done == (if chunks.len() * size <= total {
                chunks.len() * size
            } else {
                total as int
            }),
            chunks.len() == 0 || (chunks.len() - 1) * size < total,
            forall|k: int|
                0 <= k < chunks.len() ==> {
                    &&& (#[trigger] chunks[k]).start == chunk_at(
                        offset as nat,
                        total as nat,
                        workers as nat,
                        k,
                    ).0
                    &&& chunks[k].end == chunk_at(offset as nat, total as nat, workers as nat, k).1
                },
        decreases total - done,
    {
        let ghost k = chunks.len() as int;
        let remaining = total - done;
        let step: usize = if remaining <= size {
            remaining
        } else {
            size
        };
        let start = offset + done;
        let end = start + step;
        proof {
            assert((k + 1) * size == k * size + size) by (nonlinear_arith);
            assert(done == k * size);
        }
        chunks.push(Chunk { start, end });
        done += step;
    }
    proof {
        let k = chunks.len() as int;
        if total > 0 {
            lemma_ceil_div_unique(total as nat, size as nat, k);
        }
    }
    chunks
}

/// There are no more chunks than workers.
pub proof fn lemma_count_within_workers(total: nat, workers: nat)
    ensures
        chunk_count(total, workers) <= effective_workers(workers),
{
    let w = effective_workers(workers);
    let size = chunk_size(total, workers);
    lemma_ceil_div_bounds(total, w);
    if total > 0 {
        lemma_ceil_div_bounds(total, size);
        let n = chunk_count(total, workers);
        assert(n <= w) by (nonlinear_arith)
            requires
                size * w >= total,
                (n - 1) * size < total,
                size > 0,
        ;
    }
}

/// The chunks tile the lines: the first begins at `offset`, each begins
/// where the one before it ended, none is empty, and the last ends with the
/// last line.
pub proof fn lemma_chunks_tile(chunks: Seq<Chunk>, offset: nat, total: nat, workers: nat)
    requires
        is_partition(chunks, offset, total, workers),
    ensures
        total == 0 <==> chunks.len() == 0,
        chunks.len() > 0 ==> chunks[0].start == offset && chunks.last().end == offset + total,
        forall|k: int| 0 <= k < chunks.len() ==> (#[trigger] chunks[k]).start < chunks[k].end,
        forall|k: int|
            0 <= k < chunks.len() - 1 ==> (#[trigger] chunks[k]).end == chunks[k + 1].start,
{
    let w = effective_workers(workers);
    let size = chunk_size(total, workers);
    let n = chunks.len() as int;
    lemma_ceil_div_bounds(total, w);
    if total > 0 {
        lemma_ceil_div_bounds(total, size);
        assert forall|k: int| 0 <= k < n implies (#[trigger] chunks[k]).start < chunks[k].end
            && (k < n - 1 ==> chunks[k].end == chunks[k + 1].start) by {
            assert(k * size <= (n - 1) * size) by (nonlinear_arith)
                requires
                    k <= n - 1,
                    size > 0,
            ;
            assert((k + 1) * size == k * size + size) by (nonlinear_arith);
            if k < n - 1 {
                assert((k + 1) * size <= (n - 1) * size) by (nonlinear_arith)
                    requires
                        k + 1 <= n - 1,
                        size > 0,
                ;
                assert(chunks[k + 1].start == chunk_at(offset, total, workers, k + 1).0);
            }
        }
        assert(0 * size == 0) by (nonlinear_arith);
        assert(((n - 1) + 1) * size == n * size) by (nonlinear_arith);
        assert(chunks[0].start == chunk_at(offset, total, workers, 0).0);
        assert(chunks[n - 1].end == chunk_at(offset, total, workers, n - 1).1);
    }
}

/// Every line belongs to exactly one chunk: the one whose number is the
/// line's distance from `offset` divided by the chunk size.
pub proof fn lemma_one_chunk_per_line(
    chunks: Seq<Chunk>,
    offset: nat,
    total: nat,
    workers: nat,
    i: int,
)
    requires
        is_partition(chunks, offset, total, workers),
        offset <= i < offset + total,
    ensures
        ({
            let k = (i - offset) / (chunk_size(total, workers) as int);
            &&& 0 <= k < chunks.len()
            &&& chunks[k].contains(i)
            &&& forall|j: int| 0 <= j < chunks.len() && j != k ==> !(#[trigger] chunks[j]).contains(i)
        }),
{
    let w = effective_workers(workers);
    let size = chunk_size(total, workers) as int;
    let n = chunks.len() as int;
    let d = i - offset;
    let k = d / size;
    lemma_ceil_div_bounds(total, w);
    lemma_ceil_div_bounds(total, size as nat);
    assert(k * size <= d < (k + 1) * size && 0 <= k) by (nonlinear_arith)
        requires
            k == d / size,
            size > 0,
            d >= 0,
    ;
    assert(k < n) by (nonlinear_arith)
        requires
            k * size <= d,
            d < total,
            n * size >= total,
            size > 0,
    ;
    assert(chunks[k].start == chunk_at(offset, total, workers, k).0);
    assert forall|j: int| 0 <= j < n && j != k implies !(#[trigger] chunks[j]).contains(i) by {
        if j < k {
            assert((j + 1) * size <= k * size) by (nonlinear_arith)
                requires
                    j + 1 <= k,
                    size > 0,
            ;
        } else {
            assert(j * size >= (k + 1) * size) by (nonlinear_arith)
                requires
                    j >= k + 1,
                    size > 0,
            ;
        }
    }
}

/// No chunk reaches below `offset` or beyond the last line.
pub proof fn lemma_chunks_within(chunks: Seq<Chunk>, offset: nat, total: nat, workers: nat, k: int)
    requires
        is_partition(chunks, offset, total, workers),
        0 <= k < chunks.len(),
    ensures
        offset <= chunks[k].start < chunks[k].end <= offset + total,
{
    lemma_chunks_tile(chunks, offset, total, workers);
    let size = chunk_size(total, workers);
    assert(k * size >= 0) by (nonlinear_arith)
        requires
            k >= 0,
            size >= 0,
    ;
    assert((k + 1) * size >= 0) by (nonlinear_arith)
        requires
            k >= 0,
            size >= 0,
    ;
}

/// Two chunks share no line.
pub proof fn lemma_chunks_disjoint(
    chunks: Seq<Chunk>,
    offset: nat,
    total: nat,
    workers: nat,
    j: int,
    k: int,
    i: int,
)
    requires
        is_partition(chunks, offset, total, workers),
        0 <= j < chunks.len(),
        0 <= k < chunks.len(),
        j != k,
    ensures
        !(chunks[j].contains(i) && chunks[k].contains(i)),
{
    if chunks[j].contains(i) {
        lemma_chunks_within(chunks, offset, total, workers, j);
        lemma_one_chunk_per_line(chunks, offset, total, workers, i);
    }
}

} // verus!
