//! Ordering and coalescing of chunks: the last step of planning a query.

use vstd::prelude::*;
use crate::offset::{Chunk, VirtualOffset};

verus! {

/// All chunks of the sequence are well formed.
pub open spec fn all_wf(s: Seq<Chunk>) -> bool {
    forall|i: int| 0 <= i < s.len() ==> (#[trigger] s[i]).wf()
}

/// A chunk survives pruning unless it ends strictly before `min`.
pub open spec fn kept(c: Chunk, min: VirtualOffset) -> bool {
    c.end.key() >= min.key()
}

/// The chunks of `s` that survive pruning against `min`, in their order.
pub open spec fn prune_spec(s: Seq<Chunk>, min: VirtualOffset) -> Seq<Chunk>
    decreases s.len(),
{
    if s.len() == 0 {
        Seq::empty()
    } else if kept(s.last(), min) {
        prune_spec(s.drop_last(), min).push(s.last())
    } else {
        prune_spec(s.drop_last(), min)
    }
}

/// The order in which chunks are visited: by start, and by end among
/// chunks with one start.
pub open spec fn before(a: Chunk, b: Chunk) -> bool {
    a.start.key() < b.start.key() || (a.start.key() == b.start.key() && a.end.key()
        <= b.end.key())
}

/// Each chunk of the sequence is `before` the next.
pub open spec fn ordered(s: Seq<Chunk>) -> bool {
    forall|i: int, j: int| 0 <= i < j < s.len() ==> before(#[trigger] s[i], #[trigger] s[j])
}

/// `c` put into `s` behind the last chunk that is `before` it.
pub open spec fn insert_spec(s: Seq<Chunk>, c: Chunk) -> Seq<Chunk>
    decreases s.len(),
{
    if s.len() == 0 {
        seq![c]
    } else if before(s.last(), c) {
        s.push(c)
    } else {
        insert_spec(s.drop_last(), c).push(s.last())
    }
}

/// The chunks of `s` in visiting order.
pub open spec fn sort_spec(s: Seq<Chunk>) -> Seq<Chunk>
    decreases s.len(),
{
    if s.len() == 0 {
        Seq::empty()
    } else {
        insert_spec(sort_spec(s.drop_last()), s.last())
    }
}

/// The chunks of an ordered sequence with every run of touching or
/// overlapping chunks replaced by the one chunk that spans the run.
pub open spec fn coalesce_spec(s: Seq<Chunk>) -> Seq<Chunk>
    decreases s.len(),
{
    if s.len() == 0 {
        Seq::empty()
    } else {
        let p = coalesce_spec(s.drop_last());
        let c = s.last();
        if p.len() > 0 && c.start.key() <= p.last().end.key() {
            if p.last().end.key() < c.end.key() {
                p.drop_last().push(Chunk { start: p.last().start, end: c.end })
            } else {
                p
            }
        } else {
            p.push(c)
        }
    }
}

/// What a query visits, given the chunks of its candidate bins and the
/// lowest offset at which a record of the window can start.
pub open spec fn optimize_spec(s: Seq<Chunk>, min: VirtualOffset) -> Seq<Chunk> {
    coalesce_spec(sort_spec(prune_spec(s, min)))
}

/// Whether `a` comes before `b` in visiting order.
pub fn comes_before(a: Chunk, b: Chunk) -> (r: bool)
    ensures
        r == before(a, b),
{
    if a.start.precedes(b.start) {
        true
    } else if b.start.precedes(a.start) {
        false
    } else {
        a.end.at_or_before(b.end)
    }
}

/// Drops the chunks that end strictly before `min`.
pub fn prune(chunks: &Vec<Chunk>, min: VirtualOffset) -> (r: Vec<Chunk>)
    ensures
        r@ == prune_spec(chunks@, min),
{
    let mut out: Vec<Chunk> = Vec::new();
    let mut i: usize = 0;
    while i < chunks.len()
        invariant
            i <= chunks.len(),
            out@ == prune_spec(chunks@.take(i as int), min),
        decreases chunks.len() - i,
    {
        let c = chunks[i];
        proof {
            assert(chunks@.take(i + 1).drop_last() == chunks@.take(i as int));
        }
        if !c.end.precedes(min) {
            out.push(c);
        }
        i += 1;
    }
    proof {
        assert(chunks@.take(i as int) == chunks@);
    }
    out
}

/// Putting `c` at the place that a scan from the back finds is
/// `insert_spec`.
proof fn lemma_insert_at(s: Seq<Chunk>, c: Chunk, k: int)
    requires
        0 <= k <= s.len(),
        forall|j: int| k <= j < s.len() ==> !before(#[trigger] s[j], c),
        k > 0 ==> before(s[k - 1], c),
    ensures
        insert_spec(s, c) == s.insert(k, c),
    decreases s.len(),
{
    if s.len() == 0 {
        assert(s.insert(k, c) == seq![c]);
    } else if k == s.len() {
        assert(s.insert(k, c) == s.push(c));
    } else {
        lemma_insert_at(s.drop_last(), c, k);
        assert(s.drop_last().insert(k, c).push(s.last()) == s.insert(k, c));
    }
}

/// Puts the chunks into visiting order.
pub fn sort(chunks: &Vec<Chunk>) -> (r: Vec<Chunk>)
    ensures
        r@ == sort_spec(chunks@),
{
    let mut out: Vec<Chunk> = Vec::new();
    let mut i: usize = 0;
    while i < chunks.len()
        invariant
            i <= chunks.len(),
            out@ == sort_spec(chunks@.take(i as int)),
        decreases chunks.len() - i,
    {
        let c = chunks[i];
        let mut k: usize = out.len();
        while k > 0 && !comes_before(out[k - 1], c)
            invariant
                k <= out.len(),
                forall|j: int| k <= j < out.len() ==> !before(#[trigger] out@[j], c),
            decreases k,
        {
            k -= 1;
        }
        proof {
            lemma_insert_at(out@, c, k as int);
            assert(chunks@.take(i + 1).drop_last() == chunks@.take(i as int));
        }
        out.insert(k, c);
        i += 1;
    }
    proof {
        assert(chunks@.take(i as int) == chunks@);
    }
    out
}

/// Replaces every run of touching or overlapping chunks of an ordered list
/// by the chunk that spans it.
pub fn coalesce(chunks: &Vec<Chunk>) -> (r: Vec<Chunk>)
    ensures
        r@ == coalesce_spec(chunks@),
{
    let mut out: Vec<Chunk> = Vec::new();
    let mut i: usize = 0;
    while i < chunks.len()
        invariant
            i <= chunks.len(),
            out@ == coalesce_spec(chunks@.take(i as int)),
        decreases chunks.len() - i,
    {
        let c = chunks[i];
        proof {
            assert(chunks@.take(i + 1).drop_last() == chunks@.take(i as int));
        }
        let n: usize = out.len();
        if n > 0 && c.start.at_or_before(out[n - 1].end) {
            let last = out[n - 1];
            if last.end.precedes(c.end) {
                out.pop();
                out.push(Chunk { start: last.start, end: c.end });
            }
        } else {
            out.push(c);
        }
        i += 1;
    }
    proof {
        assert(chunks@.take(i as int) == chunks@);
    }
    out
}

/// The chunks to visit: those of `chunks` that do not end before `min`, in
/// ascending order of start, touching and overlapping ones made one.
pub fn optimize_chunks(chunks: &Vec<Chunk>, min: VirtualOffset) -> (r: Vec<Chunk>)
    ensures
        r@ == optimize_spec(chunks@, min),
{
    let pruned = prune(chunks, min);
    let sorted = sort(&pruned);
    coalesce(&sorted)
}

} // verus!
