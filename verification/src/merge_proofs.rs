//! What holds of the chunks that a plan returns.

use vstd::prelude::*;
use crate::merge::{all_wf, before, coalesce_spec, insert_spec, kept, optimize_spec, ordered, prune_spec, sort_spec};
use crate::offset::{Chunk, VirtualOffset};

verus! {

/// Some chunk of the sequence holds the offset with this key.
pub open spec fn covers(s: Seq<Chunk>, key: int) -> bool {
    exists|i: int| 0 <= i < s.len() && (#[trigger] s[i]).holds(key)
}

/// Every chunk ends strictly before the next one starts.
pub open spec fn separated(s: Seq<Chunk>) -> bool {
    forall|i: int, j: int|
        0 <= i < j < s.len() ==> (#[trigger] s[i]).end.key() < (#[trigger] s[j]).start.key()
}

/// Pruning keeps exactly the chunks that do not end before `min`, and
/// nothing else.
pub proof fn lemma_prune_members(s: Seq<Chunk>, min: VirtualOffset, c: Chunk)
    ensures
        prune_spec(s, min).contains(c) <==> s.contains(c) && kept(c, min),
    decreases s.len(),
{
    let p = prune_spec(s, min);
    if s.len() == 0 {
        assert(!s.contains(c));
        assert(!p.contains(c));
    } else {
        let d = s.drop_last();
        lemma_prune_members(d, min, c);
        let pd = prune_spec(d, min);
        if s.contains(c) {
            let i = choose|i: int| 0 <= i < s.len() && s[i] == c;
            if i < s.len() - 1 {
                assert(d[i] == c);
                assert(d.contains(c));
            }
        }
        if d.contains(c) {
            let i = choose|i: int| 0 <= i < d.len() && d[i] == c;
            assert(s[i] == c);
        }
        assert(s[s.len() - 1] == s.last());
        if kept(s.last(), min) {
            assert(p == pd.push(s.last()));
            if pd.contains(c) {
                let i = choose|i: int| 0 <= i < pd.len() && pd[i] == c;
                assert(p[i] == c);
            }
            assert(p[p.len() - 1] == s.last());
            if p.contains(c) {
                let i = choose|i: int| 0 <= i < p.len() && p[i] == c;
                if i < p.len() - 1 {
                    assert(pd[i] == c);
                }
            }
        }
    }
}

/// Pruning well-formed chunks leaves well-formed chunks.
pub proof fn lemma_prune_wf(s: Seq<Chunk>, min: VirtualOffset)
    requires
        all_wf(s),
    ensures
        all_wf(prune_spec(s, min)),
    decreases s.len(),
{
    if s.len() > 0 {
        assert(all_wf(s.drop_last())) by {
            assert forall|i: int| 0 <= i < s.drop_last().len() implies (#[trigger] s.drop_last()[i]).wf() by {
                assert(s[i].wf());
            }
        }
        lemma_prune_wf(s.drop_last(), min);
        assert(s[s.len() - 1].wf());
    }
}

/// The place at which `insert_spec` puts a chunk.
pub open spec fn insert_pos(s: Seq<Chunk>, c: Chunk) -> int
    decreases s.len(),
{
    if s.len() == 0 {
        0
    } else if before(s.last(), c) {
        s.len() as int
    } else {
        insert_pos(s.drop_last(), c)
    }
}

proof fn lemma_insert_pos(s: Seq<Chunk>, c: Chunk)
    ensures
        0 <= insert_pos(s, c) <= s.len(),
        forall|j: int| insert_pos(s, c) <= j < s.len() ==> !before(#[trigger] s[j], c),
        insert_pos(s, c) > 0 ==> before(s[insert_pos(s, c) - 1], c),
        insert_spec(s, c) == s.insert(insert_pos(s, c), c),
    decreases s.len(),
{
    if s.len() == 0 {
        assert(s.insert(0, c) == seq![c]);
    } else if before(s.last(), c) {
        assert(s.insert(s.len() as int, c) == s.push(c));
    } else {
        lemma_insert_pos(s.drop_last(), c);
        let k = insert_pos(s.drop_last(), c);
        assert(s.drop_last().insert(k, c).push(s.last()) == s.insert(k, c));
        assert forall|j: int| k <= j < s.len() implies !before(#[trigger] s[j], c) by {
            if j < s.len() - 1 {
                assert(s.drop_last()[j] == s[j]);
            }
        }
        if k > 0 {
            assert(s.drop_last()[k - 1] == s[k - 1]);
        }
    }
}

/// Inserting into an ordered sequence of well-formed chunks gives one, of
/// the same chunks and the new one.
proof fn lemma_insert_ordered(s: Seq<Chunk>, c: Chunk)
    requires
        ordered(s),
    ensures
        ordered(insert_spec(s, c)),
        insert_spec(s, c).to_multiset() == s.to_multiset().insert(c),
        all_wf(s) && c.wf() ==> all_wf(insert_spec(s, c)),
{
    lemma_insert_pos(s, c);
    let k = insert_pos(s, c);
    let t = s.insert(k, c);
    assert forall|i: int, j: int| 0 <= i < j < t.len() implies before(
        #[trigger] t[i],
        #[trigger] t[j],
    ) by {
        if j < k {
            assert(t[i] == s[i] && t[j] == s[j]);
        } else if j == k {
            assert(t[i] == s[i]);
            assert(before(s[i], s[k - 1]) || i == k - 1);
        } else if i == k {
            assert(t[j] == s[j - 1]);
            assert(!before(s[j - 1], c));
        } else if i > k {
            assert(t[i] == s[i - 1] && t[j] == s[j - 1]);
        } else {
            assert(t[i] == s[i] && t[j] == s[j - 1]);
        }
    }
    lemma_insert_multiset(s, c);
    if all_wf(s) && c.wf() {
        assert forall|i: int| 0 <= i < t.len() implies (#[trigger] t[i]).wf() by {
            if i < k {
                assert(t[i] == s[i]);
            } else if i > k {
                assert(t[i] == s[i - 1]);
            }
        }
    }
}

proof fn lemma_insert_multiset(s: Seq<Chunk>, c: Chunk)
    ensures
        insert_spec(s, c).to_multiset() == s.to_multiset().insert(c),
    decreases s.len(),
{
    broadcast use vstd::seq_lib::to_multiset_build;

    if s.len() == 0 {
        assert(seq![c] == s.push(c));
    } else if before(s.last(), c) {
    } else {
        let d = s.drop_last();
        lemma_insert_multiset(d, c);
        assert(d.push(s.last()) == s);
        assert(insert_spec(d, c).push(s.last()).to_multiset() == d.to_multiset().insert(c).insert(
            s.last(),
        ));
        assert(d.to_multiset().insert(c).insert(s.last()) == d.to_multiset().insert(
            s.last(),
        ).insert(c));
    }
}

/// Sorting gives the chunks it was given, each as often as it came, in
/// visiting order.
pub proof fn lemma_sort_ordered(s: Seq<Chunk>)
    ensures
        ordered(sort_spec(s)),
        sort_spec(s).to_multiset() == s.to_multiset(),
        sort_spec(s).len() == s.len(),
        all_wf(s) ==> all_wf(sort_spec(s)),
    decreases s.len(),
{
    broadcast use vstd::seq_lib::to_multiset_build;

    if s.len() == 0 {
        assert(sort_spec(s) == s);
    } else {
        let d = s.drop_last();
        lemma_sort_ordered(d);
        lemma_insert_ordered(sort_spec(d), s.last());
        assert(d.push(s.last()) == s);
        sort_spec(s).to_multiset_ensures();
        s.to_multiset_ensures();
        if all_wf(s) {
            assert forall|i: int| 0 <= i < d.len() implies (#[trigger] d[i]).wf() by {
                assert(s[i].wf());
            }
            assert(s[s.len() - 1].wf());
        }
    }
}

/// Coalescing an ordered sequence of well-formed chunks gives well-formed
/// chunks that are strictly apart, and that hold the same offsets.
pub proof fn lemma_coalesce(s: Seq<Chunk>)
    requires
        ordered(s),
        all_wf(s),
    ensures
        all_wf(coalesce_spec(s)),
        separated(coalesce_spec(s)),
        coalesce_spec(s).len() <= s.len(),
        s.len() > 0 ==> coalesce_spec(s).len() > 0 && coalesce_spec(s).last().start.key()
            <= s.last().start.key(),
        forall|key: int| covers(s, key) <==> covers(coalesce_spec(s), key),
    decreases s.len(),
{
    let out = coalesce_spec(s);
    if s.len() == 0 {
        assert forall|key: int| covers(s, key) <==> covers(out, key) by {}
    } else {
        let d = s.drop_last();
        let c = s.last();
        let p = coalesce_spec(d);
        assert(c == s[s.len() - 1]);
        assert(c.wf());
        assert forall|i: int| 0 <= i < d.len() implies (#[trigger] d[i]).wf() by {
            assert(s[i].wf());
        }
        assert forall|i: int, j: int| 0 <= i < j < d.len() implies before(
            #[trigger] d[i],
            #[trigger] d[j],
        ) by {
            assert(before(s[i], s[j]));
        }
        lemma_coalesce(d);
        if d.len() > 0 {
            assert(before(s[d.len() - 1], s[s.len() - 1]));
            assert(d.last() == s[d.len() - 1]);
            assert(p.last() == p[p.len() - 1]);
            assert(p.last().wf());
        }
        assert forall|key: int| covers(s, key) <==> (covers(d, key) || c.holds(key)) by {
            if covers(s, key) {
                let i = choose|i: int| 0 <= i < s.len() && (#[trigger] s[i]).holds(key);
                if i < s.len() - 1 {
                    assert(d[i].holds(key));
                }
            }
            if covers(d, key) {
                let i = choose|i: int| 0 <= i < d.len() && (#[trigger] d[i]).holds(key);
                assert(s[i].holds(key));
            }
            if c.holds(key) {
                assert(s[s.len() - 1].holds(key));
            }
        }
        if p.len() > 0 && c.start.key() <= p.last().end.key() {
            if p.last().end.key() < c.end.key() {
                let m = Chunk { start: p.last().start, end: c.end };
                assert(out == p.drop_last().push(m));
                assert(out[out.len() - 1] == m);
                assert forall|i: int| 0 <= i < out.len() implies (#[trigger] out[i]).wf() by {
                    if i < out.len() - 1 {
                        assert(out[i] == p[i]);
                    }
                }
                assert forall|i: int, j: int| 0 <= i < j < out.len() implies (
                #[trigger] out[i]).end.key() < (#[trigger] out[j]).start.key() by {
                    assert(out[i] == p[i]);
                    if j < out.len() - 1 {
                        assert(out[j] == p[j]);
                    } else {
                        assert(p[i].end.key() < p[j].start.key());
                    }
                }
                assert forall|key: int| (covers(p, key) || c.holds(key)) <==> covers(
                    out,
                    key,
                ) by {
                    if covers(p, key) {
                        let i = choose|i: int| 0 <= i < p.len() && (#[trigger] p[i]).holds(key);
                        if i < p.len() - 1 {
                            assert(out[i].holds(key));
                        } else {
                            assert(out[out.len() - 1].holds(key));
                        }
                    }
                    if c.holds(key) {
                        assert(out[out.len() - 1].holds(key));
                    }
                    if covers(out, key) {
                        let i = choose|i: int|
                            0 <= i < out.len() && (#[trigger] out[i]).holds(key);
                        if i < out.len() - 1 {
                            assert(p[i].holds(key));
                        } else if !c.holds(key) {
                            assert(p[p.len() - 1].holds(key));
                        }
                    }
                }
            } else {
                assert(out == p);
                assert forall|key: int| (covers(p, key) || c.holds(key)) <==> covers(
                    out,
                    key,
                ) by {
                    if c.holds(key) {
                        assert(p[p.len() - 1].holds(key));
                    }
                }
            }
        } else {
            assert(out == p.push(c));
            assert(out[out.len() - 1] == c);
            assert forall|i: int| 0 <= i < out.len() implies (#[trigger] out[i]).wf() by {
                if i < out.len() - 1 {
                    assert(out[i] == p[i]);
                }
            }
            assert forall|i: int, j: int| 0 <= i < j < out.len() implies (
            #[trigger] out[i]).end.key() < (#[trigger] out[j]).start.key() by {
                assert(out[i] == p[i]);
                if j < out.len() - 1 {
                    assert(out[j] == p[j]);
                } else if i < p.len() - 1 {
                    assert(p[i].end.key() < p[p.len() - 1].start.key());
                }
            }
            assert forall|key: int| (covers(p, key) || c.holds(key)) <==> covers(out, key) by {
                if covers(p, key) {
                    let i = choose|i: int| 0 <= i < p.len() && (#[trigger] p[i]).holds(key);
                    assert(out[i].holds(key));
                }
                if c.holds(key) {
                    assert(out[out.len() - 1].holds(key));
                }
                if covers(out, key) {
                    let i = choose|i: int| 0 <= i < out.len() && (#[trigger] out[i]).holds(key);
                    if i < out.len() - 1 {
                        assert(p[i].holds(key));
                    }
                }
            }
        }
    }
}

/// The chunks of a plan are well formed, come in strictly ascending order
/// of start with no two sharing a start, lie strictly apart, and hold
/// exactly the offsets of the given chunks that do not end before `min`.
pub proof fn lemma_plan_shape(s: Seq<Chunk>, min: VirtualOffset)
    requires
        all_wf(s),
    ensures
        all_wf(optimize_spec(s, min)),
        separated(optimize_spec(s, min)),
        forall|i: int, j: int|
            0 <= i < j < optimize_spec(s, min).len() ==> (#[trigger] optimize_spec(
                s,
                min,
            )[i]).start.key() < (#[trigger] optimize_spec(s, min)[j]).start.key(),
        optimize_spec(s, min).len() <= s.len(),
        forall|key: int|
            covers(optimize_spec(s, min), key) <==> exists|i: int|
                0 <= i < s.len() && kept(#[trigger] s[i], min) && s[i].holds(key),
{
    let p = prune_spec(s, min);
    let t = sort_spec(p);
    let out = optimize_spec(s, min);
    lemma_prune_wf(s, min);
    lemma_prune_len(s, min);
    lemma_sort_ordered(p);
    lemma_coalesce(t);
    assert forall|i: int, j: int| 0 <= i < j < out.len() implies (#[trigger] out[i]).start.key()
        < (#[trigger] out[j]).start.key() by {
        assert(out[i].wf());
        assert(out[i].end.key() < out[j].start.key());
    }
    assert forall|key: int|
        covers(out, key) <==> exists|i: int|
            0 <= i < s.len() && kept(#[trigger] s[i], min) && s[i].holds(key) by {
        p.to_multiset_ensures();
        t.to_multiset_ensures();
        if covers(out, key) {
            assert(covers(t, key));
            let i = choose|i: int| 0 <= i < t.len() && (#[trigger] t[i]).holds(key);
            assert(t.contains(t[i]));
            assert(t.to_multiset().count(t[i]) > 0);
            assert(p.contains(t[i]));
            lemma_prune_members(s, min, t[i]);
            let j = choose|j: int| 0 <= j < s.len() && s[j] == t[i];
            assert(kept(s[j], min) && s[j].holds(key));
        }
        if exists|i: int| 0 <= i < s.len() && kept(#[trigger] s[i], min) && s[i].holds(key) {
            let i = choose|i: int| 0 <= i < s.len() && kept(#[trigger] s[i], min) && s[i].holds(key);
            assert(s.contains(s[i]));
            lemma_prune_members(s, min, s[i]);
            assert(p.to_multiset().count(s[i]) > 0);
            assert(t.contains(s[i]));
            let j = choose|j: int| 0 <= j < t.len() && t[j] == s[i];
            assert(t[j].holds(key));
            assert(covers(t, key));
        }
    }
}

/// Pruning never adds a chunk.
pub proof fn lemma_prune_len(s: Seq<Chunk>, min: VirtualOffset)
    ensures
        prune_spec(s, min).len() <= s.len(),
    decreases s.len(),
{
    if s.len() > 0 {
        lemma_prune_len(s.drop_last(), min);
    }
}

} // verus!
