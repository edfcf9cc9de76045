//! Records as the query engine sees them, and the overlap test.

use vstd::prelude::*;
use crate::index::bytes_eq;
use crate::region::Interval;

verus! {

/// A record of the file: the reference sequence it lies on, the 0-based
/// half-open interval `[start, end)` it covers, and its content, which the
/// engine hands on untouched.
#[derive(Debug)]
pub struct Record {
    pub reference: Vec<u8>,
    pub start: u64,
    pub end: u64,
    pub payload: Vec<u8>,
}

/// Two half-open intervals overlap when each starts before the other
/// ends. Intervals that only touch do not overlap.
pub open spec fn overlaps(start: int, end: int, window: Interval) -> bool {
    start < window.end && end > window.start
}

/// Whether a query for `window` on the reference sequence `name` returns
/// the record: it lies on that sequence and overlaps the window, and the
/// window holds a position at all.
pub open spec fn selected(r: Record, name: Seq<u8>, window: Interval) -> bool {
    &&& r.reference@ == name
    &&& window.start < window.end
    &&& overlaps(r.start as int, r.end as int, window)
}

/// The records of `s` that the query returns, in their order.
pub open spec fn select_spec(s: Seq<Record>, name: Seq<u8>, window: Interval) -> Seq<Record>
    decreases s.len(),
{
    if s.len() == 0 {
        Seq::empty()
    } else if selected(s.last(), name, window) {
        select_spec(s.drop_last(), name, window).push(s.last())
    } else {
        select_spec(s.drop_last(), name, window)
    }
}

impl Record {
    /// Whether a query for `window` on the reference sequence `name`
    /// returns this record.
    pub fn is_selected(&self, name: &[u8], window: Interval) -> (r: bool)
        ensures
            r == selected(*self, name@, window),
    {
        window.start < window.end && self.start < window.end && self.end > window.start && bytes_eq(
            self.reference.as_slice(),
            name,
        )
    }
}

/// The sequence back to front.
pub fn reversed(v: Vec<Record>) -> (r: Vec<Record>)
    ensures
        r@ == v@.reverse(),
{
    let mut v = v;
    let ghost all = v@;
    let mut out: Vec<Record> = Vec::new();
    while v.len() > 0
        invariant
            v@.len() <= all.len(),
            v@ == all.take(v@.len() as int),
            out@.len() == all.len() - v@.len(),
            forall|i: int| 0 <= i < out@.len() ==> out@[i] == all[all.len() - 1 - i],
        decreases v.len(),
    {
        let ghost before = v@;
        let x = v.pop().unwrap();
        assert(x == all[before.len() - 1]);
        out.push(x);
    }
    proof {
        assert(out@ =~= all.reverse());
    }
    out
}

/// Keeps the records that a query for `window` on the reference sequence
/// `name` returns, in their order.
pub fn select(records: Vec<Record>, name: &[u8], window: Interval) -> (r: Vec<Record>)
    ensures
        r@ == select_spec(records@, name@, window),
{
    let mut rest = records;
    let ghost all = rest@;
    let mut kept: Vec<Record> = Vec::new();
    // `kept` holds, back to front, the selected records of the part of
    // `all` that has been taken off `rest`.
    while rest.len() > 0
        invariant
            rest@.len() <= all.len(),
            rest@ == all.take(rest@.len() as int),
            select_spec(all, name@, window) == select_spec(rest@, name@, window) + kept@.reverse(),
        decreases rest.len(),
    {
        let ghost before = rest@;
        let x = rest.pop().unwrap();
        proof {
            assert(before.drop_last() == rest@);
            assert(before.last() == x);
        }
        if x.is_selected(name, window) {
            let ghost k = kept@;
            kept.push(x);
            proof {
                assert(k.push(x).reverse() =~= seq![x] + k.reverse());
                assert(select_spec(rest@, name@, window).push(x) + k.reverse() =~= select_spec(
                    rest@,
                    name@,
                    window,
                ) + (seq![x] + k.reverse()));
            }
        }
    }
    proof {
        assert(select_spec(rest@, name@, window) + kept@.reverse() =~= kept@.reverse());
    }
    reversed(kept)
}

} // verus!
