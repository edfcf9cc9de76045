//! What holds of every query: of the records it returns and of the chunks
//! it visits.

use vstd::prelude::*;
use crate::bins::{bin_meets, bin_width, candidate, in_level, level_start};
use crate::error::Error;
use crate::index::{gather_spec, Bin, FileIndex};
use crate::merge::all_wf;
use crate::merge_proofs::{lemma_plan_shape, separated};
use crate::record::{overlaps, select_spec, selected, Record};
use crate::region::{Interval, RegionModel};

verus! {

/// Every record that a query returns lies on the reference sequence asked
/// for, starts before the window ends and ends after the window starts.
pub proof fn lemma_returned_records_overlap(
    s: Seq<Record>,
    name: Seq<u8>,
    window: Interval,
    i: int,
)
    requires
        0 <= i < select_spec(s, name, window).len(),
    ensures
        select_spec(s, name, window)[i].reference@ == name,
        select_spec(s, name, window)[i].start < window.end,
        select_spec(s, name, window)[i].end > window.start,
        s.contains(select_spec(s, name, window)[i]),
    decreases s.len(),
{
    let out = select_spec(s, name, window);
    if s.len() > 0 {
        let d = s.drop_last();
        let p = select_spec(d, name, window);
        if i < p.len() {
            lemma_returned_records_overlap(d, name, window, i);
            let k = choose|k: int| 0 <= k < d.len() && d[k] == p[i];
            assert(s[k] == p[i]);
        } else {
            assert(out[i] == s[s.len() - 1]);
        }
    }
}

/// A record of the file is returned exactly when it is selected: so one
/// that lies on the reference sequence and inside the window is always
/// returned, unless it is empty.
pub proof fn lemma_record_returned_iff_selected(
    s: Seq<Record>,
    name: Seq<u8>,
    window: Interval,
    r: Record,
)
    ensures
        select_spec(s, name, window).contains(r) <==> s.contains(r) && selected(r, name, window),
    decreases s.len(),
{
    let out = select_spec(s, name, window);
    if s.len() == 0 {
        assert(!s.contains(r));
        assert(!out.contains(r));
    } else {
        let d = s.drop_last();
        let p = select_spec(d, name, window);
        lemma_record_returned_iff_selected(d, name, window, r);
        if s.contains(r) {
            let i = choose|i: int| 0 <= i < s.len() && s[i] == r;
            if i < s.len() - 1 {
                assert(d[i] == r);
            }
        }
        if d.contains(r) {
            let i = choose|i: int| 0 <= i < d.len() && d[i] == r;
            assert(s[i] == r);
        }
        assert(s[s.len() - 1] == s.last());
        if selected(s.last(), name, window) {
            assert(out == p.push(s.last()));
            assert(out[out.len() - 1] == s.last());
            if p.contains(r) {
                let i = choose|i: int| 0 <= i < p.len() && p[i] == r;
                assert(out[i] == r);
            }
            if out.contains(r) {
                let i = choose|i: int| 0 <= i < out.len() && out[i] == r;
                if i < out.len() - 1 {
                    assert(p[i] == r);
                }
            }
        }
    }
}

/// A record that is not empty and lies entirely inside the window is
/// returned.
pub proof fn lemma_inside_is_returned(s: Seq<Record>, name: Seq<u8>, window: Interval, r: Record)
    requires
        s.contains(r),
        r.reference@ == name,
        window.start <= r.start < r.end <= window.end,
    ensures
        select_spec(s, name, window).contains(r),
{
    lemma_record_returned_iff_selected(s, name, window, r);
}

/// A record that lies entirely outside the window is not returned; nor is
/// one that only touches it, ending where the window starts or starting
/// where it ends.
pub proof fn lemma_outside_is_not_returned(
    s: Seq<Record>,
    name: Seq<u8>,
    window: Interval,
    r: Record,
)
    requires
        r.end <= window.start || r.start >= window.end,
    ensures
        !select_spec(s, name, window).contains(r),
{
    lemma_record_returned_iff_selected(s, name, window, r);
}

/// A window that holds no position returns no record.
pub proof fn lemma_empty_window_returns_nothing(s: Seq<Record>, name: Seq<u8>, window: Interval)
    requires
        window.end <= window.start,
    ensures
        select_spec(s, name, window).len() == 0,
    decreases s.len(),
{
    if s.len() > 0 {
        lemma_empty_window_returns_nothing(s.drop_last(), name, window);
    }
}

/// The same query on the same records returns the same records: what is
/// returned depends on nothing but the records, the name and the window.
pub proof fn lemma_select_repeatable(
    s1: Seq<Record>,
    s2: Seq<Record>,
    name: Seq<u8>,
    window: Interval,
)
    requires
        s1 == s2,
    ensures
        select_spec(s1, name, window) == select_spec(s2, name, window),
{
}

/// The same region planned twice against the same index gives the same
/// chunks, or the same error.
pub proof fn lemma_plan_repeatable(index: &FileIndex, a: RegionModel, b: RegionModel)
    requires
        a == b,
    ensures
        index.plan_spec(a) == index.plan_spec(b),
{
}

proof fn lemma_gather_wf(bins: Seq<Bin>, beg: int, end: int, min_shift: nat, depth: nat)
    requires
        forall|i: int| 0 <= i < bins.len() ==> all_wf((#[trigger] bins[i]).chunks@),
    ensures
        all_wf(gather_spec(bins, beg, end, min_shift, depth)),
    decreases bins.len(),
{
    if bins.len() > 0 {
        let d = bins.drop_last();
        assert forall|i: int| 0 <= i < d.len() implies all_wf((#[trigger] d[i]).chunks@) by {
            assert(d[i] == bins[i]);
        }
        lemma_gather_wf(d, beg, end, min_shift, depth);
        assert(all_wf(bins[bins.len() - 1].chunks@));
    }
}

/// The chunks of a plan come in strictly ascending order of start, so no
/// two of them start at one offset; each ends strictly before the next
/// starts; and each is well formed.
pub proof fn lemma_plan_is_ordered(index: &FileIndex, region: RegionModel)
    requires
        index.wf(),
        index.plan_spec(region) is Ok,
    ensures
        all_wf(index.plan_spec(region)->Ok_0),
        separated(index.plan_spec(region)->Ok_0),
        forall|i: int, j: int|
            0 <= i < j < index.plan_spec(region)->Ok_0.len() ==> (#[trigger] index.plan_spec(
                region,
            )->Ok_0[i]).start.key() < (#[trigger] index.plan_spec(region)->Ok_0[j]).start.key(),
{
    crate::index::lemma_find(index.references@, region.name);
    let k = crate::index::find_spec(index.references@, region.name)->Some_0;
    let r = index.references@[k];
    let w = index.window(region.interval);
    assert(r.wf());
    let g = gather_spec(
        r.bins@,
        w.start as int,
        w.end as int,
        index.min_shift as nat,
        index.depth as nat,
    );
    lemma_gather_wf(r.bins@, w.start as int, w.end as int, index.min_shift as nat, index.depth as nat);
    let min = r.floor(w.start as int, index.min_shift as nat, index.depth as nat);
    lemma_plan_shape(g, min);
}

proof fn lemma_gather_holds(
    bins: Seq<Bin>,
    j: int,
    i: int,
    beg: int,
    end: int,
    min_shift: nat,
    depth: nat,
)
    requires
        0 <= j < bins.len(),
        0 <= i < bins[j].chunks@.len(),
        candidate(bins[j].id as int, beg, end, min_shift, depth),
    ensures
        gather_spec(bins, beg, end, min_shift, depth).contains(bins[j].chunks@[i]),
    decreases bins.len(),
{
    let d = bins.drop_last();
    let rest = gather_spec(d, beg, end, min_shift, depth);
    let all = gather_spec(bins, beg, end, min_shift, depth);
    if j == bins.len() - 1 {
        assert(bins.last() == bins[j]);
        assert(all[rest.len() + i] == bins[j].chunks@[i]);
    } else {
        assert(d[j] == bins[j]);
        lemma_gather_holds(d, j, i, beg, end, min_shift, depth);
        let k = choose|k: int| 0 <= k < rest.len() && rest[k] == bins[j].chunks@[i];
        assert(all[k] == rest[k]);
    }
}

/// A plan reaches every record that the index files under a candidate
/// bin: each offset of a chunk of such a bin, unless the chunk ends before
/// the lowest offset at which a record of the window can start, lies in a
/// chunk of the plan.
pub proof fn lemma_candidate_chunk_is_planned(
    index: &FileIndex,
    region: RegionModel,
    k: int,
    j: int,
    i: int,
    key: int,
)
    requires
        index.wf(),
        crate::index::find_spec(index.references@, region.name) == Some(k),
        0 <= j < index.references@[k].bins@.len(),
        0 <= i < index.references@[k].bins@[j].chunks@.len(),
        candidate(
            index.references@[k].bins@[j].id as int,
            index.window(region.interval).start as int,
            index.window(region.interval).end as int,
            index.min_shift as nat,
            index.depth as nat,
        ),
        crate::merge::kept(
            index.references@[k].bins@[j].chunks@[i],
            index.references@[k].floor(
                index.window(region.interval).start as int,
                index.min_shift as nat,
                index.depth as nat,
            ),
        ),
        index.references@[k].bins@[j].chunks@[i].holds(key),
    ensures
        index.plan_spec(region) is Ok,
        crate::merge_proofs::covers(index.plan_spec(region)->Ok_0, key),
{
    crate::index::lemma_find(index.references@, region.name);
    let r = index.references@[k];
    let w = index.window(region.interval);
    let g = gather_spec(
        r.bins@,
        w.start as int,
        w.end as int,
        index.min_shift as nat,
        index.depth as nat,
    );
    assert(r.wf());
    lemma_gather_wf(r.bins@, w.start as int, w.end as int, index.min_shift as nat, index.depth as nat);
    lemma_gather_holds(
        r.bins@,
        j,
        i,
        w.start as int,
        w.end as int,
        index.min_shift as nat,
        index.depth as nat,
    );
    let min = r.floor(w.start as int, index.min_shift as nat, index.depth as nat);
    lemma_plan_shape(g, min);
    let c = r.bins@[j].chunks@[i];
    let n = choose|n: int| 0 <= n < g.len() && g[n] == c;
    assert(crate::merge::kept(g[n], min) && g[n].holds(key));
}

proof fn lemma_gather_empty(bins: Seq<Bin>, beg: int, end: int, min_shift: nat, depth: nat)
    requires
        end <= beg,
    ensures
        gather_spec(bins, beg, end, min_shift, depth).len() == 0,
    decreases bins.len(),
{
    if bins.len() > 0 {
        lemma_gather_empty(bins.drop_last(), beg, end, min_shift, depth);
    }
}

/// A region whose interval holds no position is planned without error and
/// visits no chunk.
pub proof fn lemma_empty_window_plans_nothing(index: &FileIndex, region: RegionModel)
    requires
        region.interval matches Some(i) && i.end <= i.start,
        index.plan_spec(region) is Ok,
    ensures
        index.plan_spec(region)->Ok_0.len() == 0,
{
    crate::index::lemma_find(index.references@, region.name);
    let k = crate::index::find_spec(index.references@, region.name)->Some_0;
    let r = index.references@[k];
    let w = index.window(region.interval);
    let g = gather_spec(
        r.bins@,
        w.start as int,
        w.end as int,
        index.min_shift as nat,
        index.depth as nat,
    );
    lemma_gather_empty(r.bins@, w.start as int, w.end as int, index.min_shift as nat, index.depth as nat);
    let min = r.floor(w.start as int, index.min_shift as nat, index.depth as nat);
    crate::merge_proofs::lemma_prune_len(g, min);
    crate::merge_proofs::lemma_sort_ordered(crate::merge::prune_spec(g, min));
    assert(crate::merge::coalesce_spec(Seq::<crate::offset::Chunk>::empty()).len() == 0);
    assert(crate::merge::sort_spec(crate::merge::prune_spec(g, min)) =~= Seq::<
        crate::offset::Chunk,
    >::empty());
}

/// A region that names a reference sequence which the index does not have
/// is refused, and no other region is.
pub proof fn lemma_unknown_reference(index: &FileIndex, region: RegionModel)
    requires
        index.wf(),
    ensures
        index.plan_spec(region) is Err <==> forall|j: int|
            0 <= j < index.references@.len() ==> (#[trigger] index.references@[j]).name@
                != region.name,
        index.plan_spec(region) is Err ==> index.plan_spec(region)->Err_0
            == Error::ReferenceNotFound,
{
    crate::index::lemma_find(index.references@, region.name);
}

/// A bin whose span holds a record is a candidate for every window that
/// the record overlaps: the plan never passes over the bin of such a
/// record.
pub proof fn lemma_bin_of_overlapping_record(
    bin: int,
    l: nat,
    start: int,
    end: int,
    window: Interval,
    min_shift: nat,
    depth: nat,
)
    requires
        l <= depth,
        in_level(bin, l),
        (bin - level_start(l)) * bin_width(l, min_shift, depth) <= start,
        end <= (bin - level_start(l) + 1) * bin_width(l, min_shift, depth),
        start < end,
        window.start < window.end,
        overlaps(start, end, window),
    ensures
        candidate(bin, window.start as int, window.end as int, min_shift, depth),
{
    assert(bin_meets(bin, l, window.start as int, window.end as int, min_shift, depth));
}

proof fn lemma_gather_by_view(a: Seq<Bin>, b: Seq<Bin>, beg: int, end: int, min_shift: nat, depth: nat)
    requires
        a.len() == b.len(),
        forall|i: int| 0 <= i < a.len() ==> (#[trigger] a[i])@ == b[i]@,
    ensures
        gather_spec(a, beg, end, min_shift, depth) == gather_spec(b, beg, end, min_shift, depth),
    decreases a.len(),
{
    if a.len() > 0 {
        let da = a.drop_last();
        let db = b.drop_last();
        assert forall|i: int| 0 <= i < da.len() implies (#[trigger] da[i])@ == db[i]@ by {
            assert(a[i]@ == b[i]@);
        }
        lemma_gather_by_view(da, db, beg, end, min_shift, depth);
        assert(a[a.len() - 1]@ == b[b.len() - 1]@);
    }
}

proof fn lemma_find_by_view(a: Seq<crate::index::ReferenceIndex>, b: Seq<crate::index::ReferenceIndex>, name: Seq<u8>)
    requires
        a.len() == b.len(),
        forall|i: int| 0 <= i < a.len() ==> (#[trigger] a[i]).name@ == b[i].name@,
    ensures
        crate::index::find_spec(a, name) == crate::index::find_spec(b, name),
    decreases a.len(),
{
    if a.len() > 0 {
        let da = a.drop_last();
        let db = b.drop_last();
        assert forall|i: int| 0 <= i < da.len() implies (#[trigger] da[i]).name@ == db[i].name@ by {
            assert(a[i].name@ == b[i].name@);
        }
        lemma_find_by_view(da, db, name);
        assert(a[a.len() - 1].name@ == b[b.len() - 1].name@);
    }
}

/// Two indexes of one shape plan alike: where they have the same
/// hierarchy and, reference sequence by reference sequence, the same
/// names and the same bins with the same chunks, a region gets the same
/// chunks from both whenever both prune at the same offset. So an index
/// gives the same plans in whichever of the two formats it came, as far
/// as the linear index of the one and the offsets noted for bins of the
/// other say the same.
pub proof fn lemma_same_shape_same_plan(a: &FileIndex, b: &FileIndex, region: RegionModel)
    requires
        a.min_shift == b.min_shift,
        a.depth == b.depth,
        a.references@.len() == b.references@.len(),
        forall|i: int|
            0 <= i < a.references@.len() ==> {
                &&& (#[trigger] a.references@[i]).name@ == b.references@[i].name@
                &&& a.references@[i]@.bins == b.references@[i]@.bins
                &&& a.references@[i].floor(
                    a.window(region.interval).start as int,
                    a.min_shift as nat,
                    a.depth as nat,
                ) == b.references@[i].floor(
                    a.window(region.interval).start as int,
                    a.min_shift as nat,
                    a.depth as nat,
                )
            },
    ensures
        a.plan_spec(region) == b.plan_spec(region),
{
    lemma_find_by_view(a.references@, b.references@, region.name);
    crate::index::lemma_find(a.references@, region.name);
    if geometry_ok_of(a) {
        match crate::index::find_spec(a.references@, region.name) {
            Some(k) => {
                let ra = a.references@[k];
                let rb = b.references@[k];
                let w = a.window(region.interval);
                assert(ra@.bins == rb@.bins);
                assert(ra.bins@.len() == ra@.bins.len());
                assert(rb.bins@.len() == rb@.bins.len());
                assert forall|i: int| 0 <= i < ra.bins@.len() implies (#[trigger] ra.bins@[i])@
                    == rb.bins@[i]@ by {
                    assert(ra@.bins[i] == ra.bins@[i]@);
                    assert(rb@.bins[i] == rb.bins@[i]@);
                }
                lemma_gather_by_view(
                    ra.bins@,
                    rb.bins@,
                    w.start as int,
                    w.end as int,
                    a.min_shift as nat,
                    a.depth as nat,
                );
            },
            None => {},
        }
    }
}

/// Whether the hierarchy of an index can be addressed.
pub open spec fn geometry_ok_of(index: &FileIndex) -> bool {
    crate::bins::geometry_ok(index.min_shift, index.depth)
}

} // verus!
