//! An index as its decoder hands it over, and its way into the model.
//!
//! A decoded index is plain numbers and bytes. Before the library plans
//! against it, every chunk is checked and every offset unpacked.

use vstd::prelude::*;
use crate::bins::geometry_ok;
use crate::error::Error;
use crate::index::{
    Bin, BinModel, FileIndex, IndexModel, Layout, ReferenceIndex, ReferenceModel,
};
use crate::offset::{Chunk, VirtualOffset};

verus! {

/// A decoded index: offsets still packed, names apart from the bins.
/// `names` is `None` where the file carries no names: its reference
/// sequences then go by their numbers. `linear` holds one linear index for
/// each reference sequence, and `lowest` for each reference sequence the
/// lowest offsets noted for its bins, by bin number. A format has the one
/// or the other; what it does not have is left out as a whole.
#[derive(Debug)]
pub struct RawIndex {
    pub min_shift: u8,
    pub depth: u8,
    pub names: Option<Vec<Vec<u8>>>,
    pub bins: Vec<Vec<(u64, Vec<(u64, u64)>)>>,
    pub linear: Vec<Vec<u64>>,
    pub lowest: Vec<Vec<(u64, u64)>>,
    pub layout: Option<Layout>,
}

/// What a decoded index is.
pub struct RawIndexModel {
    pub min_shift: u8,
    pub depth: u8,
    pub names: Option<Seq<Seq<u8>>>,
    pub bins: Seq<Seq<(u64, Seq<(u64, u64)>)>>,
    pub linear: Seq<Seq<u64>>,
    pub lowest: Seq<Seq<(u64, u64)>>,
    pub layout: Option<Layout>,
}

impl View for RawIndex {
    type V = RawIndexModel;

    open spec fn view(&self) -> RawIndexModel {
        RawIndexModel {
            min_shift: self.min_shift,
            depth: self.depth,
            names: self.names.deep_view(),
            bins: self.bins.deep_view(),
            linear: self.linear.deep_view(),
            lowest: self.lowest.deep_view(),
            layout: self.layout,
        }
    }
}

/// Every pair is a chunk: it starts no later than it ends.
pub open spec fn pairs_ok(pairs: Seq<(u64, u64)>) -> bool {
    forall|i: int| 0 <= i < pairs.len() ==> (#[trigger] pairs[i]).0 <= pairs[i].1
}

/// The chunks that pairs of packed offsets stand for.
pub open spec fn chunks_of(pairs: Seq<(u64, u64)>) -> Seq<Chunk> {
    Seq::new(
        pairs.len(),
        |i: int|
            Chunk {
                start: VirtualOffset::unpacked(pairs[i].0),
                end: VirtualOffset::unpacked(pairs[i].1),
            },
    )
}

/// The offsets that packed offsets stand for.
pub open spec fn offsets_of(packed: Seq<u64>) -> Seq<VirtualOffset> {
    Seq::new(packed.len(), |i: int| VirtualOffset::unpacked(packed[i]))
}

/// Every bin holds chunks only.
pub open spec fn bins_ok(bins: Seq<(u64, Seq<(u64, u64)>)>) -> bool {
    forall|i: int| 0 <= i < bins.len() ==> pairs_ok((#[trigger] bins[i]).1)
}

/// The bins that decoded bins stand for.
pub open spec fn bins_of(bins: Seq<(u64, Seq<(u64, u64)>)>) -> Seq<BinModel> {
    Seq::new(bins.len(), |i: int| BinModel { id: bins[i].0, chunks: chunks_of(bins[i].1) })
}

/// The linear index of reference sequence `i`: empty where the format
/// has none.
pub open spec fn linear_of(raw: RawIndexModel, i: int) -> Seq<VirtualOffset> {
    if raw.linear.len() == 0 {
        Seq::empty()
    } else {
        offsets_of(raw.linear[i])
    }
}

/// The offsets noted for the bins of reference sequence `i`: none where
/// the format notes none.
pub open spec fn lowest_of_raw(raw: RawIndexModel, i: int) -> Seq<(u64, VirtualOffset)> {
    if raw.lowest.len() == 0 {
        Seq::empty()
    } else {
        noted(raw.lowest[i])
    }
}

/// The offsets that packed offsets noted for bins stand for.
pub open spec fn noted(pairs: Seq<(u64, u64)>) -> Seq<(u64, VirtualOffset)> {
    Seq::new(pairs.len(), |j: int| (pairs[j].0, VirtualOffset::unpacked(pairs[j].1)))
}

/// A number written in base ten.
pub open spec fn digits(n: nat) -> Seq<u8>
    decreases n,
{
    if n < 10 {
        seq![(0x30 + n) as u8]
    } else {
        digits(n / 10).push((0x30 + n % 10) as u8)
    }
}

/// The name of reference sequence `i`: the one that the file gives it, or
/// its number where the file gives none.
pub open spec fn name_of(raw: RawIndexModel, i: int) -> Seq<u8> {
    match raw.names {
        Some(names) => names[i],
        None => digits(i as nat),
    }
}

/// No packed offset comes before the one before it.
pub open spec fn never_back(packed: Seq<u64>) -> bool {
    forall|a: int, b: int| 0 <= a <= b < packed.len() ==> #[trigger] packed[a] <= #[trigger] packed[b]
}

/// A decoded index can be planned against when its hierarchy is one that
/// 64-bit positions address, it names each of its reference sequences or
/// none, its linear indexes and its noted offsets, if it has any, are as
/// many as its reference sequences, every chunk starts no later than it
/// ends, and no linear index goes back.
pub open spec fn raw_ok(raw: RawIndexModel) -> bool {
    &&& geometry_ok(raw.min_shift, raw.depth)
    &&& raw.names matches Some(names) ==> names.len() == raw.bins.len()
    &&& raw.linear.len() == 0 || raw.linear.len() == raw.bins.len()
    &&& raw.lowest.len() == 0 || raw.lowest.len() == raw.bins.len()
    &&& forall|i: int| 0 <= i < raw.bins.len() ==> bins_ok(#[trigger] raw.bins[i])
    &&& forall|i: int| 0 <= i < raw.linear.len() ==> never_back(#[trigger] raw.linear[i])
}

/// The index that a decoded index stands for.
pub open spec fn index_of(raw: RawIndexModel) -> IndexModel {
    IndexModel {
        min_shift: raw.min_shift,
        depth: raw.depth,
        references: Seq::new(
            raw.bins.len(),
            |i: int|
                ReferenceModel {
                    name: name_of(raw, i),
                    bins: bins_of(raw.bins[i]),
                    linear: linear_of(raw, i),
                    lowest: lowest_of_raw(raw, i),
                },
        ),
        layout: raw.layout,
    }
}

/// Writes a number in base ten.
pub fn number_name(n: usize) -> (r: Vec<u8>)
    ensures
        r@ == digits(n as nat),
    decreases n,
{
    if n < 10 {
        let mut v: Vec<u8> = Vec::new();
        v.push(0x30 + n as u8);
        assert(v@ =~= digits(n as nat));
        v
    } else {
        let mut v = number_name(n / 10);
        v.push(0x30 + (n % 10) as u8);
        v
    }
}

/// Whether a linear index never goes back.
pub fn is_never_back(packed: &Vec<u64>) -> (r: bool)
    ensures
        r == never_back(packed@),
{
    let mut i: usize = 1;
    while i < packed.len()
        invariant
            1 <= i,
            forall|a: int, b: int|
                0 <= a <= b < i && b < packed@.len() ==> #[trigger] packed@[a] <= #[trigger] packed@[b],
        decreases packed.len() - i,
    {
        if packed[i - 1] > packed[i] {
            return false;
        }
        proof {
            assert forall|a: int, b: int| 0 <= a <= b < i + 1 && b < packed@.len() implies #[trigger] packed@[a]
                <= #[trigger] packed@[b] by {
                if b == i && a < i {
                    assert(packed@[a] <= packed@[i - 1]);
                }
            }
        }
        i += 1;
    }
    true
}

/// Unpacks the offsets noted for bins.
pub fn noted_from_raw(pairs: &Vec<(u64, u64)>) -> (r: Vec<(u64, VirtualOffset)>)
    ensures
        r@ == noted(pairs@),
        forall|j: int| 0 <= j < r@.len() ==> (#[trigger] r@[j]).1.wf(),
{
    let mut out: Vec<(u64, VirtualOffset)> = Vec::new();
    let mut i: usize = 0;
    while i < pairs.len()
        invariant
            i <= pairs.len(),
            out@.len() == i,
            forall|j: int| 0 <= j < i ==> out@[j] == noted(pairs@)[j] && (#[trigger] out@[j]).1.wf(),
        decreases pairs.len() - i,
    {
        out.push((pairs[i].0, VirtualOffset::from_packed(pairs[i].1)));
        i += 1;
    }
    proof {
        assert(out@ =~= noted(pairs@));
    }
    out
}

/// Unpacks the chunks of a bin; `None` where a pair ends before it
/// starts.
pub fn chunks_from_raw(pairs: &Vec<(u64, u64)>) -> (r: Option<Vec<Chunk>>)
    ensures
        r.is_some() <==> pairs_ok(pairs@),
        r matches Some(v) ==> v@ == chunks_of(pairs@) && crate::merge::all_wf(v@),
{
    let mut out: Vec<Chunk> = Vec::new();
    let mut i: usize = 0;
    while i < pairs.len()
        invariant
            i <= pairs.len(),
            out@.len() == i,
            forall|j: int| 0 <= j < i ==> (#[trigger] pairs@[j]).0 <= pairs@[j].1,
            forall|j: int| 0 <= j < i ==> out@[j] == chunks_of(pairs@)[j] && (#[trigger] out@[j]).wf(),
        decreases pairs.len() - i,
    {
        let p = pairs[i];
        let start = VirtualOffset::from_packed(p.0);
        let end = VirtualOffset::from_packed(p.1);
        match Chunk::new(start, end) {
            Some(c) => out.push(c),
            None => {
                assert(!(pairs@[i as int].0 <= pairs@[i as int].1));
                return None;
            },
        }
        i += 1;
    }
    proof {
        assert(out@ =~= chunks_of(pairs@));
    }
    Some(out)
}

/// Unpacks a linear index.
pub fn offsets_from_raw(packed: &Vec<u64>) -> (r: Vec<VirtualOffset>)
    ensures
        r@ == offsets_of(packed@),
        forall|j: int| 0 <= j < r@.len() ==> (#[trigger] r@[j]).wf() && r@[j].key() == packed@[j],
{
    let mut out: Vec<VirtualOffset> = Vec::new();
    let mut i: usize = 0;
    while i < packed.len()
        invariant
            i <= packed.len(),
            out@.len() == i,
            forall|j: int|
                0 <= j < i ==> out@[j] == offsets_of(packed@)[j] && (#[trigger] out@[j]).wf()
                    && out@[j].key() == packed@[j],
        decreases packed.len() - i,
    {
        out.push(VirtualOffset::from_packed(packed[i]));
        i += 1;
    }
    proof {
        assert(out@ =~= offsets_of(packed@));
    }
    out
}

/// Unpacks the bins of a reference sequence; `None` where one of them
/// holds a pair that ends before it starts.
pub fn bins_from_raw(bins: &Vec<(u64, Vec<(u64, u64)>)>) -> (r: Option<Vec<Bin>>)
    ensures
        r.is_some() <==> bins_ok(bins.deep_view()),
        r matches Some(v) ==> {
            &&& v@.len() == bins@.len()
            &&& forall|j: int| 0 <= j < v@.len() ==> (#[trigger] v@[j])@ == bins_of(bins.deep_view())[j]
            &&& forall|j: int| 0 <= j < v@.len() ==> crate::merge::all_wf((#[trigger] v@[j]).chunks@)
        },
{
    let ghost deep = bins.deep_view();
    let mut out: Vec<Bin> = Vec::new();
    let mut i: usize = 0;
    while i < bins.len()
        invariant
            i <= bins.len(),
            deep == bins.deep_view(),
            out@.len() == i,
            forall|j: int| 0 <= j < i ==> pairs_ok((#[trigger] deep[j]).1),
            forall|j: int| 0 <= j < i ==> (#[trigger] out@[j])@ == bins_of(deep)[j],
            forall|j: int| 0 <= j < i ==> crate::merge::all_wf((#[trigger] out@[j]).chunks@),
        decreases bins.len() - i,
    {
        let id: u64 = bins[i].0;
        proof {
            assert(deep[i as int] == (bins@[i as int].0, bins@[i as int].1.deep_view()));
            assert(bins@[i as int].1.deep_view() =~= bins@[i as int].1@);
        }
        match chunks_from_raw(&bins[i].1) {
            Some(chunks) => out.push(Bin { id, chunks }),
            None => {
                assert(!pairs_ok(deep[i as int].1));
                return None;
            },
        }
        i += 1;
    }
    Some(out)
}

impl FileIndex {
    /// Builds the index that a decoded index stands for. Fails with
    /// `MalformedIndex` where the decoded index cannot be planned against.
    pub fn from_raw(raw: &RawIndex) -> (r: Result<FileIndex, Error>)
        ensures
            raw_ok(raw@) <==> r.is_ok(),
            r matches Ok(index) ==> index@ == index_of(raw@) && index.wf(),
            r matches Err(e) ==> e == Error::MalformedIndex,
    {
        if raw.min_shift as u64 + 3 * (raw.depth as u64) > 60 {
            return Err(Error::MalformedIndex);
        }
        let n: usize = raw.bins.len();
        match &raw.names {
            Some(names) => {
                if names.len() != n {
                    return Err(Error::MalformedIndex);
                }
            },
            None => {},
        }
        if (raw.linear.len() != 0 && raw.linear.len() != n) || (raw.lowest.len() != 0
            && raw.lowest.len() != n) {
            return Err(Error::MalformedIndex);
        }
        let ghost model = raw@;
        let mut references: Vec<ReferenceIndex> = Vec::new();
        let mut i: usize = 0;
        while i < n
            invariant
                i <= n,
                n == raw.bins@.len(),
                model == raw@,
                raw.names matches Some(names) ==> names@.len() == n,
                raw.linear@.len() == 0 || raw.linear@.len() == n,
                raw.lowest@.len() == 0 || raw.lowest@.len() == n,
                references@.len() == i,
                forall|j: int| 0 <= j < i ==> bins_ok(#[trigger] model.bins[j]),
                forall|j: int| 0 <= j < i && j < model.linear.len() ==> never_back(#[trigger] model.linear[j]),
                forall|j: int|
                    0 <= j < i ==> (#[trigger] references@[j])@ == index_of(model).references[j],
                forall|j: int| 0 <= j < i ==> (#[trigger] references@[j]).wf(),
            decreases n - i,
        {
            let name = match &raw.names {
                Some(names) => {
                    let name = crate::region::copy_range(names[i].as_slice(), 0, names[i].len());
                    proof {
                        assert(name@ =~= names@[i as int]@);
                        assert(names@[i as int].deep_view() =~= names@[i as int]@);
                        assert(model.names->Some_0[i as int] == name@);
                    }
                    name
                },
                None => number_name(i),
            };
            let linear = if raw.linear.len() == 0 {
                Vec::new()
            } else {
                proof {
                    assert(model.linear[i as int] =~= raw.linear@[i as int]@);
                }
                if !is_never_back(&raw.linear[i]) {
                    return Err(Error::MalformedIndex);
                }
                offsets_from_raw(&raw.linear[i])
            };
            let lowest = if raw.lowest.len() == 0 {
                Vec::new()
            } else {
                proof {
                    assert(model.lowest[i as int] =~= raw.lowest@[i as int]@);
                }
                noted_from_raw(&raw.lowest[i])
            };
            proof {
                assert(model.bins[i as int] == raw.bins@[i as int].deep_view());
                assert(linear@ == linear_of(model, i as int));
                assert(lowest@ == lowest_of_raw(model, i as int));
                assert(name@ == name_of(model, i as int));
            }
            match bins_from_raw(&raw.bins[i]) {
                Some(bins) => {
                    let reference = ReferenceIndex { name, bins, linear, lowest };
                    proof {
                        assert(reference@.bins =~= bins_of(model.bins[i as int]));
                    }
                    references.push(reference);
                },
                None => {
                    return Err(Error::MalformedIndex);
                },
            }
            i += 1;
        }
        let index = FileIndex {
            min_shift: raw.min_shift,
            depth: raw.depth,
            references,
            layout: raw.layout,
        };
        proof {
            assert(index@.references =~= index_of(model).references);
        }
        Ok(index)
    }
}

} // verus!
