//! The region index in memory, and the planning of a query against it.

use vstd::prelude::*;
use vstd::arithmetic::power2::{pow2, lemma_pow2_pos, lemma_pow2_strictly_increases, lemma2_to64_rest};
use vstd::bits::lemma_u64_shr_is_div;
use crate::bins::{candidate, finest_bin, finest_bin_of, geometry_ok, is_candidate, parent};
use crate::error::Error;
use crate::merge::{all_wf, optimize_chunks, optimize_spec};
use crate::offset::{Chunk, VirtualOffset};
use crate::region::{Interval, Region, RegionModel};

verus! {

/// A bin of the hierarchy with the chunks that hold its records.
#[derive(Debug)]
pub struct Bin {
    pub id: u64,
    pub chunks: Vec<Chunk>,
}

/// The index of one reference sequence: its bins, and what prunes them.
/// That is a linear index, which gives for each window of `2^min_shift`
/// positions the lowest offset at which a record that overlaps the window
/// starts; or, where the file has no linear index, for bins by their
/// number the lowest offset at which a record of the bin starts.
#[derive(Debug)]
pub struct ReferenceIndex {
    pub name: Vec<u8>,
    pub bins: Vec<Bin>,
    pub linear: Vec<VirtualOffset>,
    pub lowest: Vec<(u64, VirtualOffset)>,
}

/// How the lines of a file count positions.
#[derive(Clone, Copy, Debug, PartialEq, Eq, Structural)]
pub enum LineFormat {
    /// Columns as the layout says, positions from 1, the last counted in.
    Gff,
    /// Columns as the layout says, positions from 0, the end left out.
    Bed,
    /// Alignment lines.
    Sam,
    /// Variant lines.
    Vcf,
}

/// Where the lines of a file hold what the index is built on: the columns
/// of the reference sequence name and of the start and end positions, the
/// byte that opens a comment line, and the number of lines to skip at the
/// top.
#[derive(Clone, Copy, Debug, PartialEq, Eq, Structural)]
pub struct Layout {
    pub format: LineFormat,
    pub name_column: usize,
    pub start_column: usize,
    pub end_column: Option<usize>,
    pub comment: u8,
    pub skip: u32,
}

/// The index of a file: one reference index per reference sequence, in
/// file order, and the layout of the lines where the file gives one. It
/// is built once and only read afterwards.
#[derive(Debug)]
pub struct FileIndex {
    pub min_shift: u8,
    pub depth: u8,
    pub references: Vec<ReferenceIndex>,
    pub layout: Option<Layout>,
}

/// What a bin is: its number and its chunks.
pub struct BinModel {
    pub id: u64,
    pub chunks: Seq<Chunk>,
}

/// What the index of a reference sequence is.
pub struct ReferenceModel {
    pub name: Seq<u8>,
    pub bins: Seq<BinModel>,
    pub linear: Seq<VirtualOffset>,
    pub lowest: Seq<(u64, VirtualOffset)>,
}

/// What an index is.
pub struct IndexModel {
    pub min_shift: u8,
    pub depth: u8,
    pub references: Seq<ReferenceModel>,
    pub layout: Option<Layout>,
}

impl View for Bin {
    type V = BinModel;

    open spec fn view(&self) -> BinModel {
        BinModel { id: self.id, chunks: self.chunks@ }
    }
}

impl View for ReferenceIndex {
    type V = ReferenceModel;

    open spec fn view(&self) -> ReferenceModel {
        ReferenceModel {
            name: self.name@,
            bins: Seq::new(self.bins@.len(), |i: int| self.bins@[i]@),
            linear: self.linear@,
            lowest: self.lowest@,
        }
    }
}

impl View for FileIndex {
    type V = IndexModel;

    open spec fn view(&self) -> IndexModel {
        IndexModel {
            min_shift: self.min_shift,
            depth: self.depth,
            references: Seq::new(self.references@.len(), |i: int| self.references@[i]@),
            layout: self.layout,
        }
    }
}

/// The chunks of the bins that are candidates for `[beg, end)`, bin by
/// bin in the order of the index.
pub open spec fn gather_spec(bins: Seq<Bin>, beg: int, end: int, min_shift: nat, depth: nat) -> Seq<
    Chunk,
>
    decreases bins.len(),
{
    if bins.len() == 0 {
        Seq::empty()
    } else if candidate(bins.last().id as int, beg, end, min_shift, depth) {
        gather_spec(bins.drop_last(), beg, end, min_shift, depth) + bins.last().chunks@
    } else {
        gather_spec(bins.drop_last(), beg, end, min_shift, depth)
    }
}

/// The lowest offset at which a record that reaches position `beg` can
/// start: the entry of the window that holds `beg`, and the start of the
/// stream where the linear index has no such entry.
pub open spec fn min_offset_spec(linear: Seq<VirtualOffset>, beg: int, min_shift: nat) -> VirtualOffset {
    let w = beg / (pow2(min_shift) as int);
    if 0 <= w < linear.len() {
        linear[w]
    } else {
        VirtualOffset::origin()
    }
}

/// The offset noted for a bin; `None` where none is noted.
pub open spec fn lowest_of(lowest: Seq<(u64, VirtualOffset)>, bin: int) -> Option<VirtualOffset>
    decreases lowest.len(),
{
    if lowest.len() == 0 {
        None
    } else {
        match lowest_of(lowest.drop_last(), bin) {
            Some(v) => Some(v),
            None => if lowest.last().0 == bin {
                Some(lowest.last().1)
            } else {
                None
            },
        }
    }
}

/// The offset noted for a bin or, where none is noted, for the nearest
/// bin above it that has one; the start of the stream where no bin up to
/// the root has one.
pub open spec fn climb(lowest: Seq<(u64, VirtualOffset)>, bin: int) -> VirtualOffset
    decreases bin,
{
    match lowest_of(lowest, bin) {
        Some(v) => v,
        None => if bin <= 0 {
            VirtualOffset::origin()
        } else {
            climb(lowest, parent(bin))
        },
    }
}

/// The lowest offset at which a record that reaches position `beg` can
/// start, by the offsets noted for bins: the one of the finest bin that
/// holds `beg`, or of the nearest bin above it.
pub open spec fn bin_offset_spec(
    lowest: Seq<(u64, VirtualOffset)>,
    beg: int,
    min_shift: nat,
    depth: nat,
) -> VirtualOffset {
    if beg < pow2(min_shift + 3 * depth) {
        climb(lowest, finest_bin(beg, min_shift, depth))
    } else {
        VirtualOffset::origin()
    }
}

proof fn lemma_lowest_prefix(lowest: Seq<(u64, VirtualOffset)>, bin: int, k: int, v: VirtualOffset)
    requires
        0 <= k <= lowest.len(),
        lowest_of(lowest.take(k), bin) == Some(v),
    ensures
        lowest_of(lowest, bin) == Some(v),
    decreases lowest.len() - k,
{
    if k == lowest.len() {
        assert(lowest.take(k) == lowest);
    } else {
        assert(lowest.take(k + 1).drop_last() == lowest.take(k));
        lemma_lowest_prefix(lowest, bin, k + 1, v);
    }
}

/// No offset of the sequence comes before the one before it.
pub open spec fn non_decreasing(s: Seq<VirtualOffset>) -> bool {
    forall|i: int, j: int| 0 <= i <= j < s.len() ==> (#[trigger] s[i]).key() <= (#[trigger] s[j]).key()
}

/// The first reference sequence of that name; `None` where there is none.
pub open spec fn find_spec(refs: Seq<ReferenceIndex>, name: Seq<u8>) -> Option<int>
    decreases refs.len(),
{
    if refs.len() == 0 {
        None
    } else {
        match find_spec(refs.drop_last(), name) {
            Some(i) => Some(i),
            None => if refs.last().name@ == name {
                Some(refs.len() - 1)
            } else {
                None
            },
        }
    }
}

/// `find_spec` gives the first reference sequence of that name, and
/// `None` only where no reference sequence has it.
pub proof fn lemma_find(refs: Seq<ReferenceIndex>, name: Seq<u8>)
    ensures
        match find_spec(refs, name) {
            Some(i) => 0 <= i < refs.len() && refs[i].name@ == name && forall|j: int|
                0 <= j < i ==> (#[trigger] refs[j]).name@ != name,
            None => forall|j: int| 0 <= j < refs.len() ==> (#[trigger] refs[j]).name@ != name,
        },
    decreases refs.len(),
{
    if refs.len() > 0 {
        let d = refs.drop_last();
        lemma_find(d, name);
        assert forall|j: int| 0 <= j < d.len() implies d[j] == refs[j] by {}
        match find_spec(d, name) {
            Some(i) => {
                assert(d[i] == refs[i]);
                assert forall|j: int| 0 <= j < i implies (#[trigger] refs[j]).name@ != name by {
                    assert(d[j] == refs[j]);
                }
            },
            None => {
                assert forall|j: int| 0 <= j < d.len() implies (#[trigger] refs[j]).name@
                    != name by {
                    assert(d[j] == refs[j]);
                }
            },
        }
    }
}

proof fn lemma_find_prefix(refs: Seq<ReferenceIndex>, name: Seq<u8>, k: int, i: int)
    requires
        0 <= k <= refs.len(),
        find_spec(refs.take(k), name) == Some(i),
    ensures
        find_spec(refs, name) == Some(i),
    decreases refs.len() - k,
{
    if k == refs.len() {
        assert(refs.take(k) == refs);
    } else {
        assert(refs.take(k + 1).drop_last() == refs.take(k));
        lemma_find_prefix(refs, name, k + 1, i);
    }
}

impl ReferenceIndex {
    /// Every chunk starts no later than it ends, every offset fits the
    /// packed form, and the linear index never goes back.
    pub open spec fn wf(&self) -> bool {
        &&& forall|i: int| 0 <= i < self.bins@.len() ==> all_wf((#[trigger] self.bins@[i]).chunks@)
        &&& forall|j: int| 0 <= j < self.linear@.len() ==> (#[trigger] self.linear@[j]).wf()
        &&& forall|j: int| 0 <= j < self.lowest@.len() ==> (#[trigger] self.lowest@[j]).1.wf()
        &&& non_decreasing(self.linear@)
    }

    /// The lowest offset at which a record that reaches position `beg` can
    /// start: by the linear index, or by the offsets noted for bins where
    /// there are any.
    pub open spec fn floor(&self, beg: int, min_shift: nat, depth: nat) -> VirtualOffset {
        if self.lowest@.len() > 0 {
            bin_offset_spec(self.lowest@, beg, min_shift, depth)
        } else {
            min_offset_spec(self.linear@, beg, min_shift)
        }
    }

    /// The chunks to visit for the records that overlap `[beg, end)`.
    pub open spec fn planned(&self, beg: int, end: int, min_shift: nat, depth: nat) -> Seq<Chunk> {
        optimize_spec(
            gather_spec(self.bins@, beg, end, min_shift, depth),
            self.floor(beg, min_shift, depth),
        )
    }

    /// The offset noted for a bin, if any.
    pub fn lowest_for(&self, bin: u64) -> (r: Option<VirtualOffset>)
        ensures
            r == lowest_of(self.lowest@, bin as int),
    {
        let mut i: usize = 0;
        while i < self.lowest.len()
            invariant
                i <= self.lowest.len(),
                lowest_of(self.lowest@.take(i as int), bin as int).is_none(),
            decreases self.lowest.len() - i,
        {
            proof {
                assert(self.lowest@.take(i + 1).drop_last() == self.lowest@.take(i as int));
                assert(self.lowest@.take(i + 1).last() == self.lowest@[i as int]);
            }
            if self.lowest[i].0 == bin {
                proof {
                    lemma_lowest_prefix(self.lowest@, bin as int, i + 1, self.lowest@[i as int].1);
                }
                return Some(self.lowest[i].1);
            }
            i += 1;
        }
        proof {
            assert(self.lowest@.take(i as int) == self.lowest@);
        }
        None
    }

    /// The lowest offset at which a record that reaches `beg` can start.
    pub fn min_offset(&self, beg: u64, min_shift: u8, depth: u8) -> (r: VirtualOffset)
        requires
            geometry_ok(min_shift, depth),
        ensures
            r == self.floor(beg as int, min_shift as nat, depth as nat),
    {
        if self.lowest.len() > 0 {
            let s: u64 = min_shift as u64 + 3 * (depth as u64);
            proof {
                lemma_pow2_pos(s as nat);
                lemma2_to64_rest();
                if s < 60 {
                    lemma_pow2_strictly_increases(s as nat, 60);
                }
                assert(1u64 << s == pow2(s as nat)) by {
                    vstd::bits::lemma_u64_shl_is_mul(1, s);
                }
            }
            if beg >= 1u64 << s {
                return VirtualOffset::zero();
            }
            assert(pow2(s as nat) == pow2(min_shift as nat + 3 * (depth as nat)));
            let mut bin: u64 = finest_bin_of(beg, min_shift, depth);
            loop
                invariant
                    self.floor(beg as int, min_shift as nat, depth as nat) == climb(
                        self.lowest@,
                        bin as int,
                    ),
                decreases bin,
            {
                match self.lowest_for(bin) {
                    Some(v) => {
                        return v;
                    },
                    None => {},
                }
                if bin == 0 {
                    return VirtualOffset::zero();
                }
                bin = (bin - 1) / 8;
            }
        }
        let w: u64 = beg >> (min_shift as u64);
        proof {
            lemma_u64_shr_is_div(beg, min_shift as u64);
        }
        if w < self.linear.len() as u64 {
            self.linear[w as usize]
        } else {
            VirtualOffset::zero()
        }
    }

    /// Collects the chunks of the bins that are candidates for
    /// `[beg, end)`.
    pub fn gather(&self, beg: u64, end: u64, min_shift: u8, depth: u8) -> (r: Vec<Chunk>)
        requires
            geometry_ok(min_shift, depth),
        ensures
            r@ == gather_spec(self.bins@, beg as int, end as int, min_shift as nat, depth as nat),
    {
        let mut out: Vec<Chunk> = Vec::new();
        let mut i: usize = 0;
        while i < self.bins.len()
            invariant
                geometry_ok(min_shift, depth),
                i <= self.bins.len(),
                out@ == gather_spec(
                    self.bins@.take(i as int),
                    beg as int,
                    end as int,
                    min_shift as nat,
                    depth as nat,
                ),
            decreases self.bins.len() - i,
        {
            let bin = &self.bins[i];
            proof {
                assert(self.bins@.take(i + 1).drop_last() == self.bins@.take(i as int));
            }
            if is_candidate(bin.id, beg, end, min_shift, depth) {
                let ghost before = out@;
                let mut j: usize = 0;
                while j < bin.chunks.len()
                    invariant
                        j <= bin.chunks.len(),
                        out@ == before + bin.chunks@.take(j as int),
                    decreases bin.chunks.len() - j,
                {
                    out.push(bin.chunks[j]);
                    proof {
                        assert(bin.chunks@.take(j + 1) == bin.chunks@.take(j as int).push(
                            bin.chunks@[j as int],
                        ));
                    }
                    j += 1;
                }
                proof {
                    assert(bin.chunks@.take(j as int) == bin.chunks@);
                }
            }
            i += 1;
        }
        proof {
            assert(self.bins@.take(i as int) == self.bins@);
        }
        out
    }

    /// Plans the visit for `[beg, end)`: the chunks of the candidate bins
    /// that the linear index does not rule out, in ascending order of
    /// start, touching and overlapping ones made one.
    pub fn plan(&self, beg: u64, end: u64, min_shift: u8, depth: u8) -> (r: Vec<Chunk>)
        requires
            geometry_ok(min_shift, depth),
        ensures
            r@ == self.planned(beg as int, end as int, min_shift as nat, depth as nat),
    {
        let chunks = self.gather(beg, end, min_shift, depth);
        let min = self.min_offset(beg, min_shift, depth);
        optimize_chunks(&chunks, min)
    }
}

/// Whether two byte strings are the same.
pub fn bytes_eq(a: &[u8], b: &[u8]) -> (r: bool)
    ensures
        r == (a@ == b@),
{
    if a.len() != b.len() {
        return false;
    }
    let mut i: usize = 0;
    while i < a.len()
        invariant
            i <= a.len(),
            a.len() == b.len(),
            forall|j: int| 0 <= j < i ==> a@[j] == b@[j],
        decreases a.len() - i,
    {
        if a[i] != b[i] {
            return false;
        }
        i += 1;
    }
    proof {
        assert(a@ =~= b@);
    }
    true
}

impl FileIndex {
    /// The hierarchy is one that 64-bit positions can address, and every
    /// reference index is well formed.
    pub open spec fn wf(&self) -> bool {
        &&& geometry_ok(self.min_shift, self.depth)
        &&& forall|i: int| 0 <= i < self.references@.len() ==> (#[trigger] self.references@[i]).wf()
    }

    /// The number of positions that the hierarchy spans.
    pub open spec fn span(&self) -> nat {
        pow2((self.min_shift + 3 * self.depth) as nat)
    }

    /// The interval that a region asks for: its own, or the whole span
    /// where it names none.
    pub open spec fn window(&self, interval: Option<Interval>) -> Interval {
        match interval {
            Some(i) => i,
            None => Interval { start: 0, end: self.span() as u64 },
        }
    }

    /// The chunks to visit for a region; `MalformedIndex` where the
    /// hierarchy is deeper than positions of 64 bits address, and
    /// `ReferenceNotFound` where the index has no reference sequence of
    /// the region's name.
    pub open spec fn plan_spec(&self, region: RegionModel) -> Result<Seq<Chunk>, Error> {
        if !geometry_ok(self.min_shift, self.depth) {
            Err(Error::MalformedIndex)
        } else {
            self.plan_in(region)
        }
    }

    /// The chunks to visit for a region in an index whose hierarchy can be
    /// addressed.
    pub open spec fn plan_in(&self, region: RegionModel) -> Result<Seq<Chunk>, Error> {
        match find_spec(self.references@, region.name) {
            Some(i) => {
                let w = self.window(region.interval);
                Ok(
                    self.references@[i].planned(
                        w.start as int,
                        w.end as int,
                        self.min_shift as nat,
                        self.depth as nat,
                    ),
                )
            },
            None => Err(Error::ReferenceNotFound),
        }
    }

    /// Finds the first reference sequence of that name.
    pub fn find_reference(&self, name: &[u8]) -> (r: Option<usize>)
        ensures
            r.is_some() <==> find_spec(self.references@, name@).is_some(),
            r matches Some(i) ==> i < self.references@.len() && find_spec(self.references@, name@)
                == Some(i as int),
    {
        let mut i: usize = 0;
        while i < self.references.len()
            invariant
                i <= self.references.len(),
                find_spec(self.references@.take(i as int), name@).is_none(),
            decreases self.references.len() - i,
        {
            proof {
                assert(self.references@.take(i + 1).drop_last() == self.references@.take(i as int));
            }
            if bytes_eq(self.references[i].name.as_slice(), name) {
                proof {
                    assert(self.references@.take(i + 1).last() == self.references@[i as int]);
                    lemma_find_prefix(self.references@, name@, i + 1, i as int);
                }
                return Some(i);
            }
            i += 1;
        }
        proof {
            assert(self.references@.take(i as int) == self.references@);
        }
        None
    }

    /// The interval that a region asks for.
    pub fn resolve(&self, interval: Option<Interval>) -> (r: Interval)
        requires
            geometry_ok(self.min_shift, self.depth),
        ensures
            r == self.window(interval),
    {
        match interval {
            Some(i) => i,
            None => {
                let s: u64 = self.min_shift as u64 + 3 * (self.depth as u64);
                proof {
                    lemma_pow2_pos(s as nat);
                    lemma2_to64_rest();
                    if s < 60 {
                        lemma_pow2_strictly_increases(s as nat, 60);
                    }
                    assert(1u64 << s == pow2(s as nat)) by {
                        vstd::bits::lemma_u64_shl_is_mul(1, s);
                    }
                }
                Interval { start: 0, end: 1u64 << s }
            },
        }
    }

    /// Plans a query: the ordered chunks to scan for the records that
    /// overlap the region. An empty interval gives no chunk and no error.
    pub fn query(&self, region: &Region) -> (r: Result<Vec<Chunk>, Error>)
        ensures
            match self.plan_spec(region@) {
                Ok(chunks) => r.is_ok() && r.unwrap()@ == chunks,
                Err(e) => r == Err::<Vec<Chunk>, Error>(e),
            },
    {
        if self.min_shift as u64 + 3 * (self.depth as u64) > 60 {
            return Err(Error::MalformedIndex);
        }
        let name = region.name.as_slice();
        match self.find_reference(name) {
            Some(i) => {
                let w = self.resolve(region.interval);
                let chunks = self.references[i].plan(w.start, w.end, self.min_shift, self.depth);
                Ok(chunks)
            },
            None => Err(Error::ReferenceNotFound),
        }
    }
}

} // verus!
