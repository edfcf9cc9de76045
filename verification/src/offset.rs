//! Virtual offsets into a block-compressed stream, and chunks of them.

use vstd::prelude::*;

verus! {

/// The largest block start that a packed virtual offset can carry (48 bits).
pub const MAX_BLOCK_START: u64 = 0xffff_ffff_ffff;

/// An address in a block-compressed stream: the byte at which a compressed
/// block starts, and a position inside that block once it is decompressed.
#[derive(Clone, Copy, Debug, PartialEq, Eq, Structural)]
pub struct VirtualOffset {
    pub block: u64,
    pub inner: u16,
}

impl VirtualOffset {
    /// The start of the compressed block.
    pub open spec fn block_start(self) -> u64 {
        self.block
    }

    /// The position inside the decompressed block.
    pub open spec fn within(self) -> u16 {
        self.inner
    }

    /// The first offset of a stream.
    pub open spec fn origin() -> VirtualOffset {
        VirtualOffset { block: 0, inner: 0 }
    }

    /// The offset as one number: the block start in the high 48 bits, the
    /// inner position in the low 16. Offsets are ordered as their keys are.
    pub open spec fn key(self) -> int {
        self.block_start() * 0x1_0000 + self.within()
    }

    /// An offset always fits the packed form.
    pub open spec fn wf(self) -> bool {
        self.block_start() <= MAX_BLOCK_START
    }

    /// Builds an offset from its two parts; `None` when the block start
    /// does not fit in 48 bits.
    pub fn new(block: u64, inner: u16) -> (r: Option<VirtualOffset>)
        ensures
            block <= MAX_BLOCK_START <==> r.is_some(),
            r matches Some(v) ==> v.wf() && v.block_start() == block && v.within() == inner,
    {
        if block <= MAX_BLOCK_START {
            Some(VirtualOffset { block, inner })
        } else {
            None
        }
    }

    /// The offset that a packed 64-bit value stands for: the block start
    /// from its high 48 bits, the inner position from its low 16.
    pub open spec fn unpacked(packed: u64) -> VirtualOffset {
        VirtualOffset { block: packed / 0x1_0000, inner: (packed % 0x1_0000) as u16 }
    }

    /// The offset that a packed 64-bit value stands for.
    pub fn from_packed(packed: u64) -> (r: VirtualOffset)
        ensures
            r == Self::unpacked(packed),
            r.wf(),
            r.key() == packed,
    {
        let block: u64 = packed >> 16;
        let low: u64 = packed & 0xffff;
        assert(block <= 0xffff_ffff_ffff && low <= 0xffff && block * 0x1_0000 + low == packed
            && block == packed / 0x1_0000 && low == packed % 0x1_0000) by (bit_vector)
            requires
                block == packed >> 16,
                low == packed & 0xffff,
        ;
        let inner: u16 = low as u16;
        VirtualOffset { block, inner }
    }

    /// The packed 64-bit value of this offset.
    pub fn to_packed(self) -> (r: u64)
        requires
            self.wf(),
        ensures
            r == self.key(),
    {
        self.block * 0x1_0000 + (self.inner as u64)
    }

    /// The offset of the very start of a stream.
    pub fn zero() -> (r: VirtualOffset)
        ensures
            r == Self::origin(),
    {
        VirtualOffset { block: 0, inner: 0 }
    }

    /// The start of the compressed block.
    pub fn compressed(self) -> (r: u64)
        ensures
            r == self.block_start(),
    {
        self.block
    }

    /// The position inside the decompressed block.
    pub fn uncompressed(self) -> (r: u16)
        ensures
            r == self.within(),
    {
        self.inner
    }

    /// Whether this offset comes strictly before `other`: block starts are
    /// compared first, inner positions second.
    pub fn precedes(self, other: VirtualOffset) -> (r: bool)
        ensures
            r == (self.key() < other.key()),
            r == (self.block_start() < other.block_start() || (self.block_start()
                == other.block_start() && self.within() < other.within())),
    {
        self.block < other.block || (self.block == other.block && self.inner < other.inner)
    }

    /// Whether this offset comes before `other` or is equal to it.
    pub fn at_or_before(self, other: VirtualOffset) -> (r: bool)
        ensures
            r == (self.key() <= other.key()),
    {
        self.block < other.block || (self.block == other.block && self.inner <= other.inner)
    }
}

/// Two offsets with one key are one offset.
pub proof fn lemma_key_injective(a: VirtualOffset, b: VirtualOffset)
    requires
        a.key() == b.key(),
    ensures
        a == b,
{
}

/// The order of offsets is total: of two offsets one precedes the other, or
/// they are equal.
pub proof fn lemma_order_total(a: VirtualOffset, b: VirtualOffset)
    ensures
        a.key() < b.key() || b.key() < a.key() || a == b,
{
}

/// A half-open span `[start, end)` of a compressed stream.
#[derive(Clone, Copy, Debug, PartialEq, Eq, Structural)]
pub struct Chunk {
    pub start: VirtualOffset,
    pub end: VirtualOffset,
}

impl Chunk {
    /// A chunk never ends before it starts.
    pub open spec fn wf(self) -> bool {
        &&& self.start.wf()
        &&& self.end.wf()
        &&& self.start.key() <= self.end.key()
    }

    /// Whether the chunk holds the offset with this key.
    pub open spec fn holds(self, key: int) -> bool {
        self.start.key() <= key < self.end.key()
    }

    /// Builds the chunk `[start, end)`; `None` when `end` comes before
    /// `start`.
    pub fn new(start: VirtualOffset, end: VirtualOffset) -> (r: Option<Chunk>)
        requires
            start.wf(),
            end.wf(),
        ensures
            start.key() <= end.key() <==> r.is_some(),
            r matches Some(c) ==> c.wf() && c.start == start && c.end == end,
    {
        if start.at_or_before(end) {
            Some(Chunk { start, end })
        } else {
            None
        }
    }
}

} // verus!
