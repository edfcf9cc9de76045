//! Loading an index from its bytes.
//!
//! An index file is block-compressed. Its first four decompressed bytes
//! say which of the two index formats it holds, and the decoder of that
//! format is then run on the whole file.

use vstd::prelude::*;
use std::io::Read;
use noodles::csi::BinningIndex;
use noodles::csi::binning_index::index::reference_sequence::Bin;
use crate::error::Error;
use noodles::csi::binning_index::index::header::format::CoordinateSystem;
use noodles::csi::binning_index::index::header::Format;
use crate::index::{FileIndex, Layout, LineFormat};
use crate::raw::{index_of, raw_ok, RawIndex, RawIndexModel};

verus! {

/// The index type of `noodles::csi::binning_index`, opaque here: it is
/// decoded, carried and read out through the functions below.
#[verifier::external_type_specification]
#[verifier::external_body]
#[verifier::reject_recursive_types(I)]
pub struct ExBinningIndex<I>(noodles::csi::binning_index::Index<I>);

/// The packed offset type of `noodles::bgzf`, opaque here.
#[verifier::external_type_specification]
#[verifier::external_body]
pub struct ExVirtualPosition(noodles::bgzf::VirtualPosition);

/// A decoded index of the hierarchical format, as `noodles::csi` holds it:
/// its bins and noted offsets lie in maps of a crate that cannot be named
/// here, so the index is kept whole behind this struct.
#[verifier::external_body]
pub struct HierarchicalIndex {
    inner: noodles::csi::Index,
}

/// The first four bytes of the block-compressed stream `bytes` once
/// decompressed; `None` where the stream does not decompress that far.
pub uninterp spec fn bgzf_head(bytes: Seq<u8>) -> Option<Seq<u8>>;

/// The index that `bytes` hold in the fixed-bin format; `None` where they
/// hold none.
pub uninterp spec fn tabix_decoded(bytes: Seq<u8>) -> Option<RawIndexModel>;

/// The index that `bytes` hold in the hierarchical format; `None` where
/// they hold none.
pub uninterp spec fn csi_decoded(bytes: Seq<u8>) -> Option<RawIndexModel>;

/// The four bytes that open an index in the fixed-bin format.
pub open spec fn tabix_magic() -> Seq<u8> {
    seq![0x54u8, 0x42u8, 0x49u8, 0x01u8]
}

/// What a decoded index of the fixed-bin format holds.
pub uninterp spec fn held(index: noodles::tabix::Index) -> RawIndexModel;

/// What a decoded index of the hierarchical format holds.
pub uninterp spec fn csi_held(index: HierarchicalIndex) -> RawIndexModel;

/// Decompresses the first four bytes of a block-compressed stream, with
/// `noodles::bgzf::io::Reader::new` and `read_exact` on that reader. The
/// result is `bgzf_head` of the bytes given: the decoder reads nothing but
/// them.
#[verifier::external_body]
fn read_magic(bytes: &[u8]) -> (r: Option<[u8; 4]>)
    ensures
        r.is_some() <==> bgzf_head(bytes@).is_some(),
        r matches Some(m) ==> bgzf_head(bytes@) == Some(m@),
{
    let mut magic = [0; 4];
    noodles::bgzf::io::Reader::new(bytes).read_exact(&mut magic).ok()?;
    Some(magic)
}

/// Decodes an index in the fixed-bin format with
/// `noodles::tabix::io::Reader::read_index`. Whether it succeeds and what
/// the index holds are `tabix_decoded` of the bytes given.
#[verifier::external_body]
fn decode_tabix(bytes: &[u8]) -> (r: Option<noodles::tabix::Index>)
    ensures
        r.is_some() <==> tabix_decoded(bytes@).is_some(),
        r matches Some(index) ==> tabix_decoded(bytes@) == Some(held(index)),
{
    noodles::tabix::io::Reader::new(bytes).read_index().ok()
}

/// Decodes an index in the hierarchical format with
/// `noodles::csi::io::Reader::read_index`. Whether it succeeds and what
/// the index holds are `csi_decoded` of the bytes given.
#[verifier::external_body]
fn decode_csi(bytes: &[u8]) -> (r: Option<HierarchicalIndex>)
    ensures
        r.is_some() <==> csi_decoded(bytes@).is_some(),
        r matches Some(index) ==> csi_decoded(bytes@) == Some(csi_held(index)),
{
    Some(HierarchicalIndex { inner: noodles::csi::io::Reader::new(bytes).read_index().ok()? })
}

/// Reads the geometry and the names out of a decoded hierarchical index,
/// with `min_shift`, `depth`, `header` and `reference_sequence_names`.
#[verifier::external_body]
fn csi_head(index: &HierarchicalIndex) -> (r: (u8, u8, Option<Vec<Vec<u8>>>))
    ensures
        r.0 == csi_held(*index).min_shift,
        r.1 == csi_held(*index).depth,
        r.2.deep_view() == csi_held(*index).names,
{
    let names = index.inner.header().map(|h| h.reference_sequence_names().iter().map(|n| n.to_vec()).collect());
    (index.inner.min_shift(), index.inner.depth(), names)
}

/// Reads the layout of the lines out of a decoded hierarchical index, with
/// `header` and its `format`, `reference_sequence_name_index`,
/// `start_position_index`, `end_position_index`, `line_comment_prefix` and
/// `line_skip_count`; `None` where the index has no header.
#[verifier::external_body]
fn csi_layout(index: &HierarchicalIndex) -> (r: Option<Layout>)
    ensures
        r == csi_held(*index).layout,
{
    let h = index.inner.header()?;
    let format = match h.format() {
        Format::Generic(CoordinateSystem::Gff) => LineFormat::Gff,
        Format::Generic(CoordinateSystem::Bed) => LineFormat::Bed,
        Format::Sam => LineFormat::Sam,
        Format::Vcf => LineFormat::Vcf,
    };
    Some(Layout { format, name_column: h.reference_sequence_name_index(), start_column: h.start_position_index(), end_column: h.end_position_index(), comment: h.line_comment_prefix(), skip: h.line_skip_count() })
}

/// Reads the bins out of a decoded hierarchical index, reference sequence
/// by reference sequence, with `reference_sequences`, `bins` and `chunks`;
/// offsets come out packed.
#[verifier::external_body]
fn csi_bins(index: &HierarchicalIndex) -> (r: Vec<Vec<(u64, Vec<(u64, u64)>)>>)
    ensures
        r.deep_view() == csi_held(*index).bins,
{
    let pairs = |b: &Bin| b.chunks().iter().map(|c| (c.start().into(), c.end().into())).collect();
    index.inner.reference_sequences().iter().map(|r| r.bins().iter().map(|(i, b)| (*i as u64, pairs(b))).collect()).collect()
}

/// Reads the lowest offsets noted for bins out of a decoded hierarchical
/// index, reference sequence by reference sequence, with
/// `reference_sequences` and `index`: for each the number of the bin and
/// its offset, packed, in the order in which the index holds them.
#[verifier::external_body]
fn csi_lowest(index: &HierarchicalIndex) -> (r: Vec<Vec<(u64, u64)>>)
    ensures
        r.deep_view() == csi_held(*index).lowest,
{
    index.inner.reference_sequences().iter().map(|r| r.index().iter().map(|(i, v)| (*i as u64, u64::from(*v))).collect()).collect()
}

/// Reads the geometry and the names out of a decoded index, with
/// `min_shift`, `depth`, `header` and `reference_sequence_names`.
#[verifier::external_body]
fn index_head(index: &noodles::tabix::Index) -> (r: (u8, u8, Option<Vec<Vec<u8>>>))
    ensures
        r.0 == held(*index).min_shift,
        r.1 == held(*index).depth,
        r.2.deep_view() == held(*index).names,
{
    let names = index.header().map(|h| h.reference_sequence_names().iter().map(|n| n.to_vec()).collect());
    (index.min_shift(), index.depth(), names)
}

/// Reads the layout of the lines out of a decoded index, with `header` and
/// its `format`, `reference_sequence_name_index`, `start_position_index`,
/// `end_position_index`, `line_comment_prefix` and `line_skip_count`;
/// `None` where the index has no header.
#[verifier::external_body]
fn index_layout(index: &noodles::tabix::Index) -> (r: Option<Layout>)
    ensures
        r == held(*index).layout,
{
    let h = index.header()?;
    let format = match h.format() {
        Format::Generic(CoordinateSystem::Gff) => LineFormat::Gff,
        Format::Generic(CoordinateSystem::Bed) => LineFormat::Bed,
        Format::Sam => LineFormat::Sam,
        Format::Vcf => LineFormat::Vcf,
    };
    Some(Layout { format, name_column: h.reference_sequence_name_index(), start_column: h.start_position_index(), end_column: h.end_position_index(), comment: h.line_comment_prefix(), skip: h.line_skip_count() })
}

/// Reads the bins out of a decoded index, reference sequence by reference
/// sequence, with `reference_sequences`, `bins` and `chunks`; offsets come
/// out packed.
#[verifier::external_body]
fn index_bins(index: &noodles::tabix::Index) -> (r: Vec<Vec<(u64, Vec<(u64, u64)>)>>)
    ensures
        r.deep_view() == held(*index).bins,
{
    let pairs = |b: &Bin| b.chunks().iter().map(|c| (c.start().into(), c.end().into())).collect();
    index.reference_sequences().iter().map(|r| r.bins().iter().map(|(i, b)| (*i as u64, pairs(b))).collect()).collect()
}

/// Reads the linear indexes out of a decoded index, with
/// `reference_sequences` and `index`; offsets come out packed.
#[verifier::external_body]
fn index_linear(index: &noodles::tabix::Index) -> (r: Vec<Vec<u64>>)
    ensures
        r.deep_view() == held(*index).linear,
{
    index.reference_sequences().iter().map(|r| r.index().iter().map(|v| u64::from(*v)).collect()).collect()
}

/// The four bytes that open an index in the hierarchical format.
pub open spec fn csi_magic() -> Seq<u8> {
    seq![0x43u8, 0x53u8, 0x49u8, 0x01u8]
}

/// Whether these four bytes open an index in the hierarchical format.
pub fn is_csi_magic(magic: &[u8; 4]) -> (r: bool)
    ensures
        r == (magic@ == csi_magic()),
{
    let r = magic[0] == 0x43 && magic[1] == 0x53 && magic[2] == 0x49 && magic[3] == 0x01;
    proof {
        if r {
            assert(magic@ =~= csi_magic());
        } else {
            assert(csi_magic()[0] == 0x43u8 && csi_magic()[1] == 0x53u8 && csi_magic()[2] == 0x49u8
                && csi_magic()[3] == 0x01u8);
        }
    }
    r
}

/// Whether these four bytes open an index in the fixed-bin format.
pub fn is_tabix_magic(magic: &[u8; 4]) -> (r: bool)
    ensures
        r == (magic@ == tabix_magic()),
{
    let r = magic[0] == 0x54 && magic[1] == 0x42 && magic[2] == 0x49 && magic[3] == 0x01;
    proof {
        if r {
            assert(magic@ =~= tabix_magic());
        } else {
            assert(tabix_magic()[0] == 0x54u8 && tabix_magic()[1] == 0x42u8 && tabix_magic()[2]
                == 0x49u8 && tabix_magic()[3] == 0x01u8);
        }
    }
    r
}

/// A decoded index of the fixed-bin format in the shape that both formats
/// share: with its linear indexes, and with no offsets noted for bins.
pub open spec fn tabix_shape(m: RawIndexModel) -> RawIndexModel {
    RawIndexModel {
        min_shift: m.min_shift,
        depth: m.depth,
        names: m.names,
        bins: m.bins,
        linear: m.linear,
        lowest: Seq::empty(),
        layout: m.layout,
    }
}

/// A decoded index of the hierarchical format in the shape that both
/// formats share: with the offsets noted for its bins, and with no linear
/// index.
pub open spec fn csi_shape(m: RawIndexModel) -> RawIndexModel {
    RawIndexModel {
        min_shift: m.min_shift,
        depth: m.depth,
        names: m.names,
        bins: m.bins,
        linear: Seq::empty(),
        lowest: m.lowest,
        layout: m.layout,
    }
}

/// What the bytes of an index file decode to: the format is chosen by the
/// first four decompressed bytes, and either format is brought into the
/// one shape. Bytes that open with neither of the two magic markers
/// decode to nothing.
pub open spec fn decoded(bytes: Seq<u8>) -> Option<RawIndexModel> {
    match bgzf_head(bytes) {
        Some(magic) => if magic == tabix_magic() {
            match tabix_decoded(bytes) {
                Some(m) => Some(tabix_shape(m)),
                None => None,
            }
        } else if magic == csi_magic() {
            match csi_decoded(bytes) {
                Some(m) => Some(csi_shape(m)),
                None => None,
            }
        } else {
            None
        },
        None => None,
    }
}

/// Reads a decoded index of the fixed-bin format out into plain values.
fn read_out(index: &noodles::tabix::Index) -> (r: RawIndex)
    ensures
        r@ == tabix_shape(held(*index)),
{
    let (min_shift, depth, names) = index_head(index);
    let bins = index_bins(index);
    let linear = index_linear(index);
    let layout = index_layout(index);
    let lowest: Vec<Vec<(u64, u64)>> = Vec::new();
    proof {
        assert(lowest.deep_view() =~= Seq::<Seq<(u64, u64)>>::empty());
    }
    RawIndex { min_shift, depth, names, bins, linear, lowest, layout }
}

/// Reads a decoded index of the hierarchical format out into plain
/// values.
fn csi_read_out(index: &HierarchicalIndex) -> (r: RawIndex)
    ensures
        r@ == csi_shape(csi_held(*index)),
{
    let (min_shift, depth, names) = csi_head(index);
    let bins = csi_bins(index);
    let lowest = csi_lowest(index);
    let layout = csi_layout(index);
    let linear: Vec<Vec<u64>> = Vec::new();
    proof {
        assert(linear.deep_view() =~= Seq::<Seq<u64>>::empty());
    }
    RawIndex { min_shift, depth, names, bins, linear, lowest, layout }
}

/// Decodes an index file in whichever of the two formats it is written.
/// `None` where the bytes are no index of either format.
pub fn decode(bytes: &[u8]) -> (r: Option<RawIndex>)
    ensures
        r.is_some() <==> decoded(bytes@).is_some(),
        r matches Some(raw) ==> decoded(bytes@) == Some(raw@),
{
    let magic = match read_magic(bytes) {
        Some(magic) => magic,
        None => {
            return None;
        },
    };
    if is_tabix_magic(&magic) {
        match decode_tabix(bytes) {
            Some(index) => Some(read_out(&index)),
            None => None,
        }
    } else if is_csi_magic(&magic) {
        match decode_csi(bytes) {
            Some(index) => Some(csi_read_out(&index)),
            None => None,
        }
    } else {
        None
    }
}

/// Loads an index from the bytes of an index file. Fails with
/// `MalformedIndex` where the bytes do not open with the magic marker of
/// either format, where they are no index of the format whose marker they
/// open with, and where they hold an index that cannot be planned against.
pub fn index_from_reader(bytes: &[u8]) -> (r: Result<FileIndex, Error>)
    ensures
        bgzf_head(bytes@) matches Some(magic) && magic != tabix_magic() && magic != csi_magic()
            ==> r.is_err(),
        r.is_ok() <==> decoded(bytes@).is_some() && raw_ok(decoded(bytes@).unwrap()),
        r matches Ok(index) ==> index.wf() && index@ == index_of(decoded(bytes@).unwrap()),
        r matches Err(e) ==> e == Error::MalformedIndex,
{
    match decode(bytes) {
        Some(raw) => FileIndex::from_raw(&raw),
        None => Err(Error::MalformedIndex),
    }
}

} // verus!
