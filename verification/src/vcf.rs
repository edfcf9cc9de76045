//! Lines of a variant file, and their batch.
//!
//! A line holds up to nine fields, which tabs separate. The batch has
//! nine columns, always in this order: `chrom`, `pos`, `id`, `ref`, `alt`,
//! `qual`, `filter`, `info` and `format`. A field that a line does not
//! have, or that cannot be read as its column asks, goes in as a null. A
//! text that its column has no room for is lost: a builder that lost one
//! gives no batch.

use vstd::prelude::*;
use vstd::string::StringSliceAdditionalSpecFns;
use crate::batch::{
    category_fits, category_pushed, fits, taken, Categories, CategoryModel, Texts,
};
use crate::columns::{
    as_text, batch_columns, batch_of, bytes_in, bytes_of_texts, fit_together, int_items,
    ipc_encoded, named, parse_real, real_bits, real_items, text_of, write_ipc, Batch, Cells,
    Column, IntColumn, RealColumn, MAX_COLUMN_BYTES,
};
use crate::error::Error;
use crate::region::{copy_range, Interval};
use crate::tabix::{chosen_spec, TabixRecord};
use crate::text::{
    fields_of, int_text, lemma_fields_unique, lemma_line_end_bounds, line_end, lines_ok, parse_i32,
    read_line,
    split_fields, trimmed,
};

verus! {

/// The places of the fields of a line.
pub open spec fn fields(line: Seq<u8>) -> Seq<(usize, usize)> {
    choose|r: Seq<(usize, usize)>| fields_of(line, r)
}

/// The field `k` of a line whose fields lie at `r`; `None` where the
/// line has fewer fields.
pub open spec fn field_at(line: Seq<u8>, r: Seq<(usize, usize)>, k: int) -> Option<Seq<u8>> {
    if 0 <= k < r.len() {
        Some(line.subrange(r[k].0 as int, r[k].1 as int))
    } else {
        None
    }
}

/// The field `k` of a line; `None` where the line has fewer fields.
pub open spec fn field(line: Seq<u8>, k: int) -> Option<Seq<u8>> {
    field_at(line, fields(line), k)
}

/// The cell that a field gives in a text column: its bytes where they are
/// text, a null where they are not or the field is missing.
pub open spec fn text_cell(f: Option<Seq<u8>>) -> Option<Seq<u8>> {
    if f.is_some() && vstd::utf8::valid_utf8(f.unwrap()) {
        f
    } else {
        None
    }
}

/// The cell that a field gives in an integer column: the number it
/// writes, a null where it writes none or the field is missing.
pub open spec fn int_cell(f: Option<Seq<u8>>) -> Option<i32> {
    if f.is_some() && int_text(f.unwrap()).is_some() {
        Some(int_text(f.unwrap()).unwrap() as i32)
    } else {
        None
    }
}

/// The cell that a field gives in a column of reals: the real that its
/// text writes, a null where it writes none or the field is missing.
pub open spec fn real_cell(f: Option<Seq<u8>>) -> Option<u32> {
    if text_cell(f).is_some() {
        real_bits(f.unwrap())
    } else {
        None
    }
}

/// What a builder of variant lines holds: its nine columns, and whether
/// a text was lost for want of room.
pub struct VcfModel {
    pub lost: bool,
    pub chrom: CategoryModel,
    pub pos: Seq<Option<i32>>,
    pub id: Seq<Option<Seq<u8>>>,
    pub reference: Seq<Option<Seq<u8>>>,
    pub alt: Seq<Option<Seq<u8>>>,
    pub qual: Seq<Option<u32>>,
    pub filter: Seq<Option<Seq<u8>>>,
    pub info: Seq<Option<Seq<u8>>>,
    pub format: Seq<Option<Seq<u8>>>,
}

/// A builder that holds no line, with these texts as the dictionary of
/// its column `chrom`: the text at place `j` has key `j`.
pub open spec fn vcf_empty(contigs: Seq<&str>) -> VcfModel {
    VcfModel {
        lost: false,
        chrom: CategoryModel { dictionary: bytes_of_texts(contigs), keys: Seq::empty() },
        pos: Seq::empty(),
        id: Seq::empty(),
        reference: Seq::empty(),
        alt: Seq::empty(),
        qual: Seq::empty(),
        filter: Seq::empty(),
        info: Seq::empty(),
        format: Seq::empty(),
    }
}

/// Whether every column takes what a line gives it.
pub open spec fn row_fits(m: VcfModel, line: Seq<u8>) -> bool {
    &&& category_fits(m.chrom, text_cell(field(line, 0)))
    &&& fits(m.id, text_cell(field(line, 2)))
    &&& fits(m.reference, text_cell(field(line, 3)))
    &&& fits(m.alt, text_cell(field(line, 4)))
    &&& fits(m.filter, text_cell(field(line, 6)))
    &&& fits(m.info, text_cell(field(line, 7)))
    &&& fits(m.format, text_cell(field(line, 8)))
}

/// A builder after a line was pushed: every column gets one cell more,
/// from the field of its place. A text that its column does not take
/// leaves a null and is lost.
pub open spec fn row_pushed(m: VcfModel, line: Seq<u8>) -> VcfModel {
    VcfModel {
        lost: m.lost || !row_fits(m, line),
        chrom: category_pushed(m.chrom, text_cell(field(line, 0))),
        pos: m.pos.push(int_cell(field(line, 1))),
        id: m.id.push(taken(m.id, text_cell(field(line, 2)))),
        reference: m.reference.push(taken(m.reference, text_cell(field(line, 3)))),
        alt: m.alt.push(taken(m.alt, text_cell(field(line, 4)))),
        qual: m.qual.push(real_cell(field(line, 5))),
        filter: m.filter.push(taken(m.filter, text_cell(field(line, 6)))),
        info: m.info.push(taken(m.info, text_cell(field(line, 7)))),
        format: m.format.push(taken(m.format, text_cell(field(line, 8)))),
    }
}

/// A builder after lines were pushed, one after the other.
pub open spec fn rows_pushed(m: VcfModel, lines: Seq<Seq<u8>>) -> VcfModel
    decreases lines.len(),
{
    if lines.len() == 0 {
        m
    } else {
        row_pushed(rows_pushed(m, lines.drop_last()), lines.last())
    }
}

/// The nine columns of a builder, left to right.
pub open spec fn vcf_cells(m: VcfModel) -> Seq<Cells> {
    seq![
        Cells::Category(m.chrom.dictionary, m.chrom.keys),
        Cells::Int(m.pos),
        Cells::Text(m.id),
        Cells::Text(m.reference),
        Cells::Text(m.alt),
        Cells::Real(m.qual),
        Cells::Text(m.filter),
        Cells::Text(m.info),
        Cells::Text(m.format),
    ]
}

/// Every column has as many cells as the column `pos`.
pub open spec fn vcf_aligned(m: VcfModel) -> bool {
    &&& m.chrom.keys.len() == m.pos.len()
    &&& m.id.len() == m.pos.len()
    &&& m.reference.len() == m.pos.len()
    &&& m.alt.len() == m.pos.len()
    &&& m.qual.len() == m.pos.len()
    &&& m.filter.len() == m.pos.len()
    &&& m.info.len() == m.pos.len()
    &&& m.format.len() == m.pos.len()
}

/// The nine columns of a batch of variant lines, under their names.
pub open spec fn vcf_columns(m: VcfModel) -> Seq<(Seq<u8>, Cells)> {
    seq![
        ("chrom".spec_bytes(), vcf_cells(m)[0]),
        ("pos".spec_bytes(), vcf_cells(m)[1]),
        ("id".spec_bytes(), vcf_cells(m)[2]),
        ("ref".spec_bytes(), vcf_cells(m)[3]),
        ("alt".spec_bytes(), vcf_cells(m)[4]),
        ("qual".spec_bytes(), vcf_cells(m)[5]),
        ("filter".spec_bytes(), vcf_cells(m)[6]),
        ("info".spec_bytes(), vcf_cells(m)[7]),
        ("format".spec_bytes(), vcf_cells(m)[8]),
    ]
}

/// Pushing a line keeps the columns of one length, and pushing lines adds
/// one row for each.
pub proof fn lemma_rows_pushed(m: VcfModel, lines: Seq<Seq<u8>>)
    requires
        vcf_aligned(m),
    ensures
        vcf_aligned(rows_pushed(m, lines)),
        rows_pushed(m, lines).pos.len() == m.pos.len() + lines.len(),
    decreases lines.len(),
{
    if lines.len() > 0 {
        lemma_rows_pushed(m, lines.drop_last());
    }
}

/// Collects variant lines into nine columns.
pub struct VcfBatchBuilder {
    chrom: Categories,
    pos: IntColumn,
    id: Texts,
    ref_: Texts,
    alt: Texts,
    qual: RealColumn,
    filter: Texts,
    info: Texts,
    format: Texts,
    lost: bool,
}

impl View for VcfBatchBuilder {
    type V = VcfModel;

    closed spec fn view(&self) -> VcfModel {
        VcfModel {
            lost: self.lost,
            chrom: self.chrom@,
            pos: int_items(self.pos),
            id: self.id.items(),
            reference: self.ref_.items(),
            alt: self.alt.items(),
            qual: real_items(self.qual),
            filter: self.filter.items(),
            info: self.info.items(),
            format: self.format.items(),
        }
    }
}

/// Whether a builder can be made with these names as the dictionary of
/// its column `chrom`.
pub open spec fn has_room(contigs: Seq<&str>) -> bool {
    bytes_in(bytes_of_texts(contigs)) <= MAX_COLUMN_BYTES && contigs.len() <= MAX_COLUMN_BYTES
}

impl VcfBatchBuilder {
    /// The number of lines pushed.
    pub open spec fn rows(&self) -> nat {
        self@.pos.len()
    }

    /// Every column has one cell for each line pushed, and no column
    /// holds more than it can.
    pub closed spec fn wf(&self) -> bool {
        &&& self.chrom.wf()
        &&& self.id.wf()
        &&& self.ref_.wf()
        &&& self.alt.wf()
        &&& self.filter.wf()
        &&& self.info.wf()
        &&& self.format.wf()
        &&& vcf_aligned(self@)
    }

    /// In a well-formed builder every column has one cell for each line
    /// pushed.
    pub proof fn lemma_aligned(&self)
        requires
            self.wf(),
        ensures
            vcf_aligned(self@),
    {
    }

    /// A builder that holds no line, with room set aside for `capacity`
    /// lines and with the names of the reference sequences, in their
    /// order, as the dictionary of its column `chrom`. `None` where the
    /// names are more than a dictionary can hold.
    pub fn new(capacity: usize, contigs: Vec<&str>) -> (r: Option<VcfBatchBuilder>)
        ensures
            r.is_some() <==> has_room(contigs@),
            r matches Some(b) ==> b.wf() && b@ == vcf_empty(contigs@),
    {
        match Categories::new(capacity, contigs) {
            Some(chrom) => Some(
                VcfBatchBuilder {
                    chrom,
                    pos: IntColumn::new(),
                    id: Texts::new(),
                    ref_: Texts::new(),
                    alt: Texts::new(),
                    qual: RealColumn::new(),
                    filter: Texts::new(),
                    info: Texts::new(),
                    format: Texts::new(),
                    lost: false,
                },
            ),
            None => None,
        }
    }

    /// Adds one line: one cell to each column, from the field of that
    /// column.
    pub fn push(&mut self, line: &[u8])
        requires
            old(self).wf(),
        ensures
            final(self).wf(),
            final(self)@ == row_pushed(old(self)@, line@),
    {
        let places = split_fields(line);
        proof {
            lemma_fields_unique(line@, places@, fields(line@));
        }
        let f0 = take_field(line, &places, 0);
        let f1 = take_field(line, &places, 1);
        let f2 = take_field(line, &places, 2);
        let f3 = take_field(line, &places, 3);
        let f4 = take_field(line, &places, 4);
        let f5 = take_field(line, &places, 5);
        let f6 = take_field(line, &places, 6);
        let f7 = take_field(line, &places, 7);
        let f8 = take_field(line, &places, 8);
        let k0 = self.chrom.push(text_in(&f0));
        self.pos.append(int_in(&f1));
        let k2 = self.id.push(text_in(&f2));
        let k3 = self.ref_.push(text_in(&f3));
        let k4 = self.alt.push(text_in(&f4));
        self.qual.append(real_in(&f5));
        let k6 = self.filter.push(text_in(&f6));
        let k7 = self.info.push(text_in(&f7));
        let k8 = self.format.push(text_in(&f8));
        if !(k0 && k2 && k3 && k4 && k6 && k7 && k8) {
            self.lost = true;
        }
    }

    /// Ends the batch: the nine columns under their names, each with one
    /// cell for each line pushed. `None` where a text was lost: a batch is
    /// whole or there is none.
    pub fn finish(self) -> (r: Option<Batch>)
        requires
            self.wf(),
        ensures
            r.is_some() <==> !self@.lost,
            r matches Some(b) ==> batch_columns(b) == vcf_columns(self@),
    {
        if self.lost {
            return None;
        }
        let names: Vec<&str> = vec![
            "chrom",
            "pos",
            "id",
            "ref",
            "alt",
            "qual",
            "filter",
            "info",
            "format",
        ];
        let mut columns: Vec<Column> = Vec::new();
        columns.push(self.chrom.finish());
        columns.push(self.pos.finish());
        columns.push(self.id.finish());
        columns.push(self.ref_.finish());
        columns.push(self.alt.finish());
        columns.push(self.qual.finish());
        columns.push(self.filter.finish());
        columns.push(self.info.finish());
        columns.push(self.format.finish());
        proof {
            assert(fit_together(columns@));
            assert(named(names@, columns@) =~= vcf_columns(self@));
        }
        batch_of(names, columns)
    }

    /// Ends the batch and writes it in the interchange file format;
    /// `None` where a text was lost, and where the batch cannot be
    /// written.
    pub fn finish_ipc(self) -> (r: Option<Vec<u8>>)
        requires
            self.wf(),
        ensures
            r.is_some() <==> vcf_encoded(self@).is_some(),
            r matches Some(bytes) ==> vcf_encoded(self@) == Some(bytes@),
    {
        match self.finish() {
            Some(batch) => write_ipc(&batch),
            None => None,
        }
    }

    /// Adds every line of a text, top to bottom, and returns how many
    /// there were. A text that does not end in a line feed closes with
    /// a last line all the same. Fails with `CorruptStream` where a line
    /// is not valid UTF-8; the lines before that line are then pushed, and
    /// none after it.
    pub fn push_lines(&mut self, text: &[u8]) -> (r: Result<usize, Error>)
        requires
            old(self).wf(),
        ensures
            final(self).wf(),
            final(self)@ == rows_pushed(old(self)@, good_lines(text@, 0)),
            r.is_ok() <==> lines_ok(text@, 0),
            r matches Ok(n) ==> n == lines_of(text@, 0).len() && final(self)@ == rows_pushed(
                old(self)@,
                lines_of(text@, 0),
            ),
            r matches Err(e) ==> e == Error::CorruptStream,
    {
        let mut pos: usize = 0;
        let mut n: usize = 0;
        let mut buf: Vec<u8> = Vec::new();
        let ghost mut done: Seq<Seq<u8>> = Seq::empty();
        loop
            invariant
                self.wf(),
                pos <= text.len(),
                n == done.len(),
                n <= pos,
                lines_of(text@, 0) == done + lines_of(text@, pos as int),
                good_lines(text@, 0) == done + good_lines(text@, pos as int),
                lines_ok(text@, 0) == lines_ok(text@, pos as int),
                self@ == rows_pushed(old(self)@, done),
            decreases text.len() - pos,
        {
            buf.clear();
            let used = match read_line(text, pos, &mut buf) {
                Ok(used) => used,
                Err(_) => {
                    proof {
                        lemma_line_end_bounds(text@, pos as int);
                        assert(good_lines(text@, pos as int) =~= Seq::<Seq<u8>>::empty());
                        assert(done + good_lines(text@, pos as int) =~= done);
                    }
                    return Err(Error::CorruptStream);
                },
            };
            if used == 0 {
                proof {
                    assert(lines_of(text@, pos as int) =~= Seq::<Seq<u8>>::empty());
                    assert(done + lines_of(text@, pos as int) =~= done);
                    assert(good_lines(text@, pos as int) =~= Seq::<Seq<u8>>::empty());
                    assert(done + good_lines(text@, pos as int) =~= done);
                }
                return Ok(n);
            }
            let ghost line = buf@;
            proof {
                assert(line =~= trimmed(text@.subrange(pos as int, pos + used)));
                assert(lines_of(text@, pos as int) == seq![line] + lines_of(text@, pos + used));
                assert(done + (seq![line] + lines_of(text@, pos + used)) =~= done.push(line)
                    + lines_of(text@, pos + used));
                assert(good_lines(text@, pos as int) == seq![line] + good_lines(text@, pos + used));
                assert(done + (seq![line] + good_lines(text@, pos + used)) =~= done.push(line)
                    + good_lines(text@, pos + used));
                assert(done.push(line).drop_last() =~= done);
            }
            self.push(buf.as_slice());
            proof {
                done = done.push(line);
            }
            pos = pos + used;
            n = n + 1;
        }
    }
}

/// Copies field `k` of a line out of it; `None` where the line has fewer
/// fields.
pub fn take_field(line: &[u8], places: &Vec<(usize, usize)>, k: usize) -> (r: Option<Vec<u8>>)
    requires
        fields_of(line@, places@),
    ensures
        r.deep_view() == field_at(line@, places@, k as int),
{
    if k < places.len() {
        let (from, to) = places[k];
        let v = copy_range(line, from, to);
        proof {
            assert(v.deep_view() =~= v@);
        }
        Some(v)
    } else {
        None
    }
}

/// Reads a field as text.
pub fn text_in(f: &Option<Vec<u8>>) -> (r: Option<&str>)
    ensures
        text_of(r) == text_cell(f.deep_view()),
{
    match f {
        Some(v) => {
            proof {
                assert(v.deep_view() =~= v@);
            }
            as_text(v.as_slice())
        },
        None => None,
    }
}

/// Reads a field as a 32-bit integer.
pub fn int_in(f: &Option<Vec<u8>>) -> (r: Option<i32>)
    ensures
        r == int_cell(f.deep_view()),
{
    match f {
        Some(v) => {
            proof {
                assert(v.deep_view() =~= v@);
            }
            parse_i32(v.as_slice())
        },
        None => None,
    }
}

/// Reads a field as a 32-bit real, given by its bits: a field that is
/// missing, is no text or writes no real gives none.
pub fn real_in(f: &Option<Vec<u8>>) -> (r: Option<u32>)
    ensures
        r == real_cell(f.deep_view()),
{
    match text_in(f) {
        Some(s) => parse_real(s),
        None => None,
    }
}

/// The lines of a text from `pos` on, each without its ending. A line
/// that starts inside the text ends behind its start and inside the text,
/// so the text is read to its end.
pub open spec fn lines_of(text: Seq<u8>, pos: int) -> Seq<Seq<u8>>
    decreases text.len() - pos,
{
    if pos < 0 || pos >= text.len() {
        Seq::empty()
    } else if line_end(text, pos) <= pos || line_end(text, pos) > text.len() {
        Seq::empty()
    } else {
        let rest = lines_of(text, line_end(text, pos));
        seq![trimmed(text.subrange(pos, line_end(text, pos)))] + rest
    }
}

/// The lines of a text from `pos` on, each without its ending, up to the
/// first line that is not valid UTF-8.
pub open spec fn good_lines(text: Seq<u8>, pos: int) -> Seq<Seq<u8>>
    decreases text.len() - pos,
{
    if pos < 0 || pos >= text.len() {
        Seq::empty()
    } else if line_end(text, pos) <= pos || line_end(text, pos) > text.len() {
        Seq::empty()
    } else if !vstd::utf8::valid_utf8(text.subrange(pos, line_end(text, pos))) {
        Seq::empty()
    } else {
        let rest = good_lines(text, line_end(text, pos));
        seq![trimmed(text.subrange(pos, line_end(text, pos)))] + rest
    }
}

/// The bytes of the batch of a builder in the interchange file format:
/// none where the builder lost a text, and where the batch cannot be
/// written.
pub open spec fn vcf_encoded(m: VcfModel) -> Option<Seq<u8>> {
    if m.lost {
        None
    } else {
        ipc_encoded(vcf_columns(m))
    }
}

/// What `lines_to_ipc` gives: the bytes of the batch of the lines, or the
/// reason why there are none.
pub open spec fn lines_encoded(contigs: Seq<&str>, text: Seq<u8>) -> Result<Seq<u8>, Error> {
    if !has_room(contigs) {
        Err(Error::SinkRefused)
    } else if !lines_ok(text, 0) {
        Err(Error::CorruptStream)
    } else {
        match vcf_encoded(rows_pushed(vcf_empty(contigs), lines_of(text, 0))) {
            Some(bytes) => Ok(bytes),
            None => Err(Error::SinkRefused),
        }
    }
}

/// The batch of all lines of a text in the interchange file format, with
/// the names of the reference sequences as the dictionary of the column
/// `chrom`. The batch has one row for each line, in the order of the
/// text. Fails with `SinkRefused` where the names are more than a
/// dictionary can hold, with `CorruptStream` where a line is not valid
/// UTF-8, and with `SinkRefused` where a column has no room for a text of
/// a line or the batch of the lines cannot be written.
pub fn lines_to_ipc(capacity: usize, contigs: Vec<&str>, text: &[u8]) -> (r: Result<Vec<u8>, Error>)
    ensures
        match lines_encoded(contigs@, text@) {
            Ok(bytes) => r.is_ok() && r.unwrap()@ == bytes,
            Err(e) => r == Err::<Vec<u8>, Error>(e),
        },
{
    let mut builder = match VcfBatchBuilder::new(capacity, contigs) {
        Some(builder) => builder,
        None => {
            return Err(Error::SinkRefused);
        },
    };
    match builder.push_lines(text) {
        Ok(_) => {},
        Err(e) => {
            return Err(e);
        },
    }
    match builder.finish_ipc() {
        Some(bytes) => Ok(bytes),
        None => Err(Error::SinkRefused),
    }
}

/// The lines of records, in their order.
pub open spec fn lines_of_records(records: Seq<TabixRecord>) -> Seq<Seq<u8>> {
    Seq::new(records.len(), |i: int| records[i].raw_bytes())
}

/// What `chosen_to_ipc` gives: the bytes of the batch of the lines of the
/// chosen records, or the reason why there are none.
pub open spec fn chosen_encoded(
    contigs: Seq<&str>,
    records: Seq<TabixRecord>,
    name: Seq<u8>,
    window: Interval,
) -> Result<Seq<u8>, Error> {
    if !has_room(contigs) {
        Err(Error::SinkRefused)
    } else {
        match vcf_encoded(
            rows_pushed(vcf_empty(contigs), lines_of_records(chosen_spec(records, name, window))),
        ) {
            Some(bytes) => Ok(bytes),
            None => Err(Error::SinkRefused),
        }
    }
}

/// The batch, in the interchange file format, of the lines of those of
/// the given records that a query for `window` on the reference sequence
/// `name` returns: one row for each, in their order. Fails with
/// `SinkRefused` where the names are more than a dictionary can hold, a
/// column has no room for a text of a line, or the batch cannot be
/// written.
pub fn chosen_to_ipc(
    capacity: usize,
    contigs: Vec<&str>,
    records: &Vec<TabixRecord>,
    name: &[u8],
    window: Interval,
) -> (r: Result<Vec<u8>, Error>)
    ensures
        match chosen_encoded(contigs@, records@, name@, window) {
            Ok(bytes) => r.is_ok() && r.unwrap()@ == bytes,
            Err(e) => r == Err::<Vec<u8>, Error>(e),
        },
{
    let mut builder = match VcfBatchBuilder::new(capacity, contigs) {
        Some(builder) => builder,
        None => {
            return Err(Error::SinkRefused);
        },
    };
    let ghost start = builder@;
    let ghost mut kept: Seq<TabixRecord> = Seq::empty();
    let mut i: usize = 0;
    while i < records.len()
        invariant
            i <= records.len(),
            builder.wf(),
            kept == chosen_spec(records@.take(i as int), name@, window),
            builder@ == rows_pushed(start, lines_of_records(kept)),
        decreases records.len() - i,
    {
        proof {
            assert(records@.take(i + 1).drop_last() =~= records@.take(i as int));
        }
        if records[i].is_chosen(name, window) {
            proof {
                let next = kept.push(records@[i as int]);
                assert(lines_of_records(next).drop_last() =~= lines_of_records(kept));
                assert(lines_of_records(next).last() == records@[i as int].raw_bytes());
                kept = next;
            }
            builder.push(records[i].raw.as_str().as_bytes());
        }
        i += 1;
    }
    proof {
        assert(records@.take(i as int) =~= records@);
    }
    match builder.finish_ipc() {
        Some(bytes) => Ok(bytes),
        None => Err(Error::SinkRefused),
    }
}

} // verus!
