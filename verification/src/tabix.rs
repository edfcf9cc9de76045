//! Records of an indexed interval file, and their batch.
//!
//! The batch has four columns, always in this order: `chrom`, `start`,
//! `end` and `rest`.

use vstd::prelude::*;
use vstd::string::StringSliceAdditionalSpecFns;
use crate::batch::{fits, taken, Texts};
use crate::index::bytes_eq;
use crate::record::{overlaps, selected, Record};
use crate::region::{copy_range, Interval};
use crate::columns::{
    batch_columns, batch_of, fit_together, int_items, ipc_encoded, named,
    write_ipc, Batch, Cells, Column, IntColumn,
};

verus! {

/// One record of an indexed interval file: the reference sequence it lies
/// on, its first and last position as the file counts them, and the whole
/// line.
#[derive(Debug)]
pub struct TabixRecord {
    pub chrom: String,
    pub start: i32,
    pub end: i32,
    pub raw: String,
}

impl TabixRecord {
    /// Puts a record together from its parts.
    pub fn new(chrom: String, start: i32, end: i32, raw: String) -> (r: TabixRecord)
        ensures
            r.chrom == chrom,
            r.start == start,
            r.end == end,
            r.raw == raw,
    {
        TabixRecord { chrom, start, end, raw }
    }

    /// Whether a query for `window` on the reference sequence `name`
    /// returns the record. The file counts positions from 1 and counts the
    /// last position in; the window counts from 0 and leaves its end out.
    pub open spec fn chosen(&self, name: Seq<u8>, window: Interval) -> bool {
        &&& self.start >= 1
        &&& self.chrom_bytes() == name
        &&& window.start < window.end
        &&& overlaps(self.start - 1, self.end as int, window)
    }

    /// Whether a query for `window` on the reference sequence `name`
    /// returns the record.
    pub fn is_chosen(&self, name: &[u8], window: Interval) -> (r: bool)
        ensures
            r == self.chosen(name@, window),
    {
        self.start >= 1 && self.end >= 0 && window.start < window.end && ((self.start - 1) as u64)
            < window.end && (self.end as u64) > window.start && bytes_eq(
            self.chrom.as_str().as_bytes(),
            name,
        )
    }

    /// The record as the query engine sees it: on its reference sequence,
    /// over the 0-based half-open interval of its positions, with its line
    /// as content. `None` where its positions are none that a file
    /// counts.
    pub fn to_record(&self) -> (r: Option<Record>)
        ensures
            r.is_some() <==> self.start >= 1 && self.end >= 0,
            r matches Some(record) ==> {
                &&& record.reference@ == self.chrom_bytes()
                &&& record.start == self.start - 1
                &&& record.end == self.end
                &&& record.payload@ == self.raw_bytes()
                &&& forall|name: Seq<u8>, window: Interval|
                    #[trigger] selected(record, name, window) == self.chosen(name, window)
            },
    {
        if self.start >= 1 && self.end >= 0 {
            let chrom = self.chrom.as_str().as_bytes();
            let raw = self.raw.as_str().as_bytes();
            let reference = copy_range(chrom, 0, chrom.len());
            let payload = copy_range(raw, 0, raw.len());
            proof {
                assert(chrom@.subrange(0, chrom@.len() as int) =~= chrom@);
                assert(raw@.subrange(0, raw@.len() as int) =~= raw@);
            }
            Some(Record { reference, start: (self.start - 1) as u64, end: self.end as u64, payload })
        } else {
            None
        }
    }

    /// The name of the reference sequence, as bytes.
    pub open spec fn chrom_bytes(&self) -> Seq<u8> {
        vstd::utf8::encode_utf8(self.chrom@)
    }

    /// The whole line, as bytes.
    pub open spec fn raw_bytes(&self) -> Seq<u8> {
        vstd::utf8::encode_utf8(self.raw@)
    }
}

/// What a builder of interval records holds: its four columns, and
/// whether a text was lost for want of room.
pub struct TabixModel {
    pub lost: bool,
    pub chrom: Seq<Option<Seq<u8>>>,
    pub start: Seq<Option<i32>>,
    pub end: Seq<Option<i32>>,
    pub rest: Seq<Option<Seq<u8>>>,
}

/// A builder that holds no record.
pub open spec fn tabix_empty() -> TabixModel {
    TabixModel {
        lost: false,
        chrom: Seq::empty(),
        start: Seq::empty(),
        end: Seq::empty(),
        rest: Seq::empty(),
    }
}

/// Whether both text columns take what a record gives them.
pub open spec fn record_fits(m: TabixModel, r: TabixRecord) -> bool {
    fits(m.chrom, Some(r.chrom_bytes())) && fits(m.rest, Some(r.raw_bytes()))
}

/// A builder after a record was pushed: every column gets one cell more.
/// A text that its column does not take leaves a null and is lost.
pub open spec fn record_pushed(m: TabixModel, r: TabixRecord) -> TabixModel {
    TabixModel {
        lost: m.lost || !record_fits(m, r),
        chrom: m.chrom.push(taken(m.chrom, Some(r.chrom_bytes()))),
        start: m.start.push(Some(r.start)),
        end: m.end.push(Some(r.end)),
        rest: m.rest.push(taken(m.rest, Some(r.raw_bytes()))),
    }
}

/// A builder after records were pushed, one after the other.
pub open spec fn records_pushed(m: TabixModel, records: Seq<TabixRecord>) -> TabixModel
    decreases records.len(),
{
    if records.len() == 0 {
        m
    } else {
        record_pushed(records_pushed(m, records.drop_last()), records.last())
    }
}

/// Every column has as many cells as the column `start`.
pub open spec fn tabix_aligned(m: TabixModel) -> bool {
    m.chrom.len() == m.start.len() && m.end.len() == m.start.len() && m.rest.len()
        == m.start.len()
}

/// The four columns of a batch of interval records, under their names.
pub open spec fn tabix_columns(m: TabixModel) -> Seq<(Seq<u8>, Cells)> {
    seq![
        ("chrom".spec_bytes(), Cells::Text(m.chrom)),
        ("start".spec_bytes(), Cells::Int(m.start)),
        ("end".spec_bytes(), Cells::Int(m.end)),
        ("rest".spec_bytes(), Cells::Text(m.rest)),
    ]
}

/// The bytes of the batch of a builder in the interchange file format:
/// none where the builder lost a text, and where the batch cannot be
/// written.
pub open spec fn tabix_encoded(m: TabixModel) -> Option<Seq<u8>> {
    if m.lost {
        None
    } else {
        ipc_encoded(tabix_columns(m))
    }
}

/// Pushing records keeps the columns of one length and adds one row for
/// each.
pub proof fn lemma_records_pushed(m: TabixModel, records: Seq<TabixRecord>)
    requires
        tabix_aligned(m),
    ensures
        tabix_aligned(records_pushed(m, records)),
        records_pushed(m, records).start.len() == m.start.len() + records.len(),
    decreases records.len(),
{
    if records.len() > 0 {
        lemma_records_pushed(m, records.drop_last());
    }
}

/// Collects interval records into four columns.
pub struct TabixBatchBuilder {
    chrom: Texts,
    start: IntColumn,
    end: IntColumn,
    raw: Texts,
    lost: bool,
}

impl View for TabixBatchBuilder {
    type V = TabixModel;

    closed spec fn view(&self) -> TabixModel {
        TabixModel {
            lost: self.lost,
            chrom: self.chrom.items(),
            start: int_items(self.start),
            end: int_items(self.end),
            rest: self.raw.items(),
        }
    }
}

impl TabixBatchBuilder {
    /// The number of records pushed.
    pub open spec fn rows(&self) -> nat {
        self@.start.len()
    }

    /// Every column has one cell for each record pushed, and no column
    /// holds more than it can.
    pub closed spec fn wf(&self) -> bool {
        &&& self.chrom.wf()
        &&& self.raw.wf()
        &&& tabix_aligned(self@)
    }

    /// In a well-formed builder every column has one cell for each record
    /// pushed.
    pub proof fn lemma_aligned(&self)
        requires
            self.wf(),
        ensures
            tabix_aligned(self@),
    {
    }

    /// A builder that holds no record.
    pub fn new() -> (r: TabixBatchBuilder)
        ensures
            r.wf(),
            r@ == tabix_empty(),
    {
        TabixBatchBuilder {
            chrom: Texts::new(),
            start: IntColumn::new(),
            end: IntColumn::new(),
            raw: Texts::new(),
            lost: false,
        }
    }

    /// Adds one record: one cell to each column.
    pub fn push(&mut self, record: &TabixRecord)
        requires
            old(self).wf(),
        ensures
            final(self).wf(),
            final(self)@ == record_pushed(old(self)@, *record),
    {
        let k0 = self.chrom.push(Some(record.chrom.as_str()));
        self.start.append(Some(record.start));
        self.end.append(Some(record.end));
        let k3 = self.raw.push(Some(record.raw.as_str()));
        if !(k0 && k3) {
            self.lost = true;
        }
    }

    /// Ends the batch: the four columns under their names, each with one
    /// cell for each record pushed. `None` where a text was lost: a batch
    /// is whole or there is none.
    pub fn finish(self) -> (r: Option<Batch>)
        requires
            self.wf(),
        ensures
            r.is_some() <==> !self@.lost,
            r matches Some(b) ==> batch_columns(b) == tabix_columns(self@),
    {
        if self.lost {
            return None;
        }
        let names: Vec<&str> = vec!["chrom", "start", "end", "rest"];
        let mut columns: Vec<Column> = Vec::new();
        columns.push(self.chrom.finish());
        columns.push(self.start.finish());
        columns.push(self.end.finish());
        columns.push(self.raw.finish());
        proof {
            assert(fit_together(columns@));
            assert(named(names@, columns@) =~= tabix_columns(self@));
        }
        batch_of(names, columns)
    }

    /// Ends the batch and writes it in the interchange file format;
    /// `None` where a text was lost, and where the batch cannot be
    /// written.
    pub fn finish_ipc(self) -> (r: Option<Vec<u8>>)
        requires
            self.wf(),
        ensures
            r.is_some() <==> tabix_encoded(self@).is_some(),
            r matches Some(bytes) ==> tabix_encoded(self@) == Some(bytes@),
    {
        match self.finish() {
            Some(batch) => write_ipc(&batch),
            None => None,
        }
    }
}

/// The builder of these records: one row for each, in their order.
pub open spec fn tabix_batch(records: Seq<TabixRecord>) -> TabixModel {
    records_pushed(tabix_empty(), records)
}

/// Pushes all the records onto a new builder.
fn gather(records: &Vec<TabixRecord>) -> (r: TabixBatchBuilder)
    ensures
        r.wf(),
        r@ == tabix_batch(records@),
{
    let mut builder = TabixBatchBuilder::new();
    let mut i: usize = 0;
    while i < records.len()
        invariant
            i <= records.len(),
            builder.wf(),
            builder@ == tabix_batch(records@.take(i as int)),
        decreases records.len() - i,
    {
        proof {
            assert(records@.take(i + 1).drop_last() =~= records@.take(i as int));
        }
        builder.push(&records[i]);
        i += 1;
    }
    proof {
        assert(records@.take(i as int) =~= records@);
    }
    builder
}

/// Collects the records into one batch, one row for each in their order.
/// `None` where a column has no room for a text of a record.
pub fn collect(records: &Vec<TabixRecord>) -> (r: Option<Batch>)
    ensures
        r.is_some() <==> !tabix_batch(records@).lost,
        r matches Some(b) ==> batch_columns(b) == tabix_columns(tabix_batch(records@)),
{
    gather(records).finish()
}

/// The batch of all the given records in the interchange file format, one
/// row for each in their order. `None` where a column has no room for a
/// text of a record, and where the batch cannot be written.
pub fn all_to_ipc(records: &Vec<TabixRecord>) -> (r: Option<Vec<u8>>)
    ensures
        r.is_some() <==> tabix_encoded(tabix_batch(records@)).is_some(),
        r matches Some(bytes) ==> tabix_encoded(tabix_batch(records@)) == Some(bytes@),
{
    gather(records).finish_ipc()
}

/// The records of `records` that a query for `window` on the reference
/// sequence `name` returns, in their order.
pub open spec fn chosen_spec(records: Seq<TabixRecord>, name: Seq<u8>, window: Interval) -> Seq<
    TabixRecord,
>
    decreases records.len(),
{
    if records.len() == 0 {
        Seq::empty()
    } else if records.last().chosen(name, window) {
        chosen_spec(records.drop_last(), name, window).push(records.last())
    } else {
        chosen_spec(records.drop_last(), name, window)
    }
}

/// A record is among the chosen exactly when it is among the records and
/// a query returns it: so every chosen record lies on the reference
/// sequence asked for and overlaps the window, and no record that does is
/// left out.
pub proof fn lemma_chosen_iff(
    records: Seq<TabixRecord>,
    name: Seq<u8>,
    window: Interval,
    r: TabixRecord,
)
    ensures
        chosen_spec(records, name, window).contains(r) <==> records.contains(r) && r.chosen(
            name,
            window,
        ),
    decreases records.len(),
{
    let out = chosen_spec(records, name, window);
    if records.len() == 0 {
        assert(!records.contains(r));
        assert(!out.contains(r));
    } else {
        let d = records.drop_last();
        let p = chosen_spec(d, name, window);
        lemma_chosen_iff(d, name, window, r);
        if records.contains(r) {
            let i = choose|i: int| 0 <= i < records.len() && records[i] == r;
            if i < records.len() - 1 {
                assert(d[i] == r);
            }
        }
        if d.contains(r) {
            let i = choose|i: int| 0 <= i < d.len() && d[i] == r;
            assert(records[i] == r);
        }
        assert(records[records.len() - 1] == records.last());
        if records.last().chosen(name, window) {
            assert(out == p.push(records.last()));
            assert(out[out.len() - 1] == records.last());
            if p.contains(r) {
                let i = choose|i: int| 0 <= i < p.len() && p[i] == r;
                assert(out[i] == r);
            }
            if out.contains(r) {
                let i = choose|i: int| 0 <= i < out.len() && out[i] == r;
                if i < out.len() - 1 {
                    assert(p[i] == r);
                }
            }
        }
    }
}

/// The batch, in the interchange file format, of those of the given
/// records that a query for `window` on the reference sequence `name`
/// returns: one row for each, in their order. `None` where a column has
/// no room for a text of such a record, and where the batch cannot be
/// written.
pub fn records_to_ipc(records: &Vec<TabixRecord>, name: &[u8], window: Interval) -> (r: Option<
    Vec<u8>,
>)
    ensures
        r.is_some() <==> tabix_encoded(tabix_batch(chosen_spec(records@, name@, window))).is_some(),
        r matches Some(bytes) ==> tabix_encoded(tabix_batch(chosen_spec(records@, name@, window)))
            == Some(bytes@),
{
    let mut builder = TabixBatchBuilder::new();
    let ghost mut kept: Seq<TabixRecord> = Seq::empty();
    let mut i: usize = 0;
    while i < records.len()
        invariant
            i <= records.len(),
            builder.wf(),
            kept == chosen_spec(records@.take(i as int), name@, window),
            builder@ == tabix_batch(kept),
        decreases records.len() - i,
    {
        proof {
            assert(records@.take(i + 1).drop_last() =~= records@.take(i as int));
        }
        if records[i].is_chosen(name, window) {
            proof {
                let next = kept.push(records@[i as int]);
                assert(next.drop_last() =~= kept);
                kept = next;
            }
            builder.push(&records[i]);
        }
        i += 1;
    }
    proof {
        assert(records@.take(i as int) =~= records@);
    }
    builder.finish_ipc()
}

} // verus!
