//! The typed columns of a batch, kept in the builders of `arrow`.
//!
//! Each kind of column is a builder of `arrow` behind a struct of this
//! module. What a column holds is named by a spec function, and every
//! function below says what it does to that content.

use vstd::prelude::*;
use vstd::string::StringSliceAdditionalSpecFns;
use std::sync::Arc;
use arrow::array::{ArrayRef, StringArray};
use arrow::datatypes::{ArrowPrimitiveType, Float32Type};

verus! {

/// The largest number of bytes that the values of one text column can
/// take together: offsets into them are 32 bits wide.
pub const MAX_COLUMN_BYTES: usize = 0x7fff_ffff;

/// A column of texts; a cell may be null.
#[verifier::external_body]
pub struct TextColumn {
    inner: arrow::array::GenericStringBuilder<i32>,
}

/// A column of 32-bit integers; a cell may be null.
#[verifier::external_body]
pub struct IntColumn {
    inner: arrow::array::Int32Builder,
}

/// A column of 32-bit reals, each given as the text that writes it; a
/// cell may be null.
#[verifier::external_body]
pub struct RealColumn {
    inner: arrow::array::Float32Builder,
}

/// A column of texts that come from a small set, stored as a dictionary
/// and 32-bit keys into it; a cell may be null.
#[verifier::external_body]
pub struct CategoryColumn {
    inner: arrow::array::StringDictionaryBuilder<arrow::datatypes::Int32Type>,
}

/// A finished column.
#[verifier::external_body]
pub struct Column {
    inner: ArrayRef,
}

/// A finished batch: columns of one length under their names. It is
/// made once and never changed.
#[verifier::external_body]
pub struct Batch {
    inner: arrow::record_batch::RecordBatch,
}

/// The cells of a column, top to bottom. A text is its UTF-8 bytes; a
/// real is its 32 bits; a category column is its dictionary, the texts in
/// the order in which they came, and for each cell the place of its text
/// in the dictionary.
pub enum Cells {
    Text(Seq<Option<Seq<u8>>>),
    Int(Seq<Option<i32>>),
    Real(Seq<Option<u32>>),
    Category(Seq<Seq<u8>>, Seq<Option<int>>),
}

impl Cells {
    /// The number of cells.
    pub open spec fn rows(self) -> nat {
        match self {
            Cells::Text(s) => s.len(),
            Cells::Int(s) => s.len(),
            Cells::Real(s) => s.len(),
            Cells::Category(_, keys) => keys.len(),
        }
    }
}

/// The cells of a text column.
pub uninterp spec fn text_items(c: TextColumn) -> Seq<Option<Seq<u8>>>;

/// The number of bytes that the values of a text column take together.
pub uninterp spec fn text_bytes(c: TextColumn) -> nat;

/// The cells of an integer column.
pub uninterp spec fn int_items(c: IntColumn) -> Seq<Option<i32>>;

/// The cells of a column of reals, each real as its 32 bits.
pub uninterp spec fn real_items(c: RealColumn) -> Seq<Option<u32>>;

/// The 32 bits of the real that a text writes, as `str::parse` reads one;
/// `None` where the text writes none.
pub uninterp spec fn real_bits(text: Seq<u8>) -> Option<u32>;

/// The dictionary of a category column: its texts, in the order in which
/// they came.
pub uninterp spec fn category_dictionary(c: CategoryColumn) -> Seq<Seq<u8>>;

/// The cells of a category column: for each the place of its text in the
/// dictionary.
pub uninterp spec fn category_keys(c: CategoryColumn) -> Seq<Option<int>>;

/// The cells of a finished column.
pub uninterp spec fn column_cells(c: Column) -> Cells;

/// The columns of a batch, left to right: the name and the cells of each.
pub uninterp spec fn batch_columns(b: Batch) -> Seq<(Seq<u8>, Cells)>;

/// The bytes of a batch in the interchange file format of `arrow`; `None`
/// where the batch cannot be written.
pub uninterp spec fn ipc_encoded(columns: Seq<(Seq<u8>, Cells)>) -> Option<Seq<u8>>;

/// The bytes of an optional text.
pub open spec fn text_of(value: Option<&str>) -> Option<Seq<u8>> {
    match value {
        Some(s) => Some(s.spec_bytes()),
        None => None,
    }
}

/// The number of bytes of an optional text; a null has none.
pub open spec fn size_of(value: Option<&str>) -> nat {
    match value {
        Some(s) => s.spec_bytes().len(),
        None => 0,
    }
}

/// Reads bytes as text with `std::str::from_utf8`, which accepts them
/// exactly when they are valid UTF-8 and keeps them as they are.
#[verifier::external_body]
pub(crate) fn as_text(bytes: &[u8]) -> (r: Option<&str>)
    ensures
        r.is_some() <==> vstd::utf8::valid_utf8(bytes@),
        r matches Some(s) ==> s.spec_bytes() == bytes@,
{
    std::str::from_utf8(bytes).ok()
}

impl TextColumn {
    /// An empty column, from `GenericStringBuilder::new`.
    #[verifier::external_body]
    pub(crate) fn new() -> (r: TextColumn)
        ensures
            text_items(r) == Seq::<Option<Seq<u8>>>::empty(),
            text_bytes(r) == 0,
    {
        TextColumn { inner: arrow::array::GenericStringBuilder::new() }
    }

    /// Adds one cell at the bottom with `GenericStringBuilder::append_option`.
    /// That function panics once the values take more bytes than a 32-bit
    /// offset can address, so a value that would reach that is left out.
    #[verifier::external_body]
    pub(crate) fn append(&mut self, value: Option<&str>)
        requires
            text_bytes(*old(self)) + size_of(value) <= MAX_COLUMN_BYTES,
        ensures
            text_items(*final(self)) == text_items(*old(self)).push(text_of(value)),
            text_bytes(*final(self)) == text_bytes(*old(self)) + size_of(value),
    {
        self.inner.append_option(value)
    }

    /// Ends the column with `GenericStringBuilder::finish`.
    #[verifier::external_body]
    pub(crate) fn finish(self) -> (r: Column)
        ensures
            column_cells(r) == Cells::Text(text_items(self)),
    {
        let mut inner = self.inner;
        Column { inner: Arc::new(inner.finish()) }
    }
}

impl IntColumn {
    /// An empty column, from `Int32Builder::new`.
    #[verifier::external_body]
    pub(crate) fn new() -> (r: IntColumn)
        ensures
            int_items(r) == Seq::<Option<i32>>::empty(),
    {
        IntColumn { inner: arrow::array::Int32Builder::new() }
    }

    /// Adds one cell at the bottom with `Int32Builder::append_option`.
    #[verifier::external_body]
    pub(crate) fn append(&mut self, value: Option<i32>)
        ensures
            int_items(*final(self)) == int_items(*old(self)).push(value),
    {
        self.inner.append_option(value)
    }

    /// Ends the column with `Int32Builder::finish`.
    #[verifier::external_body]
    pub(crate) fn finish(self) -> (r: Column)
        ensures
            column_cells(r) == Cells::Int(int_items(self)),
    {
        let mut inner = self.inner;
        Column { inner: Arc::new(inner.finish()) }
    }
}

/// Reads a 32-bit real from a text with `str::parse` and gives its bits
/// with `to_bits`.
#[verifier::external_body]
pub(crate) fn parse_real(text: &str) -> (r: Option<u32>)
    ensures
        r == real_bits(text.spec_bytes()),
{
    text.parse::<<Float32Type as ArrowPrimitiveType>::Native>().ok().map(|x| x.to_bits())
}

impl RealColumn {
    /// An empty column, from `Float32Builder::new`.
    #[verifier::external_body]
    pub(crate) fn new() -> (r: RealColumn)
        ensures
            real_items(r) == Seq::<Option<u32>>::empty(),
    {
        RealColumn { inner: arrow::array::Float32Builder::new() }
    }

    /// Adds one cell at the bottom with `Float32Builder::append_option`:
    /// the real of these bits, made with `from_bits`, or a null.
    #[verifier::external_body]
    pub(crate) fn append(&mut self, value: Option<u32>)
        ensures
            real_items(*final(self)) == real_items(*old(self)).push(value),
    {
        self.inner.append_option(value.map(<<Float32Type as ArrowPrimitiveType>::Native>::from_bits))
    }

    /// Ends the column with `Float32Builder::finish`.
    #[verifier::external_body]
    pub(crate) fn finish(self) -> (r: Column)
        ensures
            column_cells(r) == Cells::Real(real_items(self)),
    {
        let mut inner = self.inner;
        Column { inner: Arc::new(inner.finish()) }
    }
}

/// The bytes of texts, each apart.
pub open spec fn bytes_of_texts(texts: Seq<&str>) -> Seq<Seq<u8>> {
    Seq::new(texts.len(), |i: int| texts[i].spec_bytes())
}

/// The number of bytes that texts take together.
pub open spec fn bytes_in(texts: Seq<Seq<u8>>) -> nat
    decreases texts.len(),
{
    if texts.len() == 0 {
        0
    } else {
        bytes_in(texts.drop_last()) + texts.last().len()
    }
}

/// The first place of a text in a dictionary; -1 where it has none.
pub open spec fn place_of(dictionary: Seq<Seq<u8>>, text: Seq<u8>) -> int
    decreases dictionary.len(),
{
    if dictionary.len() == 0 {
        -1
    } else if place_of(dictionary.drop_last(), text) >= 0 {
        place_of(dictionary.drop_last(), text)
    } else if dictionary.last() == text {
        dictionary.len() - 1
    } else {
        -1
    }
}

/// The largest place in a dictionary that a 32-bit key can name.
pub const MAX_KEY: usize = 0x7fff_ffff;

impl CategoryColumn {
    /// An empty column whose dictionary is the given texts, from
    /// `StringArray::from` and `StringDictionaryBuilder::new_with_dictionary`.
    /// The first panics where the texts take more bytes than a 32-bit
    /// offset can address; the second fails where they are more than a
    /// 32-bit key can number, and nowhere else. It sets room aside for
    /// `capacity` keys, which must be no more than keys can number.
    #[verifier::external_body]
    pub(crate) fn new(capacity: usize, categories: Vec<&str>) -> (r: Option<CategoryColumn>)
        requires
            capacity <= MAX_COLUMN_BYTES,
            bytes_in(bytes_of_texts(categories@)) <= MAX_COLUMN_BYTES,
            categories@.len() <= MAX_COLUMN_BYTES,
        ensures
            r.is_some(),
            r matches Some(c) ==> category_keys(c) == Seq::<Option<int>>::empty()
                && category_dictionary(c) == bytes_of_texts(categories@),
    {
        let dictionary = StringArray::from(categories);
        let inner = arrow::array::StringDictionaryBuilder::new_with_dictionary(capacity, &dictionary).ok()?;
        Some(CategoryColumn { inner })
    }

    /// Adds one cell at the bottom with `StringDictionaryBuilder::append`.
    /// A text that the dictionary holds gets the key of its first place
    /// there, and nothing is written to the dictionary. Any other text is
    /// put at the end of the dictionary, which panics where the texts then
    /// take more bytes than a 32-bit offset can address. The text gets its
    /// place as its key where a 32-bit key can name the place, and `append`
    /// fails, adding no cell, where none can.
    #[verifier::external_body]
    pub(crate) fn append_text(&mut self, value: &str) -> (r: bool)
        requires
            place_of(category_dictionary(*old(self)), value.spec_bytes()) >= 0 || bytes_in(
                category_dictionary(*old(self)),
            ) + value.spec_bytes().len() <= MAX_COLUMN_BYTES,
        ensures
            r == (key_of(category_dictionary(*old(self)), value.spec_bytes()) <= MAX_KEY),
            category_dictionary(*final(self)) == grown(category_dictionary(*old(self)), value.spec_bytes()),
            category_keys(*final(self)) == if r {
                category_keys(*old(self)).push(Some(key_of(category_dictionary(*old(self)), value.spec_bytes())))
            } else {
                category_keys(*old(self))
            },
    {
        self.inner.append(value).is_ok()
    }

    /// Adds one null cell at the bottom with
    /// `StringDictionaryBuilder::append_null`.
    #[verifier::external_body]
    pub(crate) fn append_null(&mut self)
        ensures
            category_dictionary(*final(self)) == category_dictionary(*old(self)),
            category_keys(*final(self)) == category_keys(*old(self)).push(None),
    {
        self.inner.append_null()
    }

    /// Ends the column with `StringDictionaryBuilder::finish`.
    #[verifier::external_body]
    pub(crate) fn finish(self) -> (r: Column)
        ensures
            column_cells(r) == Cells::Category(category_dictionary(self), category_keys(self)),
    {
        let mut inner = self.inner;
        Column { inner: Arc::new(inner.finish()) }
    }
}

/// A dictionary after a text was looked up in it: the text is put at its
/// end unless the dictionary holds it.
pub open spec fn grown(dictionary: Seq<Seq<u8>>, text: Seq<u8>) -> Seq<Seq<u8>> {
    if place_of(dictionary, text) >= 0 {
        dictionary
    } else {
        dictionary.push(text)
    }
}

/// The key of a text: its first place in the dictionary, or the end of
/// the dictionary where it is new.
pub open spec fn key_of(dictionary: Seq<Seq<u8>>, text: Seq<u8>) -> int {
    if place_of(dictionary, text) >= 0 {
        place_of(dictionary, text)
    } else {
        dictionary.len() as int
    }
}

/// The names and cells of columns, side by side.
pub open spec fn named(names: Seq<&str>, columns: Seq<Column>) -> Seq<(Seq<u8>, Cells)> {
    Seq::new(columns.len(), |i: int| (names[i].spec_bytes(), column_cells(columns[i])))
}

/// All columns have `rows` cells.
pub open spec fn aligned(columns: Seq<Column>, rows: nat) -> bool {
    forall|i: int| 0 <= i < columns.len() ==> column_cells(#[trigger] columns[i]).rows() == rows
}

/// Columns make a batch when there is one at least and all are of one
/// length.
pub open spec fn fit_together(columns: Seq<Column>) -> bool {
    columns.len() > 0 && aligned(columns, column_cells(columns[0]).rows())
}

/// Puts named columns together as one batch with
/// `RecordBatch::try_from_iter`, which takes them when there is at least
/// one and all are of one length, and keeps their order, names and cells.
#[verifier::external_body]
pub(crate) fn batch_of(names: Vec<&str>, columns: Vec<Column>) -> (r: Option<Batch>)
    requires
        names@.len() == columns@.len(),
    ensures
        r.is_some() <==> fit_together(columns@),
        r matches Some(b) ==> batch_columns(b) == named(names@, columns@),
{
    let columns = names.into_iter().zip(columns.into_iter().map(|c| c.inner));
    Some(Batch { inner: arrow::record_batch::RecordBatch::try_from_iter(columns).ok()? })
}

/// Writes a batch in the interchange file format of `arrow`, with
/// `FileWriter::try_new`, `write`, `finish` and `into_inner` on a buffer in
/// memory. The bytes are `ipc_encoded` of what the batch holds.
#[verifier::external_body]
pub(crate) fn write_ipc(batch: &Batch) -> (r: Option<Vec<u8>>)
    ensures
        r.is_some() <==> ipc_encoded(batch_columns(*batch)).is_some(),
        r matches Some(bytes) ==> ipc_encoded(batch_columns(*batch)) == Some(bytes@),
{
    let mut writer = arrow::ipc::writer::FileWriter::try_new(Vec::new(), &batch.inner.schema()).ok()?;
    writer.write(&batch.inner).ok()?;
    writer.finish().ok()?;
    writer.into_inner().ok()
}

} // verus!
