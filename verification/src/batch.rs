//! Batch builders: records go in row by row, one batch comes out.
//!
//! Every push adds exactly one cell to every column, so the columns of a
//! builder are always of one length. A push says whether the column took
//! the value: a value that a column has no room for leaves a null, and the
//! builder that owns the column then gives no batch. Finishing consumes
//! the builder: a finished builder cannot be pushed to.

use vstd::prelude::*;
use vstd::string::StringSliceAdditionalSpecFns;
use crate::columns::{
    bytes_in, bytes_of_texts, category_dictionary, category_keys, column_cells, grown, key_of,
    place_of, text_bytes, text_items, text_of, CategoryColumn, Cells, Column, TextColumn,
    MAX_COLUMN_BYTES, MAX_KEY,
};
use crate::index::bytes_eq;
use crate::region::copy_range;

verus! {

/// The number of bytes that the texts of cells take together.
pub open spec fn bytes_of(items: Seq<Option<Seq<u8>>>) -> nat
    decreases items.len(),
{
    if items.len() == 0 {
        0
    } else {
        bytes_of(items.drop_last()) + match items.last() {
            Some(t) => t.len(),
            None => 0,
        }
    }
}

/// Whether a text column has room for a value: a null takes none.
pub open spec fn fits(items: Seq<Option<Seq<u8>>>, value: Option<Seq<u8>>) -> bool {
    match value {
        Some(t) => bytes_of(items) + t.len() <= MAX_COLUMN_BYTES,
        None => true,
    }
}

/// What a text column takes in for a value: the value where it has room
/// for it, a null where it has none.
pub open spec fn taken(items: Seq<Option<Seq<u8>>>, value: Option<Seq<u8>>) -> Option<Seq<u8>> {
    if fits(items, value) {
        value
    } else {
        None
    }
}

/// A text column that keeps count of its bytes, so that it never takes
/// more than it can hold.
pub struct Texts {
    column: TextColumn,
    used: usize,
}

impl Texts {
    /// The cells of the column, top to bottom.
    pub closed spec fn items(&self) -> Seq<Option<Seq<u8>>> {
        text_items(self.column)
    }

    /// The count is the number of bytes held, and that number fits.
    pub closed spec fn wf(&self) -> bool {
        &&& self.used == bytes_of(text_items(self.column))
        &&& self.used == text_bytes(self.column)
        &&& self.used <= MAX_COLUMN_BYTES
    }

    /// An empty column.
    pub fn new() -> (r: Texts)
        ensures
            r.wf(),
            r.items() == Seq::<Option<Seq<u8>>>::empty(),
    {
        Texts { column: TextColumn::new(), used: 0 }
    }

    /// Adds one cell at the bottom and says whether the column took the
    /// value. A value that the column has no room for leaves a null.
    pub fn push(&mut self, value: Option<&str>) -> (r: bool)
        requires
            old(self).wf(),
        ensures
            final(self).wf(),
            r == fits(old(self).items(), text_of(value)),
            final(self).items() == old(self).items().push(taken(old(self).items(), text_of(value))),
    {
        let ghost before = text_items(self.column);
        let fits = match value {
            Some(s) => s.as_bytes().len() <= MAX_COLUMN_BYTES - self.used,
            None => true,
        };
        if fits {
            self.column.append(value);
            match value {
                Some(s) => {
                    self.used = self.used + s.as_bytes().len();
                },
                None => {},
            }
        } else {
            self.column.append(None);
        }
        proof {
            assert(text_items(self.column).drop_last() =~= before);
        }
        fits
    }

    /// Ends the column.
    pub fn finish(self) -> (r: Column)
        ensures
            column_cells(r) == Cells::Text(self.items()),
    {
        self.column.finish()
    }
}

/// What a category column is: its dictionary and the key of each cell.
pub struct CategoryModel {
    pub dictionary: Seq<Seq<u8>>,
    pub keys: Seq<Option<int>>,
}

/// Whether a category column takes a value. A null is always taken. A
/// text that the dictionary holds is taken whatever was pushed before; a
/// new text is taken while the dictionary has room for its bytes. Either
/// way a 32-bit key must be able to name the place of the text.
pub open spec fn category_fits(m: CategoryModel, value: Option<Seq<u8>>) -> bool {
    match value {
        Some(t) => key_of(m.dictionary, t) <= MAX_KEY && (place_of(m.dictionary, t) >= 0
            || bytes_in(m.dictionary) + t.len() <= MAX_COLUMN_BYTES),
        None => true,
    }
}

/// A category column after a value was pushed. A text that the
/// dictionary holds gets the key of its first place there. A new text
/// goes to the end of the dictionary, while there is room for its bytes,
/// and gets that place as its key. A value that is missing or not taken
/// leaves a null.
pub open spec fn category_pushed(m: CategoryModel, value: Option<Seq<u8>>) -> CategoryModel {
    match value {
        Some(t) => if place_of(m.dictionary, t) >= 0 || bytes_in(m.dictionary) + t.len()
            <= MAX_COLUMN_BYTES {
            CategoryModel {
                dictionary: grown(m.dictionary, t),
                keys: m.keys.push(
                    if key_of(m.dictionary, t) <= MAX_KEY {
                        Some(key_of(m.dictionary, t))
                    } else {
                        None
                    },
                ),
            }
        } else {
            CategoryModel { dictionary: m.dictionary, keys: m.keys.push(None) }
        },
        None => CategoryModel { dictionary: m.dictionary, keys: m.keys.push(None) },
    }
}

/// A category column that keeps its dictionary at hand, so that it knows
/// which texts are new and never takes more than it can hold.
pub struct Categories {
    column: CategoryColumn,
    texts: Vec<Vec<u8>>,
    used: usize,
}

impl View for Categories {
    type V = CategoryModel;

    closed spec fn view(&self) -> CategoryModel {
        CategoryModel {
            dictionary: category_dictionary(self.column),
            keys: category_keys(self.column),
        }
    }
}

impl Categories {
    /// The texts at hand are the dictionary, the count is the number of
    /// its bytes, and that number fits.
    pub closed spec fn wf(&self) -> bool {
        &&& self.texts.deep_view() == category_dictionary(self.column)
        &&& self.used == bytes_in(category_dictionary(self.column))
        &&& self.used <= MAX_COLUMN_BYTES
    }

    /// An empty column with room set aside for `capacity` cells, or for as
    /// many as keys can number where more are asked for, whose dictionary
    /// is the given texts. `None` where the texts are more than the
    /// dictionary can hold.
    pub fn new(capacity: usize, categories: Vec<&str>) -> (r: Option<Categories>)
        ensures
            r.is_some() <==> bytes_in(bytes_of_texts(categories@)) <= MAX_COLUMN_BYTES
                && categories@.len() <= MAX_COLUMN_BYTES,
            r matches Some(c) ==> c.wf() && c@ == (CategoryModel {
                dictionary: bytes_of_texts(categories@),
                keys: Seq::empty(),
            }),
    {
        if categories.len() > MAX_COLUMN_BYTES {
            return None;
        }
        let room: usize = if capacity > MAX_COLUMN_BYTES {
            MAX_COLUMN_BYTES
        } else {
            capacity
        };
        let ghost all = bytes_of_texts(categories@);
        let mut texts: Vec<Vec<u8>> = Vec::new();
        let mut total: usize = 0;
        let mut i: usize = 0;
        while i < categories.len()
            invariant
                i <= categories.len(),
                all == bytes_of_texts(categories@),
                texts@.len() == i,
                forall|k: int| 0 <= k < i ==> (#[trigger] texts@[k])@ == all[k],
                total == bytes_in(all.take(i as int)),
                total <= MAX_COLUMN_BYTES,
            decreases categories.len() - i,
        {
            let bytes = categories[i].as_bytes();
            let n: usize = bytes.len();
            proof {
                assert(all.take(i + 1).drop_last() =~= all.take(i as int));
                assert(all.take(i + 1).last() == categories@[i as int].spec_bytes());
                lemma_bytes_in_prefix(all, i + 1);
            }
            if n > MAX_COLUMN_BYTES - total {
                return None;
            }
            let text = copy_range(bytes, 0, n);
            proof {
                assert(bytes@.subrange(0, n as int) =~= bytes@);
            }
            texts.push(text);
            total = total + n;
            i += 1;
        }
        proof {
            assert(all.take(i as int) =~= all);
            assert(texts.deep_view() =~= all) by {
                assert forall|k: int| 0 <= k < texts@.len() implies #[trigger] texts.deep_view()[k]
                    == all[k] by {
                    assert(texts@[k].deep_view() =~= texts@[k]@);
                }
            }
        }
        match CategoryColumn::new(room, categories) {
            Some(column) => Some(Categories { column, texts, used: total }),
            None => None,
        }
    }

    /// The first place of a text in the dictionary, if it has one.
    fn find(&self, text: &[u8]) -> (r: Option<usize>)
        requires
            self.wf(),
        ensures
            match r {
                Some(p) => place_of(self@.dictionary, text@) == p,
                None => place_of(self@.dictionary, text@) < 0,
            },
    {
        let ghost d = self.texts.deep_view();
        let mut i: usize = 0;
        while i < self.texts.len()
            invariant
                self.wf(),
                i <= self.texts.len(),
                d == self.texts.deep_view(),
                forall|k: int| 0 <= k < i ==> #[trigger] d[k] != text@,
            decreases self.texts.len() - i,
        {
            proof {
                assert(self.texts@[i as int].deep_view() =~= self.texts@[i as int]@);
                assert(d[i as int] == self.texts@[i as int]@);
            }
            if bytes_eq(self.texts[i].as_slice(), text) {
                proof {
                    assert(d.len() == self.texts@.len());
                    assert(d[i as int] == text@);
                    lemma_place(d, text@, i as int);
                    assert(d == self@.dictionary);
                }
                return Some(i);
            }
            i += 1;
        }
        proof {
            lemma_place(d, text@, d.len() as int);
        }
        None
    }

    /// Adds one cell at the bottom and says whether the column took the
    /// value.
    pub fn push(&mut self, value: Option<&str>) -> (r: bool)
        requires
            old(self).wf(),
        ensures
            final(self).wf(),
            r == category_fits(old(self)@, text_of(value)),
            final(self)@ == category_pushed(old(self)@, text_of(value)),
    {
        match value {
            Some(s) => {
                let bytes = s.as_bytes();
                let n: usize = bytes.len();
                let ghost d = category_dictionary(self.column);
                match self.find(bytes) {
                    Some(_) => {
                        let taken = self.column.append_text(s);
                        if !taken {
                            self.column.append_null();
                        }
                        taken
                    },
                    None => {
                        if n <= MAX_COLUMN_BYTES - self.used {
                            let taken = self.column.append_text(s);
                            let text = copy_range(bytes, 0, n);
                            let ghost before = self.texts.deep_view();
                            self.texts.push(text);
                            self.used = self.used + n;
                            proof {
                                assert(bytes@.subrange(0, n as int) =~= bytes@);
                                assert(d.push(bytes@).drop_last() =~= d);
                                assert(self.texts.deep_view() =~= before.push(bytes@)) by {
                                    assert forall|k: int|
                                        0 <= k < self.texts@.len() implies #[trigger] self.texts.deep_view()[k]
                                        == before.push(bytes@)[k] by {
                                        assert(self.texts@[k].deep_view() =~= self.texts@[k]@);
                                    }
                                }
                            }
                            if !taken {
                                self.column.append_null();
                            }
                            taken
                        } else {
                            self.column.append_null();
                            false
                        }
                    },
                }
            },
            None => {
                self.column.append_null();
                true
            },
        }
    }

    /// Ends the column.
    pub fn finish(self) -> (r: Column)
        ensures
            column_cells(r) == Cells::Category(self@.dictionary, self@.keys),
    {
        self.column.finish()
    }
}

/// A text that stands at place `j` of a dictionary, and at no place
/// before it, has the key `j`: so where the texts of a dictionary differ
/// from one another, the text at place `j` gets key `j`, in whatever
/// order texts are pushed.
pub proof fn lemma_key_is_place(d: Seq<Seq<u8>>, t: Seq<u8>, j: int)
    requires
        0 <= j < d.len(),
        d[j] == t,
        forall|i: int| 0 <= i < j ==> #[trigger] d[i] != t,
    ensures
        key_of(d, t) == j,
        grown(d, t) == d,
{
    lemma_place(d, t, j);
}

/// A text that the dictionary holds is taken and gets its key, whatever
/// was pushed before and however full the dictionary is, as long as a
/// 32-bit key can name its place.
pub proof fn lemma_held_text_is_taken(m: CategoryModel, t: Seq<u8>)
    requires
        0 <= place_of(m.dictionary, t) <= MAX_KEY,
    ensures
        category_fits(m, Some(t)),
        category_pushed(m, Some(t)).dictionary == m.dictionary,
        category_pushed(m, Some(t)).keys == m.keys.push(Some(place_of(m.dictionary, t))),
{
}

proof fn lemma_place(d: Seq<Seq<u8>>, t: Seq<u8>, j: int)
    requires
        0 <= j <= d.len(),
        forall|i: int| 0 <= i < j ==> #[trigger] d[i] != t,
        j < d.len() ==> d[j] == t,
    ensures
        place_of(d, t) == if j < d.len() { j } else { -1 },
    decreases d.len(),
{
    if d.len() > 0 {
        let e = d.drop_last();
        if j < e.len() {
            lemma_place(e, t, j);
        } else {
            lemma_place(e, t, e.len() as int);
        }
    }
}

proof fn lemma_bytes_in_prefix(texts: Seq<Seq<u8>>, i: int)
    requires
        0 <= i <= texts.len(),
    ensures
        bytes_in(texts.take(i)) <= bytes_in(texts),
    decreases texts.len() - i,
{
    if i == texts.len() {
        assert(texts.take(i) =~= texts);
    } else {
        lemma_bytes_in_prefix(texts, i + 1);
        assert(texts.take(i + 1).drop_last() =~= texts.take(i));
    }
}

} // verus!
