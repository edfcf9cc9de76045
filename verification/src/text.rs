//! Lines and fields of text records.

use vstd::prelude::*;
use crate::columns::as_text;
use crate::error::Error;
use crate::region::{all_digits, decimal, parse_decimal, copy_range};

verus! {

/// The byte that ends a line.
pub const LINE_FEED: u8 = 0x0a;

/// The byte that may stand before the line feed of a line.
pub const CARRIAGE_RETURN: u8 = 0x0d;

/// The byte that separates the fields of a line.
pub const TAB: u8 = 0x09;

/// Where the line that starts at `pos` ends: behind its line feed, or at
/// the end of the text where no line feed follows.
pub open spec fn line_end(s: Seq<u8>, pos: int) -> int
    decreases s.len() - pos,
{
    if pos >= s.len() {
        s.len() as int
    } else if s[pos] == LINE_FEED {
        pos + 1
    } else {
        line_end(s, pos + 1)
    }
}

/// A line without its ending: without the line feed that ends it, and
/// without a carriage return before that line feed.
pub open spec fn trimmed(line: Seq<u8>) -> Seq<u8> {
    if line.len() > 0 && line.last() == LINE_FEED {
        let body = line.drop_last();
        if body.len() > 0 && body.last() == CARRIAGE_RETURN {
            body.drop_last()
        } else {
            body
        }
    } else {
        line
    }
}

/// A line that starts inside a text takes one byte at least and ends
/// inside the text.
pub proof fn lemma_line_end_bounds(s: Seq<u8>, pos: int)
    requires
        0 <= pos < s.len(),
    ensures
        pos < line_end(s, pos) <= s.len(),
    decreases s.len() - pos,
{
    if s[pos] != LINE_FEED {
        if pos + 1 < s.len() {
            lemma_line_end_bounds(s, pos + 1);
        } else {
            assert(line_end(s, pos + 1) == s.len());
        }
    }
}

proof fn lemma_line_end(s: Seq<u8>, pos: int, k: int)
    requires
        0 <= pos <= k <= s.len(),
        forall|j: int| pos <= j < k ==> #[trigger] s[j] != LINE_FEED,
        k < s.len() ==> s[k] == LINE_FEED,
    ensures
        line_end(s, pos) == if k < s.len() { k + 1 } else { k },
    decreases k - pos,
{
    if pos < k {
        lemma_line_end(s, pos + 1, k);
    }
}

/// Every line of the text from `pos` on, its ending included, is valid
/// UTF-8.
pub open spec fn lines_ok(text: Seq<u8>, pos: int) -> bool
    decreases text.len() - pos,
{
    if pos < 0 || pos >= text.len() {
        true
    } else if line_end(text, pos) <= pos || line_end(text, pos) > text.len() {
        true
    } else {
        vstd::utf8::valid_utf8(text.subrange(pos, line_end(text, pos))) && lines_ok(
            text,
            line_end(text, pos),
        )
    }
}

/// Reads the line of `src` that starts at `pos` and adds it to `buf`
/// without its ending. Returns the number of bytes that the line takes in
/// `src`, its ending included: 0 at the end of the text and there only.
/// Fails with `CorruptStream`, and leaves `buf` as it is, where the line
/// is not valid UTF-8.
pub fn read_line(src: &[u8], pos: usize, buf: &mut Vec<u8>) -> (r: Result<usize, Error>)
    requires
        pos <= src.len(),
    ensures
        r.is_ok() <==> pos == src.len() || vstd::utf8::valid_utf8(
            src@.subrange(pos as int, line_end(src@, pos as int)),
        ),
        r matches Ok(n) ==> {
            &&& n == line_end(src@, pos as int) - pos
            &&& pos + n <= src.len()
            &&& n == 0 <==> pos == src.len()
            &&& final(buf)@ == old(buf)@ + trimmed(src@.subrange(pos as int, pos + n))
        },
        r matches Err(e) ==> e == Error::CorruptStream && final(buf)@ == old(buf)@,
{
    if pos == src.len() {
        proof {
            assert(src@.subrange(pos as int, pos as int) =~= Seq::<u8>::empty());
            assert(old(buf)@ + Seq::<u8>::empty() =~= old(buf)@);
        }
        return Ok(0);
    }
    let mut k: usize = pos;
    while k < src.len() && src[k] != LINE_FEED
        invariant
            pos <= k <= src.len(),
            forall|j: int| pos <= j < k ==> #[trigger] src@[j] != LINE_FEED,
        decreases src.len() - k,
    {
        k += 1;
    }
    proof {
        lemma_line_end(src@, pos as int, k as int);
    }
    let end: usize = if k < src.len() {
        k + 1
    } else {
        k
    };
    let whole = copy_range(src, pos, end);
    if as_text(whole.as_slice()).is_none() {
        return Err(Error::CorruptStream);
    }
    // The body of the line lies in `pos..stop`.
    let mut stop: usize = k;
    if k < src.len() && k > pos && src[k - 1] == CARRIAGE_RETURN {
        stop = k - 1;
    }
    let ghost line = src@.subrange(pos as int, end as int);
    proof {
        if k < src.len() {
            assert(line.last() == LINE_FEED);
            assert(line.drop_last() =~= src@.subrange(pos as int, k as int));
            if k > pos {
                assert(line.drop_last().last() == src@[k - 1]);
                assert(line.drop_last().drop_last() =~= src@.subrange(pos as int, k - 1));
            }
        } else if pos < k {
            assert(line.last() == src@[k - 1]);
        }
        assert(trimmed(line) =~= src@.subrange(pos as int, stop as int));
    }
    let mut i: usize = pos;
    while i < stop
        invariant
            pos <= i <= stop <= src.len(),
            buf@ == old(buf)@ + src@.subrange(pos as int, i as int),
        decreases stop - i,
    {
        buf.push(src[i]);
        proof {
            assert(src@.subrange(pos as int, i + 1) =~= src@.subrange(pos as int, i as int).push(
                src@[i as int],
            ));
        }
        i += 1;
    }
    Ok(end - pos)
}

/// `r` holds the places of the fields of `s`, which tabs separate: the
/// first field starts the text, the last ends it, a tab stands between
/// one field and the next, and none stands inside a field.
pub open spec fn fields_of(s: Seq<u8>, r: Seq<(usize, usize)>) -> bool {
    &&& r.len() >= 1
    &&& r[0].0 == 0
    &&& r.last().1 == s.len()
    &&& forall|i: int|
        0 <= i < r.len() ==> {
            &&& (#[trigger] r[i]).0 <= r[i].1 <= s.len()
            &&& forall|j: int| r[i].0 <= j < r[i].1 ==> #[trigger] s[j] != TAB
            &&& i + 1 < r.len() ==> s[r[i].1 as int] == TAB && r[i + 1].0 == r[i].1 + 1
        }
}

proof fn lemma_fields_agree(s: Seq<u8>, a: Seq<(usize, usize)>, b: Seq<(usize, usize)>, i: int)
    requires
        fields_of(s, a),
        fields_of(s, b),
        0 <= i < a.len(),
    ensures
        i < b.len(),
        a[i] == b[i],
        (i + 1 < a.len()) == (i + 1 < b.len()),
    decreases i,
{
    if i > 0 {
        lemma_fields_agree(s, a, b, i - 1);
        assert(a[i].0 == a[i - 1].1 + 1);
        assert(b[i].0 == b[i - 1].1 + 1);
    }
    assert(a[i].0 == b[i].0);
    // Each field ends at the first tab behind its start, or with the text.
    if a[i].1 < b[i].1 {
        if i + 1 < a.len() {
            assert(s[a[i].1 as int] == TAB);
        } else {
            assert(a[i] == a.last());
        }
    } else if b[i].1 < a[i].1 {
        if i + 1 < b.len() {
            assert(s[b[i].1 as int] == TAB);
        } else {
            assert(b[i] == b.last());
        }
    }
    assert(a[i].1 == b[i].1);
    if i + 1 < a.len() && !(i + 1 < b.len()) {
        assert(b[i] == b.last());
        assert(a[i + 1].0 == a[i].1 + 1);
        assert(a[i + 1].0 <= a[i + 1].1 <= s.len());
    }
    if i + 1 < b.len() && !(i + 1 < a.len()) {
        assert(a[i] == a.last());
        assert(b[i + 1].0 == b[i].1 + 1);
        assert(b[i + 1].0 <= b[i + 1].1 <= s.len());
    }
}

/// A line has its fields in one way only.
pub proof fn lemma_fields_unique(s: Seq<u8>, a: Seq<(usize, usize)>, b: Seq<(usize, usize)>)
    requires
        fields_of(s, a),
        fields_of(s, b),
    ensures
        a == b,
{
    lemma_fields_agree(s, a, b, a.len() - 1);
    lemma_fields_agree(s, b, a, b.len() - 1);
    assert forall|i: int| 0 <= i < a.len() implies a[i] == b[i] by {
        lemma_fields_agree(s, a, b, i);
    }
    assert(a =~= b);
}

/// Finds the fields of a line: for each the place where it starts and the
/// place behind its end.
pub fn split_fields(line: &[u8]) -> (r: Vec<(usize, usize)>)
    ensures
        fields_of(line@, r@),
{
    let mut out: Vec<(usize, usize)> = Vec::new();
    let mut start: usize = 0;
    let mut i: usize = 0;
    while i < line.len()
        invariant
            start <= i <= line.len(),
            forall|j: int| start <= j < i ==> #[trigger] line@[j] != TAB,
            out@.len() == 0 ==> start == 0,
            out@.len() > 0 ==> out@[0].0 == 0 && out@.last().1 + 1 == start && line@[out@.last().1 as int]
                == TAB,
            forall|k: int|
                0 <= k < out@.len() ==> {
                    &&& (#[trigger] out@[k]).0 <= out@[k].1 < line@.len()
                    &&& forall|j: int| out@[k].0 <= j < out@[k].1 ==> #[trigger] line@[j] != TAB
                    &&& k + 1 < out@.len() ==> line@[out@[k].1 as int] == TAB && out@[k + 1].0
                        == out@[k].1 + 1
                },
        decreases line.len() - i,
    {
        if line[i] == TAB {
            out.push((start, i));
            start = i + 1;
        }
        i += 1;
    }
    out.push((start, line.len()));
    out
}

/// The number that a text writes as a 32-bit integer: digits, with or
/// without a sign before them. `None` where the text writes none.
pub open spec fn int_text(s: Seq<u8>) -> Option<int> {
    if s.len() > 0 && (s[0] == 0x2d || s[0] == 0x2b) {
        let digits = s.subrange(1, s.len() as int);
        let v = if s[0] == 0x2d {
            -(decimal(digits) as int)
        } else {
            decimal(digits) as int
        };
        if all_digits(digits) && i32::MIN <= v <= i32::MAX {
            Some(v)
        } else {
            None
        }
    } else if all_digits(s) && decimal(s) <= i32::MAX {
        Some(decimal(s) as int)
    } else {
        None
    }
}

/// Reads a 32-bit integer: digits, with or without a sign before them.
pub fn parse_i32(s: &[u8]) -> (r: Option<i32>)
    ensures
        r.is_some() <==> int_text(s@).is_some(),
        r matches Some(v) ==> int_text(s@) == Some(v as int),
{
    if s.len() > 0 && (s[0] == 0x2d || s[0] == 0x2b) {
        let digits = copy_range(s, 1, s.len());
        match parse_decimal(digits.as_slice()) {
            Some(v) => {
                if s[0] == 0x2d {
                    if v <= 0x8000_0000 {
                        Some((0 - (v as i64)) as i32)
                    } else {
                        None
                    }
                } else if v <= 0x7fff_ffff {
                    Some(v as i32)
                } else {
                    None
                }
            },
            None => None,
        }
    } else {
        match parse_decimal(s) {
            Some(v) => if v <= 0x7fff_ffff {
                Some(v as i32)
            } else {
                None
            },
            None => None,
        }
    }
}

} // verus!
