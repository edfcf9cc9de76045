//! Regions: a reference sequence and, optionally, an interval on it.
//!
//! A region is written `name`, `name:start` or `name:start-end`, with
//! `start` and `end` 1-based and inclusive. Inside the library an interval
//! is 0-based and half-open.

use vstd::prelude::*;
use vstd::string::StringSliceAdditionalSpecFns;
use crate::error::Error;

verus! {

/// A 0-based half-open interval `[start, end)` of positions.
#[derive(Clone, Copy, Debug, PartialEq, Eq, Structural)]
pub struct Interval {
    pub start: u64,
    pub end: u64,
}

/// A parsed query: a reference sequence by name and the interval asked
/// for on it; no interval stands for the whole sequence.
#[derive(Debug)]
pub struct Region {
    pub name: Vec<u8>,
    pub interval: Option<Interval>,
}

/// What a region is: its name as bytes, and its interval.
pub struct RegionModel {
    pub name: Seq<u8>,
    pub interval: Option<Interval>,
}

impl View for Region {
    type V = RegionModel;

    open spec fn view(&self) -> RegionModel {
        RegionModel { name: self.name@, interval: self.interval }
    }
}

pub open spec fn is_digit(b: u8) -> bool {
    0x30 <= b <= 0x39
}

/// A number is written with one digit at least, and with digits only.
pub open spec fn all_digits(s: Seq<u8>) -> bool {
    s.len() > 0 && forall|i: int| 0 <= i < s.len() ==> is_digit(#[trigger] s[i])
}

/// The number that a string of digits writes in base ten.
pub open spec fn decimal(s: Seq<u8>) -> nat
    decreases s.len(),
{
    if s.len() == 0 {
        0
    } else {
        decimal(s.drop_last()) * 10 + (s.last() - 0x30) as nat
    }
}

/// The place of the last `b` in `s`; -1 where there is none.
pub open spec fn last_index_of(s: Seq<u8>, b: u8) -> int
    decreases s.len(),
{
    if s.len() == 0 {
        -1
    } else if s.last() == b {
        s.len() - 1
    } else {
        last_index_of(s.drop_last(), b)
    }
}

/// The place of the first `b` in `s`; -1 where there is none.
pub open spec fn first_index_of(s: Seq<u8>, b: u8) -> int
    decreases s.len(),
{
    if s.len() == 0 {
        -1
    } else if first_index_of(s.drop_last(), b) >= 0 {
        first_index_of(s.drop_last(), b)
    } else if s.last() == b {
        s.len() - 1
    } else {
        -1
    }
}

/// The last position that can be asked for: an interval that names no
/// end runs up to it.
pub const OPEN_END: u64 = 0xffff_ffff_ffff_ffff;

/// The interval that `start-end` or `start` writes: each number at least
/// 1 and no more than 64 bits wide, taken from 1-based inclusive to
/// 0-based half-open. Without an end the interval runs as far as
/// positions go.
pub open spec fn parse_interval_spec(s: Seq<u8>) -> Option<Interval> {
    let d = first_index_of(s, 0x2d);
    if d < 0 {
        if all_digits(s) && 1 <= decimal(s) <= u64::MAX {
            Some(Interval { start: (decimal(s) - 1) as u64, end: OPEN_END })
        } else {
            None
        }
    } else {
        let a = s.subrange(0, d);
        let b = s.subrange(d + 1, s.len() as int);
        if all_digits(a) && all_digits(b) && 1 <= decimal(a) <= u64::MAX && 1 <= decimal(b)
            <= u64::MAX {
            Some(Interval { start: (decimal(a) - 1) as u64, end: decimal(b) as u64 })
        } else {
            None
        }
    }
}

/// The region that a string writes, `None` where it writes none. The name
/// ends at the last colon, and is never empty. A name with nothing behind
/// its colon stands for the whole sequence.
pub open spec fn parse_region_spec(s: Seq<u8>) -> Option<RegionModel> {
    let c = last_index_of(s, 0x3a);
    if s.len() == 0 {
        None
    } else if c < 0 {
        Some(RegionModel { name: s, interval: None })
    } else if c == 0 {
        None
    } else if c == s.len() - 1 {
        Some(RegionModel { name: s.subrange(0, c), interval: None })
    } else {
        match parse_interval_spec(s.subrange(c + 1, s.len() as int)) {
            Some(i) => Some(RegionModel { name: s.subrange(0, c), interval: Some(i) }),
            None => None,
        }
    }
}

proof fn lemma_decimal_prefix(s: Seq<u8>, i: int)
    requires
        0 <= i <= s.len(),
        forall|j: int| 0 <= j < s.len() ==> is_digit(#[trigger] s[j]),
    ensures
        decimal(s.take(i)) <= decimal(s),
    decreases s.len() - i,
{
    if i == s.len() {
        assert(s.take(i) == s);
    } else {
        lemma_decimal_prefix(s, i + 1);
        assert(s.take(i + 1).drop_last() == s.take(i));
    }
}

/// Reads a number written in digits. `None` where the text is empty,
/// holds anything but digits, or writes a number of more than 64 bits.
pub fn parse_decimal(s: &[u8]) -> (r: Option<u64>)
    ensures
        r.is_some() <==> all_digits(s@) && decimal(s@) <= u64::MAX,
        r matches Some(v) ==> v == decimal(s@),
{
    if s.len() == 0 {
        return None;
    }
    let mut acc: u64 = 0;
    let mut i: usize = 0;
    while i < s.len()
        invariant
            i <= s.len(),
            s.len() > 0,
            acc == decimal(s@.take(i as int)),
            forall|j: int| 0 <= j < i ==> is_digit(#[trigger] s@[j]),
        decreases s.len() - i,
    {
        let b: u8 = s[i];
        if b < 0x30 || b > 0x39 {
            return None;
        }
        let d: u64 = (b - 0x30) as u64;
        proof {
            assert(s@.take(i + 1).drop_last() == s@.take(i as int));
            assert(decimal(s@.take(i + 1)) == acc * 10 + d);
            if all_digits(s@) {
                lemma_decimal_prefix(s@, i + 1);
            }
        }
        if acc > (u64::MAX - d) / 10 {
            return None;
        }
        acc = acc * 10 + d;
        i += 1;
    }
    proof {
        assert(s@.take(i as int) == s@);
    }
    Some(acc)
}

proof fn lemma_first_index(s: Seq<u8>, b: u8, k: int)
    requires
        0 <= k <= s.len(),
        forall|j: int| 0 <= j < k ==> #[trigger] s[j] != b,
        k < s.len() ==> s[k] == b,
    ensures
        first_index_of(s, b) == if k < s.len() { k } else { -1 },
    decreases s.len(),
{
    if s.len() > 0 {
        let d = s.drop_last();
        if k < d.len() {
            lemma_first_index(d, b, k);
        } else {
            lemma_first_index(d, b, d.len() as int);
        }
    }
}

/// Copies the bytes `from..to` of a slice.
pub fn copy_range(s: &[u8], from: usize, to: usize) -> (r: Vec<u8>)
    requires
        from <= to <= s.len(),
    ensures
        r@ == s@.subrange(from as int, to as int),
{
    let mut out: Vec<u8> = Vec::new();
    let mut i: usize = from;
    while i < to
        invariant
            from <= i <= to <= s.len(),
            out@ == s@.subrange(from as int, i as int),
        decreases to - i,
    {
        out.push(s[i]);
        proof {
            assert(s@.subrange(from as int, i + 1) == s@.subrange(from as int, i as int).push(
                s@[i as int],
            ));
        }
        i += 1;
    }
    out
}

/// Reads `start-end` or `start`, 1-based inclusive positions, as a
/// 0-based half-open interval.
pub fn parse_interval(s: &[u8]) -> (r: Option<Interval>)
    ensures
        r == parse_interval_spec(s@),
{
    let mut k: usize = 0;
    while k < s.len() && s[k] != 0x2d
        invariant
            k <= s.len(),
            forall|j: int| 0 <= j < k ==> #[trigger] s@[j] != 0x2d,
        decreases s.len() - k,
    {
        k += 1;
    }
    proof {
        lemma_first_index(s@, 0x2d, k as int);
    }
    if k == s.len() {
        return match parse_decimal(s) {
            Some(x) => if x >= 1 {
                Some(Interval { start: x - 1, end: OPEN_END })
            } else {
                None
            },
            None => None,
        };
    }
    let a = copy_range(s, 0, k);
    let b = copy_range(s, k + 1, s.len());
    match (parse_decimal(a.as_slice()), parse_decimal(b.as_slice())) {
        (Some(x), Some(y)) => {
            if x >= 1 && y >= 1 {
                Some(Interval { start: x - 1, end: y })
            } else {
                None
            }
        },
        _ => None,
    }
}

/// Reads a region: `name`, `name:`, `name:start` or `name:start-end`,
/// with 1-based inclusive positions. Fails with `InvalidRegionSyntax` on
/// any other text.
pub fn parse_region(text: &str) -> (r: Result<Region, Error>)
    ensures
        match parse_region_spec(text.spec_bytes()) {
            Some(m) => r.is_ok() && r.unwrap()@ == m,
            None => r == Err::<Region, Error>(Error::InvalidRegionSyntax),
        },
{
    let s = text.as_bytes();
    if s.len() == 0 {
        return Err(Error::InvalidRegionSyntax);
    }
    let mut c: usize = s.len();
    proof {
        assert(s@.take(s.len() as int) == s@);
    }
    while c > 0 && s[c - 1] != 0x3a
        invariant
            c <= s.len(),
            last_index_of(s@, 0x3a) == last_index_of(s@.take(c as int), 0x3a),
        decreases c,
    {
        proof {
            assert(s@.take(c as int).drop_last() == s@.take(c - 1));
        }
        c -= 1;
    }
    if c == 0 {
        proof {
            assert(s@.subrange(0, s.len() as int) == s@);
        }
        let name = copy_range(s, 0, s.len());
        return Ok(Region { name, interval: None });
    }
    if c == 1 {
        return Err(Error::InvalidRegionSyntax);
    }
    let name = copy_range(s, 0, c - 1);
    if c == s.len() {
        return Ok(Region { name, interval: None });
    }
    let rest = copy_range(s, c, s.len());
    match parse_interval(rest.as_slice()) {
        Some(i) => Ok(Region { name, interval: Some(i) }),
        None => Err(Error::InvalidRegionSyntax),
    }
}

} // verus!
