//! The bin hierarchy: which bins can hold records of a queried interval.
//!
//! Level 0 is one bin that spans the whole sequence; each level below
//! splits every bin in eight. Bins are numbered level by level, so a bin's
//! level and span follow from its number by arithmetic alone.

use vstd::prelude::*;
use vstd::arithmetic::power2::{pow2, lemma_pow2_pos, lemma_pow2_adds, lemma_pow2_strictly_increases, lemma2_to64, lemma2_to64_rest};
use vstd::bits::lemma_u64_shr_is_div;

verus! {

/// The deepest hierarchy and the finest bins that bin numbers and
/// positions of 64 bits can address.
pub open spec fn geometry_ok(min_shift: u8, depth: u8) -> bool {
    min_shift as int + 3 * (depth as int) <= 60
}

/// The number of the first bin of level `l`.
pub open spec fn level_start(l: nat) -> nat
    decreases l,
{
    if l == 0 {
        0
    } else {
        level_start((l - 1) as nat) + pow2((3 * (l - 1)) as nat)
    }
}

/// Whether bin `bin` belongs to level `l`.
pub open spec fn in_level(bin: int, l: nat) -> bool {
    level_start(l) <= bin < level_start(l + 1)
}

/// The number of positions that a bin of level `l` spans.
pub open spec fn bin_width(l: nat, min_shift: nat, depth: nat) -> nat {
    pow2((min_shift + 3 * (depth - l)) as nat)
}

/// Whether the span of bin `bin` of level `l` meets `[beg, end)`.
pub open spec fn bin_meets(bin: int, l: nat, beg: int, end: int, min_shift: nat, depth: nat) -> bool {
    let k = bin - level_start(l);
    let w = bin_width(l, min_shift, depth) as int;
    k * w < end && beg < (k + 1) * w
}

/// Whether a record that overlaps `[beg, end)` can be filed under `bin`:
/// the interval is not empty and the bin's span meets it.
pub open spec fn candidate(bin: int, beg: int, end: int, min_shift: nat, depth: nat) -> bool {
    beg < end && exists|l: nat|
        l <= depth && #[trigger] in_level(bin, l) && bin_meets(bin, l, beg, end, min_shift, depth)
}

/// Levels are numbered upwards: a level starts where the one before ends.
pub proof fn lemma_level_start_monotonic(a: nat, b: nat)
    requires
        a <= b,
    ensures
        level_start(a) <= level_start(b),
    decreases b,
{
    if a < b {
        lemma_level_start_monotonic(a, (b - 1) as nat);
    }
}

/// A bin belongs to one level only.
pub proof fn lemma_level_unique(bin: int, a: nat, b: nat)
    requires
        in_level(bin, a),
        in_level(bin, b),
    ensures
        a == b,
{
    if a < b {
        lemma_level_start_monotonic(a + 1, b);
    } else if b < a {
        lemma_level_start_monotonic(b + 1, a);
    }
}

proof fn lemma_div_bounds(x: int, w: int, k: int)
    requires
        0 <= x,
        0 < w,
        0 <= k,
    ensures
        (x / w <= k) <==> (x < (k + 1) * w),
        (k <= x / w) <==> (k * w <= x),
{
    vstd::arithmetic::div_mod::lemma_fundamental_div_mod(x, w);
    vstd::arithmetic::div_mod::lemma_mod_bound(x, w);
    let q = x / w;
    let r = x % w;
    assert(x == w * q + r);
    assert((q <= k) ==> (w * q + r < (k + 1) * w)) by (nonlinear_arith)
        requires
            0 <= r < w,
    ;
    assert((q > k) ==> (w * q + r >= (k + 1) * w)) by (nonlinear_arith)
        requires
            0 <= r < w,
    ;
    assert((k <= q) ==> (k * w <= w * q + r)) by (nonlinear_arith)
        requires
            0 <= r < w,
    ;
    assert((k > q) ==> (k * w > w * q + r)) by (nonlinear_arith)
        requires
            0 <= r < w,
    ;
}

proof fn lemma_level_start_bound(l: nat)
    ensures
        level_start(l) <= pow2((3 * l) as nat),
    decreases l,
{
    if l == 0 {
        lemma_pow2_pos(0);
    } else {
        lemma_level_start_bound((l - 1) as nat);
        lemma_pow2_adds((3 * (l - 1)) as nat, 3);
        lemma2_to64();
    }
}

proof fn lemma_pow2_bound(e: nat)
    requires
        e <= 60,
    ensures
        0 < pow2(e) <= 0x1000_0000_0000_0000,
{
    lemma_pow2_pos(e);
    lemma2_to64_rest();
    if e < 60 {
        lemma_pow2_strictly_increases(e, 60);
    }
}

/// The number of the first bin of the finest level, and of the bin of that
/// level that holds position `beg`.
pub open spec fn finest_bin(beg: int, min_shift: nat, depth: nat) -> int {
    level_start(depth) + beg / (pow2(min_shift) as int)
}

/// The bin above a bin; the root has none above it.
pub open spec fn parent(bin: int) -> int {
    (bin - 1) / 8
}

/// The bin of the finest level that holds position `beg`, which must lie
/// in the span of the hierarchy.
pub fn finest_bin_of(beg: u64, min_shift: u8, depth: u8) -> (r: u64)
    requires
        geometry_ok(min_shift, depth),
        beg < pow2((min_shift + 3 * depth) as nat),
    ensures
        r == finest_bin(beg as int, min_shift as nat, depth as nat),
        r < 0x2000_0000_0000_0000,
{
    let mut l: u8 = 0;
    let mut t: u64 = 0;
    let mut n: u64 = 1;
    proof {
        lemma2_to64();
    }
    while l < depth
        invariant
            geometry_ok(min_shift, depth),
            l <= depth,
            t == level_start(l as nat),
            n == pow2((3 * l) as nat),
        decreases depth - l,
    {
        proof {
            lemma2_to64();
            lemma_level_start_bound(l as nat);
            lemma_pow2_bound((3 * l) as nat);
            lemma_pow2_adds((3 * l) as nat, 3);
            assert((3 * l) as nat + 3 == (3 * (l + 1)) as nat);
            assert(pow2((3 * (l + 1)) as nat) == n * 8);
            lemma_pow2_bound((3 * (l + 1)) as nat);
        }
        t = t + n;
        n = n * 8;
        l = l + 1;
    }
    let w: u64 = beg >> (min_shift as u64);
    proof {
        lemma_u64_shr_is_div(beg, min_shift as u64);
        lemma_level_start_bound(depth as nat);
        lemma_pow2_bound((3 * depth) as nat);
        lemma_pow2_bound(min_shift as nat);
        lemma_pow2_adds(min_shift as nat, (3 * depth) as nat);
        let a = pow2(min_shift as nat) as int;
        let b = pow2((3 * depth) as nat) as int;
        assert(pow2((min_shift + 3 * depth) as nat) == a * b);
        assert(a * b == (b - 1 + 1) * a) by (nonlinear_arith);
        lemma_div_bounds(beg as int, a, b - 1);
        assert(w <= b - 1);
    }
    t + w
}

/// Whether `bin` is a candidate for the interval `[beg, end)` of 0-based
/// positions, in a hierarchy of `depth` levels below the root whose finest
/// bins span `2^min_shift` positions.
pub fn is_candidate(bin: u64, beg: u64, end: u64, min_shift: u8, depth: u8) -> (r: bool)
    requires
        geometry_ok(min_shift, depth),
    ensures
        r == candidate(bin as int, beg as int, end as int, min_shift as nat, depth as nat),
{
    if beg >= end {
        return false;
    }
    let last: u64 = end - 1;
    let mut l: u8 = 0;
    let mut t: u64 = 0;
    let mut n: u64 = 1;
    let mut s: u64 = min_shift as u64 + 3 * (depth as u64);
    proof {
        lemma2_to64();
    }
    loop
        invariant
            geometry_ok(min_shift, depth),
            beg < end,
            last == end - 1,
            l <= depth,
            t == level_start(l as nat),
            n == pow2((3 * l) as nat),
            s == min_shift + 3 * (depth - l),
            t <= bin,
            forall|m: nat| m < l ==> !in_level(bin as int, m),
        decreases depth - l,
    {
        proof {
            lemma_level_start_bound(l as nat);
            lemma_pow2_bound((3 * l) as nat);
            lemma_pow2_bound(s as nat);
        }
        if bin - t < n {
            let k: u64 = bin - t;
            let lo: u64 = beg >> s;
            let hi: u64 = last >> s;
            proof {
                let w = pow2(s as nat) as int;
                lemma_u64_shr_is_div(beg, s);
                lemma_u64_shr_is_div(last, s);
                lemma_div_bounds(beg as int, w, k as int);
                lemma_div_bounds(last as int, w, k as int);
                assert(in_level(bin as int, l as nat));
                assert(bin_meets(bin as int, l as nat, beg as int, end as int, min_shift as nat, depth as nat)
                    == (lo <= k && k <= hi));
                assert forall|m: nat|
                    m <= depth && #[trigger] in_level(bin as int, m) implies m == l by {
                    lemma_level_unique(bin as int, m, l as nat);
                }
            }
            return lo <= k && k <= hi;
        }
        if l == depth {
            proof {
                assert forall|m: nat| m <= depth implies !#[trigger] in_level(bin as int, m) by {}
            }
            return false;
        }
        proof {
            lemma2_to64();
            lemma_pow2_adds((3 * l) as nat, 3);
            assert((3 * l) as nat + 3 == (3 * (l + 1)) as nat);
            assert(pow2((3 * (l + 1)) as nat) == n * 8);
            lemma_pow2_bound((3 * (l + 1)) as nat);
        }
        t = t + n;
        n = n * 8;
        s = s - 3;
        l = l + 1;
    }
}

} // verus!
