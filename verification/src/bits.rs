//! The bit-level model that every contract in the crate is stated against:
//! which bit of a `u64` element is set, masks for contiguous shift ranges,
//! and the small algebra that connects bitwise operators to single bits.

use vstd::prelude::*;

verus! {

/// The closed menu of storage element widths, in bits.
pub open spec fn width_ok(w: usize) -> bool {
    w == 8 || w == 16 || w == 32 || w == 64
}

/// A `u64` whose low `n` bits are set and whose other bits are clear.
pub open spec fn ones(n: usize) -> u64 {
    if n == 0 {
        0u64
    } else {
        u64::MAX >> ((64 - n) as u64)
    }
}

/// Whether bit `s` (counted from the numerically least significant end)
/// of `e` is set.
pub open spec fn bit_get(e: u64, s: usize) -> bool {
    (e >> (s as u64)) & 1u64 == 1u64
}

/// A mask with exactly the bits at shifts `lo..hi` set.
pub open spec fn mask_range(lo: usize, hi: usize) -> u64 {
    ones(hi) & !ones(lo)
}

/// The element that results from writing `v` into `e` at the bits selected
/// by `m`, leaving every other bit of `e` alone.  This is the masked
/// read-modify-write that all partial-element mutation goes through.
pub open spec fn merge_masked(e: u64, v: u64, m: u64) -> u64 {
    (e & !m) | (v & m)
}

/// An element value constrained to a width: bits at and above `w` are clear.
pub open spec fn elem_ok(e: u64, w: usize) -> bool {
    e & ones(w) == e
}

/// How `|`, `&`, `^` and `!` act on a single bit.
pub proof fn lemma_bit_algebra(a: u64, b: u64, s: usize)
    by (bit_vector)
    requires
        s < 64,
    ensures
        bit_get(a | b, s) == (bit_get(a, s) || bit_get(b, s)),
        bit_get(a & b, s) == (bit_get(a, s) && bit_get(b, s)),
        bit_get(a ^ b, s) == (bit_get(a, s) != bit_get(b, s)),
        bit_get(!a, s) == !bit_get(a, s),
{
}

/// Bit `s` of `ones(n)` is set exactly when `s < n`.
pub proof fn lemma_ones_bit(n: usize, s: usize)
    by (bit_vector)
    requires
        n <= 64,
        s < 64,
    ensures
        bit_get(ones(n), s) == (s < n),
{
}

/// Bit `s` of `mask_range(lo, hi)` is set exactly when `lo <= s < hi`.
pub proof fn lemma_mask_range_bit(lo: usize, hi: usize, s: usize)
    requires
        lo <= hi <= 64,
        s < 64,
    ensures
        bit_get(mask_range(lo, hi), s) == (lo <= s < hi),
{
    lemma_ones_bit(hi, s);
    lemma_ones_bit(lo, s);
    lemma_bit_algebra(ones(lo), ones(hi), s);
    lemma_bit_algebra(ones(hi), !ones(lo), s);
}

/// A masked write takes each bit from `v` where the mask is set and from
/// `e` where it is clear.
pub proof fn lemma_merge_masked_bit(e: u64, v: u64, m: u64, s: usize)
    by (bit_vector)
    requires
        s < 64,
    ensures
        bit_get(merge_masked(e, v, m), s) == if bit_get(m, s) {
            bit_get(v, s)
        } else {
            bit_get(e, s)
        },
{
}

/// `1u64 << s` has exactly one bit set, at shift `s`.
pub proof fn lemma_single_bit(s: usize, t: usize)
    by (bit_vector)
    requires
        s < 64,
        t < 64,
    ensures
        bit_get(1u64 << (s as u64), t) == (s == t),
{
}

/// A bit is either clear or set: `(x >> s) & 1` is `0` or `1`.
proof fn lemma_bit01(x: u64, s: usize)
    by (bit_vector)
    requires
        s < 64,
    ensures
        ((x >> (s as u64)) & 1u64) == 0u64 || ((x >> (s as u64)) & 1u64) == 1u64,
{
}

/// Unfolds one step of the low-bits prefix of `x`.
proof fn lemma_low_step(x: u64, k: usize)
    by (bit_vector)
    requires
        k < 64,
    ensures
        x & ones((k + 1) as usize) == (x & ones(k)) | (((x >> (k as u64)) & 1u64) << (k as u64)),
{
}

/// Two values that agree on their first `k` bits have equal `k`-bit prefixes.
proof fn lemma_low_eq(a: u64, b: u64, k: usize)
    requires
        k <= 64,
        forall|s: usize| s < k ==> #[trigger] bit_get(a, s) == bit_get(b, s),
    ensures
        a & ones(k) == b & ones(k),
    decreases k,
{
    if k == 0 {
        assert(a & ones(0) == b & ones(0)) by (bit_vector);
    } else {
        let j = (k - 1) as usize;
        lemma_low_eq(a, b, j);
        lemma_low_step(a, j);
        lemma_low_step(b, j);
        lemma_bit01(a, j);
        lemma_bit01(b, j);
        assert(bit_get(a, j) == bit_get(b, j));
    }
}

/// Two `u64` values that agree on all 64 bits are equal.
pub proof fn lemma_bit_get_ext(a: u64, b: u64)
    requires
        forall|s: usize| s < 64 ==> #[trigger] bit_get(a, s) == bit_get(b, s),
    ensures
        a == b,
{
    lemma_low_eq(a, b, 64);
    assert(a & ones(64) == a) by (bit_vector);
    assert(b & ones(64) == b) by (bit_vector);
}

/// Restates masking below `n` over [`bit_get`]: the masked value keeps the
/// low bits and clears the rest.
pub proof fn lemma_keep_low_bits(v: u64, n: usize, s: usize)
    requires
        n <= 64,
        s < 64,
    ensures
        bit_get(v & ones(n), s) == (s < n && bit_get(v, s)),
{
    lemma_ones_bit(n, s);
    lemma_bit_algebra(v, ones(n), s);
}

/// The all-clear element has no bit set.
pub proof fn lemma_zero_bit(s: usize)
    by (bit_vector)
    requires
        s < 64,
    ensures
        !bit_get(0u64, s),
{
}

/// Produces `ones(n)` at run time.
pub fn ones_word(n: usize) -> (r: u64)
    requires
        n <= 64,
    ensures
        r == ones(n),
{
    if n == 0 {
        0u64
    } else {
        u64::MAX >> ((64 - n) as u64)
    }
}

/// Produces `mask_range(lo, hi)` at run time.
pub fn mask_word(lo: usize, hi: usize) -> (r: u64)
    requires
        lo <= hi <= 64,
    ensures
        r == mask_range(lo, hi),
{
    ones_word(hi) & !ones_word(lo)
}

/// Reads one bit of an element at run time.
pub fn read_bit(e: u64, s: usize) -> (r: bool)
    requires
        s < 64,
    ensures
        r == bit_get(e, s),
{
    (e >> (s as u64)) & 1u64 == 1u64
}

/// Writes one bit of an element at run time, leaving the others alone.
pub fn write_bit(e: u64, s: usize, b: bool) -> (r: u64)
    requires
        s < 64,
    ensures
        forall|t: usize| t < 64 ==> #[trigger] bit_get(r, t) == if t == s {
            b
        } else {
            bit_get(e, t)
        },
{
    let m: u64 = 1u64 << (s as u64);
    let r: u64 = if b {
        e | m
    } else {
        e & !m
    };
    proof {
        assert forall|t: usize| t < 64 implies #[trigger] bit_get(r, t) == if t == s {
            b
        } else {
            bit_get(e, t)
        } by {
            lemma_single_bit(s, t);
            lemma_bit_algebra(m, e, t);
            lemma_bit_algebra(e, m, t);
            lemma_bit_algebra(e, !m, t);
        }
    }
    r
}

} // verus!
