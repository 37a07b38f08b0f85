//! A checked non-zero integer: a value that is never zero past
//! construction, with checked arithmetic whose contracts pin down both
//! the successful result and the exact inputs on which each operation
//! fails.

use vstd::arithmetic::power2::{lemma2_to64, pow2};
use vstd::prelude::*;
use vstd::std_specs::bits::{u64_leading_zeros, u64_trailing_zeros};

verus! {

/// Marks a primitive integer type that has a zero value and so can back
/// a checked non-zero wrapper.
pub trait Zeroable {}

impl Zeroable for u8 {}

impl Zeroable for u16 {}

impl Zeroable for u32 {}

impl Zeroable for u64 {}

impl Zeroable for u128 {}

impl Zeroable for usize {}

impl Zeroable for i8 {}

impl Zeroable for i16 {}

impl Zeroable for i32 {}

impl Zeroable for i64 {}

impl Zeroable for i128 {}

impl Zeroable for isize {}

/// The error for a zero handed to the non-zero factory.
#[derive(Clone, Copy, Debug, PartialEq, Eq, Structural)]
pub struct ZeroValueError;

impl ZeroValueError {
    /// Builds the error value.
    pub fn new() -> (r: ZeroValueError)
        ensures
            r == ZeroValueError,
    {
        ZeroValueError
    }
}

/// The error for a string that fails to parse as a non-zero integer:
/// either it is not an integer at all, or it spells zero.
#[derive(Clone, Copy, Debug, PartialEq, Eq, Structural)]
pub enum ParseNonZeroIntError {
    /// The text is not an integer.
    NotIntegerString,
    /// The text spells zero.
    ZeroValue(ZeroValueError),
}

/// A 64-bit signed integer known not to be zero.
#[derive(Clone, Copy, Debug, PartialEq, Eq, Structural)]
pub struct NonZero {
    value: i64,
}

/// Repeated multiplication with a range check at every step: `Some` of
/// the product while every prefix stays inside `i64`, `None` from the
/// first step that leaves it.  Because a non-zero product never shrinks
/// in magnitude, this fails exactly when the final power overflows.
pub open spec fn checked_pow_spec(b: int, e: nat) -> Option<int>
    decreases e,
{
    if e == 0 {
        Some(1)
    } else {
        match checked_pow_spec(b, (e - 1) as nat) {
            Option::None => Option::None,
            Option::Some(p) => if i64::MIN <= p * b <= i64::MAX {
                Some(p * b)
            } else {
                Option::None
            },
        }
    }
}

/// The smallest power of two at or above `v`, reached by doubling from
/// `p`.  With `p == 1` it is the usual next-power-of-two (any `v <= 1`
/// yields 1).
pub open spec fn next_pow2_from(p: int, v: int) -> int
    recommends
        p >= 1,
    decreases (if v - p > 0 {
        v - p
    } else {
        0
    }),
{
    if p >= v || p < 1 {
        p
    } else {
        next_pow2_from(2 * p, v)
    }
}

/// The base-2 logarithm of `v`, rounded down (0 for `v < 2`).
pub open spec fn ilog2_spec(v: int) -> int
    decreases (if v > 0 {
        v
    } else {
        0
    }),
{
    if v < 2 {
        0
    } else {
        1 + ilog2_spec(v / 2)
    }
}

/// The base-10 logarithm of `v`, rounded down (0 for `v < 10`).
pub open spec fn ilog10_spec(v: int) -> int
    decreases (if v > 0 {
        v
    } else {
        0
    }),
{
    if v < 10 {
        0
    } else {
        1 + ilog10_spec(v / 10)
    }
}

/// Doubling from `p` never lands below `p`.
proof fn lemma_next_pow2_ge(p: int, v: int)
    requires
        p >= 1,
    ensures
        next_pow2_from(p, v) >= p,
    decreases (if v - p > 0 {
        v - p
    } else {
        0
    }),
{
    if p >= v {
    } else {
        lemma_next_pow2_ge(2 * p, v);
    }
}

impl NonZero {
    /// The stored value.
    pub closed spec fn spec_get(self) -> i64 {
        self.value
    }

    /// The invariant: the value is never zero.
    pub open spec fn wf(self) -> bool {
        self.spec_get() != 0
    }

    /// Builds a non-zero if the given value is not zero.
    pub fn new(value: i64) -> (r: Option<NonZero>)
        ensures
            r is Some <==> value != 0,
            r matches Some(n) ==> n.wf() && n.spec_get() == value,
    {
        if value != 0 {
            Some(NonZero { value })
        } else {
            None
        }
    }

    /// Returns the contained value, which is never zero.
    pub fn get(self) -> (r: i64)
        requires
            self.wf(),
        ensures
            r == self.spec_get(),
            r != 0,
    {
        self.value
    }

    /// The number of leading zeros in the 64-bit two's-complement pattern.
    pub fn leading_zeros(self) -> (r: u32)
        ensures
            r == u64_leading_zeros(self.spec_get() as u64),
    {
        (self.value as u64).leading_zeros()
    }

    /// The number of trailing zeros in the 64-bit two's-complement pattern.
    pub fn trailing_zeros(self) -> (r: u32)
        ensures
            r == u64_trailing_zeros(self.spec_get() as u64),
    {
        (self.value as u64).trailing_zeros()
    }

    /// Multiplies two non-zero values, returning `None` exactly when the
    /// product leaves the 64-bit range.  The product of two non-zero
    /// values cannot be zero, so the result needs no zero check.
    pub fn checked_mul(self, other: NonZero) -> (r: Option<NonZero>)
        requires
            self.wf(),
            other.wf(),
        ensures
            r is Some <==> i64::MIN <= self.spec_get() * other.spec_get() <= i64::MAX,
            r matches Some(n) ==> n.wf() && n.spec_get() == self.spec_get() * other.spec_get(),
    {
        proof {
            lemma_mul_nonzero(self.spec_get() as int, other.spec_get() as int);
        }
        match self.value.checked_mul(other.value) {
            Some(v) => Some(NonZero { value: v }),
            None => None,
        }
    }

    /// Raises the value to a power, multiplying one step at a time and
    /// returning `None` from the first step whose product leaves the
    /// 64-bit range; see [`checked_pow_spec`].
    pub fn checked_pow(self, e: u32) -> (r: Option<NonZero>)
        requires
            self.wf(),
        ensures
            r is Some <==> checked_pow_spec(self.spec_get() as int, e as nat) is Some,
            r matches Some(n) ==> n.wf() && checked_pow_spec(self.spec_get() as int, e as nat)
                == Some(n.spec_get() as int),
    {
        let mut acc: i64 = 1;
        let mut i: u32 = 0;
        while i < e
            invariant
                self.wf(),
                i <= e,
                acc != 0,
                checked_pow_spec(self.spec_get() as int, i as nat) == Some(acc as int),
            decreases e - i,
        {
            proof {
                lemma_mul_nonzero(acc as int, self.spec_get() as int);
            }
            acc = match acc.checked_mul(self.value) {
                Some(v) => v,
                None => {
                    proof {
                        lemma_checked_pow_stays_none(
                            self.spec_get() as int,
                            (i + 1) as nat,
                            e as nat,
                        );
                    }
                    return None;
                },
            };
            i = i + 1;
        }
        Some(NonZero { value: acc })
    }

    /// The absolute value, `None` exactly for the minimum, whose absolute
    /// value has no 64-bit representation.
    pub fn checked_abs(self) -> (r: Option<NonZero>)
        requires
            self.wf(),
        ensures
            r is Some <==> self.spec_get() != i64::MIN,
            r matches Some(n) ==> n.wf() && n.spec_get() == (if self.spec_get() < 0 {
                -self.spec_get()
            } else {
                self.spec_get() as int
            }),
    {
        if self.value == i64::MIN {
            None
        } else if self.value < 0 {
            Some(NonZero { value: -self.value })
        } else {
            Some(NonZero { value: self.value })
        }
    }

    /// Whether the value is positive.  A non-zero value is positive
    /// exactly when it is not negative.
    pub fn is_positive(self) -> (r: bool)
        ensures
            r == (self.spec_get() > 0),
    {
        self.value > 0
    }

    /// Whether the value is negative.
    pub fn is_negative(self) -> (r: bool)
        ensures
            r == (self.spec_get() < 0),
    {
        self.value < 0
    }

    /// The negation, `None` exactly for the minimum.
    pub fn checked_neg(self) -> (r: Option<NonZero>)
        requires
            self.wf(),
        ensures
            r is Some <==> self.spec_get() != i64::MIN,
            r matches Some(n) ==> n.wf() && n.spec_get() == -self.spec_get(),
    {
        if self.value == i64::MIN {
            None
        } else {
            Some(NonZero { value: -self.value })
        }
    }

    /// Adds a plain value, returning `None` when the sum leaves the
    /// 64-bit range or lands on zero (which no `NonZero` can hold).
    pub fn checked_add(self, other: i64) -> (r: Option<NonZero>)
        requires
            self.wf(),
        ensures
            r is Some <==> (i64::MIN <= self.spec_get() + other <= i64::MAX && self.spec_get()
                + other != 0),
            r matches Some(n) ==> n.wf() && n.spec_get() == self.spec_get() + other,
    {
        match self.value.checked_add(other) {
            Some(v) => {
                if v != 0 {
                    Some(NonZero { value: v })
                } else {
                    None
                }
            },
            None => None,
        }
    }

    /// The smallest power of two at or above the value, `None` when that
    /// power has no 64-bit representation; any value at or below 1 yields
    /// 1.  See [`next_pow2_from`].
    pub fn checked_next_power_of_two(self) -> (r: Option<NonZero>)
        requires
            self.wf(),
        ensures
            r is Some <==> next_pow2_from(1, self.spec_get() as int) <= i64::MAX,
            r matches Some(n) ==> n.wf() && n.spec_get() == next_pow2_from(
                1,
                self.spec_get() as int,
            ),
    {
        let v = self.value;
        let mut p: i64 = 1;
        while p < v
            invariant
                p >= 1,
                v == self.spec_get(),
                next_pow2_from(1, v as int) == next_pow2_from(p as int, v as int),
            decreases (if v - p > 0 { v - p } else { 0 }),
        {
            if p > i64::MAX / 2 {
                proof {
                    assert(next_pow2_from(p as int, v as int) == next_pow2_from(
                        2 * (p as int),
                        v as int,
                    ));
                    lemma_next_pow2_ge(2 * (p as int), v as int);
                    assert(next_pow2_from(1, v as int) > i64::MAX);
                }
                return None;
            }
            p = p * 2;
        }
        proof {
            assert(next_pow2_from(p as int, v as int) == p as int);
        }
        Some(NonZero { value: p })
    }

    /// The base-2 logarithm, rounded down.  Only defined for positive
    /// values, as in the mathematical function; see [`ilog2_spec`].
    pub fn ilog2(self) -> (r: u32)
        requires
            self.spec_get() > 0,
        ensures
            r == ilog2_spec(self.spec_get() as int),
    {
        let mut n: i64 = self.value;
        let mut cnt: u32 = 0;
        proof {
            lemma2_to64();
        }
        while n >= 2
            invariant
                n >= 1,
                cnt <= 63,
                n * pow2(cnt as nat) <= self.spec_get(),
                self.spec_get() <= i64::MAX,
                ilog2_spec(self.spec_get() as int) == cnt + ilog2_spec(n as int),
            decreases n,
        {
            proof {
                lemma_halving_budget(n as int, cnt as nat, self.spec_get() as int);
            }
            n = n / 2;
            cnt = cnt + 1;
        }
        cnt
    }

    /// The base-10 logarithm, rounded down.  Only defined for positive
    /// values; see [`ilog10_spec`].
    pub fn ilog10(self) -> (r: u32)
        requires
            self.spec_get() > 0,
        ensures
            r == ilog10_spec(self.spec_get() as int),
    {
        let mut n: i64 = self.value;
        let mut cnt: u32 = 0;
        proof {
            lemma2_to64();
        }
        while n >= 10
            invariant
                n >= 1,
                cnt <= 63,
                n * pow2(cnt as nat) <= self.spec_get(),
                self.spec_get() <= i64::MAX,
                ilog10_spec(self.spec_get() as int) == cnt + ilog10_spec(n as int),
            decreases n,
        {
            proof {
                lemma_halving_budget(n as int, cnt as nat, self.spec_get() as int);
                vstd::arithmetic::power2::lemma_pow2_pos((cnt + 1) as nat);
                assert(n / 10 <= n / 2) by (nonlinear_arith)
                    requires
                        n >= 0,
                ;
                assert((n as int / 10) * pow2((cnt + 1) as nat) <= (n as int / 2) * pow2(
                    (cnt + 1) as nat,
                )) by (nonlinear_arith)
                    requires
                        n as int / 10 <= n as int / 2,
                        pow2((cnt + 1) as nat) >= 1,
                ;
            }
            n = n / 10;
            cnt = cnt + 1;
        }
        cnt
    }

    /// Whether the value is a power of two: positive, and equal to the
    /// smallest power of two at or above itself.
    pub fn is_power_of_two(self) -> (r: bool)
        requires
            self.wf(),
        ensures
            r == (self.spec_get() > 0 && next_pow2_from(1, self.spec_get() as int)
                == self.spec_get()),
    {
        let v = self.value;
        if v <= 0 {
            proof {
                lemma_next_pow2_ge(1, v as int);
            }
            return false;
        }
        let mut p: i64 = 1;
        while p < v
            invariant
                p >= 1,
                v >= 1,
                v == self.spec_get(),
                next_pow2_from(1, v as int) == next_pow2_from(p as int, v as int),
                p <= v,
            decreases (if v - p > 0 { v - p } else { 0 }),
        {
            if p > i64::MAX / 2 {
                proof {
                    assert(next_pow2_from(p as int, v as int) == next_pow2_from(
                        2 * (p as int),
                        v as int,
                    ));
                    lemma_next_pow2_ge(2 * (p as int), v as int);
                    assert(next_pow2_from(1, v as int) > i64::MAX);
                }
                return false;
            }
            let ghost p0 = p as int;
            p = p * 2;
            if p > v {
                proof {
                    assert(next_pow2_from(p0, v as int) == next_pow2_from(p as int, v as int));
                    assert(next_pow2_from(p as int, v as int) == p as int);
                }
                return false;
            }
        }
        proof {
            assert(next_pow2_from(p as int, v as int) == p as int);
        }
        p == v
    }
}

/// A product of two non-zero integers is non-zero.
proof fn lemma_mul_nonzero(a: int, b: int)
    by (nonlinear_arith)
    requires
        a != 0,
        b != 0,
    ensures
        a * b != 0,
{
}

/// Once a checked power has failed, all later checked powers fail too.
proof fn lemma_checked_pow_stays_none(b: int, k: nat, e: nat)
    requires
        k <= e,
        checked_pow_spec(b, k) is None,
    ensures
        checked_pow_spec(b, e) is None,
    decreases e - k,
{
    if k < e {
        lemma_checked_pow_stays_none(b, (k + 1) as nat, e);
    }
}

/// While at least one more halving is possible, the doubling budget in
/// `pow2(cnt)` stays within the starting value, which caps `cnt` below
/// the word size.
proof fn lemma_halving_budget(n: int, cnt: nat, v0: int)
    requires
        n >= 2,
        cnt <= 63,
        n * pow2(cnt) <= v0,
        v0 <= i64::MAX,
    ensures
        (n / 2) * pow2(cnt + 1) <= v0,
        cnt + 1 <= 63,
{
    assert(pow2(cnt + 1) == 2 * pow2(cnt)) by {
        vstd::arithmetic::power2::lemma_pow2_unfold((cnt + 1) as nat);
    }
    assert(pow2(cnt) >= 1) by {
        vstd::arithmetic::power2::lemma_pow2_pos(cnt);
    }
    assert((n / 2) * (2 * pow2(cnt)) <= n * pow2(cnt)) by (nonlinear_arith)
        requires
            n >= 2,
            pow2(cnt) >= 1,
    ;
    if cnt + 1 > 63 {
        lemma2_to64();
        assert(pow2(63) == 0x8000000000000000);
        assert(n * pow2(63) >= 2 * pow2(63)) by (nonlinear_arith)
            requires
                n >= 2,
                pow2(63) >= 1,
        ;
        assert(false);
    }
}

} // verus!
