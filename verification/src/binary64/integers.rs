//! Doubles as whole numbers.
//!
//! A number that does not fit is brought to the nearest bound; what is not a number becomes
//! zero.
use super::arithmetic::{one_in_units, UNIT_EXPONENT};
use super::rounding::power;
use super::{Binary64, INFINITE_BITS};
use vstd::arithmetic::power2::{
    lemma2_to64, lemma2_to64_rest, lemma_pow2_adds, lemma_pow2_pos, lemma_pow2_strictly_increases,
    pow2,
};
use vstd::prelude::*;

verus! {

/// A number brought between two bounds.
pub open spec fn saturated(i: int, low: int, high: int) -> int {
    if i < low {
        low
    } else if i > high {
        high
    } else {
        i
    }
}

impl Binary64 {
    /// The whole part of the absolute value.
    pub open spec fn whole_part(self) -> int {
        self.units() / one_in_units()
    }

    /// The part of the absolute value behind the point, in units.
    pub open spec fn fraction_part(self) -> int {
        self.units() % one_in_units()
    }

    /// The whole number next to the number towards zero.
    pub open spec fn truncated(self) -> int {
        if self.nan() {
            0
        } else if self.sign() {
            -self.whole_part()
        } else {
            self.whole_part()
        }
    }

    /// The whole number next to the number downwards.
    pub open spec fn floored(self) -> int {
        if self.sign() && !self.nan() && self.fraction_part() > 0 {
            self.truncated() - 1
        } else {
            self.truncated()
        }
    }

    /// The nearest whole number; halfway between two of them the one farther from zero.
    pub open spec fn rounded(self) -> int {
        let up = 2 * self.fraction_part() >= one_in_units();
        if self.nan() || !up {
            self.truncated()
        } else if self.sign() {
            self.truncated() - 1
        } else {
            self.truncated() + 1
        }
    }
}

/// The whole part of an absolute value, and where the rest lies. A whole part of `2^64` or more
/// is given as `2^64`.
struct Split {
    whole: u128,
    fraction: bool,
    half: bool,
}

/// The limit of whole parts.
const LIMIT: u128 = 0x1_0000_0000_0000_0000;

proof fn lemma_split_small(m: int, k: int, s: nat, w: int)
    requires
        0 <= m,
        0 <= k,
        k + s == UNIT_EXPONENT,
        w == pow2(s),
    ensures
        (m * pow2(k as nat)) / one_in_units() == m / w,
        (m * pow2(k as nat)) % one_in_units() == (m % w) * pow2(k as nat),
        2 * ((m % w) * pow2(k as nat)) >= one_in_units() <==> 2 * (m % w) >= w,
        (m % w) * pow2(k as nat) > 0 <==> m % w > 0,
        w > 0,
{
    let v = pow2(k as nat) as int;
    lemma_pow2_adds(k as nat, s);
    lemma_pow2_pos(k as nat);
    lemma_pow2_pos(s);
    let (q, r) = (m / w, m % w);
    vstd::arithmetic::div_mod::lemma_fundamental_div_mod(m, w);
    assert(one_in_units() == w * v) by (nonlinear_arith)
        requires
            one_in_units() == v * w,
    ;
    assert(m * v == q * (w * v) + r * v && 0 <= r * v && r * v < w * v) by (nonlinear_arith)
        requires
            m == w * q + r,
            0 <= r < w,
            v > 0,
    ;
    vstd::arithmetic::div_mod::lemma_fundamental_div_mod_converse(m * v, w * v, q, r * v);
    assert(2 * (r * v) >= w * v <==> 2 * r >= w) by (nonlinear_arith)
        requires
            v > 0,
    ;
    assert(r * v > 0 <==> r > 0) by (nonlinear_arith)
        requires
            v > 0,
            r >= 0,
    ;
}

proof fn lemma_split_large(m: int, k: int)
    requires
        0 <= m,
        k >= UNIT_EXPONENT,
    ensures
        (m * pow2(k as nat)) / one_in_units() == m * pow2((k - UNIT_EXPONENT) as nat),
        (m * pow2(k as nat)) % one_in_units() == 0,
{
    let one = one_in_units();
    let w = pow2((k - UNIT_EXPONENT) as nat) as int;
    lemma_pow2_adds((k - UNIT_EXPONENT) as nat, UNIT_EXPONENT as nat);
    lemma_pow2_pos(UNIT_EXPONENT as nat);
    assert((k - UNIT_EXPONENT) as nat + UNIT_EXPONENT as nat == k as nat);
    assert(m * (w * one) == one * (m * w)) by (nonlinear_arith);
    vstd::arithmetic::div_mod::lemma_div_multiples_vanish(m * w, one);
    vstd::arithmetic::div_mod::lemma_mod_multiples_basic(m * w, one);
    assert((m * w) * one == one * (m * w)) by (nonlinear_arith);
}

impl Binary64 {
    fn split(&self) -> (r: Split)
        requires
            !self.nan(),
        ensures
            r.whole == (if self.whole_part() < LIMIT {
                self.whole_part()
            } else {
                LIMIT as int
            }),
            self.whole_part() >= 0,
            r.whole < LIMIT ==> r.fraction == (self.fraction_part() > 0),
            r.whole < LIMIT ==> r.half == (2 * self.fraction_part() >= one_in_units()),
    {
        proof {
            lemma2_to64();
            lemma2_to64_rest();
            lemma_pow2_pos(UNIT_EXPONENT as nat);
        }
        if self.is_infinite() {
            proof {
                super::rounding::lemma_pattern_value(super::FRACTION_SPAN as int, 2046);
                assert(super::rounding::pattern(super::FRACTION_SPAN as int, 2046)
                    == INFINITE_BITS);
                lemma_split_large(super::FRACTION_SPAN as int, 2046);
                lemma_pow2_strictly_increases(64, 972);
                let w = pow2(972) as int;
                assert(super::FRACTION_SPAN * w >= w) by (nonlinear_arith)
                    requires
                        w >= 0,
                        super::FRACTION_SPAN >= 1,
                ;
            }
            return Split { whole: LIMIT, fraction: false, half: false };
        }
        let (m, k) = self.parts();
        if k >= UNIT_EXPONENT {
            let e: i32 = k - UNIT_EXPONENT;
            proof {
                lemma_split_large(m as int, k as int);
            }
            if e > 64 {
                proof {
                    lemma_pow2_strictly_increases(64, e as nat);
                    let w = pow2(e as nat) as int;
                    assert(m * w >= w) by (nonlinear_arith)
                        requires
                            m >= 1,
                            w >= 0,
                    ;
                }
                return Split { whole: LIMIT, fraction: false, half: false };
            }
            let factor: u128 = power(e as u32);
            proof {
                if e < 64 {
                    lemma_pow2_strictly_increases(e as nat, 64);
                }
                assert(m * factor <= 0x20_0000_0000_0000 * 0x1_0000_0000_0000_0000)
                    by (nonlinear_arith)
                    requires
                        m <= 0x20_0000_0000_0000,
                        factor <= 0x1_0000_0000_0000_0000,
                ;
            }
            let whole: u128 = m as u128 * factor;
            if whole >= LIMIT {
                Split { whole: LIMIT, fraction: false, half: false }
            } else {
                Split { whole, fraction: false, half: false }
            }
        } else {
            let s: i32 = UNIT_EXPONENT - k;
            let ghost w = pow2(s as nat) as int;
            proof {
                lemma_split_small(m as int, k as int, s as nat, w);
            }
            if s >= 64 {
                proof {
                    if s > 64 {
                        lemma_pow2_strictly_increases(64, s as nat);
                    }
                    vstd::arithmetic::div_mod::lemma_small_mod(m as nat, w as nat);
                    vstd::arithmetic::div_mod::lemma_basic_div(m as int, w);
                }
                return Split { whole: 0, fraction: m > 0, half: false };
            }
            let factor: u128 = power(s as u32);
            let q: u128 = m as u128 / factor;
            let r: u128 = m as u128 % factor;
            proof {
                lemma_pow2_strictly_increases(s as nat, 64);
                assert(q <= m) by (nonlinear_arith)
                    requires
                        q == m as int / factor as int,
                        factor >= 1,
                        m >= 0,
                ;
            }
            Split { whole: q, fraction: r > 0, half: 2 * r >= factor }
        }
    }

    /// The whole number next to the number towards zero.
    pub fn trunc_i64(&self) -> (r: i64)
        ensures
            r == saturated(self.truncated(), i64::MIN as int, i64::MAX as int),
    {
        if self.is_nan() {
            return 0;
        }
        let split = self.split();
        to_i64(self.is_negative(), split.whole)
    }

    /// The whole number next to the number downwards.
    pub fn floor_i64(&self) -> (r: i64)
        ensures
            r == saturated(self.floored(), i64::MIN as int, i64::MAX as int),
    {
        if self.is_nan() {
            return 0;
        }
        let split = self.split();
        let up = self.is_negative() && split.fraction;
        to_i64(
            self.is_negative(),
            if up && split.whole < LIMIT {
                split.whole + 1
            } else {
                split.whole
            },
        )
    }

    /// The nearest whole number; halfway between two of them the one farther from zero.
    pub fn round_i64(&self) -> (r: i64)
        ensures
            r == saturated(self.rounded(), i64::MIN as int, i64::MAX as int),
    {
        if self.is_nan() {
            return 0;
        }
        let split = self.split();
        to_i64(
            self.is_negative(),
            if split.half && split.whole < LIMIT {
                split.whole + 1
            } else {
                split.whole
            },
        )
    }

    /// The nearest whole number from zero up.
    pub fn round_u16(&self) -> (r: u16)
        ensures
            r == saturated(self.rounded(), 0, u16::MAX as int),
    {
        let n: i64 = self.round_i64();
        narrow_u16(n)
    }

    /// The whole number next to the number towards zero, from zero up.
    pub fn trunc_u16(&self) -> (r: u16)
        ensures
            r == saturated(self.truncated(), 0, u16::MAX as int),
    {
        let n: i64 = self.trunc_i64();
        narrow_u16(n)
    }

    /// The whole number next to the number towards zero, from zero up.
    pub fn trunc_u64(&self) -> (r: u64)
        ensures
            r == saturated(self.truncated(), 0, u64::MAX as int),
    {
        if self.is_nan() || self.is_negative() {
            proof {
                if !self.nan() {
                    let _split = self.whole_part();
                    super::ranges::lemma_units(*self);
                    lemma_pow2_pos(UNIT_EXPONENT as nat);
                    assert(self.whole_part() >= 0) by (nonlinear_arith)
                        requires
                            self.whole_part() == self.units() / one_in_units(),
                            self.units() >= 0,
                            one_in_units() > 0,
                    ;
                }
            }
            return 0;
        }
        let split = self.split();
        if split.whole >= LIMIT {
            u64::MAX
        } else {
            split.whole as u64
        }
    }
}

fn to_i64(negative: bool, whole: u128) -> (r: i64)
    requires
        whole <= LIMIT,
    ensures
        r == saturated(
            if negative {
                -(whole as int)
            } else {
                whole as int
            },
            i64::MIN as int,
            i64::MAX as int,
        ),
{
    if negative {
        if whole > 0x8000_0000_0000_0000 {
            i64::MIN
        } else {
            (-(whole as i128)) as i64
        }
    } else if whole > 0x7FFF_FFFF_FFFF_FFFF {
        i64::MAX
    } else {
        whole as i64
    }
}

fn narrow_u16(n: i64) -> (r: u16)
    ensures
        r == saturated(n as int, 0, u16::MAX as int),
{
    if n < 0 {
        0
    } else if n > 0xFFFF {
        0xFFFF
    } else {
        n as u16
    }
}

} // verus!
