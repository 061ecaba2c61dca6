//! The square root of a double.
use crate::binary64::arithmetic::{nan_value, one_in_units, with_sign, NAN_BITS, UNIT_EXPONENT};
use crate::binary64::{
    lemma_scaled_magnitude_increases, scaled_magnitude, Binary64, FRACTION_SPAN, INFINITE_BITS,
};
use crate::binary64::rounding::{are_parts, lemma_pattern_value, pattern};
use vstd::arithmetic::power2::{
    lemma2_to64, lemma2_to64_rest, lemma_pow2_adds, lemma_pow2_pos, lemma_pow2_strictly_increases,
    lemma_pow2_unfold, pow2,
};
use vstd::prelude::*;

verus! {

/// Whether the square root of `n` is rounded to the pattern `p` or to a larger one: it lies
/// above the middle between `p` and the pattern before it, or in the middle where `p` is even.
pub open spec fn root_reaches(n: int, p: int) -> bool {
    let middle = scaled_magnitude(p - 1) + scaled_magnitude(p);
    4 * n > middle * middle || (4 * n == middle * middle && p % 2 == 0)
}

/// The largest pattern up to `p` that the square root of `n` reaches.
pub open spec fn largest_root_reached(n: int, p: nat) -> int
    decreases p,
{
    if p == 0 || root_reaches(n, p as int) {
        p as int
    } else {
        largest_root_reached(n, (p - 1) as nat)
    }
}

/// The bit pattern of the double nearest to the square root of `n`.
pub open spec fn nearest_root(n: int) -> int {
    largest_root_reached(n, INFINITE_BITS as nat)
}

impl Binary64 {
    /// The square root. There is none of a number below zero.
    pub open spec fn root(self) -> Self {
        if self.nan() {
            nan_value()
        } else if self.zero() {
            self
        } else if self.sign() {
            nan_value()
        } else if self.infinite() {
            self
        } else {
            with_sign(false, nearest_root(self.units() * one_in_units()))
        }
    }
}

proof fn lemma_root_reaches_is_monotone(n: int, p: int, q: int)
    requires
        1 <= p <= q,
        root_reaches(n, q),
    ensures
        root_reaches(n, p),
{
    if p < q {
        lemma_scaled_magnitude_increases(p - 1, p);
        lemma_scaled_magnitude_increases(p, q);
        lemma_scaled_magnitude_increases(p - 1, q - 1);
        let low = scaled_magnitude(p - 1) + scaled_magnitude(p);
        let high = scaled_magnitude(q - 1) + scaled_magnitude(q);
        assert(low * low < high * high) by (nonlinear_arith)
            requires
                0 <= low < high,
        ;
    }
}

proof fn lemma_largest_root_reached(n: int, p: int, top: nat)
    requires
        0 <= p <= top,
        p == 0 || root_reaches(n, p),
        p == top || !root_reaches(n, p + 1),
    ensures
        largest_root_reached(n, top) == p,
    decreases top,
{
    if p < top {
        if root_reaches(n, top as int) {
            lemma_root_reaches_is_monotone(n, p + 1, top as int);
        }
        lemma_largest_root_reached(n, p, (top - 1) as nat);
    }
}

/// Where the square root lies between a pattern and its successor, it is rounded up from above
/// the middle.
proof fn lemma_root_between(m: int, k: int, n: int)
    requires
        are_parts(m, k),
        k < 2046,
        m > 0,
        (m * pow2(k as nat)) * (m * pow2(k as nat)) <= n,
        n < ((m + 1) * pow2(k as nat)) * ((m + 1) * pow2(k as nat)),
    ensures
        pattern(m, k) < INFINITE_BITS,
        nearest_root(n) == ({
            let middle = (2 * m + 1) * pow2(k as nat);
            if 4 * n > middle * middle || (4 * n == middle * middle && m % 2 == 1) {
                pattern(m, k) + 1
            } else {
                pattern(m, k)
            }
        }),
{
    let p = pattern(m, k);
    let span = FRACTION_SPAN as int;
    let v = pow2(k as nat) as int;
    lemma_pattern_value(m, k);
    assert(p > 0 && p < INFINITE_BITS) by (nonlinear_arith)
        requires
            p == k * span + m,
            0 <= k <= 2045,
            0 < m < 2 * span,
            span == 0x0010_0000_0000_0000int,
            INFINITE_BITS == 2047 * 0x0010_0000_0000_0000int,
    ;
    assert(p % 2 == m % 2) by {
        assert(p == 2 * (k * 0x0008_0000_0000_0000int) + m) by (nonlinear_arith)
            requires
                p == k * 0x0010_0000_0000_0000int + m,
        ;
    }
    lemma_scaled_magnitude_increases(p - 1, p);
    lemma_scaled_magnitude_increases(p + 1, p + 2);
    let (low, high) = (m * v, (m + 1) * v);
    let before = scaled_magnitude(p - 1) + low;
    assert(4 * n > before * before) by (nonlinear_arith)
        requires
            low * low <= n,
            0 <= before < 2 * low,
    ;
    let after = high + scaled_magnitude(p + 2);
    assert(4 * n < after * after) by (nonlinear_arith)
        requires
            n < high * high,
            after > 2 * high,
            high >= 0,
    ;
    assert(low + high == (2 * m + 1) * v) by (nonlinear_arith)
        requires
            low == m * v,
            high == (m + 1) * v,
    ;
    if root_reaches(n, p + 1) {
        lemma_largest_root_reached(n, p + 1, INFINITE_BITS as nat);
    } else {
        lemma_largest_root_reached(n, p, INFINITE_BITS as nat);
    }
}

/// The whole part of the square root.
fn whole_root(n: u128) -> (r: u128)
    requires
        n < 0x100_0000_0000_0000_0000_0000_0000_0000,
    ensures
        r < 0x1000_0000_0000_0000,
        r * r <= n,
        n < (r + 1) * (r + 1),
{
    let mut low: u128 = 0;
    let mut high: u128 = 0x1000_0000_0000_0000;
    assert(0x1000_0000_0000_0000int * 0x1000_0000_0000_0000int
        == 0x100_0000_0000_0000_0000_0000_0000_0000int);
    while high - low > 1
        invariant
            low < high <= 0x1000_0000_0000_0000,
            low * low <= n,
            n < high * high,
        decreases high - low,
    {
        let middle: u128 = low + (high - low) / 2;
        assert(middle * middle <= 0x1000_0000_0000_0000 * 0x1000_0000_0000_0000)
            by (nonlinear_arith)
            requires
                0 <= middle <= 0x1000_0000_0000_0000,
        ;
        if middle * middle <= n {
            low = middle;
        } else {
            high = middle;
        }
    }
    low
}

/// The exponent by which a root is shifted, and the value of what is shifted.
proof fn lemma_root_parts(m: int, k: int, t: int, e: int)
    requires
        0 <= t,
        0 <= k,
        e >= 0,
        2 * e + t == k + UNIT_EXPONENT,
    ensures
        (m * pow2(k as nat)) * one_in_units() == (m * pow2(t as nat)) * (pow2(e as nat) * pow2(
            e as nat,
        )),
{
    lemma_pow2_adds(k as nat, UNIT_EXPONENT as nat);
    lemma_pow2_adds(e as nat, e as nat);
    lemma_pow2_adds(t as nat, (2 * e) as nat);
    assert(e as nat + e as nat == (2 * e) as nat);
    assert(t as nat + (2 * e) as nat == k as nat + UNIT_EXPONENT as nat);
    let (a, o, f, s) = (
        pow2(k as nat) as int,
        one_in_units(),
        pow2(t as nat) as int,
        pow2((2 * e) as nat) as int,
    );
    assert((m * a) * o == (m * f) * s) by (nonlinear_arith)
        requires
            a * o == f * s,
    ;
}

/// The kept bits of a root and the middle above them, in terms of the shifted number `x` whose
/// whole root is `n`.
proof fn lemma_root_rounding(x: int, n: int, e: int, s: nat, m: int, r: int)
    requires
        e >= 0,
        s >= 1,
        n * n <= x < (n + 1) * (n + 1),
        n == m * pow2(s) + r,
        0 <= r < pow2(s),
        are_parts(m, e + s),
        m > 0,
        e + s < 2046,
    ensures
        pattern(m, e + s) < INFINITE_BITS,
        nearest_root(x * (pow2(e as nat) * pow2(e as nat))) == ({
            let half = pow2((s - 1) as nat);
            if r > half || (r == half && (n * n != x || m % 2 == 1)) {
                pattern(m, e + s) + 1
            } else {
                pattern(m, e + s)
            }
        }),
{
    let k = e + s;
    let (u, w, v) = (pow2(e as nat) as int, pow2(s) as int, pow2(k as nat) as int);
    let half = pow2((s - 1) as nat) as int;
    lemma_pow2_unfold(s);
    lemma_pow2_adds(e as nat, s);
    lemma_pow2_pos(e as nat);
    let square = x * (u * u);
    let low = m * w;
    let high = (m + 1) * w;
    assert(high == low + w) by (nonlinear_arith)
        requires
            low == m * w,
            high == (m + 1) * w,
    ;
    assert(low >= 0) by (nonlinear_arith)
        requires
            low == m * w,
            m > 0,
            w >= 0,
    ;
    assert(low * low <= x) by (nonlinear_arith)
        requires
            0 <= low <= n,
            n * n <= x,
    ;
    assert(x < high * high) by (nonlinear_arith)
        requires
            0 <= n + 1 <= high,
            x < (n + 1) * (n + 1),
    ;
    assert((m * v) * (m * v) == (low * low) * (u * u)) by (nonlinear_arith)
        requires
            v == u * w,
            low == m * w,
    ;
    assert(((m + 1) * v) * ((m + 1) * v) == (high * high) * (u * u)) by (nonlinear_arith)
        requires
            v == u * w,
            high == (m + 1) * w,
    ;
    assert(u * u > 0) by (nonlinear_arith)
        requires
            u > 0,
    ;
    assert((low * low) * (u * u) <= square && square < (high * high) * (u * u))
        by (nonlinear_arith)
        requires
            low * low <= x,
            x < high * high,
            u * u > 0,
            square == x * (u * u),
    ;
    // The middle.
    let c = low + half;
    let middle = (2 * m + 1) * v;
    assert(middle * middle == 4 * ((c * c) * (u * u))) by (nonlinear_arith)
        requires
            middle == (2 * m + 1) * v,
            v == u * w,
            w == 2 * half,
            c == m * w + half,
    ;
    assert(4 * square > middle * middle <==> x > c * c) by (nonlinear_arith)
        requires
            middle * middle == 4 * ((c * c) * (u * u)),
            square == x * (u * u),
            u * u > 0,
    ;
    assert(4 * square == middle * middle <==> x == c * c) by (nonlinear_arith)
        requires
            middle * middle == 4 * ((c * c) * (u * u)),
            square == x * (u * u),
            u * u > 0,
    ;
    if r > half {
        assert(x > c * c) by (nonlinear_arith)
            requires
                0 <= c < n,
                n * n <= x,
        ;
    } else if r < half {
        assert(x < c * c) by (nonlinear_arith)
            requires
                0 <= n + 1 <= c,
                x < (n + 1) * (n + 1),
        ;
    } else {
        assert(c == n);
    }
    lemma_root_between(m, k, square);
}

impl Binary64 {
    fn root_finite(&self) -> (p: u64)
        requires
            0 < self.magnitude() < INFINITE_BITS,
        ensures
            p == nearest_root(self.units() * one_in_units()),
            p <= INFINITE_BITS,
    {
        let (m, k) = self.parts();
        // Shift so that the root has more bits than are kept, by an exponent that halves.
        let mut t: i32 = 0;
        let mut x: u128 = m as u128;
        proof {
            lemma2_to64();
            assert(m * pow2(0) == m);
        }
        while x < 0x40_0000_0000_0000_0000_0000_0000_0000
            invariant
                0 <= t <= 118,
                m > 0,
                x == m * pow2(t as nat),
                x < 0x80_0000_0000_0000_0000_0000_0000_0000,
            decreases 120 - t,
        {
            proof {
                lemma_pow2_unfold((t + 1) as nat);
                lemma_root_shift_bound(m as int, t as nat);
                let w = pow2(t as nat) as int;
                assert(2 * (m * w) == m * (2 * w)) by (nonlinear_arith);
            }
            x = x * 2;
            t += 1;
        }
        if (k + UNIT_EXPONENT - t) % 2 != 0 {
            proof {
                lemma_pow2_unfold((t + 1) as nat);
                let w = pow2(t as nat) as int;
                assert(2 * (m * w) == m * (2 * w)) by (nonlinear_arith);
            }
            x = x * 2;
            t += 1;
        }
        let e: i32 = (k + UNIT_EXPONENT - t) / 2;
        assert(2 * e + t == k + UNIT_EXPONENT);
        let n: u128 = whole_root(x);
        let exact = n * n == x;
        proof {
            lemma_root_parts(m as int, k as int, t as int, e as int);
            assert(n >= 0x800_0000_0000_0000) by (nonlinear_arith)
                requires
                    x < (n + 1) * (n + 1),
                    x >= 0x40_0000_0000_0000_0000_0000_0000_0000,
                    n >= 0,
            ;
            lemma2_to64();
            lemma2_to64_rest();
        }
        // The root has 60 bits, of which 53 are kept.
        let kept: u128 = n / 0x80;
        let r: u128 = n % 0x80;
        let up = r > 0x40 || (r == 0x40 && (!exact || kept % 2 == 1));
        proof {
            lemma_root_rounding(x as int, n as int, e as int, 7, kept as int, r as int);
        }
        let low: u64 = (e + 7) as u64 * FRACTION_SPAN + kept as u64;
        if up {
            low + 1
        } else {
            low
        }
    }

    /// The square root.
    pub fn sqrt(&self) -> (r: Self)
        ensures
            r == self.root(),
    {
        if self.is_nan() {
            return Binary64 { bits: NAN_BITS };
        }
        if self.bits == 0 || self.bits == crate::binary64::SIGN_BIT {
            return *self;
        }
        if self.is_negative() {
            return Binary64 { bits: NAN_BITS };
        }
        if self.is_infinite() {
            return *self;
        }
        Binary64 { bits: self.root_finite() }
    }
}

proof fn lemma_root_shift_bound(m: int, t: nat)
    requires
        m >= 1,
        m * pow2(t) < 0x40_0000_0000_0000_0000_0000_0000_0000,
    ensures
        t < 118,
{
    lemma2_to64();
    lemma2_to64_rest();
    lemma_pow2_adds(60, 58);
    assert(0x1000_0000_0000_0000int * 0x400_0000_0000_0000int
        == 0x40_0000_0000_0000_0000_0000_0000_0000int);
    if t >= 118 {
        if t > 118 {
            lemma_pow2_strictly_increases(118, t);
        }
        assert(m * pow2(t) >= pow2(t)) by (nonlinear_arith)
            requires
                m >= 1,
                pow2(t) >= 0,
        ;
    }
}

} // verus!
