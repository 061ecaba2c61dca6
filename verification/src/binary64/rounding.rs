//! Rounding to the nearest double.
//!
//! A quotient of two whole numbers stands for a value in units of `2^-1074`, the spacing of
//! the smallest doubles. It is rounded to the nearest double; a value halfway between two
//! doubles goes to the one whose bit pattern is even. Infinity takes part as the value that
//! would follow the largest double.
use crate::binary64::{
    lemma_scaled_magnitude_increases, scaled_magnitude, FRACTION_SPAN, INFINITE_BITS,
};
use vstd::arithmetic::power2::{
    lemma2_to64, lemma2_to64_rest, lemma_pow2_adds, lemma_pow2_pos, lemma_pow2_strictly_increases,
    lemma_pow2_unfold, pow2,
};
use vstd::prelude::*;

verus! {

/// Whether `n / d` is rounded to the pattern `p` or to a larger one: it lies above the middle
/// between `p` and the pattern before it, or in the middle where `p` is even.
pub open spec fn reaches(n: int, d: int, p: int) -> bool {
    let middle = (scaled_magnitude(p - 1) + scaled_magnitude(p)) * d;
    2 * n > middle || (2 * n == middle && p % 2 == 0)
}

/// The largest pattern up to `p` that `n / d` reaches.
pub open spec fn largest_reached(n: int, d: int, p: nat) -> int
    decreases p,
{
    if p == 0 || reaches(n, d, p as int) {
        p as int
    } else {
        largest_reached(n, d, (p - 1) as nat)
    }
}

/// The bit pattern of the double nearest to `n / d`.
pub open spec fn nearest(n: int, d: int) -> int {
    largest_reached(n, d, INFINITE_BITS as nat)
}

proof fn lemma_reaches_is_monotone(n: int, d: int, p: int, q: int)
    requires
        d > 0,
        1 <= p <= q,
        reaches(n, d, q),
    ensures
        reaches(n, d, p),
{
    if p < q {
        lemma_scaled_magnitude_increases(p - 1, p);
        lemma_scaled_magnitude_increases(q - 1, q);
        lemma_scaled_magnitude_increases(p, q);
        if p < q - 1 {
            lemma_scaled_magnitude_increases(p, q - 1);
        }
        lemma_scaled_magnitude_increases(p - 1, q - 1);
        let low = scaled_magnitude(p - 1) + scaled_magnitude(p);
        let high = scaled_magnitude(q - 1) + scaled_magnitude(q);
        assert(low * d < high * d) by (nonlinear_arith)
            requires
                low < high,
                d > 0,
        ;
    }
}

proof fn lemma_largest_reached(n: int, d: int, p: int, top: nat)
    requires
        d > 0,
        0 <= p <= top,
        p == 0 || reaches(n, d, p),
        p == top || !reaches(n, d, p + 1),
    ensures
        largest_reached(n, d, top) == p,
    decreases top,
{
    if p < top {
        if reaches(n, d, top as int) {
            lemma_reaches_is_monotone(n, d, p + 1, top as int);
        }
        lemma_largest_reached(n, d, p, (top - 1) as nat);
    }
}

/// What is reached, and whose successor is not reached, is the nearest.
pub proof fn lemma_nearest_is(n: int, d: int, p: int)
    requires
        d > 0,
        0 <= p <= INFINITE_BITS,
        p == 0 || reaches(n, d, p),
        p == INFINITE_BITS || !reaches(n, d, p + 1),
    ensures
        nearest(n, d) == p,
{
    lemma_largest_reached(n, d, p, INFINITE_BITS as nat);
}

proof fn lemma_largest_reached_bounds(n: int, d: int, top: nat)
    ensures
        0 <= largest_reached(n, d, top) <= top,
        largest_reached(n, d, top) == 0 || reaches(n, d, largest_reached(n, d, top)),
        largest_reached(n, d, top) == top || !reaches(n, d, largest_reached(n, d, top) + 1),
    decreases top,
{
    if top > 0 && !reaches(n, d, top as int) {
        lemma_largest_reached_bounds(n, d, (top - 1) as nat);
    }
}

/// The nearest double is a pattern up to infinity; it is reached and its successor is not.
pub proof fn lemma_nearest(n: int, d: int)
    ensures
        0 <= nearest(n, d) <= INFINITE_BITS,
        nearest(n, d) == 0 || reaches(n, d, nearest(n, d)),
        nearest(n, d) == INFINITE_BITS || !reaches(n, d, nearest(n, d) + 1),
{
    lemma_largest_reached_bounds(n, d, INFINITE_BITS as nat);
}

/// A larger value is not rounded to a smaller double.
pub proof fn law_rounding_is_monotone(n1: int, d1: int, n2: int, d2: int)
    requires
        d1 > 0,
        d2 > 0,
        n1 * d2 <= n2 * d1,
    ensures
        nearest(n1, d1) <= nearest(n2, d2),
{
    let p = nearest(n1, d1);
    let q = nearest(n2, d2);
    lemma_nearest(n1, d1);
    lemma_nearest(n2, d2);
    if q < p {
        // The larger value reaches what the smaller one reaches.
        let middle = scaled_magnitude(p - 1) + scaled_magnitude(p);
        assert(reaches(n2, d2, p)) by {
            assert(2 * n1 >= middle * d1);
            assert(2 * n2 * d1 >= middle * d2 * d1) by (nonlinear_arith)
                requires
                    2 * n1 >= middle * d1,
                    n1 * d2 <= n2 * d1,
                    d2 > 0,
            ;
            assert(2 * n2 >= middle * d2) by (nonlinear_arith)
                requires
                    2 * n2 * d1 >= middle * d2 * d1,
                    d1 > 0,
            ;
            if 2 * n2 == middle * d2 && p % 2 != 0 {
                assert(2 * n1 > middle * d1);
                assert(2 * n1 * d2 > middle * d1 * d2) by (nonlinear_arith)
                    requires
                        2 * n1 > middle * d1,
                        d2 > 0,
                ;
                assert(2 * n2 * d1 == middle * d2 * d1) by (nonlinear_arith)
                    requires
                        2 * n2 == middle * d2,
                ;
                assert(middle * d1 * d2 == middle * d2 * d1) by (nonlinear_arith);
                assert(2 * n1 * d2 <= 2 * n2 * d1) by (nonlinear_arith)
                    requires
                        n1 * d2 <= n2 * d1,
                ;
            }
        }
        lemma_reaches_is_monotone(n2, d2, q + 1, p);
    }
}

/// A double is its own nearest double.
pub proof fn law_a_double_is_not_rounded(p: int)
    requires
        0 <= p <= INFINITE_BITS,
    ensures
        nearest(scaled_magnitude(p), 1) == p,
{
    if p > 0 {
        lemma_scaled_magnitude_increases(p - 1, p);
    }
    lemma_scaled_magnitude_increases(p, p + 1);
    lemma_nearest_is(scaled_magnitude(p), 1, p);
}

// ---------------------------------------------------------------------------
// Patterns by significand and exponent
// ---------------------------------------------------------------------------

/// The pattern of `m * 2^k`, where `m` has 53 bits, or fewer where `k` is zero.
pub open spec fn pattern(m: int, k: int) -> int {
    k * FRACTION_SPAN + m
}

/// Whether `m` and `k` are the parts of a pattern.
pub open spec fn are_parts(m: int, k: int) -> bool {
    &&& 0 <= k
    &&& 0 <= m < 2 * FRACTION_SPAN
    &&& k > 0 ==> m >= FRACTION_SPAN
}

/// The value of a pattern and of its successor.
pub proof fn lemma_pattern_value(m: int, k: int)
    requires
        are_parts(m, k),
    ensures
        scaled_magnitude(pattern(m, k)) == m * pow2(k as nat),
        scaled_magnitude(pattern(m, k) + 1) == (m + 1) * pow2(k as nat),
{
    let span = FRACTION_SPAN as int;
    let p = pattern(m, k);
    lemma2_to64();
    if m < span {
        assert(p / span == 0 && p % span == m);
        assert(m * pow2(0) == m);
        if m + 1 < span {
            assert((p + 1) / span == 0 && (p + 1) % span == m + 1);
        } else {
            assert((p + 1) / span == 1 && (p + 1) % span == 0);
        }
        assert((m + 1) * pow2(0) == m + 1);
        assert((span + 0) * pow2(0) == span);
    } else {
        assert(p == (k + 1) * span + (m - span)) by (nonlinear_arith)
            requires
                p == k * span + m,
        ;
        assert(p / span == k + 1 && p % span == m - span) by (nonlinear_arith)
            requires
                p == (k + 1) * span + (m - span),
                0 <= m - span < span,
        ;
        assert(scaled_magnitude(p) == m * pow2(k as nat));
        if m + 1 < 2 * span {
            assert((p + 1) / span == k + 1 && (p + 1) % span == m + 1 - span) by (nonlinear_arith)
                requires
                    p == (k + 1) * span + (m - span),
                    0 <= m + 1 - span < span,
            ;
        } else {
            assert((p + 1) / span == k + 2 && (p + 1) % span == 0) by (nonlinear_arith)
                requires
                    p == (k + 1) * span + (m - span),
                    m + 1 == 2 * span,
                    span > 0,
            ;
            lemma_pow2_unfold((k + 1) as nat);
            let unit = pow2(k as nat) as int;
            assert(span * (2 * unit) == (m + 1) * unit) by (nonlinear_arith)
                requires
                    m + 1 == 2 * span,
            ;
        }
    }
}

// ---------------------------------------------------------------------------
// Rounding of an exact result
// ---------------------------------------------------------------------------

/// The number of halvings that bring every exponent that occurs to a whole number.
pub const BIAS: i32 = 1200;

/// `2^e`, for the exponent `e` counted from `-BIAS`.
pub open spec fn unit(e: int) -> nat {
    pow2((e + BIAS) as nat)
}

/// Whether `n * 2^e` is `x / d`, or lies below it by less than `2^e` where `more` is set.
pub open spec fn brackets(n: int, e: int, more: bool, x: int, d: int) -> bool {
    &&& n * unit(e) * d <= x * unit(0)
    &&& x * unit(0) < (n + 1) * unit(e) * d
    &&& !more <==> n * unit(e) * d == x * unit(0)
}

/// The number of bits of a number.
fn bit_length(n: u128) -> (l: u32)
    requires
        n < 0x100_0000_0000_0000_0000_0000_0000_0000,
    ensures
        l <= 120,
        n < pow2(l as nat),
        n > 0 ==> l > 0 && pow2((l - 1) as nat) <= n,
        n == 0 ==> l == 0,
{
    let mut l: u32 = 0;
    let mut rest: u128 = n;
    proof {
        lemma2_to64();
        assert(rest * pow2(0) == rest);
    }
    while rest > 0
        invariant
            rest * pow2(l as nat) <= n,
            n < (rest + 1) * pow2(l as nat),
            n < 0x100_0000_0000_0000_0000_0000_0000_0000,
            l <= 120,
            rest == 0 && l > 0 ==> pow2((l - 1) as nat) <= n,
            n > 0 ==> rest > 0 || l > 0,
            n == 0 ==> l == 0 && rest == 0,
        decreases rest,
    {
        let half: u128 = rest / 2;
        proof {
            lemma_pow2_unfold((l + 1) as nat);
            let unit = pow2(l as nat) as int;
            lemma_pow2_pos(l as nat);
            assert(half * (2 * unit) <= rest * unit) by (nonlinear_arith)
                requires
                    2 * half <= rest,
                    unit > 0,
            ;
            assert((rest + 1) * unit <= (half + 1) * (2 * unit)) by (nonlinear_arith)
                requires
                    rest + 1 <= 2 * (half + 1),
                    unit > 0,
            ;
            assert(unit <= rest * unit) by (nonlinear_arith)
                requires
                    rest >= 1,
                    unit > 0,
            ;
            if l == 120 {
                lemma_pow2_is_2_to_120();
            }
        }
        rest = half;
        l += 1;
    }
    assert((rest + 1) * pow2(l as nat) == pow2(l as nat)) by (nonlinear_arith)
        requires
            rest == 0,
    ;
    l
}

proof fn lemma_pow2_is_2_to_120()
    ensures
        pow2(60) == 0x1000_0000_0000_0000,
        pow2(120) == 0x100_0000_0000_0000_0000_0000_0000_0000,
{
    lemma2_to64();
    lemma2_to64_rest();
    lemma_pow2_adds(60, 60);
    assert(0x1000_0000_0000_0000int * 0x1000_0000_0000_0000int
        == 0x100_0000_0000_0000_0000_0000_0000_0000int);
}

/// A power of two.
pub(crate) fn power(s: u32) -> (r: u128)
    requires
        s <= 121,
    ensures
        r == pow2(s as nat),
{
    let mut r: u128 = 1;
    let mut i: u32 = 0;
    proof {
        lemma2_to64();
    }
    while i < s
        invariant
            i <= s <= 121,
            r == pow2(i as nat),
        decreases s - i,
    {
        proof {
            lemma_pow2_is_2_to_120();
            if i < 120 {
                lemma_pow2_strictly_increases(i as nat, 120);
            }
            lemma_pow2_unfold((i + 1) as nat);
        }
        r = r * 2;
        i += 1;
    }
    r
}

/// The units that `m * 2^k` and its neighbours have in common with `n * 2^e`, where
/// `k = e + s`.
proof fn lemma_units(m: int, k: int, e: int, s: nat, d: int)
    requires
        k == e + s,
        e + BIAS >= 0,
        k >= 0,
    ensures
        m * pow2(k as nat) * d * unit(0) == m * pow2(s) * (unit(e) * d),
{
    lemma_pow2_adds(k as nat, BIAS as nat);
    lemma_pow2_adds(s, (e + BIAS) as nat);
    assert(k as nat + BIAS as nat == s + (e + BIAS) as nat);
    let (a, b, c, f) = (
        pow2(k as nat) as int,
        pow2(BIAS as nat) as int,
        pow2(s) as int,
        pow2((e + BIAS) as nat) as int,
    );
    assert(unit(0) == b);
    assert(m * a * d * b == m * c * (f * d)) by (nonlinear_arith)
        requires
            a * b == c * f,
    ;
}

/// The pattern below `x / d`: it is reached, and the one that follows its successor is not.
proof fn lemma_low_pattern(m: int, k: int, x: int, d: int)
    requires
        are_parts(m, k),
        d > 0,
        m * pow2(k as nat) * d <= x,
        x < (m + 1) * pow2(k as nat) * d,
    ensures
        pattern(m, k) > 0 ==> reaches(x, d, pattern(m, k)),
        !reaches(x, d, pattern(m, k) + 2),
        reaches(x, d, pattern(m, k) + 1) <==> {
            let middle = (2 * m + 1) * pow2(k as nat) * d;
            2 * x > middle || (2 * x == middle && m % 2 == 1)
        },
{
    let p = pattern(m, k);
    let value = pow2(k as nat) as int;
    lemma_pattern_value(m, k);
    assert(p % 2 == m % 2) by {
        assert(FRACTION_SPAN as int == 2 * 0x0008_0000_0000_0000int);
        assert(p == 2 * (k * 0x0008_0000_0000_0000int) + m) by (nonlinear_arith)
            requires
                p == k * 0x0010_0000_0000_0000int + m,
        ;
    }
    if p > 0 {
        lemma_scaled_magnitude_increases(p - 1, p);
        let before = scaled_magnitude(p - 1);
        assert(2 * x > (before + m * value) * d) by (nonlinear_arith)
            requires
                m * value * d <= x,
                before < m * value,
                d > 0,
        ;
    }
    lemma_scaled_magnitude_increases(p + 1, p + 2);
    let after = scaled_magnitude(p + 2);
    assert(2 * x < ((m + 1) * value + after) * d) by (nonlinear_arith)
        requires
            x < (m + 1) * value * d,
            (m + 1) * value < after,
            d > 0,
    ;
    assert((m * value + (m + 1) * value) * d == (2 * m + 1) * value * d) by (nonlinear_arith);
}

/// Where `x / d` lies between a pattern and its successor, it is rounded up from above the
/// middle, and from the middle where the pattern is odd. What is too large becomes infinity.
proof fn lemma_round_between(m: int, k: int, x: int, d: int)
    requires
        are_parts(m, k),
        d > 0,
        m * pow2(k as nat) * d <= x,
        x < (m + 1) * pow2(k as nat) * d,
    ensures
        k >= 2046 ==> nearest(x, d) == INFINITE_BITS,
        k < 2046 ==> pattern(m, k) < INFINITE_BITS && nearest(x, d) == ({
            let middle = (2 * m + 1) * pow2(k as nat) * d;
            if 2 * x > middle || (2 * x == middle && m % 2 == 1) {
                pattern(m, k) + 1
            } else {
                pattern(m, k)
            }
        }),
{
    let p = pattern(m, k);
    let span = FRACTION_SPAN as int;
    lemma_low_pattern(m, k, x, d);
    if k >= 2046 {
        assert(p >= INFINITE_BITS) by (nonlinear_arith)
            requires
                p == k * span + m,
                k >= 2046,
                m >= span,
                span == 0x0010_0000_0000_0000int,
                INFINITE_BITS == 2047 * 0x0010_0000_0000_0000int,
        ;
        lemma_reaches_is_monotone(x, d, INFINITE_BITS as int, p);
        lemma_nearest_is(x, d, INFINITE_BITS as int);
    } else {
        assert(p < INFINITE_BITS) by (nonlinear_arith)
            requires
                p == k * span + m,
                k <= 2045,
                m < 2 * span,
                span == 0x0010_0000_0000_0000int,
                INFINITE_BITS == 2047 * 0x0010_0000_0000_0000int,
        ;
        if reaches(x, d, p + 1) {
            lemma_nearest_is(x, d, p + 1);
        } else {
            lemma_nearest_is(x, d, p);
        }
    }
}

/// A result of few bits, which is a double as it stands.
proof fn lemma_round_exact_result(n: int, e: int, m: int, k: int, x: int, d: int)
    requires
        0 <= k <= e,
        m == n * pow2((e - k) as nat),
        are_parts(m, k),
        d > 0,
        n * unit(e) * d == x * unit(0),
    ensures
        k >= 2046 ==> nearest(x, d) == INFINITE_BITS,
        k < 2046 ==> pattern(m, k) < INFINITE_BITS && nearest(x, d) == pattern(m, k),
{
    lemma_pow2_adds((e - k) as nat, k as nat);
    lemma_pow2_adds(e as nat, BIAS as nat);
    lemma_pow2_pos(BIAS as nat);
    lemma_pow2_pos(k as nat);
    let (b, v, f, q) = (
        unit(0) as int,
        pow2(k as nat) as int,
        pow2((e - k) as nat) as int,
        pow2(e as nat) as int,
    );
    assert(e as nat + BIAS as nat == (e + BIAS) as nat);
    assert((e - k) as nat + k as nat == e as nat);
    assert(m * v * d * b == x * b) by (nonlinear_arith)
        requires
            m == n * f,
            q == f * v,
            unit(e) == q * b,
            n * unit(e) * d == x * b,
    ;
    assert(m * v * d == x) by (nonlinear_arith)
        requires
            m * v * d * b == x * b,
            b > 0,
    ;
    assert(x < (m + 1) * v * d && 2 * x < (2 * m + 1) * v * d) by (nonlinear_arith)
        requires
            m * v * d == x,
            v > 0,
            d > 0,
    ;
    lemma_round_between(m, k, x, d);
}

/// A result of many bits: `m` are the bits that are kept and `r` those that are cut off.
proof fn lemma_round_split_result(
    n: int,
    e: int,
    more: bool,
    m: int,
    r: int,
    k: int,
    s: nat,
    x: int,
    d: int,
)
    requires
        s >= 1,
        k == e + s,
        e + BIAS >= 0,
        n == m * pow2(s) + r,
        0 <= r < pow2(s),
        are_parts(m, k),
        d > 0,
        brackets(n, e, more, x, d),
    ensures
        k >= 2046 ==> nearest(x, d) == INFINITE_BITS,
        k < 2046 ==> pattern(m, k) < INFINITE_BITS && nearest(x, d) == ({
            let half = pow2((s - 1) as nat);
            if r > half || (r == half && (more || m % 2 == 1)) {
                pattern(m, k) + 1
            } else {
                pattern(m, k)
            }
        }),
{
    let u = unit(e) * d;
    let b = unit(0) as int;
    let v = pow2(k as nat) as int;
    let w = pow2(s) as int;
    let half = pow2((s - 1) as nat) as int;
    lemma_pow2_unfold(s);
    lemma_pow2_pos((e + BIAS) as nat);
    lemma_pow2_pos(BIAS as nat);
    assert(u > 0) by (nonlinear_arith)
        requires
            u == unit(e) * d,
            unit(e) > 0,
            d > 0,
    ;
    assert(n * unit(e) * d == n * u && (n + 1) * unit(e) * d == (n + 1) * u) by (nonlinear_arith)
        requires
            u == unit(e) * d,
    ;
    lemma_units(m, k, e, s, d);
    lemma_units(m + 1, k, e, s, d);
    lemma_units(2 * m + 1, k, e, s, d);
    // The bounds.
    assert(m * w * u <= n * u) by (nonlinear_arith)
        requires
            m * w <= n,
            u > 0,
    ;
    assert((m + 1) * w == m * w + w) by (nonlinear_arith);
    assert((n + 1) * u <= (m + 1) * w * u) by (nonlinear_arith)
        requires
            n + 1 <= (m + 1) * w,
            u > 0,
    ;
    assert(m * v * d <= x && x < (m + 1) * v * d) by (nonlinear_arith)
        requires
            m * v * d * b <= x * b,
            x * b < (m + 1) * v * d * b,
            b > 0,
    ;
    // The middle.
    let middle = (2 * m + 1) * v * d;
    let cut = (m * w + half) * u;
    assert(middle * b == 2 * cut) by (nonlinear_arith)
        requires
            middle * b == (2 * m + 1) * w * u,
            w == 2 * half,
            cut == (m * w + half) * u,
    ;
    assert(2 * x > middle <==> x * b > cut) by (nonlinear_arith)
        requires
            middle * b == 2 * cut,
            b > 0,
    ;
    assert(2 * x == middle <==> x * b == cut) by (nonlinear_arith)
        requires
            middle * b == 2 * cut,
            b > 0,
    ;
    if r > half {
        assert(n * u > cut) by (nonlinear_arith)
            requires
                n == m * w + r,
                r > half,
                u > 0,
                cut == (m * w + half) * u,
        ;
    } else if r < half {
        assert((n + 1) * u <= cut) by (nonlinear_arith)
            requires
                n == m * w + r,
                r + 1 <= half,
                u > 0,
                cut == (m * w + half) * u,
        ;
    }
    lemma_round_between(m, k, x, d);
}

/// A result that is far smaller than the smallest double.
proof fn lemma_round_tiny_result(n: int, e: int, more: bool, x: int, d: int)
    requires
        0 <= n < 0x100_0000_0000_0000_0000_0000_0000_0000,
        -BIAS <= e <= -122,
        d > 0,
        brackets(n, e, more, x, d),
    ensures
        nearest(x, d) == 0,
{
    let s = (-e) as nat;
    lemma_pow2_is_2_to_120();
    lemma_pow2_strictly_increases(121, s);
    lemma_pow2_unfold(121);
    assert(n == 0 * pow2(s) + n);
    lemma_pow2_unfold(s);
    if s - 1 > 120 {
        lemma_pow2_strictly_increases(120, (s - 1) as nat);
    }
    lemma_round_split_result(n, e, more, 0, n, 0, s, x, d);
}

/// The kept bits of a result are the parts of a pattern.
proof fn lemma_kept_bits(n: int, l: nat, e: int, k: int, m: int)
    requires
        l >= 1,
        pow2((l - 1) as nat) <= n < pow2(l),
        k == (if e + l > 53 {
            e + l - 53
        } else {
            0
        }),
        k <= e ==> m == n * pow2((e - k) as nat),
        k > e ==> m == n / pow2((k - e) as nat) as int,
    ensures
        are_parts(m, k),
{
    lemma2_to64();
    lemma2_to64_rest();
    if k <= e {
        let f = pow2((e - k) as nat) as int;
        lemma_pow2_pos((e - k) as nat);
        lemma_pow2_adds(l, (e - k) as nat);
        lemma_pow2_adds((l - 1) as nat, (e - k) as nat);
        assert(n * f < pow2(l) * f) by (nonlinear_arith)
            requires
                n < pow2(l),
                f > 0,
        ;
        assert(n * f >= pow2((l - 1) as nat) * f) by (nonlinear_arith)
            requires
                n >= pow2((l - 1) as nat),
                f > 0,
        ;
        assert(n * f >= 0) by (nonlinear_arith)
            requires
                n >= 0,
                f > 0,
        ;
        if k > 0 {
            assert((l - 1) as nat + (e - k) as nat == 52);
            assert(l + (e - k) as nat == 53);
        } else if l + e < 53 {
            lemma_pow2_strictly_increases((l + (e - k) as nat) as nat, 53);
        }
    } else {
        let s = (k - e) as nat;
        let w = pow2(s) as int;
        lemma_pow2_pos(s);
        lemma_pow2_adds(53, s);
        if l < 53 + s {
            lemma_pow2_strictly_increases(l, 53 + s);
        }
        assert(0 <= n / w < pow2(53)) by (nonlinear_arith)
            requires
                0 <= n < pow2(53) * w,
                w > 0,
        ;
        if k > 0 {
            assert((l - 1) as nat == 52 + s);
            lemma_pow2_adds(52, s);
            assert(n / w >= pow2(52)) by (nonlinear_arith)
                requires
                    n >= pow2(52) * w,
                    w > 0,
            ;
        }
    }
}

/// Round an exact result: the pattern of the double nearest to `x / d`, where `n * 2^e` is
/// `x / d` or lies just below it.
pub(crate) fn round_exact(
    n: u128,
    e: i32,
    more: bool,
    Ghost(x): Ghost<int>,
    Ghost(d): Ghost<int>,
) -> (p: u64)
    requires
        n < 0x100_0000_0000_0000_0000_0000_0000_0000,
        -BIAS <= e <= 6000,
        d > 0,
        brackets(n as int, e as int, more, x, d),
        more ==> n >= 0x40_0000_0000_0000,
    ensures
        p == nearest(x, d),
        p <= INFINITE_BITS,
{
    let l: u32 = bit_length(n);
    proof {
        lemma2_to64();
        lemma2_to64_rest();
        lemma_pow2_is_2_to_120();
    }
    if n == 0 {
        proof {
            lemma_pow2_pos(BIAS as nat);
            assert(x == 0) by (nonlinear_arith)
                requires
                    x * unit(0) == 0 * unit(e as int) * d,
                    unit(0) > 0,
            ;
            lemma_scaled_magnitude_increases(0, 1);
            let middle = scaled_magnitude(0) + scaled_magnitude(1);
            assert(middle * d > 0) by (nonlinear_arith)
                requires
                    middle > 0,
                    d > 0,
            ;
            lemma_nearest_is(x, d, 0);
        }
        return 0;
    }
    let k: i32 = if e + l as i32 > 53 {
        e + l as i32 - 53
    } else {
        0
    };
    let shift: i32 = k - e;
    proof {
        if more && l <= 54 {
            if l < 54 {
                lemma_pow2_strictly_increases(l as nat, 54);
            }
            assert(false);
        }
        let m = if shift <= 0 {
            n * pow2((-shift) as nat)
        } else {
            n as int / pow2(shift as nat) as int
        };
        lemma_kept_bits(n as int, l as nat, e as int, k as int, m);
    }
    if shift <= 0 {
        // The result is a double as it stands, unless it is too large.
        proof {
            lemma_round_exact_result(
                n as int,
                e as int,
                n * pow2((-shift) as nat),
                k as int,
                x,
                d,
            );
        }
        if k >= 2046 {
            return INFINITE_BITS;
        }
        let factor: u128 = power((-shift) as u32);
        let m: u128 = n * factor;
        return k as u64 * FRACTION_SPAN + m as u64;
    }
    if shift >= 122 {
        proof {
            lemma_round_tiny_result(n as int, e as int, more, x, d);
        }
        return 0;
    }
    let factor: u128 = power(shift as u32);
    proof {
        lemma_pow2_pos(shift as nat);
    }
    let half: u128 = factor / 2;
    let m: u128 = n / factor;
    let r: u128 = n % factor;
    proof {
        lemma_pow2_unfold(shift as nat);
        vstd::arithmetic::div_mod::lemma_fundamental_div_mod(n as int, factor as int);
        assert(n == m * factor + r) by (nonlinear_arith)
            requires
                n == factor * m + r,
        ;
        lemma_round_split_result(
            n as int,
            e as int,
            more,
            m as int,
            r as int,
            k as int,
            shift as nat,
            x,
            d,
        );
    }
    if k >= 2046 {
        return INFINITE_BITS;
    }
    let up = r > half || (r == half && (more || m % 2 == 1));
    let low: u64 = k as u64 * FRACTION_SPAN + m as u64;
    if up {
        low + 1
    } else {
        low
    }
}

} // verus!
