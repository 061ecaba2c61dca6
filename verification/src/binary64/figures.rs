//! Doubles as decimal text with a fixed number of decimals.
//!
//! The text shows the decimal number nearest to the double; halfway between two of them the
//! last digit shown is even.
use crate::binary64::arithmetic::{one_in_units, UNIT_EXPONENT};
use crate::binary64::errors::size;
use crate::binary64::Binary64;
use crate::binary64::rounding::power;
use crate::text::{
    concat2, concat3, decimal, digit_char, digits_value, is_digit, is_digits, lemma_decimal,
    pad_left, padded, u64_text,
};
use vstd::arithmetic::power2::{
    lemma2_to64, lemma2_to64_rest, lemma_pow2_adds, lemma_pow2_pos, lemma_pow2_strictly_increases,
    lemma_pow2_unfold, pow2,
};
use vstd::prelude::*;

verus! {

/// The largest number of decimals that can be asked for.
pub const MAX_DECIMALS: u32 = 6;

/// A power of ten.
pub open spec fn tens(n: nat) -> nat
    decreases n,
{
    if n == 0 {
        1
    } else {
        10 * tens((n - 1) as nat)
    }
}

/// The whole number nearest to `n / d`; halfway between two of them the even one.
pub open spec fn nearest_whole(n: int, d: int) -> int {
    let q = n / d;
    let r = n % d;
    if 2 * r > d || (2 * r == d && q % 2 == 1) {
        q + 1
    } else {
        q
    }
}

/// A number with zeros in front as far as the width asks for.
pub open spec fn zero_padded(n: nat, width: nat) -> Seq<char> {
    let digits = decimal(n);
    if digits.len() < width {
        Seq::new((width - digits.len()) as nat, |i: int| '0') + digits
    } else {
        digits
    }
}

/// A count of hundredths, thousandths and so on, with a point in its place.
pub open spec fn pointed(count: nat, decimals: nat) -> Seq<char> {
    if decimals == 0 {
        decimal(count)
    } else {
        decimal(count / tens(decimals)) + "."@ + zero_padded(count % tens(decimals), decimals)
    }
}

/// The absolute value of a double with the given number of decimals.
pub open spec fn fixed_magnitude(value: Binary64, decimals: nat) -> Seq<char> {
    if value.nan() {
        "NaN"@
    } else if value.infinite() {
        "inf"@
    } else {
        pointed(
            nearest_whole(value.units() * tens(decimals), one_in_units()) as nat,
            decimals,
        )
    }
}

/// A double with the given number of decimals. A minus sign stands before every number whose
/// sign bit is set.
pub open spec fn fixed(value: Binary64, decimals: nat) -> Seq<char> {
    if value.sign() && !value.nan() {
        "-"@ + fixed_magnitude(value, decimals)
    } else {
        fixed_magnitude(value, decimals)
    }
}

/// A double with the given number of decimals and a plus sign where no minus sign stands.
pub open spec fn fixed_signed(value: Binary64, decimals: nat) -> Seq<char> {
    if value.sign() || value.nan() {
        fixed(value, decimals)
    } else {
        "+"@ + fixed_magnitude(value, decimals)
    }
}

// ---------------------------------------------------------------------------
// Digits of large numbers
// ---------------------------------------------------------------------------

/// The number that digits stand for, the lowest one first.
spec fn low_first(digits: Seq<u8>) -> nat
    decreases digits.len(),
{
    if digits.len() == 0 {
        0
    } else {
        digits[0] as nat + 10 * low_first(digits.drop_first())
    }
}

/// Whether digits are digits and the highest one is not zero.
spec fn are_digits(digits: Seq<u8>) -> bool {
    &&& digits.len() > 0
    &&& forall|i: int| 0 <= i < digits.len() ==> #[trigger] digits[i] < 10
    &&& digits.last() > 0
}

proof fn lemma_low_first_push(digits: Seq<u8>, d: u8)
    ensures
        low_first(digits.push(d)) == low_first(digits) + d * tens(digits.len()),
    decreases digits.len(),
{
    reveal_with_fuel(low_first, 2);
    let all = digits.push(d);
    if digits.len() == 0 {
        assert(all.drop_first() =~= Seq::<u8>::empty());
        assert(d * tens(0) == d) by (nonlinear_arith)
            requires
                tens(0) == 1,
        ;
    } else {
        assert(all.drop_first() =~= digits.drop_first().push(d));
        lemma_low_first_push(digits.drop_first(), d);
        let p = tens((digits.len() - 1) as nat);
        assert(10 * (d * p) == d * (10 * p)) by (nonlinear_arith);
    }
}

/// The digits of twice a number.
fn double(digits: &Vec<u8>) -> (r: Vec<u8>)
    requires
        are_digits(digits@),
    ensures
        are_digits(r@),
        low_first(r@) == 2 * low_first(digits@),
{
    let mut r: Vec<u8> = Vec::new();
    let mut carry: u8 = 0;
    let mut i: usize = 0;
    assert(digits@.take(0) =~= Seq::<u8>::empty());
    assert(carry * tens(0) == 0) by (nonlinear_arith)
        requires
            carry == 0,
    ;
    while i < digits.len()
        invariant
            are_digits(digits@),
            i <= digits.len(),
            r.len() == i,
            carry <= 1,
            forall|k: int| 0 <= k < r.len() ==> #[trigger] r[k] < 10,
            low_first(r@) + carry * tens(i as nat) == 2 * low_first(digits@.take(i as int)),
            i == digits.len() ==> r[i - 1] > 0 || carry == 1,
        decreases digits.len() - i,
    {
        let d: u8 = digits[i];
        let t: u8 = 2 * d + carry;
        let low: u8 = t % 10;
        let high: u8 = t / 10;
        proof {
            assert(digits@.take(i + 1) =~= digits@.take(i as int).push(d));
            lemma_low_first_push(digits@.take(i as int), d);
            lemma_low_first_push(r@, low);
            let p = tens(i as nat) as int;
            assert(low * p + high * (10 * p) == (2 * d + carry) * p) by (nonlinear_arith)
                requires
                    low + 10 * high == 2 * d + carry,
            ;
            assert((2 * d + carry) * p == 2 * (d * p) + carry * p) by (nonlinear_arith);
            assert(tens((i + 1) as nat) == 10 * p);
        }
        r.push(low);
        carry = high;
        i += 1;
    }
    assert(digits@.take(digits.len() as int) =~= digits@);
    if carry > 0 {
        proof {
            lemma_low_first_push(r@, carry);
        }
        r.push(carry);
    }
    r
}

proof fn lemma_decimal_of_digits(digits: Seq<u8>)
    requires
        are_digits(digits),
    ensures
        low_first(digits) > 0,
        decimal(low_first(digits)) == Seq::new(
            digits.len(),
            |i: int| digit_char(digits[digits.len() - 1 - i] as int),
        ),
    decreases digits.len(),
{
    reveal_with_fuel(low_first, 2);
    let n = low_first(digits);
    let shown = Seq::new(
        digits.len(),
        |i: int| digit_char(digits[digits.len() - 1 - i] as int),
    );
    if digits.len() == 1 {
        assert(digits.drop_first() =~= Seq::<u8>::empty());
        assert(decimal(n) =~= shown);
    } else {
        let rest = digits.drop_first();
        assert(rest.last() == digits.last());
        lemma_decimal_of_digits(rest);
        assert(n / 10 == low_first(rest) && n % 10 == digits[0]);
        assert(decimal(n) =~= shown);
    }
}

/// The decimal text of `m * 2^e`.
fn large_text(m: u64, e: u32) -> (text: String)
    requires
        m > 0,
    ensures
        text@ == decimal((m * pow2(e as nat)) as nat),
{
    // The digits of m, the lowest one first.
    let mut digits: Vec<u8> = Vec::new();
    let mut rest: u64 = m;
    assert(rest * tens(0) == rest) by (nonlinear_arith)
        requires
            tens(0) == 1,
    ;
    while rest > 0
        invariant
            m > 0,
            low_first(digits@) + rest * tens(digits@.len()) == m,
            forall|k: int| 0 <= k < digits.len() ==> #[trigger] digits[k] < 10,
            rest == 0 ==> are_digits(digits@),
        decreases rest,
    {
        let d: u8 = (rest % 10) as u8;
        proof {
            lemma_low_first_push(digits@, d);
            let p = tens(digits@.len()) as int;
            let next = rest / 10;
            assert(d * p + next * (10 * p) == rest * p) by (nonlinear_arith)
                requires
                    rest == 10 * next + d,
            ;
            assert(tens((digits@.len() + 1) as nat) == 10 * p);
        }
        digits.push(d);
        rest = rest / 10;
    }
    assert(rest * tens(digits@.len()) == 0) by (nonlinear_arith)
        requires
            rest == 0,
    ;
    let mut i: u32 = 0;
    proof {
        lemma2_to64();
        assert(m * pow2(0) == m);
    }
    while i < e
        invariant
            i <= e,
            are_digits(digits@),
            low_first(digits@) == m * pow2(i as nat),
        decreases e - i,
    {
        digits = double(&digits);
        proof {
            lemma_pow2_unfold((i + 1) as nat);
            let w = pow2(i as nat) as int;
            assert(2 * (m * w) == m * (2 * w)) by (nonlinear_arith);
        }
        i += 1;
    }
    proof {
        lemma_decimal_of_digits(digits@);
    }
    let ghost shown = decimal(low_first(digits@));
    let mut text = String::new();
    let mut k: usize = digits.len();
    assert(text@ =~= shown.take(0));
    while k > 0
        invariant
            k <= digits.len(),
            are_digits(digits@),
            shown == Seq::new(
                digits@.len(),
                |i: int| digit_char(digits@[digits@.len() - 1 - i] as int),
            ),
            text@ == shown.take(digits.len() - k),
        decreases k,
    {
        k -= 1;
        let c: char = (48u8 + digits[k]) as char;
        text.push(c);
        assert(text@ =~= shown.take(digits.len() - k));
    }
    assert(shown.take(digits.len() as int) =~= shown);
    text
}

// ---------------------------------------------------------------------------
// Text of doubles
// ---------------------------------------------------------------------------

fn power_of_ten(n: u32) -> (r: u64)
    requires
        n <= MAX_DECIMALS,
    ensures
        r == tens(n as nat),
        1 <= r <= 1_000_000,
{
    proof {
        reveal_with_fuel(tens, 7);
    }
    if n == 0 {
        1
    } else if n == 1 {
        10
    } else if n == 2 {
        100
    } else if n == 3 {
        1000
    } else if n == 4 {
        10_000
    } else if n == 5 {
        100_000
    } else {
        1_000_000
    }
}

/// A number with zeros in front.
pub fn zero_pad(n: u64, width: u32) -> (text: String)
    ensures
        text@ == zero_padded(n as nat, width as nat),
{
    let digits = u64_text(n);
    let len: usize = digits.as_str().unicode_len();
    if len as u64 >= width as u64 {
        return digits;
    }
    let count: u32 = width - len as u32;
    let mut text = String::new();
    let mut i: u32 = 0;
    assert(text@ =~= Seq::new(0, |i: int| '0'));
    while i < count
        invariant
            i <= count,
            text@ == Seq::new(i as nat, |i: int| '0'),
        decreases count - i,
    {
        text.push('0');
        i += 1;
        assert(text@ =~= Seq::new(i as nat, |i: int| '0'));
    }
    text.push_str(&digits);
    text
}

fn pointed_text(whole: &str, part: u64, decimals: u32) -> (text: String)
    ensures
        text@ == (if decimals == 0 {
            whole@
        } else {
            whole@ + "."@ + zero_padded(part as nat, decimals as nat)
        }),
{
    if decimals == 0 {
        whole.to_string()
    } else {
        concat3(whole, ".", &zero_pad(part, decimals))
    }
}

/// A whole double: every decimal is zero.
proof fn lemma_whole_is_exact(m: int, k: int, scale: int, whole: int)
    requires
        k >= UNIT_EXPONENT,
        m >= 0,
        scale > 0,
        whole == m * pow2((k - UNIT_EXPONENT) as nat),
    ensures
        nearest_whole(m * pow2(k as nat) * scale, one_in_units()) == whole * scale,
        whole >= 0,
        (whole * scale) / scale == whole,
        (whole * scale) % scale == 0,
{
    let one = one_in_units();
    lemma_pow2_adds((k - UNIT_EXPONENT) as nat, UNIT_EXPONENT as nat);
    lemma_pow2_pos(UNIT_EXPONENT as nat);
    lemma_pow2_pos((k - UNIT_EXPONENT) as nat);
    assert((k - UNIT_EXPONENT) as nat + UNIT_EXPONENT as nat == k as nat);
    let w = pow2((k - UNIT_EXPONENT) as nat) as int;
    assert(m * (w * one) * scale == (whole * scale) * one) by (nonlinear_arith)
        requires
            whole == m * w,
    ;
    vstd::arithmetic::div_mod::lemma_div_multiples_vanish(whole * scale, one);
    vstd::arithmetic::div_mod::lemma_mod_multiples_basic(whole * scale, one);
    assert((whole * scale) * one == one * (whole * scale)) by (nonlinear_arith);
    assert(whole >= 0) by (nonlinear_arith)
        requires
            whole == m * w,
            m >= 0,
            w >= 0,
    ;
    vstd::arithmetic::div_mod::lemma_div_multiples_vanish(whole, scale);
    vstd::arithmetic::div_mod::lemma_mod_multiples_basic(whole, scale);
    assert(whole * scale == scale * whole) by (nonlinear_arith);
}

/// A fraction `n / 2^s` in place of `n * 2^k / 2^1074`.
proof fn lemma_fraction(n: int, k: int, s: nat)
    requires
        0 <= k,
        k + s == UNIT_EXPONENT,
        n >= 0,
    ensures
        nearest_whole(n * pow2(k as nat), one_in_units()) == nearest_whole(n, pow2(s) as int),
{
    let (v, w) = (pow2(k as nat) as int, pow2(s) as int);
    lemma_pow2_adds(k as nat, s);
    lemma_pow2_pos(k as nat);
    lemma_pow2_pos(s);
    assert(one_in_units() == w * v) by (nonlinear_arith)
        requires
            one_in_units() == v * w,
    ;
    let (q, r) = (n / w, n % w);
    vstd::arithmetic::div_mod::lemma_fundamental_div_mod(n, w);
    assert(n * v == q * (w * v) + r * v && 0 <= r * v && r * v < w * v) by (nonlinear_arith)
        requires
            n == w * q + r,
            0 <= r < w,
            v > 0,
    ;
    vstd::arithmetic::div_mod::lemma_fundamental_div_mod_converse(n * v, w * v, q, r * v);
    assert(2 * (r * v) > w * v <==> 2 * r > w) by (nonlinear_arith)
        requires
            v > 0,
    ;
    assert(2 * (r * v) == w * v <==> 2 * r == w) by (nonlinear_arith)
        requires
            v > 0,
    ;
}

fn magnitude_text(value: &Binary64, decimals: u32) -> (text: String)
    requires
        decimals <= MAX_DECIMALS,
    ensures
        text@ == fixed_magnitude(*value, decimals as nat),
{
    if value.is_nan() {
        return "NaN".to_string();
    }
    if value.is_infinite() {
        return "inf".to_string();
    }
    let (m, k) = value.parts();
    let scale: u64 = power_of_ten(decimals);
    if k >= UNIT_EXPONENT {
        let e: u32 = (k - UNIT_EXPONENT) as u32;
        let whole = large_text(m, e);
        proof {
            let w = (m * pow2(e as nat)) as int;
            lemma_whole_is_exact(m as int, k as int, scale as int, w);
            assert(value.units() * tens(decimals as nat) == m * pow2(k as nat) * scale);
            if decimals == 0 {
                assert(w * scale == w) by (nonlinear_arith)
                    requires
                        scale == 1,
                ;
            }
        }
        pointed_text(&whole, 0, decimals)
    } else {
        let s: i32 = UNIT_EXPONENT - k;
        assert(m * scale <= 0x20_0000_0000_0000 * 1_000_000) by (nonlinear_arith)
            requires
                m <= 0x20_0000_0000_0000,
                scale <= 1_000_000,
        ;
        let n: u128 = m as u128 * scale as u128;
        let ghost d = pow2(s as nat) as int;
        proof {
            lemma_pow2_pos(s as nat);
            let v = pow2(k as nat) as int;
            assert(value.units() * tens(decimals as nat) == n * v) by (nonlinear_arith)
                requires
                    value.units() == m * v,
                    n == m * scale,
                    scale == tens(decimals as nat),
            ;
            lemma_fraction(n as int, k as int, s as nat);
        }
        let count: u128 = if s >= 100 {
            proof {
                lemma2_to64();
                lemma2_to64_rest();
                lemma_pow2_adds(50, 50);
                if s > 100 {
                    lemma_pow2_strictly_increases(100, s as nat);
                }
                assert(0x4_0000_0000_0000int * 0x4_0000_0000_0000int
                    == 0x10_0000_0000_0000_0000_0000_0000int);
                vstd::arithmetic::div_mod::lemma_small_mod(n as nat, d as nat);
                vstd::arithmetic::div_mod::lemma_basic_div(n as int, d);
            }
            0
        } else {
            let w: u128 = power(s as u32);
            let q: u128 = n / w;
            let r: u128 = n % w;
            proof {
                lemma2_to64();
                lemma2_to64_rest();
                lemma_pow2_adds(50, 50);
                lemma_pow2_strictly_increases(s as nat, 100);
                assert(0x4_0000_0000_0000int * 0x4_0000_0000_0000int
                    == 0x10_0000_0000_0000_0000_0000_0000int);
                assert(q <= n) by (nonlinear_arith)
                    requires
                        q == n / w,
                        w >= 1,
                        n >= 0,
                ;
            }
            if 2 * r > w || (2 * r == w && q % 2 == 1) {
                q + 1
            } else {
                q
            }
        };
        proof {
            // The whole part is less than 2^53.
            lemma_count_bound(n as int, m as int, scale as int, d, count as int);
        }
        let whole: u64 = (count / scale as u128) as u64;
        let part: u64 = (count % scale as u128) as u64;
        proof {
            if decimals == 0 {
                assert(count / 1 == count);
            }
        }
        pointed_text(&u64_text(whole), part, decimals)
    }
}

proof fn lemma_count_bound(n: int, m: int, scale: int, d: int, count: int)
    requires
        0 <= m < 0x20_0000_0000_0000,
        1 <= scale <= 1_000_000,
        n == m * scale,
        d >= 1,
        count == nearest_whole(n, d),
    ensures
        0 <= count,
        count / scale <= u64::MAX,
{
    assert(0 <= n / d && n / d <= n) by (nonlinear_arith)
        requires
            n >= 0,
            d >= 1,
    ;
    assert(n >= 0 && n <= 0x20_0000_0000_0000 * 1_000_000) by (nonlinear_arith)
        requires
            n == m * scale,
            0 <= m < 0x20_0000_0000_0000,
            1 <= scale <= 1_000_000,
    ;
    assert(count <= n + 1);
    assert(count / scale <= m + 1) by (nonlinear_arith)
        requires
            0 <= count <= m * scale + 1,
            scale >= 1,
    ;
}

/// A double with the given number of decimals.
pub fn fixed_text(value: &Binary64, decimals: u32) -> (text: String)
    requires
        decimals <= MAX_DECIMALS,
    ensures
        text@ == fixed(*value, decimals as nat),
{
    let magnitude = magnitude_text(value, decimals);
    if value.is_negative() && !value.is_nan() {
        concat2("-", &magnitude)
    } else {
        magnitude
    }
}

/// A double with the given number of decimals and its sign.
pub fn signed_text(value: &Binary64, decimals: u32) -> (text: String)
    requires
        decimals <= MAX_DECIMALS,
    ensures
        text@ == fixed_signed(*value, decimals as nat),
{
    if value.is_negative() || value.is_nan() {
        fixed_text(value, decimals)
    } else {
        concat2("+", &magnitude_text(value, decimals))
    }
}

/// A double in a field of the given width.
pub fn fixed_field(value: &Binary64, decimals: u32, width: usize) -> (text: String)
    requires
        decimals <= MAX_DECIMALS,
    ensures
        text@ == padded(fixed(*value, decimals as nat), width as nat),
{
    pad_left(&fixed_text(value, decimals), width)
}

/// A double with its sign in a field of the given width.
pub fn signed_field(value: &Binary64, decimals: u32, width: usize) -> (text: String)
    requires
        decimals <= MAX_DECIMALS,
    ensures
        text@ == padded(fixed_signed(*value, decimals as nat), width as nat),
{
    pad_left(&signed_text(value, decimals), width)
}

// ---------------------------------------------------------------------------
// Laws
// ---------------------------------------------------------------------------

/// The nearest whole number is at most a half away, and even where two are equally near.
pub proof fn law_the_nearest_whole_number_is_nearest(n: int, d: int)
    requires
        d > 0,
        n >= 0,
    ensures
        2 * size(nearest_whole(n, d) * d - n) <= d,
        2 * size(nearest_whole(n, d) * d - n) == d ==> nearest_whole(n, d) % 2 == 0,
        nearest_whole(n, d) >= 0,
{
    let (q, r) = (n / d, n % d);
    assert(n == q * d + r && 0 <= r < d && q >= 0) by (nonlinear_arith)
        requires
            q == n / d,
            r == n % d,
            d > 0,
            n >= 0,
    ;
    assert((q + 1) * d == q * d + d) by (nonlinear_arith);
}

/// The digits of a number below a power of ten are at most as many as its exponent.
proof fn lemma_decimal_is_short(n: nat, width: nat)
    requires
        n < tens(width),
        width > 0,
    ensures
        decimal(n).len() <= width,
    decreases width,
{
    if n >= 10 {
        assert(tens(width) == 10 * tens((width - 1) as nat));
        if width == 1 {
            assert(tens(0) == 1);
        }
        lemma_decimal_is_short(n / 10, (width - 1) as nat);
    }
}

/// Zeros in front do not change what digits stand for.
proof fn lemma_zeros_in_front(zeros: Seq<char>, s: Seq<char>)
    requires
        forall|i: int| 0 <= i < zeros.len() ==> #[trigger] zeros[i] == '0',
        is_digits(s),
    ensures
        is_digits(zeros + s),
        digits_value(zeros + s) == digits_value(s),
    decreases s.len(),
{
    let all = zeros + s;
    assert forall|i: int| 0 <= i < all.len() implies is_digit(#[trigger] all[i]) by {
        if i >= zeros.len() {
            assert(all[i] == s[i - zeros.len()]);
        } else {
            assert(all[i] == zeros[i]);
        }
    }
    assert(all.last() == s.last());
    let front = s.drop_last();
    assert(all.drop_last() =~= zeros + front);
    if s.len() == 1 {
        assert(front =~= seq![]);
        assert(zeros + front =~= zeros);
        lemma_zeros(zeros);
        assert(digits_value(front) == 0);
    } else {
        assert forall|i: int| 0 <= i < front.len() implies is_digit(#[trigger] front[i]) by {
            assert(front[i] == s[i]);
        }
        lemma_zeros_in_front(zeros, front);
    }
}

proof fn lemma_zeros(zeros: Seq<char>)
    requires
        forall|i: int| 0 <= i < zeros.len() ==> #[trigger] zeros[i] == '0',
    ensures
        digits_value(zeros) == 0,
    decreases zeros.len(),
{
    if zeros.len() > 0 {
        let front = zeros.drop_last();
        assert forall|i: int| 0 <= i < front.len() implies #[trigger] front[i] == '0' by {
            assert(front[i] == zeros[i]);
        }
        lemma_zeros(front);
        assert(zeros.last() == zeros[zeros.len() - 1]);
    }
}

/// A finite number is written with digits, a point and as many digits as were asked for, which
/// together stand for its absolute value, rounded to the last of them. It gives those digits.
pub proof fn law_a_number_is_written_to_the_last_digit(value: Binary64, decimals: nat) -> (r: (
    Seq<char>,
    Seq<char>,
))
    requires
        value.finite(),
        decimals > 0,
    ensures
        fixed_magnitude(value, decimals) == r.0 + "."@ + r.1,
        is_digits(r.0),
        is_digits(r.1),
        r.1.len() == decimals,
        ({
            let (u, scale) = (one_in_units(), tens(decimals) as int);
            let count = digits_value(r.0) * scale + digits_value(r.1);
            2 * size(count * u - value.units() * scale) <= u
        }),
{
    super::ranges::lemma_one();
    super::ranges::lemma_units(value);
    lemma_tens_positive(decimals);
    let (u, scale) = (one_in_units(), tens(decimals) as int);
    let n = value.units() * scale;
    assert(n >= 0) by (nonlinear_arith)
        requires
            n == value.units() * scale,
            value.units() >= 0,
            scale > 0,
    ;
    law_the_nearest_whole_number_is_nearest(n, u);
    let count = nearest_whole(n, u) as nat;
    let (whole, rest) = (count / tens(decimals), count % tens(decimals));
    assert(count == whole * scale + rest && rest < scale) by (nonlinear_arith)
        requires
            whole == count / (scale as nat),
            rest == count % (scale as nat),
            scale > 0,
    ;
    lemma_decimal(whole);
    lemma_decimal(rest);
    lemma_decimal_is_short(rest, decimals);
    let digits = decimal(rest);
    let shown = zero_padded(rest, decimals);
    let zeros = shown.take(decimals - digits.len());
    assert(shown =~= zeros + digits);
    lemma_zeros_in_front(zeros, digits);
    (decimal(whole), shown)
}

proof fn lemma_tens_positive(n: nat)
    ensures
        tens(n) > 0,
    decreases n,
{
    if n > 0 {
        lemma_tens_positive((n - 1) as nat);
    }
}

} // verus!
