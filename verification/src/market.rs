//! Markets as the strategies see them: quotes on two platforms and the pair of markets that
//! they are about.
use crate::binary64::accuracy::{lemma_quotient_accuracy, lemma_whole_number};
use crate::binary64::arithmetic::one_in_units;
use crate::binary64::errors::{lemma_quotient_shrinks, size};
use crate::binary64::numbers::D_100;
use crate::binary64::ranges::{law_quotient_bounds, lemma_hundred, lemma_one, lemma_units};
use crate::binary64::{Binary64, FRACTION_SPAN};
use vstd::prelude::*;

verus! {

/// A price in cents.
pub type PriceCents = u16;

/// The price of a side that is not quoted.
pub const NO_PRICE: PriceCents = 0;

/// What a platform asks for the two sides of a market, and how much it offers, in cents.
#[derive(Debug, Clone, Copy, PartialEq, Eq, Structural)]
pub struct Quote {
    pub yes_ask: PriceCents,
    pub no_ask: PriceCents,
    pub yes_size: u16,
    pub no_size: u16,
}

impl Quote {
    /// Whether both sides are quoted.
    pub open spec fn priced(self) -> bool {
        self.yes_ask > NO_PRICE && self.no_ask > NO_PRICE
    }

    /// Whether both sides are quoted.
    pub fn is_priced(&self) -> (r: bool)
        ensures
            r == self.priced(),
    {
        self.yes_ask > NO_PRICE && self.no_ask > NO_PRICE
    }
}

/// Two markets on two platforms that are about the same event.
#[derive(Debug, Clone)]
pub struct MarketPair {
    pub description: String,
    pub poly_yes_token: String,
    pub poly_no_token: String,
    pub kalshi_market_ticker: String,
}

/// A market at one moment.
#[derive(Debug, Clone)]
pub struct MarketSnapshot {
    pub pair: Option<MarketPair>,
    pub kalshi: Quote,
    pub poly: Quote,
}

/// Cents as dollars.
pub open spec fn price_of_cents(cents: int) -> Binary64 {
    Binary64::of_int(cents).over(Binary64::of_bits(D_100))
}

/// Convert cents to a price in dollars.
pub fn cents_to_price(cents: u16) -> (r: Binary64)
    ensures
        r == price_of_cents(cents as int),
{
    Binary64::from_u64(cents as u64).div(&Binary64::from_bits(D_100))
}

/// A hundred times the price of so many cents is that number, up to rounding; and the price is
/// between zero and one for up to a hundred cents.
pub proof fn law_cents_are_hundredths(cents: int)
    requires
        0 <= cents <= u16::MAX,
    ensures
        price_of_cents(cents).finite(),
        price_of_cents(cents).nonnegative(),
        FRACTION_SPAN * size(100 * price_of_cents(cents).scaled() - cents * one_in_units())
            <= cents * one_in_units() + 100 * FRACTION_SPAN,
        cents <= 100 ==> price_of_cents(cents).in_unit_range(),
{
    let (u, span) = (one_in_units(), FRACTION_SPAN as int);
    let (count, hundred) = (Binary64::of_int(cents), Binary64::of_bits(D_100));
    lemma_one();
    lemma_hundred();
    lemma_whole_number(cents);
    lemma_units(hundred);
    lemma_units(count);
    lemma_quotient_shrinks(count, hundred);
    law_quotient_bounds(count, hundred);
    lemma_quotient_accuracy(count, hundred);
    let r = price_of_cents(cents).scaled();
    let cu = cents * u;
    assert(cu >= 0) by (nonlinear_arith)
        requires
            cu == cents * u,
            cents >= 0,
            u > 0,
    ;
    let off = 100 * r - cu;
    let exact = r * (100 * u) - cu * u;
    assert(exact == off * u) by (nonlinear_arith)
        requires
            off == 100 * r - cu,
            exact == r * (100 * u) - cu * u,
    ;
    assert(size(exact) == size(off) * u) by (nonlinear_arith)
        requires
            exact == off * u,
            u > 0,
            size(exact) == (if exact < 0 {
                -exact
            } else {
                exact
            }),
            size(off) == (if off < 0 {
                -off
            } else {
                off
            }),
    ;
    let m = size(off);
    assert(span * m <= cu + 100 * span) by (nonlinear_arith)
        requires
            span * (m * u) <= cu * u + span * (100 * u),
            u > 0,
    ;
    if cents <= 100 {
        assert(cu <= 100 * u) by (nonlinear_arith)
            requires
                cu == cents * u,
                cents <= 100,
                u > 0,
        ;
    }
}

} // verus!
