//! Health-factor rules.
//!
//! This module is deliberately free of any Solana dependency so the core
//! risk logic can be tested in isolation and reasoned about cleanly.

use crate::double::{law_order_is_numeric, lemma_units, Double, INFINITY, ONE, ZERO};
use vstd::arithmetic::power2::{lemma2_to64_rest, lemma_pow2_adds, pow2};
use vstd::prelude::*;

verus! {

/// The result of assessing one borrower position.
#[derive(Clone, Copy, PartialEq, Eq, Structural, Debug)]
pub struct HealthReport {
    /// Sum of collateral value after applying each asset's weight (USD).
    pub weighted_collateral: Double,
    /// Sum of liability value after applying each asset's weight (USD).
    pub weighted_liability: Double,
    /// weighted_collateral / weighted_liability.
    pub health_factor: Double,
    /// True once the position has crossed the liquidation threshold.
    pub liquidatable: bool,
}

/// The health factor: infinite without debt, else the quotient of weighted
/// collateral and weighted liability.
pub open spec fn health_factor(weighted_liability: Double, quotient: Double) -> Double {
    if weighted_liability.le(Double::of(ZERO)) {
        Double::of(INFINITY)
    } else {
        quotient
    }
}

/// What there is to say of a position with these weighted values.
pub open spec fn health_of(
    weighted_collateral: Double,
    weighted_liability: Double,
    quotient: Double,
) -> HealthReport {
    let hf = health_factor(weighted_liability, quotient);
    HealthReport {
        weighted_collateral,
        weighted_liability,
        health_factor: hf,
        liquidatable: Double::of(ZERO).lt(weighted_liability) && hf.lt(Double::of(ONE)),
    }
}

/// Assess a position from its weighted values and their quotient.
///
/// The health factor is the ratio of weighted collateral value to
/// weighted liability value. Collateral is discounted by a maintenance
/// weight below 1.0, debt is inflated by a weight above 1.0, so a
/// position becomes liquidatable once the ratio falls below 1.0.
pub fn assess(
    weighted_collateral: Double,
    weighted_liability: Double,
    quotient: Double,
) -> (out: HealthReport)
    ensures
        out == health_of(weighted_collateral, weighted_liability, quotient),
{
    let zero: Double = Double::from_bits(ZERO);
    let health_factor: Double = if weighted_liability.at_most(zero) {
        Double::from_bits(INFINITY)
    } else {
        quotient
    };
    HealthReport {
        weighted_collateral,
        weighted_liability,
        health_factor,
        liquidatable: zero.less_than(weighted_liability) && health_factor.less_than(
            Double::from_bits(ONE),
        ),
    }
}

/// A position with no debt is infinitely healthy and never liquidatable.
pub proof fn law_no_debt_is_healthy(collateral: Double, liability: Double, quotient: Double)
    requires
        liability.le(Double::of(ZERO)),
    ensures
        health_of(collateral, liability, quotient).health_factor == Double::of(INFINITY),
        !health_of(collateral, liability, quotient).liquidatable,
{
}

/// With debt, a position is liquidatable exactly when its quotient is below
/// one.
pub proof fn law_liquidatable_below_one(collateral: Double, liability: Double, quotient: Double)
    requires
        Double::of(ZERO).lt(liability),
    ensures
        health_of(collateral, liability, quotient).health_factor == quotient,
        health_of(collateral, liability, quotient).liquidatable <==> quotient.lt(Double::of(ONE)),
{
}

/// Over the same debt, a higher quotient never worsens the health: the health
/// factor is no lower, and what was not liquidatable does not become so.
pub proof fn law_rising_quotient_never_worsens(
    collateral: Double,
    more_collateral: Double,
    liability: Double,
    quotient: Double,
    higher: Double,
)
    requires
        quotient.le(higher),
    ensures
        ({
            let before = health_of(collateral, liability, quotient);
            let after = health_of(more_collateral, liability, higher);
            &&& before.health_factor.le(after.health_factor)
            &&& after.liquidatable ==> before.liquidatable
            &&& after.weighted_liability == before.weighted_liability
        }),
{
}

/// A report carries the values it was made from. A position is liquidatable
/// exactly when it has debt and its health factor is below one.
pub proof fn law_report_says_what_it_is_made_from(
    collateral: Double,
    liability: Double,
    quotient: Double,
)
    ensures
        ({
            let r = health_of(collateral, liability, quotient);
            let owes = !liability.is_nan() && liability.units() > 0;
            &&& r.weighted_collateral == collateral
            &&& r.weighted_liability == liability
            &&& owes ==> r.health_factor == quotient
            &&& r.liquidatable <==> owes && !quotient.is_nan() && quotient.units() < pow2(1074)
            &&& !liability.is_nan() && liability.units() <= 0 ==> r.health_factor == (Double {
                bits: 0x7ff0_0000_0000_0000,
            })
        }),
{
    lemma_units(ONE, 1023, 0);
    lemma2_to64_rest();
    lemma_pow2_adds(52, 1022);
    assert(pow2(1074) == 0x10_0000_0000_0000 * pow2(1022));
    assert(Double::of(ONE).units() == pow2(1074));
    assert(Double::of(ZERO).units() == 0);
    if !liability.is_nan() {
        law_order_is_numeric(Double::of(ZERO), liability);
        law_order_is_numeric(liability, Double::of(ZERO));
    }
    if !quotient.is_nan() {
        law_order_is_numeric(quotient, Double::of(ONE));
    }
}

} // verus!
