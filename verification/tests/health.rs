//! Health factors, from priced assets to the verdict.

use liq_bot::double::{Double, INFINITY};
use liq_bot::health::{assess, HealthReport};
use liq_bot::pubkey::Pubkey;
use liq_bot::types::{PricedAsset, Quantity, Scale};

/// An asset of a whole amount at a price in dollars, weighted in tenths.
fn asset(amount: u128, price: f64, weight_tenths: u128) -> PricedAsset {
    PricedAsset {
        mint: Pubkey::default(),
        shares: Quantity::unsigned(amount, Scale::Decimal(0)),
        share_value: Quantity::unsigned(1, Scale::Decimal(0)),
        decimals: 0,
        price: Double::from_bits(price.to_bits()),
        weight: Quantity::unsigned(weight_tenths, Scale::Decimal(1)),
    }
}

fn value(q: &Quantity) -> f64 {
    let scale = match q.scale {
        Scale::Binary(n) => 2f64.powi(n as i32),
        Scale::Decimal(n) => 10f64.powi(n as i32),
    };
    q.magnitude as f64 * 10f64.powi(q.lift as i32) / scale
}

fn weighted(assets: &[PricedAsset]) -> f64 {
    assets
        .iter()
        .map(|a| {
            let amount = value(&a.shares) * value(&a.share_value) / 10f64.powi(a.decimals as i32);
            amount * f64::from_bits(a.price.bits) * value(&a.weight)
        })
        .sum()
}

fn report(collateral: &[PricedAsset], liability: &[PricedAsset]) -> HealthReport {
    let c = weighted(collateral);
    let l = weighted(liability);
    assess(
        Double::from_bits(c.to_bits()),
        Double::from_bits(l.to_bits()),
        Double::from_bits((c / l).to_bits()),
    )
}

fn hf(r: &HealthReport) -> f64 {
    f64::from_bits(r.health_factor.bits)
}

#[test]
fn healthy_position_is_not_liquidatable() {
    // 10 SOL collateral @ $150 with 0.8 weight  -> 1200 weighted
    // 500 USDC debt @ $1 with 1.0 weight        ->  500 weighted
    let report = report(&[asset(10, 150.0, 8)], &[asset(500, 1.0, 10)]);
    assert!(!report.liquidatable);
    assert!(hf(&report) > 1.0);
    assert_eq!(f64::from_bits(report.weighted_collateral.bits), 1200.0);
    assert_eq!(f64::from_bits(report.weighted_liability.bits), 500.0);
    assert_eq!(hf(&report), 2.4);
}

#[test]
fn underwater_position_is_liquidatable() {
    // SOL price crashes: 10 SOL @ $60 with 0.8 weight -> 480 weighted
    // 500 USDC debt -> 500 weighted, health factor 0.96
    let report = report(&[asset(10, 60.0, 8)], &[asset(500, 1.0, 10)]);
    assert!(report.liquidatable);
    assert!(hf(&report) < 1.0);
    assert_eq!(hf(&report), 0.96);
}

#[test]
fn position_with_no_debt_is_infinitely_healthy() {
    let report = report(&[asset(1, 1.0, 10)], &[]);
    assert!(!report.liquidatable);
    assert_eq!(hf(&report), f64::INFINITY);
    assert_eq!(report.health_factor.bits, INFINITY);
}

#[test]
fn empty_position_is_not_liquidatable() {
    let report = report(&[], &[]);
    assert!(!report.liquidatable);
    assert_eq!(hf(&report), f64::INFINITY);
}

#[test]
fn higher_collateral_price_never_worsens_health() {
    let debt = [asset(100, 1.0, 10)];
    let mut before = report(&[asset(10, 5.0, 8)], &debt);
    assert!(before.liquidatable);
    for price in [5.0, 9.0, 12.5, 12.6, 40.0] {
        let after = report(&[asset(10, price, 8)], &debt);
        assert!(hf(&after) >= hf(&before));
        assert!(before.liquidatable || !after.liquidatable);
        assert_eq!(after.weighted_liability, before.weighted_liability);
        before = after;
    }
    assert!(!before.liquidatable);
}

#[test]
fn exactly_one_is_not_liquidatable() {
    let report = report(&[asset(500, 1.0, 10)], &[asset(500, 1.0, 10)]);
    assert_eq!(hf(&report), 1.0);
    assert!(!report.liquidatable);
}

#[test]
fn undefined_liability_is_not_liquidatable() {
    let nan = Double::from_bits(f64::NAN.to_bits());
    let report = assess(Double::from_bits(1f64.to_bits()), nan, nan);
    assert!(!report.liquidatable);
    assert!(hf(&report).is_nan());
}

#[test]
fn comparisons_are_those_of_doubles() {
    let samples = [
        0.0,
        -0.0,
        1.0,
        -1.0,
        1.02,
        1.1,
        f64::MIN_POSITIVE,
        5e-324,
        -5e-324,
        f64::MAX,
        f64::MIN,
        f64::INFINITY,
        f64::NEG_INFINITY,
        f64::NAN,
        -f64::NAN,
        10_000.0,
        1e6,
    ];
    for a in samples {
        for b in samples {
            let x = Double::from_bits(a.to_bits());
            let y = Double::from_bits(b.to_bits());
            assert_eq!(x.less_than(y), a < b, "{a} < {b}");
            assert_eq!(x.at_most(y), a <= b, "{a} <= {b}");
            assert_eq!(x.rank() < y.rank(), a.total_cmp(&b).is_lt(), "{a} total {b}");
            assert_eq!(x.rank() == y.rank(), a.total_cmp(&b).is_eq(), "{a} total {b}");
        }
    }
}
