//! Oracle accounts of every format, and how far they reach.

use liq_bot::oracle::{
    parse_oracle, parse_pyth_legacy, parse_pyth_pull, parse_switchboard_ondemand,
    parse_switchboard_v2, Fetched, OracleClient, OracleError, OracleFormat, OraclePrice,
    ON_DEMAND_HIGH, ON_DEMAND_LOW, V2_HIGH, V2_LOW,
};
use liq_bot::pubkey::Pubkey;

fn key(n: u128) -> Pubkey {
    Pubkey { hi: 0, lo: n }
}

fn put(data: &mut [u8], off: usize, bytes: &[u8]) {
    data[off..off + bytes.len()].copy_from_slice(bytes);
}

fn pull(price: i64, expo: i32) -> Vec<u8> {
    let mut data = vec![0u8; 134];
    put(&mut data, 73, &price.to_le_bytes());
    put(&mut data, 89, &expo.to_le_bytes());
    data
}

fn legacy(price: i64, expo: i32) -> Vec<u8> {
    let mut data = vec![0u8; 3312];
    put(&mut data, 0, &0xa1b2c3d4u32.to_le_bytes());
    put(&mut data, 20, &expo.to_le_bytes());
    put(&mut data, 208, &price.to_le_bytes());
    data
}

fn v2(mantissa: i128, scale: u32) -> Vec<u8> {
    let mut data = vec![0u8; 3851];
    put(&mut data, 1880, &mantissa.to_le_bytes());
    put(&mut data, 1896, &scale.to_le_bytes());
    data
}

fn ondemand(raw: i128) -> Vec<u8> {
    let mut data = vec![0u8; 3208];
    put(&mut data, 2412, &raw.to_le_bytes());
    data
}

#[test]
fn pull_account_gives_price() {
    assert_eq!(
        parse_pyth_pull(&pull(15_025_000_000, -8)),
        Ok(OraclePrice {
            format: OracleFormat::PythPull,
            mantissa: 15_025_000_000,
            exponent: -8
        })
    );
}

#[test]
fn pull_rejects_sizes_signs_and_exponents() {
    assert_eq!(parse_pyth_pull(&vec![0u8; 92]), Err(OracleError::NotPriceUpdate));
    assert_eq!(parse_pyth_pull(&vec![1u8; 513]), Err(OracleError::NotPriceUpdate));
    assert_eq!(parse_pyth_pull(&pull(0, -8)), Err(OracleError::ImplausiblePull));
    assert_eq!(parse_pyth_pull(&pull(-5, -8)), Err(OracleError::ImplausiblePull));
    assert_eq!(parse_pyth_pull(&pull(5, 1)), Err(OracleError::ImplausiblePull));
    assert_eq!(parse_pyth_pull(&pull(5, -13)), Err(OracleError::ImplausiblePull));
    assert!(parse_pyth_pull(&pull(1, 0)).is_ok());
    assert!(parse_pyth_pull(&pull(i64::MAX, -12)).is_ok());
    let mut shortest = pull(7, -2);
    shortest.truncate(93);
    assert!(parse_pyth_pull(&shortest).is_ok());
}

#[test]
fn legacy_account_gives_price() {
    assert_eq!(
        parse_oracle(&legacy(99_990_000, -8)),
        Ok(OraclePrice {
            format: OracleFormat::PythLegacy,
            mantissa: 99_990_000,
            exponent: -8
        })
    );
}

#[test]
fn legacy_rejects_short_magic_and_implausible() {
    assert_eq!(parse_pyth_legacy(&vec![0u8; 215]), Err(OracleError::LegacyTooShort));
    assert_eq!(parse_pyth_legacy(&vec![0u8; 216]), Err(OracleError::BadMagic));
    assert_eq!(parse_pyth_legacy(&legacy(0, -8)), Err(OracleError::ImplausibleLegacy));
    assert_eq!(parse_pyth_legacy(&legacy(1, -13)), Err(OracleError::ImplausibleLegacy));
}

#[test]
fn v2_account_gives_price() {
    assert_eq!(
        parse_oracle(&v2(15_025, 2)),
        Ok(OraclePrice {
            format: OracleFormat::SwitchboardV2,
            mantissa: 15_025,
            exponent: -2
        })
    );
}

#[test]
fn v2_rejects_short_scale_and_implausible() {
    assert_eq!(parse_switchboard_v2(&vec![0u8; 2999]), Err(OracleError::NotAggregator));
    assert_eq!(parse_switchboard_v2(&v2(1, 31)), Err(OracleError::ImplausibleScale));
    assert_eq!(parse_switchboard_v2(&v2(0, 0)), Err(OracleError::ImplausibleV2));
    assert_eq!(parse_switchboard_v2(&v2(-1, 0)), Err(OracleError::ImplausibleV2));
    assert_eq!(parse_switchboard_v2(&v2(1_000_001, 0)), Err(OracleError::ImplausibleV2));
}

#[test]
fn v2_bounds_are_those_of_the_quotient() {
    for scale in 0..=30u32 {
        let plausible = |m: i128| {
            let price = m as f64 / 10f64.powi(scale as i32);
            (0.0001..=1_000_000.0).contains(&price)
        };
        let low = V2_LOW[scale as usize];
        let high = V2_HIGH[scale as usize];
        for m in [low - 1, low, low + 1, high - 1, high, high + 1] {
            assert_eq!(parse_switchboard_v2(&v2(m, scale)).is_ok(), plausible(m), "{m} {scale}");
        }
    }
}

#[test]
fn ondemand_account_gives_price() {
    assert_eq!(
        parse_oracle(&ondemand(150_250_000_000_000_000_000)),
        Ok(OraclePrice {
            format: OracleFormat::SwitchboardOnDemand,
            mantissa: 150_250_000_000_000_000_000,
            exponent: -18
        })
    );
}

#[test]
fn ondemand_rejects_short_empty_and_implausible() {
    assert_eq!(parse_switchboard_ondemand(&vec![0u8; 2999]), Err(OracleError::NotOnDemand));
    assert_eq!(parse_switchboard_ondemand(&ondemand(0)), Err(OracleError::NoOnDemandPrice));
    assert_eq!(parse_switchboard_ondemand(&ondemand(-1)), Err(OracleError::NoOnDemandPrice));
    assert_eq!(parse_switchboard_ondemand(&ondemand(1)), Err(OracleError::ImplausibleOnDemand));
}

#[test]
fn ondemand_bounds_are_those_of_the_quotient() {
    let plausible = |raw: i128| (0.0001..=1_000_000.0).contains(&(raw as f64 / 1e18));
    for raw in [
        ON_DEMAND_LOW - 1,
        ON_DEMAND_LOW,
        ON_DEMAND_LOW + 1,
        ON_DEMAND_HIGH - 1,
        ON_DEMAND_HIGH,
        ON_DEMAND_HIGH + 1,
    ] {
        assert_eq!(parse_switchboard_ondemand(&ondemand(raw)).is_ok(), plausible(raw), "{raw}");
    }
}

#[test]
fn unknown_format_reports_its_length() {
    assert_eq!(parse_oracle(&[]), Err(OracleError::UnknownFormat { len: 0 }));
    assert_eq!(parse_oracle(&vec![0u8; 700]), Err(OracleError::UnknownFormat { len: 700 }));
}

#[test]
fn formats_have_names() {
    assert_eq!(OracleFormat::PythPull.name(), "pyth-pull");
    assert_eq!(OracleFormat::PythLegacy.name(), "pyth-legacy");
    assert_eq!(OracleFormat::SwitchboardV2.name(), "switchboard-v2");
    assert_eq!(OracleFormat::SwitchboardOnDemand.name(), "switchboard-od");
}

fn accounts() -> Vec<Fetched> {
    vec![
        (key(1), Some(pull(100, -2))),
        (key(2), None),
        (key(3), Some(vec![0u8; 700])),
        (key(4), Some(legacy(5, 0))),
        (key(5), Some(vec![0u8; 10])),
        (key(6), Some(vec![9u8; 700])),
        (key(7), Some(v2(3, 0))),
        (key(8), Some(ondemand(2_000_000_000_000_000_000))),
        (key(1), Some(pull(101, -2))),
    ]
}

#[test]
fn coverage_counts_every_account() {
    let accounts = accounts();
    let out = OracleClient::new().get_prices(&accounts);
    assert_eq!(out.by_format.pyth_pull, 2);
    assert_eq!(out.by_format.pyth_legacy, 1);
    assert_eq!(out.by_format.switchboard_v2, 1);
    assert_eq!(out.by_format.switchboard_ondemand, 1);
    assert_eq!(out.failed, 3);
    assert_eq!(out.missing, 1);
    assert_eq!(2 + 1 + 1 + 1 + out.failed + out.missing, accounts.len());
    assert_eq!(out.prices.len(), 4);
    assert_eq!(out.prices.get(&key(1)).unwrap().mantissa, 101);
    assert!(out.prices.get(&key(3)).is_none());
}

#[test]
fn unparsed_accounts_are_grouped_by_size() {
    let groups = OracleClient::new().diagnose(&accounts());
    assert_eq!(groups.len(), 2);
    assert_eq!((groups[0].size, groups[0].count, groups[0].example), (700, 2, key(3)));
    assert_eq!((groups[1].size, groups[1].count, groups[1].example), (10, 1, key(5)));
}

#[test]
fn coverage_reports_the_largest_groups() {
    let mut accounts: Vec<Fetched> = Vec::new();
    for size in 1..=7usize {
        for _ in 0..size {
            accounts.push((key(size as u128), Some(vec![0u8; size])));
        }
    }
    let reported = OracleClient::new().get_prices(&accounts).unparsed;
    let sizes: Vec<(usize, usize)> = reported.iter().map(|g| (g.size, g.count)).collect();
    assert_eq!(sizes, vec![(7, 7), (6, 6), (5, 5), (4, 4), (3, 3)]);
    assert_eq!(OracleClient::new().diagnose(&accounts).len(), 7);
}

#[test]
fn prices_are_positive() {
    for data in [pull(1, -12), legacy(1, 0), v2(1, 0), ondemand(ON_DEMAND_LOW)] {
        let p = parse_oracle(&data).unwrap();
        assert!(p.mantissa > 0 && (-30..=0).contains(&p.exponent));
    }
}
