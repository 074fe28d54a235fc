//! Passes over positions, and where prices disagree.

use liq_bot::config::{Config, Settings};
use liq_bot::divergence::{find_disagreement, quotes_by_mint, sort_asc, widest, Disagreement, MintQuotes};
use liq_bot::double::{Double, ONE};
use liq_bot::keymap::PubkeyMap;
use liq_bot::liquidator::{write_liquidation, BuildError, Liquidator, OppField};
use liq_bot::oracle::Fetched;
use liq_bot::pricing::{largest_bank, price_position, price_side, Market, Pricing};
use liq_bot::protocol::{build, ImplStatus, LendingProtocol, RawAccount};
use liq_bot::pubkey::Pubkey;
use liq_bot::scanner::{
    banks_priced, build_opportunity, plausible, survey, Appraisal, Attempts, BanksTaken, Begun,
    Figures, Opportunity, Outcome, PriceSource, Scanner, Survey, AT_RISK_BELOW, EDGE_BELOW, MAX_PLAUSIBLE_RATIO, MAX_PLAUSIBLE_USD, WATCH_BELOW, WHALE_FROM_USD,
};
use liq_bot::types::{BankConfig, ChainState, Quantity, RawPosition, RiskBuckets, Scale};

fn key(n: u8) -> Pubkey {
    Pubkey::from_bytes(&[n; 32])
}

fn d(v: f64) -> Double {
    Double::from_bits(v.to_bits())
}

fn f(v: Double) -> f64 {
    f64::from_bits(v.bits)
}

fn whole(v: u128) -> Quantity {
    Quantity::unsigned(v, Scale::Decimal(0))
}

fn bank(n: u8, mint: u8, oracle: u8) -> BankConfig {
    BankConfig {
        address: key(n),
        mint: key(mint),
        oracle: key(oracle),
        decimals: 2,
        asset_weight_maint: Quantity::unsigned(8, Scale::Decimal(1)),
        liab_weight_maint: whole(1),
        asset_share_value: whole(2),
        liab_share_value: whole(3),
        group: key(n + 100),
        liquidity_vault: key(n + 110),
        insurance_vault: key(n + 120),
    }
}

/// Banks 1 and 2 have a price, bank 3 has none.
fn market() -> Market {
    let mut banks = PubkeyMap::new();
    banks.insert(key(1), bank(1, 51, 61));
    banks.insert(key(2), bank(2, 52, 62));
    banks.insert(key(3), bank(3, 53, 63));
    let mut prices = PubkeyMap::new();
    prices.insert(key(61), d(10.0));
    prices.insert(key(62), d(0.5));
    Market { banks, prices }
}

fn position(n: u8, deposits: &[u8], borrows: &[u8]) -> RawPosition {
    RawPosition {
        address: key(n),
        owner: key(n + 1),
        deposits: deposits.iter().map(|b| (key(*b), whole(7))).collect(),
        borrows: borrows.iter().map(|b| (key(*b), whole(9))).collect(),
    }
}

fn figures(collateral: f64, liability: f64) -> Figures {
    let bonus = liability * 0.025;
    Figures {
        weighted_collateral: d(collateral),
        weighted_liability: d(liability),
        quotient: d(collateral / liability),
        ratio: d(liability / collateral.max(1.0)),
        bonus: d(bonus),
        cost: d(0.5),
        profit: d(bonus - 0.5),
    }
}

fn appraisal(p: &RawPosition, collateral: f64, liability: f64) -> Appraisal {
    Appraisal {
        figures: figures(collateral, liability),
        deposit_values: p.deposits.iter().map(|_| d(1.0)).collect(),
        borrow_values: p.borrows.iter().map(|_| d(1.0)).collect(),
    }
}

#[test]
fn bounds_are_the_documented_ones() {
    assert_eq!(WATCH_BELOW, 1.10f64.to_bits());
    assert_eq!(AT_RISK_BELOW, 1.05f64.to_bits());
    assert_eq!(EDGE_BELOW, 1.02f64.to_bits());
    assert_eq!(ONE, 1.0f64.to_bits());
    assert_eq!(MAX_PLAUSIBLE_USD, 1_000_000.0f64.to_bits());
    assert_eq!(MAX_PLAUSIBLE_RATIO, 100.0f64.to_bits());
    assert_eq!(WHALE_FROM_USD, 10_000.0f64.to_bits());
}

#[test]
fn sides_are_priced_by_their_figures() {
    let m = market();
    let p = position(9, &[1, 2], &[2]);
    let Pricing::Priced { collateral, liability } = price_position(&m, &p) else {
        panic!("not priced");
    };
    assert_eq!(collateral.len(), 2);
    assert_eq!(collateral[0].mint, key(51));
    assert_eq!(collateral[0].shares, whole(7));
    assert_eq!(collateral[0].share_value, whole(2));
    assert_eq!(collateral[0].decimals, 2);
    assert_eq!(f(collateral[0].price), 10.0);
    assert_eq!(collateral[0].weight, Quantity::unsigned(8, Scale::Decimal(1)));
    assert_eq!(f(collateral[1].price), 0.5);
    assert_eq!(liability[0].share_value, whole(3));
    assert_eq!(liability[0].weight, whole(1));
}

#[test]
fn missing_price_makes_a_position_incomplete() {
    let m = market();
    assert!(matches!(price_position(&m, &position(9, &[1, 3], &[2])), Pricing::Incomplete));
    assert!(matches!(price_position(&m, &position(9, &[1], &[4])), Pricing::Incomplete));
    assert!(matches!(price_position(&m, &position(9, &[], &[3])), Pricing::Incomplete));
    assert!(matches!(price_position(&m, &position(9, &[], &[1])), Pricing::OneSided));
    assert!(price_side(&m, &vec![(key(3), whole(1))], true).is_none());
    assert_eq!(price_side(&m, &vec![], true).unwrap().len(), 0);
}

#[test]
fn largest_holding_is_the_last_of_equals() {
    let m = market();
    let entries = vec![(key(1), whole(1)), (key(2), whole(1)), (key(3), whole(1)), (key(1), whole(1))];
    let largest = |values: [f64; 4]| largest_bank(&m, &entries, &values.iter().map(|v| d(*v)).collect());
    assert_eq!(largest([5.0, 7.0, 99.0, 1.0]), Some(key(2)));
    assert_eq!(largest([7.0, 7.0, 99.0, 1.0]), Some(key(2)));
    assert_eq!(largest([7.0, 7.0, 99.0, 7.0]), Some(key(1)));
    assert_eq!(largest([-0.0, 0.0, 1.0, -0.0]), Some(key(2)));
    assert_eq!(largest_bank(&m, &vec![(key(3), whole(1))], &vec![d(1.0)]), None);
    assert_eq!(largest_bank(&m, &vec![], &vec![]), None);
}

#[test]
fn implausible_figures_are_noise() {
    assert!(plausible(&figures(1.0, 1.0)));
    assert!(plausible(&figures(1_000_000.0, 1_000_000.0)));
    assert!(plausible(&figures(10.0, 1_000.0)));
    assert!(!plausible(&figures(0.99, 1.0)));
    assert!(!plausible(&figures(1.0, 0.99)));
    assert!(!plausible(&figures(1_000_000.1, 1.0)));
    assert!(!plausible(&figures(1.0, 1_000_000.1)));
    assert!(!plausible(&figures(10.0, 1_000.1)));
    assert!(!plausible(&figures(f64::NAN, 10.0)));
}

fn pass() -> Survey {
    let m = market();
    // Collateral and liability of each position, in dollars.
    let cases: [(&[u8], &[u8], f64, f64); 9] = [
        (&[1], &[2], 90.0, 100.0),
        (&[1], &[2], 101.0, 100.0),
        (&[1], &[2], 104.0, 100.0),
        (&[1], &[2], 109.0, 100.0),
        (&[1], &[2], 500.0, 100.0),
        (&[3], &[2], 90.0, 100.0),
        (&[], &[2], 90.0, 100.0),
        (&[1], &[2], 0.5, 100.0),
        (&[1], &[2], 9_000.0, 10_000.0),
    ];
    let mut positions = Vec::new();
    let mut appraisals = Vec::new();
    for (i, (deposits, borrows, collateral, liability)) in cases.iter().enumerate() {
        let p = position(70 + i as u8, deposits, borrows);
        appraisals.push(appraisal(&p, *collateral, *liability));
        positions.push(p);
    }
    survey(&m, &positions, &appraisals, d(50.0))
}

#[test]
fn pass_fills_the_risk_buckets() {
    let out = pass();
    assert_eq!(
        out.risk,
        RiskBuckets { liquidatable: 2, edge: 3, at_risk: 4, watch: 5, total_priced: 8 }
    );
    assert_eq!(out.skipped_incomplete, 1);
    // Nine positions: each is either skipped or fully priced.
    assert_eq!(out.skipped_incomplete + out.risk.total_priced, 9);
    assert!(out.risk.liquidatable <= out.risk.edge && out.risk.edge <= out.risk.at_risk);
    assert!(out.risk.at_risk <= out.risk.watch && out.risk.watch <= out.risk.total_priced);
}

#[test]
fn pass_lists_liquidatable_positions_by_profit() {
    let out = pass();
    assert_eq!(out.rows.len(), 2);
    assert_eq!(out.rows[0].position, key(78));
    assert_eq!(out.rows[0].owner, key(79));
    assert_eq!(f(out.rows[0].health_factor), 0.9);
    assert_eq!(f(out.rows[0].collateral_usd), 9_000.0);
    assert_eq!(f(out.rows[0].debt_usd), 10_000.0);
    assert_eq!(f(out.rows[0].debt_repaid_usd), 10_000.0);
    assert_eq!(f(out.rows[0].bonus_usd), 250.0);
    assert_eq!(f(out.rows[0].cost_usd), 0.5);
    assert_eq!(f(out.rows[0].est_profit_usd), 249.5);
    assert_eq!(out.rows[1].position, key(70));
    assert_eq!(f(out.rows[1].est_profit_usd), 2.0);
    // Opportunities stay in the order of the positions.
    assert_eq!(out.opportunities.len(), 2);
    assert_eq!(out.opportunities[0].position, key(70));
    assert_eq!(out.opportunities[1].position, key(78));
    assert_eq!(out.opportunities[1].asset_bank, key(1));
    assert_eq!(out.opportunities[1].liab_bank, key(2));
    assert!(out.opportunities[1].report.liquidatable);
}

#[test]
fn pass_reports_whales() {
    let out = pass();
    assert_eq!(out.whales.len(), 1);
    assert_eq!(out.whales[0].position, key(78));
    assert!(out.whales[0].liquidatable);
    assert_eq!(f(out.whales[0].debt_usd), 10_000.0);
}

#[test]
fn pass_leaves_out_small_debts() {
    let m = market();
    let positions = vec![position(70, &[1], &[2]), position(71, &[1], &[2])];
    let appraisals = vec![appraisal(&positions[0], 9.0, 10.0), appraisal(&positions[1], 9.0, 9.5)];
    let out = survey(&m, &positions, &appraisals, d(10.0));
    assert_eq!(out.rows.len(), 1);
    assert_eq!(out.rows[0].position, key(70));
    assert_eq!(out.risk.liquidatable, 2);
}

#[test]
fn only_six_whales_are_kept() {
    let m = market();
    let positions: Vec<RawPosition> = (0..8).map(|i| position(70 + 2 * i, &[1], &[2])).collect();
    let debts = [11e3, 12e3, 13e3, 14e3, 15e3, 16e3, 17e3, 12e3];
    let appraisals = (0..8).map(|i| appraisal(&positions[i], 20e3, debts[i])).collect();
    let out = survey(&m, &positions, &appraisals, d(0.0));
    let shown: Vec<f64> = out.whales.iter().map(|w| f(w.debt_usd)).collect();
    assert_eq!(shown, vec![17e3, 16e3, 15e3, 14e3, 13e3, 12e3]);
    // Of two with the same debt the one that came first is kept.
    assert_eq!(out.whales[5].position, key(72));
    assert_eq!(out.rows.len(), 0);
}

#[test]
fn empty_pass_finds_nothing() {
    let out = survey(&market(), &vec![], &vec![], d(0.0));
    assert_eq!(out.risk, RiskBuckets::default());
    assert_eq!((out.rows.len(), out.opportunities.len(), out.whales.len()), (0, 0, 0));
}

#[test]
fn opportunity_names_accounts() {
    let m = market();
    let p = position(9, &[1, 2, 1, 77], &[2, 3]);
    let report = liq_bot::health::assess(d(90.0), d(100.0), d(0.9));
    let o = build_opportunity(&p, report, &m, Some(key(1)), Some(key(2)));
    assert_eq!(o.marginfi_group, key(102));
    assert_eq!(o.asset_bank_oracle, key(61));
    assert_eq!(o.asset_bank_liquidity_vault, key(111));
    assert_eq!(o.liab_bank_oracle, key(62));
    assert_eq!(o.liab_bank_liquidity_vault, key(112));
    assert_eq!(o.insurance_vault, key(122));
    assert_eq!(o.liquidator_marginfi_account, Pubkey::default());
    assert_eq!(o.liquidate_asset_amount, 0);
    // Each known bank once, with its oracle.
    assert_eq!(
        o.liquidatee_remaining_accounts,
        vec![(key(1), key(61)), (key(2), key(62)), (key(3), key(63))]
    );
}

#[test]
fn opportunity_without_banks_has_zero_keys() {
    let m = market();
    let p = position(9, &[], &[]);
    let report = liq_bot::health::assess(d(90.0), d(100.0), d(0.9));
    let zero = Pubkey::default();
    let o = build_opportunity(&p, report, &m, None, None);
    assert_eq!((o.marginfi_group, o.asset_bank, o.liab_bank, o.insurance_vault), (zero, zero, zero, zero));
    let o = build_opportunity(&p, report, &m, Some(key(1)), Some(key(99)));
    assert_eq!(o.marginfi_group, key(101));
    assert_eq!(o.liab_bank, key(99));
    assert_eq!(o.liab_bank_oracle, zero);
}

#[test]
fn scanned_opportunity_is_never_sent() {
    let out = pass();
    for opp in &out.opportunities {
        assert_eq!(
            write_liquidation(opp, true, key(1), key(2), Some(key(3))).unwrap_err(),
            BuildError::Unset(OppField::LiquidatorMarginfiAccount)
        );
    }
}

#[test]
fn rows_come_from_accounts() {
    // A whole scan from account bytes: one spot market, one user with a
    // deposit and a debt in it.
    let s = scanner("drift");
    let mut spot = vec![0u8; 776];
    spot[40..72].copy_from_slice(&[61; 32]);
    spot[72..104].copy_from_slice(&[51; 32]);
    spot[464..480].copy_from_slice(&10_000_000_000u128.to_le_bytes());
    spot[480..496].copy_from_slice(&10_000_000_000u128.to_le_bytes());
    spot[644..648].copy_from_slice(&8_000u32.to_le_bytes());
    spot[652..656].copy_from_slice(&10_000u32.to_le_bytes());
    spot[680..684].copy_from_slice(&6u32.to_le_bytes());
    spot[684..686].copy_from_slice(&4u16.to_le_bytes());
    let mut user = vec![0u8; 500];
    user[8..40].copy_from_slice(&[33; 32]);
    user[104..112].copy_from_slice(&100_000_000u64.to_le_bytes());
    user[136..138].copy_from_slice(&4u16.to_le_bytes());
    user[144..152].copy_from_slice(&90_000_000u64.to_le_bytes());
    user[176..178].copy_from_slice(&4u16.to_le_bytes());
    user[178] = 1;
    let Begun::FetchBanks(query) = s.begin(0) else {
        panic!("drift is live");
    };
    assert_eq!((query.program, query.disc), (s.protocol.program_id(), s.protocol.bank_disc()));
    let BanksTaken { load: banks, next } = s.take_banks(fetched(vec![(key(1), spot)])).unwrap();
    let query = next.unwrap();
    assert_eq!((query.program, query.disc), (s.protocol.program_id(), s.protocol.position_disc()));
    let taken = s.take_positions(&banks.book, fetched(vec![(key(9), user)])).unwrap();
    assert!(matches!(taken.source, PriceSource::Oracles(keys) if keys == vec![key(61)]));
    let positions = taken.load.positions;
    let mut prices = PubkeyMap::new();
    prices.insert(key(61), d(2.0));
    let market = Market { banks: banks.book.banks, prices };
    let Pricing::Priced { collateral, liability } = price_position(&market, &positions[0]) else {
        panic!("not priced");
    };
    assert_eq!((collateral[0].mint, liability[0].mint), (key(51), key(51)));
    // 100 tokens at $2 with 0.8 weight -> 160, 90 tokens at $2 -> 180.
    let appraisals = vec![appraisal(&positions[0], 160.0, 180.0)];
    let out = s.scan_positions(&market, &positions, &appraisals);
    assert_eq!(out.rows.len(), 1);
    assert_eq!((out.rows[0].position, out.rows[0].owner), (key(9), key(33)));
    assert_eq!((out.opportunities[0].asset_bank, out.opportunities[0].liab_bank), (key(1), key(1)));
}

fn fetched(accounts: Vec<RawAccount>) -> Result<Vec<RawAccount>, ()> {
    Ok(accounts)
}

fn scanner(protocol: &str) -> Scanner {
    let cfg = Config::from_settings(Settings {
        rpc_url: "http://localhost".to_string(),
        protocol: protocol.to_string(),
        poll_interval_secs: Some(30),
        min_profit_usd: None,
        min_debt_usd: Some(d(10.0)),
        dry_run: None,
        keypair_path: None,
    });
    let protocol = build(&cfg).unwrap();
    Scanner::new(cfg, protocol, None)
}

#[test]
fn pending_protocol_has_an_empty_result() {
    let s = scanner("solend");
    assert_eq!(s.name(), "solend");
    assert_eq!(s.impl_status(), ImplStatus::Pending);
    let r = s.pending_result(12).unwrap();
    assert_eq!(r.protocol_name, "solend");
    assert_eq!((r.banks_total, r.banks_priced, r.positions_scanned), (0, 0, 0));
    assert_eq!(r.scan_duration_ms, 12);
    assert_eq!(f(r.total_profit_usd), 0.0);
    assert_eq!(r.risk_buckets, RiskBuckets::default());
    assert!(scanner("drift").pending_result(12).is_none());
    assert!(matches!(s.begin(13), Begun::Finished(r) if r.scan_duration_ms == 13));
    // Without any market there are no positions to fetch.
    assert!(scanner("drift").take_banks(fetched(vec![])).unwrap().next.is_none());
    assert!(scanner("marginfi").take_banks(fetched(vec![])).unwrap().next.is_some());
}

#[test]
fn kamino_prices_itself() {
    let m = market();
    match scanner("kamino").price_source(&m.banks) {
        PriceSource::Own(prices) => {
            assert_eq!(prices.len(), 3);
            assert_eq!(f(*prices.get(&key(63)).unwrap()), 1.0);
        }
        PriceSource::Oracles(_) => panic!("kamino needs no oracles"),
    }
    match scanner("marginfi").price_source(&m.banks) {
        PriceSource::Oracles(keys) => assert_eq!(keys, vec![key(61), key(62), key(63)]),
        PriceSource::Own(_) => panic!("marginfi needs oracles"),
    }
}

#[test]
fn result_is_put_together() {
    let s = scanner("drift");
    let m = market();
    let positions = vec![position(70, &[1], &[2]), position(72, &[1], &[2])];
    let appraisals = vec![appraisal(&positions[0], 9.0, 10.0), appraisal(&positions[1], 9.0, 9.5)];
    let found = s.scan_positions(&m, &positions, &appraisals);
    assert_eq!(banks_priced(&m), 2);
    let chain = ChainState { slot: 250_000_000, priority_fee_microlamports: 1_500 };
    let r = s.conclude(&m, 2, 77, found, Vec::new(), chain, d(3.5));
    assert_eq!(r.protocol_name, "drift");
    assert_eq!(r.status, ImplStatus::Live);
    assert_eq!((r.banks_total, r.banks_priced, r.positions_scanned), (3, 2, 2));
    assert_eq!(r.opportunities.len(), 1);
    assert_eq!(r.scan_duration_ms, 77);
    assert_eq!(f(r.total_profit_usd), 3.5);
    assert_eq!((r.chain.slot, r.chain.priority_fee_microlamports), (250_000_000, 1_500));
}

#[test]
fn odd_figures_are_priced_but_not_counted() {
    let m = market();
    let positions = vec![position(70, &[1], &[2]), position(72, &[], &[2]), position(74, &[3], &[2])];
    let appraisals = vec![
        appraisal(&positions[0], 1_900_000.0, 2_000_000.0),
        appraisal(&positions[1], 0.0, 10.0),
        appraisal(&positions[2], 9.0, 10.0),
    ];
    let out = survey(&m, &positions, &appraisals, d(0.0));
    assert_eq!(
        out.risk,
        RiskBuckets { liquidatable: 0, edge: 0, at_risk: 0, watch: 0, total_priced: 2 }
    );
    assert_eq!(out.skipped_incomplete, 1);
    assert!(out.rows.is_empty() && out.whales.is_empty());
}

#[test]
fn fetch_errors_end_the_scan() {
    let s = scanner("drift");
    assert_eq!(s.take_banks(Err("banks")).err(), Some("banks"));
    let banks = s.take_banks(fetched(vec![])).unwrap().load;
    assert_eq!(s.take_positions(&banks.book, Err("positions")).err(), Some("positions"));
    assert_eq!(s.take_oracles(Err("oracles")).err(), Some("oracles"));
    let accounts: Result<Vec<Fetched>, &str> = Ok(vec![(key(1), None)]);
    let coverage = s.take_oracles(accounts).unwrap();
    assert_eq!((coverage.missing, coverage.failed, coverage.prices.len()), (1, 0, 0));
}

fn with_liquidator(mut s: Scanner) -> Scanner {
    s.liquidator = Some(Liquidator {
        keypair: Vec::new(),
        key: key(1),
        program_id: key(2),
        dry_run: true,
        min_profit_usd: d(1.0),
    });
    s
}

/// Which opportunities are tried when the attempts come out like this.
fn tried(s: &Scanner, opportunities: &Vec<Opportunity>, outcomes: [Outcome; 2]) -> (Vec<usize>, Attempts) {
    let mut attempts = Attempts::new();
    let mut tried = Vec::new();
    while let Some(i) = s.next_attempt(&attempts, opportunities) {
        tried.push(i);
        attempts.record(outcomes[i]);
    }
    (tried, attempts)
}

#[test]
fn every_opportunity_is_tried_once() {
    let s = with_liquidator(scanner("marginfi"));
    let opportunities = pass().opportunities;
    assert_eq!(opportunities.len(), 2);
    let all = [Outcome::Sent, Outcome::Skipped, Outcome::Failed];
    for first in all {
        for second in all {
            let (order, attempts) = tried(&s, &opportunities, [first, second]);
            assert_eq!(order, vec![0, 1]);
            let failed = [first, second].iter().filter(|o| **o == Outcome::Failed).count();
            assert_eq!(attempts, Attempts { made: 2, failed });
        }
    }
    let none = tried(&scanner("marginfi"), &opportunities, [Outcome::Sent; 2]);
    assert_eq!(none, (vec![], Attempts { made: 0, failed: 0 }));
}

#[test]
fn liquidator_does_not_change_the_outcome() {
    let m = market();
    let positions = vec![position(70, &[1], &[2]), position(72, &[1], &[2])];
    let appraisals =
        vec![appraisal(&positions[0], 90.0, 100.0), appraisal(&positions[1], 9_000.0, 10_000.0)];
    let outcome = |s: Scanner, elapsed_ms: u64| {
        let found = s.scan_positions(&m, &positions, &appraisals);
        s.conclude(&m, 2, elapsed_ms, found, Vec::new(), ChainState::default(), d(1.0))
    };
    let without = outcome(scanner("marginfi"), 5);
    let with = outcome(with_liquidator(scanner("marginfi")), 9);
    assert_eq!(with.opportunities, without.opportunities);
    assert_eq!(with.opportunities.len(), 2);
    assert_eq!(with.opportunities[0].position, key(72));
    assert_eq!(with.whale_watch, without.whale_watch);
    assert_eq!(with.risk_buckets, without.risk_buckets);
    assert_eq!((with.banks_priced, with.chain), (without.banks_priced, without.chain));
    assert_eq!((with.scan_duration_ms, without.scan_duration_ms), (9, 5));
}

// Divergence

fn drifting() -> Market {
    let mut banks = PubkeyMap::new();
    banks.insert(key(1), bank(1, 52, 61));
    banks.insert(key(2), bank(2, 51, 62));
    banks.insert(key(3), bank(3, 52, 63));
    banks.insert(key(4), bank(4, 52, 64));
    banks.insert(key(5), bank(5, 53, 65));
    let mut prices = PubkeyMap::new();
    prices.insert(key(61), d(3.0));
    prices.insert(key(62), d(7.0));
    prices.insert(key(63), d(2.0));
    prices.insert(key(65), d(0.0));
    Market { banks, prices }
}

#[test]
fn readings_are_grouped_by_mint() {
    let groups = quotes_by_mint(&drifting(), &PubkeyMap::new(), false);
    assert_eq!(groups.len(), 2);
    assert_eq!(groups[0].mint, key(51));
    assert_eq!(groups[0].quotes, vec![d(7.0)]);
    assert_eq!(groups[1].mint, key(52));
    assert_eq!(groups[1].quotes, vec![d(2.0), d(3.0)]);
}

#[test]
fn own_readings_are_grouped_by_mint() {
    let mut own = PubkeyMap::new();
    own.insert(key(1), d(5.0));
    own.insert(key(4), d(4.0));
    own.insert(key(5), d(6.0));
    let groups = quotes_by_mint(&drifting(), &own, true);
    assert_eq!(groups.len(), 2);
    assert_eq!(groups[0].mint, key(52));
    assert_eq!(groups[0].quotes, vec![d(4.0), d(5.0)]);
    assert_eq!(groups[1].quotes, vec![d(6.0)]);
}

/// Whether each reading is near each other one.
fn nearness(quotes: &[Double]) -> Vec<Vec<bool>> {
    let near = |a: f64, b: f64| (a - b).abs() / b.abs().max(1e-9) < 1e-6;
    quotes.iter().map(|a| quotes.iter().map(|b| near(f(*a), f(*b))).collect()).collect()
}

#[test]
fn near_readings_are_one_source() {
    let quotes: Vec<Double> = [1.0, 1.0, 1.000_000_9, 1.000_001_8, 2.0].iter().map(|v| d(*v)).collect();
    let near = nearness(&quotes);
    let group = MintQuotes { mint: key(51), quotes };
    let expected = Disagreement { mint: key(51), sources: 3, min_price: d(1.0), max_price: d(2.0) };
    assert_eq!(find_disagreement(&group, &near), Some(expected));
}

#[test]
fn agreement_is_no_divergence() {
    let quotes = vec![d(1.0), d(1.000_000_5)];
    let near = nearness(&quotes);
    assert_eq!(find_disagreement(&MintQuotes { mint: key(51), quotes }, &near), None);
    assert_eq!(find_disagreement(&MintQuotes { mint: key(51), quotes: vec![] }, &vec![]), None);
    let one = MintQuotes { mint: key(51), quotes: vec![d(1.0)] };
    assert_eq!(find_disagreement(&one, &vec![vec![true]]), None);
}

#[test]
fn widest_spreads_come_first() {
    let found: Vec<(Disagreement, Double)> = (0..10)
        .map(|i| {
            let row = Disagreement { mint: key(i), sources: 2, min_price: d(1.0), max_price: d(2.0) };
            (row, d(((i as i32 * 7) % 10) as f64))
        })
        .collect();
    let rows = widest(&found);
    let spreads: Vec<f64> = rows.iter().map(|r| f(r.spread_pct)).collect();
    assert_eq!(spreads, vec![9.0, 8.0, 7.0, 6.0, 5.0, 4.0, 3.0, 2.0]);
    assert_eq!(rows[0].mint, key(7));
    assert_eq!(rows[0].sources, 2);
}

#[test]
fn doubles_sort_upwards() {
    let sorted = sort_asc(&vec![d(3.0), d(-0.0), d(0.0), d(f64::INFINITY), d(-2.0)]);
    let expected: Vec<u64> = [-2.0, -0.0, 0.0, 3.0, f64::INFINITY].iter().map(|v: &f64| v.to_bits()).collect();
    assert_eq!(sorted.iter().map(|v| v.bits).collect::<Vec<u64>>(), expected);
}
