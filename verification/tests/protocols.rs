//! Accounts of each protocol.

use liq_bot::anchor::{anchor_disc, anchor_ix_disc};
use liq_bot::bytes::{i128_at, i32_at, i64_at, pubkey_at, u128_at, u16_at, u32_at, u64_at, u8_at, LayoutError};
use liq_bot::config::{Config, Settings};
use liq_bot::protocol::drift::{parse_spot_market, parse_user, Drift, INTEREST_HIGH, INTEREST_LOW};
use liq_bot::protocol::kamino::{parse_obligation, parse_reserve, Kamino, PRICE_SF_HIGH, PRICE_SF_LOW};
use liq_bot::protocol::marginfi::{i80f48_at, parse_bank, parse_marginfi_account, MarginFi};
use liq_bot::protocol::solend::Solend;
use liq_bot::protocol::{build, load_banks, load_positions, ImplStatus, LendingProtocol, Protocol, ProtocolError};
use liq_bot::pubkey::Pubkey;
use liq_bot::types::{Quantity, Scale};

fn key(n: u8) -> Pubkey {
    Pubkey::from_bytes(&[n; 32])
}

fn put(data: &mut [u8], off: usize, bytes: &[u8]) {
    data[off..off + bytes.len()].copy_from_slice(bytes);
}

fn put_key(data: &mut [u8], off: usize, n: u8) {
    put(data, off, &[n; 32]);
}

fn short(off: usize, width: usize, len: usize) -> LayoutError {
    LayoutError::Short { off, width, len }
}

fn fixed(v: i128) -> Quantity {
    Quantity::from_signed(v, Scale::Binary(48))
}

// MarginFi

fn bank(oracle: u8) -> Vec<u8> {
    let mut data = vec![0u8; 1864];
    put_key(&mut data, 8, 2);
    data[40] = 9;
    put(&mut data, 80, &(3i128 << 47).to_le_bytes());
    put(&mut data, 96, &(5i128 << 46).to_le_bytes());
    put(&mut data, 312, &(1i128 << 47).to_le_bytes());
    put(&mut data, 344, &(1i128 << 48).to_le_bytes());
    data[609] = 3;
    put_key(&mut data, 610, oracle);
    data
}

#[test]
fn marginfi_bank_is_read() {
    let parsed = parse_bank(&key(1), &bank(4)).unwrap();
    let c = parsed.config;
    assert_eq!(c.address, key(1));
    assert_eq!(c.mint, key(2));
    assert_eq!(c.oracle, key(4));
    assert_eq!(c.decimals, 9);
    assert_eq!(c.asset_share_value, fixed(3 << 47));
    assert_eq!(c.liab_share_value, fixed(5 << 46));
    assert_eq!(c.asset_weight_maint, fixed(1 << 47));
    assert_eq!(c.liab_weight_maint, fixed(1 << 48));
    assert_eq!(parsed.market_index, None);
    assert_eq!(parsed.odd_oracle_setup, None);
}

#[test]
fn marginfi_bank_reports_odd_oracle_setup() {
    let mut data = bank(4);
    data[609] = 17;
    assert_eq!(parse_bank(&key(1), &data).unwrap().odd_oracle_setup, None);
    data[609] = 18;
    assert_eq!(parse_bank(&key(1), &data).unwrap().odd_oracle_setup, Some(18));
}

#[test]
fn marginfi_bank_needs_every_field() {
    let data = bank(4);
    let error = |len: usize| parse_bank(&key(1), &data[..len]).unwrap_err();
    assert_eq!(error(0), short(8, 32, 0));
    assert_eq!(error(39), short(8, 32, 39));
    assert_eq!(error(40), short(40, 1, 40));
    assert_eq!(error(95), short(80, 16, 95));
    assert_eq!(error(111), short(96, 16, 111));
    assert_eq!(error(327), short(312, 16, 327));
    assert_eq!(error(359), short(344, 16, 359));
    assert_eq!(error(609), short(609, 1, 609));
    assert_eq!(error(641), short(610, 32, 641));
    assert!(parse_bank(&key(1), &data[..642]).is_ok());
}

fn balance(data: &mut [u8], slot: usize, bank: u8, asset: i128, liab: i128) {
    let base = 72 + slot * 104;
    data[base] = 1;
    put_key(data, base + 1, bank);
    put(data, base + 40, &asset.to_le_bytes());
    put(data, base + 56, &liab.to_le_bytes());
}

fn margin_account() -> Vec<u8> {
    let mut data = vec![0u8; 2312];
    put_key(&mut data, 40, 7);
    balance(&mut data, 0, 11, 100, 0);
    balance(&mut data, 3, 12, -5, 40);
    balance(&mut data, 15, 13, 1, 2);
    data
}

#[test]
fn marginfi_account_is_read() {
    let p = parse_marginfi_account(&key(9), &margin_account()).unwrap().unwrap();
    assert_eq!(p.address, key(9));
    assert_eq!(p.owner, key(7));
    assert_eq!(p.deposits, vec![(key(11), fixed(100)), (key(13), fixed(1))]);
    assert_eq!(p.borrows, vec![(key(12), fixed(40)), (key(13), fixed(2))]);
}

#[test]
fn marginfi_account_without_debt_is_no_position() {
    let mut data = margin_account();
    data[72 + 3 * 104] = 0;
    data[72 + 15 * 104] = 0;
    assert!(parse_marginfi_account(&key(9), &data).unwrap().is_none());
}

#[test]
fn marginfi_account_needs_every_active_slot() {
    let data = margin_account();
    let error = |len: usize| parse_marginfi_account(&key(9), &data[..len]).err().unwrap();
    assert_eq!(error(71), short(40, 32, 71));
    assert_eq!(error(72), short(72, 1, 72));
    assert_eq!(error(104), short(73, 32, 104));
    assert_eq!(error(127), short(112, 16, 127));
    assert_eq!(error(143), short(128, 16, 143));
    assert_eq!(error(176), short(176, 1, 176));
}

#[test]
fn fixed_point_numbers_are_signed() {
    let mut data = vec![0u8; 16];
    put(&mut data, 0, &i128::MIN.to_le_bytes());
    let q = i80f48_at(&data, 0).unwrap();
    assert!(q.negative && !q.positive());
    assert_eq!(q.magnitude, 1u128 << 127);
    put(&mut data, 0, &(1i128 << 48).to_le_bytes());
    assert_eq!(i80f48_at(&data, 0).unwrap(), Quantity::unsigned(1 << 48, Scale::Binary(48)));
    assert_eq!(i80f48_at(&data, 1), Err(short(1, 16, 16)));
}

// Kamino

fn reserve(price: u128, decimals: u64) -> Vec<u8> {
    let mut data = vec![0u8; 8624];
    put_key(&mut data, 32, 21);
    put_key(&mut data, 128, 22);
    put_key(&mut data, 160, 23);
    put(&mut data, 248, &price.to_le_bytes());
    put(&mut data, 272, &decimals.to_le_bytes());
    data
}

#[test]
fn kamino_reserve_is_read() {
    let price = 3u128 << 59;
    let c = parse_reserve(&key(1), &reserve(price, 6)).unwrap().config;
    assert_eq!(c.address, key(1));
    assert_eq!(c.oracle, key(1));
    assert_eq!(c.mint, key(22));
    assert_eq!(c.group, key(21));
    assert_eq!(c.liquidity_vault, key(23));
    assert_eq!(c.insurance_vault, Pubkey::default());
    assert_eq!(c.decimals, 6);
    assert_eq!(c.asset_share_value, Quantity::unsigned(price, Scale::Binary(60)));
    assert_eq!(c.liab_share_value, c.asset_share_value);
    assert_eq!(c.asset_weight_maint, Quantity::unsigned(85, Scale::Decimal(2)));
    assert_eq!(c.liab_weight_maint, Quantity::unsigned(1, Scale::Decimal(0)));
}

#[test]
fn kamino_price_bounds_are_those_of_the_quotient() {
    let plausible = |raw: u128| (0.000_001..=1_000_000.0).contains(&(raw as f64 / 2f64.powi(60)));
    for raw in [
        0,
        PRICE_SF_LOW - 1,
        PRICE_SF_LOW,
        PRICE_SF_LOW + 1,
        PRICE_SF_HIGH - 1,
        PRICE_SF_HIGH,
        PRICE_SF_HIGH + 1,
        u128::MAX,
    ] {
        assert_eq!(parse_reserve(&key(1), &reserve(raw, 6)).is_ok(), plausible(raw), "{raw}");
    }
    assert_eq!(parse_reserve(&key(1), &reserve(0, 6)), Err(LayoutError::ImplausiblePrice { raw: 0 }));
}

#[test]
fn kamino_decimals_fit_a_token() {
    assert!(parse_reserve(&key(1), &reserve(1 << 60, 18)).is_ok());
    assert_eq!(
        parse_reserve(&key(1), &reserve(0, 19)),
        Err(LayoutError::DecimalsOutOfRange { decimals: 19 })
    );
}

#[test]
fn kamino_reserve_needs_every_field() {
    let data = reserve(1 << 60, 6);
    let error = |len: usize| parse_reserve(&key(1), &data[..len]).unwrap_err();
    assert_eq!(error(159), short(128, 32, 159));
    assert_eq!(error(191), short(160, 32, 191));
    assert_eq!(error(263), short(248, 16, 263));
    assert_eq!(error(279), short(272, 8, 279));
    assert!(parse_reserve(&key(1), &data[..280]).is_ok());
}

fn obligation() -> Vec<u8> {
    let mut data = vec![0u8; 3344];
    put_key(&mut data, 64, 31);
    put_key(&mut data, 96, 1);
    put(&mut data, 96 + 32, &500u64.to_le_bytes());
    // A reserve without an amount, and the last slot.
    put_key(&mut data, 96 + 136, 2);
    put_key(&mut data, 96 + 7 * 136, 3);
    put(&mut data, 96 + 7 * 136 + 32, &7u64.to_le_bytes());
    put_key(&mut data, 1208, 1);
    put(&mut data, 1208 + 88, &(9u128 << 60).to_le_bytes());
    put_key(&mut data, 1208 + 200, 2);
    put_key(&mut data, 1208 + 4 * 200, 4);
    put(&mut data, 1208 + 4 * 200 + 88, &5u128.to_le_bytes());
    data
}

#[test]
fn kamino_obligation_is_read() {
    let raw = vec![(key(1), reserve(1 << 60, 6))];
    let book = load_banks(&Kamino { program_id: key(0) }, &raw).book;
    let p = parse_obligation(&key(5), &obligation(), &book.banks).unwrap().unwrap();
    assert_eq!(p.address, key(5));
    assert_eq!(p.owner, key(31));
    assert_eq!(
        p.deposits,
        vec![
            (key(1), Quantity::unsigned(500, Scale::Decimal(0))),
            (key(3), Quantity::unsigned(7, Scale::Decimal(0))),
        ]
    );
    // Borrowed amounts are lifted by the decimals of the reserve, if known.
    assert_eq!(
        p.borrows,
        vec![
            (
                key(1),
                Quantity { negative: false, magnitude: 9 << 60, lift: 6, scale: Scale::Binary(60) }
            ),
            (
                key(4),
                Quantity { negative: false, magnitude: 5, lift: 0, scale: Scale::Binary(60) }
            ),
        ]
    );
}

#[test]
fn kamino_obligation_without_debt_is_no_position() {
    let book = load_banks(&Kamino { program_id: key(0) }, &vec![]).book;
    let mut data = obligation();
    put_key(&mut data, 1208, 0);
    put_key(&mut data, 1208 + 4 * 200, 0);
    assert!(parse_obligation(&key(5), &data, &book.banks).unwrap().is_none());
}

#[test]
fn kamino_obligation_needs_every_used_slot() {
    let book = load_banks(&Kamino { program_id: key(0) }, &vec![]).book;
    let data = obligation();
    let error = |len: usize| parse_obligation(&key(5), &data[..len], &book.banks).err().unwrap();
    assert_eq!(error(95), short(64, 32, 95));
    assert_eq!(error(127), short(96, 32, 127));
    assert_eq!(error(135), short(128, 8, 135));
    assert_eq!(error(1239), short(1208, 32, 1239));
    assert_eq!(error(1311), short(1296, 16, 1311));
    assert_eq!(error(2040 - 1), short(2008, 32, 2039));
    assert!(parse_obligation(&key(5), &data[..2112], &book.banks).is_ok());
}

// Drift

fn spot_market(deposit: u128, borrow: u128, decimals: u32, index: u16) -> Vec<u8> {
    let mut data = vec![0u8; 776];
    put_key(&mut data, 40, 41);
    put_key(&mut data, 72, 42);
    put_key(&mut data, 104, 43);
    put(&mut data, 464, &deposit.to_le_bytes());
    put(&mut data, 480, &borrow.to_le_bytes());
    put(&mut data, 644, &8_000u32.to_le_bytes());
    put(&mut data, 652, &12_000u32.to_le_bytes());
    put(&mut data, 680, &decimals.to_le_bytes());
    put(&mut data, 684, &index.to_le_bytes());
    data
}

#[test]
fn drift_spot_market_is_read() {
    let parsed = parse_spot_market(&key(1), &spot_market(10_500_000_000, 11_000_000_000, 9, 300)).unwrap();
    let c = parsed.config;
    assert_eq!(c.oracle, key(41));
    assert_eq!(c.mint, key(42));
    assert_eq!(c.liquidity_vault, key(43));
    assert_eq!(c.decimals, 9);
    assert_eq!(c.asset_share_value, Quantity::unsigned(10_500_000_000, Scale::Decimal(10)));
    assert_eq!(c.liab_share_value, Quantity::unsigned(11_000_000_000, Scale::Decimal(10)));
    assert_eq!(c.asset_weight_maint, Quantity::unsigned(8_000, Scale::Decimal(4)));
    assert_eq!(c.liab_weight_maint, Quantity::unsigned(12_000, Scale::Decimal(4)));
    assert_eq!(parsed.market_index, Some(300));
}

#[test]
fn drift_interest_bounds_are_those_of_the_quotient() {
    let plausible = |raw: u128| (0.5..=100.0).contains(&(raw as f64 / 1e10));
    let one = 10_000_000_000u128;
    for raw in [
        0,
        INTEREST_LOW - 1,
        INTEREST_LOW,
        INTEREST_LOW + 1,
        INTEREST_HIGH - 1,
        INTEREST_HIGH,
        INTEREST_HIGH + 1,
        u128::MAX,
    ] {
        assert_eq!(parse_spot_market(&key(1), &spot_market(raw, one, 9, 0)).is_ok(), plausible(raw));
        assert_eq!(parse_spot_market(&key(1), &spot_market(one, raw, 9, 0)).is_ok(), plausible(raw));
    }
    assert_eq!(
        parse_spot_market(&key(1), &spot_market(0, one, 99, 0)),
        Err(LayoutError::ImplausibleInterest { deposit: 0, borrow: one })
    );
    assert_eq!(
        parse_spot_market(&key(1), &spot_market(one, one, 19, 0)),
        Err(LayoutError::DecimalsOutOfRange { decimals: 19 })
    );
}

#[test]
fn drift_spot_market_needs_every_field() {
    let data = spot_market(10_000_000_000, 10_000_000_000, 9, 0);
    let error = |len: usize| parse_spot_market(&key(1), &data[..len]).unwrap_err();
    assert_eq!(error(71), short(40, 32, 71));
    assert_eq!(error(103), short(72, 32, 103));
    assert_eq!(error(135), short(104, 32, 135));
    assert_eq!(error(479), short(464, 16, 479));
    assert_eq!(error(495), short(480, 16, 495));
    assert_eq!(error(647), short(644, 4, 647));
    assert_eq!(error(655), short(652, 4, 655));
    assert_eq!(error(683), short(680, 4, 683));
    assert_eq!(error(685), short(684, 2, 685));
    assert!(parse_spot_market(&key(1), &data[..686]).is_ok());
}

fn spot(data: &mut [u8], slot: usize, balance: u64, market: u16, kind: u8) {
    let base = 104 + slot * 40;
    put(data, base, &balance.to_le_bytes());
    put(data, base + 32, &market.to_le_bytes());
    data[base + 34] = kind;
}

fn user() -> Vec<u8> {
    let mut data = vec![0u8; 4376];
    put_key(&mut data, 8, 51);
    spot(&mut data, 0, 100, 7, 0);
    spot(&mut data, 1, 200, 7, 1);
    spot(&mut data, 2, 300, 9, 1);
    spot(&mut data, 3, 400, 7, 2);
    spot(&mut data, 7, 500, 7, 1);
    data
}

#[test]
fn drift_user_is_read() {
    let one = 10_000_000_000;
    let drift = Drift { program_id: key(0) };
    let book = load_banks(&drift, &vec![(key(1), spot_market(one, one, 9, 7))]).book;
    let p = parse_user(&key(5), &user(), &book.markets).unwrap().unwrap();
    assert_eq!(p.owner, key(51));
    // Neither an unknown market nor an unknown balance type is a holding.
    assert_eq!(p.deposits, vec![(key(1), Quantity::unsigned(100, Scale::Decimal(0)))]);
    assert_eq!(
        p.borrows,
        vec![
            (key(1), Quantity::unsigned(200, Scale::Decimal(0))),
            (key(1), Quantity::unsigned(500, Scale::Decimal(0))),
        ]
    );
}

#[test]
fn drift_user_without_known_debt_is_no_position() {
    let book = load_banks(&Drift { program_id: key(0) }, &vec![]).book;
    assert!(parse_user(&key(5), &user(), &book.markets).unwrap().is_none());
}

#[test]
fn drift_user_needs_every_used_slot() {
    let book = load_banks(&Drift { program_id: key(0) }, &vec![]).book;
    let data = user();
    let error = |len: usize| parse_user(&key(5), &data[..len], &book.markets).err().unwrap();
    assert_eq!(error(39), short(8, 32, 39));
    assert_eq!(error(111), short(104, 8, 111));
    assert_eq!(error(137), short(136, 2, 137));
    assert_eq!(error(138), short(138, 1, 138));
    assert_eq!(error(151), short(144, 8, 151));
}

// Loading

#[test]
fn loading_keeps_what_can_be_read_and_reports_the_rest() {
    let p = MarginFi { program_id: key(0) };
    let mut odd = bank(5);
    odd[609] = 99;
    let raw = vec![(key(1), bank(4)), (key(2), vec![0u8; 10]), (key(3), odd), (key(1), bank(6))];
    let load = load_banks(&p, &raw);
    assert_eq!(load.book.banks.len(), 2);
    assert_eq!(load.book.banks.get(&key(1)).unwrap().oracle, key(6));
    assert_eq!(load.book.banks.get(&key(1)).unwrap().address, key(1));
    assert_eq!(load.failed, vec![(key(2), short(8, 32, 10))]);
    assert_eq!(load.odd_oracle_setups, vec![(key(3), 99)]);
    let mut debtless = margin_account();
    debtless[72 + 3 * 104] = 0;
    debtless[72 + 15 * 104] = 0;
    let raw = vec![(key(7), debtless), (key(8), margin_account()), (key(9), vec![])];
    let load = load_positions(&p, &raw, &load.book);
    assert_eq!(load.positions.len(), 1);
    assert_eq!(load.positions[0].address, key(8));
    assert!(load.positions[0].borrows.iter().all(|h| h.1.positive()));
    assert_eq!(load.failed, vec![(key(9), short(40, 32, 0))]);
}

#[test]
fn later_market_takes_over_an_index() {
    let one = 10_000_000_000;
    let raw = vec![(key(1), spot_market(one, one, 9, 7)), (key(2), spot_market(one, one, 6, 7))];
    let book = load_banks(&Drift { program_id: key(0) }, &raw).book;
    assert_eq!(book.markets.get(&7), Some(&key(2)));
    assert_eq!(book.banks.len(), 2);
}

#[test]
fn positions_are_wanted_where_they_can_be_read() {
    let one = 10_000_000_000;
    let drift = build(&config("drift")).unwrap();
    let empty = load_banks(&drift, &vec![]).book;
    let book = load_banks(&drift, &vec![(key(1), spot_market(one, one, 9, 7))]).book;
    assert!(!drift.wants_positions(&empty));
    assert!(drift.wants_positions(&book));
    assert_eq!(load_positions(&drift, &vec![(key(5), user())], &empty).positions.len(), 0);
    assert!(build(&config("kamino")).unwrap().wants_positions(&empty));
    assert!(build(&config("marginfi")).unwrap().wants_positions(&empty));
    assert!(!build(&config("solend")).unwrap().wants_positions(&book));
}

#[test]
fn pending_protocol_reads_nothing() {
    let p = Solend { program_id: key(0) };
    assert_eq!(p.status(), ImplStatus::Pending);
    let load = load_banks(&p, &vec![(key(1), reserve(1 << 60, 6))]);
    assert_eq!(load.book.banks.len(), 0);
    assert_eq!(load.failed, vec![(key(1), LayoutError::Unverified)]);
    let load = load_positions(&p, &vec![(key(1), obligation())], &load.book);
    assert_eq!(load.positions.len(), 0);
    assert_eq!(load.failed, vec![(key(1), LayoutError::Unverified)]);
    assert_eq!(load_banks(&p, &vec![]).failed, vec![]);
}

fn config(protocol: &str) -> Config {
    Config::from_settings(Settings {
        rpc_url: "http://localhost".to_string(),
        protocol: protocol.to_string(),
        poll_interval_secs: None,
        min_profit_usd: None,
        min_debt_usd: None,
        dry_run: None,
        keypair_path: None,
    })
}

#[test]
fn configuration_names_the_protocol() {
    let expected = [
        ("marginfi", "marginfi-v2", "MFv2hWf31Z9kbCa1snEPYctwafyhdvnV7FZnsebVacA", ImplStatus::Live),
        ("kamino", "kamino", "KLend2g3cP87fffoy8q1mQqGKjrxjC8boSyAYavgmjD", ImplStatus::Live),
        ("drift", "drift", "dRiftyHA39MWEi3m9aunc5MzRF1JYuBsbn6VPcn33UH", ImplStatus::Live),
        ("solend", "solend", "So1endDq2YkqhipRh3WViPa8hdiSpxWy6z3Z6tMCpAo", ImplStatus::Pending),
    ];
    for (name, label, address, status) in expected {
        let p = build(&config(name)).unwrap();
        assert_eq!(p.name(), label);
        assert_eq!(p.status(), status);
        assert_eq!(liq_bot::base58::pubkey_text(&p.program_id()), address);
    }
    assert_eq!(build(&config("marginfi-v2")), Err(ProtocolError::Unsupported));
    assert_eq!(build(&config("")), Err(ProtocolError::Unsupported));
}

#[test]
fn protocols_ask_for_accounts_by_discriminator() {
    assert_eq!(anchor_disc("Bank"), [142, 49, 166, 242, 50, 66, 97, 188]);
    assert_eq!(anchor_ix_disc("lending_account_liquidate"), [214, 169, 151, 213, 251, 167, 86, 219]);
    let discs = |name: &str| {
        let p: Protocol = build(&config(name)).unwrap();
        (p.bank_disc(), p.position_disc())
    };
    let reserves = ([43, 242, 204, 202, 26, 247, 59, 127], [168, 206, 141, 106, 88, 76, 172, 167]);
    assert_eq!(
        discs("marginfi"),
        ([142, 49, 166, 242, 50, 66, 97, 188], [67, 178, 130, 109, 126, 114, 28, 42])
    );
    assert_eq!(discs("kamino"), reserves);
    assert_eq!(
        discs("drift"),
        ([100, 177, 8, 107, 168, 65, 65, 39], [159, 117, 95, 227, 239, 151, 58, 236])
    );
    assert_eq!(discs("solend"), reserves);
}

#[test]
fn any_protocol_reads_as_its_own() {
    let p = build(&config("kamino")).unwrap();
    assert_eq!(p.read_bank(&key(1), &reserve(1 << 60, 6)), parse_reserve(&key(1), &reserve(1 << 60, 6)));
    let p = build(&config("marginfi")).unwrap();
    assert_eq!(p.read_bank(&key(1), &bank(4)), parse_bank(&key(1), &bank(4)));
    let one = 10_000_000_000;
    let p = build(&config("drift")).unwrap();
    let data = spot_market(one, one, 9, 7);
    assert_eq!(p.read_bank(&key(1), &data), parse_spot_market(&key(1), &data));
    let book = load_banks(&p, &vec![(key(1), data)]).book;
    assert_eq!(p.read_position(&key(5), &user(), &book).unwrap().unwrap().deposits.len(), 1);
    let p = build(&config("solend")).unwrap();
    assert_eq!(p.read_bank(&key(1), &[]), Err(LayoutError::Unverified));
}

// Reads

#[test]
fn numbers_are_read_little_endian() {
    let data: Vec<u8> = (1..=40).collect();
    assert_eq!(u8_at(&data, 2), Ok(3));
    assert_eq!(u16_at(&data, 0), Ok(0x0201));
    assert_eq!(u32_at(&data, 0), Ok(0x0403_0201));
    assert_eq!(u64_at(&data, 1), Ok(u64::from_le_bytes(data[1..9].try_into().unwrap())));
    assert_eq!(u128_at(&data, 3), Ok(u128::from_le_bytes(data[3..19].try_into().unwrap())));
    assert_eq!(pubkey_at(&data, 4).unwrap().to_bytes(), data[4..36].to_vec());
    let ones = vec![0xffu8; 16];
    assert_eq!(i32_at(&ones, 0), Ok(-1));
    assert_eq!(i64_at(&ones, 8), Ok(-1));
    assert_eq!(i128_at(&ones, 0), Ok(-1));
    let mut least = vec![0u8; 16];
    least[15] = 0x80;
    assert_eq!(i128_at(&least, 0), Ok(i128::MIN));
    assert_eq!(i64_at(&least, 8), Ok(i64::MIN));
    assert_eq!(i32_at(&least, 12), Ok(i32::MIN));
}

#[test]
fn reads_past_the_end_are_errors() {
    let data = vec![0u8; 20];
    assert_eq!(u8_at(&data, 20), Err(short(20, 1, 20)));
    assert_eq!(u16_at(&data, 19), Err(short(19, 2, 20)));
    assert_eq!(u32_at(&data, 17), Err(short(17, 4, 20)));
    assert_eq!(u64_at(&data, 13), Err(short(13, 8, 20)));
    assert_eq!(u128_at(&data, 5), Err(short(5, 16, 20)));
    assert_eq!(i32_at(&data, usize::MAX), Err(short(usize::MAX, 4, 20)));
    assert_eq!(i64_at(&data, 13), Err(short(13, 8, 20)));
    assert_eq!(i128_at(&data, 5), Err(short(5, 16, 20)));
    assert_eq!(pubkey_at(&data, 0), Err(short(0, 32, 20)));
}
