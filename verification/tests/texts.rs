//! Numbers, amounts, times and addresses as text; settings, fees and lists.

use liq_bot::base58::{fmt_pk, parse_pubkey, pubkey_text, shorten};
use liq_bot::bytes::u64_bytes;
use liq_bot::config::{
    dashboard_owns_terminal, default_interval, default_true, run_mode, Config, Flags, RunMode, Settings,
};
use liq_bot::double::Double;
use liq_bot::keymap::PubkeyMap;
use liq_bot::pubkey::Pubkey;
use liq_bot::ranking::{arrange, rank_desc};
use liq_bot::rpc::{batches, median_priority_fee, pair_replies};
use liq_bot::text::{decimal, fmt_int, fmt_usd, same, short_proto, uptime_clock, utc_clock};

fn key(n: u8) -> Pubkey {
    Pubkey::from_bytes(&[n; 32])
}

#[test]
fn counts_are_grouped_by_threes() {
    assert_eq!(fmt_int(0), "0");
    assert_eq!(fmt_int(7), "7");
    assert_eq!(fmt_int(999), "999");
    assert_eq!(fmt_int(1_000), "1,000");
    assert_eq!(fmt_int(12_345), "12,345");
    assert_eq!(fmt_int(1_002_003), "1,002,003");
    assert_eq!(fmt_int(usize::MAX), "18,446,744,073,709,551,615");
    for n in [5, 1_000, 123_456_789] {
        assert_eq!(fmt_int(n).replace(',', ""), n.to_string());
        assert_eq!(decimal(n as u64), n.to_string());
    }
}

/// An amount as a double is shown.
fn usd(v: f64) -> String {
    fmt_usd(v < 0.0, &format!("{:.2}", v.abs()))
}

#[test]
fn amounts_are_in_dollars_and_cents() {
    assert_eq!(usd(0.0), "$0.00");
    assert_eq!(usd(1.5), "$1.50");
    assert_eq!(usd(-1.5), "-$1.50");
    assert_eq!(usd(1234567.891), "$1,234,567.89");
    assert_eq!(usd(-0.001), "-$0.00");
    assert_eq!(usd(999.999), "$1,000.00");
}

#[test]
fn amounts_out_of_range_show_zero_dollars() {
    assert_eq!(usd(f64::INFINITY), "$0.00");
    assert_eq!(usd(f64::NEG_INFINITY), "-$0.00");
    assert_eq!(usd(f64::NAN), "$0.00");
    assert_eq!(usd(1e20), "$0.00");
    assert_eq!(usd(18446744073709549568.0), "$18,446,744,073,709,549,568.00");
    assert_eq!(fmt_usd(false, ""), "$0.00");
    assert_eq!(fmt_usd(false, "12x.5"), "$0.5");
    assert_eq!(fmt_usd(false, "42"), "$42.00");
    assert_eq!(fmt_usd(false, "1.2.3"), "$1.2.3");
    assert_eq!(fmt_usd(false, "18446744073709551615.0"), "$18,446,744,073,709,551,615.0");
    assert_eq!(fmt_usd(false, "18446744073709551616.0"), "$0.0");
}

#[test]
fn clocks_have_two_digits() {
    assert_eq!(utc_clock(0), "00:00:00");
    assert_eq!(utc_clock(86_399), "23:59:59");
    assert_eq!(utc_clock(86_400 + 3_661), "01:01:01");
    assert_eq!(uptime_clock(86_400 + 3_661), "25:01:01");
    assert_eq!(uptime_clock(360_000), "100:00:00");
}

#[test]
fn protocols_have_short_names() {
    assert_eq!(short_proto("marginfi-v2"), "MFI");
    assert_eq!(short_proto("kamino"), "KMNO");
    assert_eq!(short_proto("drift"), "DRFT");
    assert_eq!(short_proto("solend"), "SLND");
    assert_eq!(short_proto("other"), "other");
    assert!(same("a", "a") && !same("a", "b") && !same("a", ""));
}

#[test]
fn addresses_are_read_and_written() {
    let text = "MFv2hWf31Z9kbCa1snEPYctwafyhdvnV7FZnsebVacA";
    let address = parse_pubkey(text).unwrap();
    assert_eq!(pubkey_text(&address), text);
    assert_eq!(fmt_pk(&address), "MFv2h\u{2026}VacA");
    assert_eq!(parse_pubkey("11111111111111111111111111111111"), Some(Pubkey::default()));
    assert_eq!(pubkey_text(&Pubkey::default()), "11111111111111111111111111111111");
    for n in [0u8, 1, 58, 127, 255] {
        let text = pubkey_text(&key(n));
        assert!((32..=44).contains(&text.len()));
        assert_eq!(parse_pubkey(&text), Some(key(n)));
        assert_eq!(fmt_pk(&key(n)).chars().count(), 10);
    }
    assert_eq!(parse_pubkey("1"), None);
    assert_eq!(parse_pubkey("MFv2hWf31Z9kbCa1snEPYctwafyhdvnV7FZnsebVac0"), None);
    let expected = solana_sdk::pubkey::Pubkey::new_from_array([9u8; 32]).to_string();
    assert_eq!(pubkey_text(&key(9)), expected);
}

#[test]
fn short_texts_stay_whole() {
    assert_eq!(shorten("123456789012"), "123456789012");
    assert_eq!(shorten("1234567890123"), "12345\u{2026}0123");
    assert_eq!(shorten(""), "");
}

#[test]
fn keys_keep_their_bytes_and_order() {
    let bytes: Vec<u8> = (0..32).collect();
    let k = Pubkey::from_bytes(&bytes);
    assert_eq!(k.to_bytes(), bytes);
    assert_eq!(Pubkey::default().to_bytes(), vec![0u8; 32]);
    assert!(key(1).less_than(key(2)) && !key(2).less_than(key(1)) && !key(1).less_than(key(1)));
    assert_eq!(u64_bytes(0x0102_0304_0506_0708), 0x0102_0304_0506_0708u64.to_le_bytes());
    assert_eq!(u64_bytes(u64::MAX), [0xff; 8]);
}

#[test]
fn map_keeps_one_value_per_key() {
    let mut m: PubkeyMap<u32> = PubkeyMap::new();
    for n in [5, 1, 9, 1, 5] {
        m.insert(key(n), n as u32);
    }
    m.insert(key(9), 90);
    assert_eq!(m.len(), 3);
    assert_eq!(m.get(&key(9)), Some(&90));
    assert_eq!(m.get(&key(1)), Some(&1));
    assert_eq!(m.get(&key(2)), None);
    let keys: Vec<Pubkey> = m.entries().iter().map(|e| e.0).collect();
    assert_eq!(keys, vec![key(1), key(5), key(9)]);
}

#[test]
fn ranking_descends_and_is_stable() {
    let order = rank_desc(&vec![3, 9, 3, 1, 9]);
    assert_eq!(order, vec![1, 4, 0, 2, 3]);
    assert_eq!(arrange(&vec!['a', 'b', 'c', 'd', 'e'], &order), vec!['b', 'e', 'a', 'c', 'd']);
    assert_eq!(rank_desc(&vec![]), Vec::<usize>::new());
}

fn settings() -> Settings {
    Settings {
        rpc_url: "http://node".to_string(),
        protocol: "drift".to_string(),
        poll_interval_secs: None,
        min_profit_usd: None,
        min_debt_usd: None,
        dry_run: None,
        keypair_path: None,
    }
}

#[test]
fn settings_have_defaults() {
    let cfg = Config::from_settings(settings());
    assert_eq!((cfg.rpc_url.as_str(), cfg.protocol.as_str()), ("http://node", "drift"));
    assert_eq!(cfg.poll_interval_secs, 15);
    assert_eq!(f64::from_bits(cfg.min_profit_usd.bits), 0.0);
    assert_eq!(f64::from_bits(cfg.min_debt_usd.bits), 0.0);
    assert!(cfg.dry_run);
    assert_eq!(cfg.keypair_path, None);
    assert_eq!((default_interval(), default_true()), (15, true));
}

#[test]
fn settings_that_are_given_count() {
    let cfg = Config::from_settings(Settings {
        poll_interval_secs: Some(3),
        min_profit_usd: Some(Double::from_bits(2.5f64.to_bits())),
        min_debt_usd: Some(Double::from_bits(10.0f64.to_bits())),
        dry_run: Some(false),
        keypair_path: Some("id.json".to_string()),
        ..settings()
    });
    assert_eq!(cfg.poll_interval_secs, 3);
    assert_eq!(f64::from_bits(cfg.min_profit_usd.bits), 2.5);
    assert_eq!(f64::from_bits(cfg.min_debt_usd.bits), 10.0);
    assert!(!cfg.dry_run);
    assert_eq!(cfg.keypair_path.as_deref(), Some("id.json"));
}

#[test]
fn flags_choose_the_run_mode() {
    let flags = |once, headless, diagnose_oracles| Flags { once, headless, diagnose_oracles };
    assert_eq!(run_mode(flags(false, false, false), true), RunMode::Dashboard);
    assert_eq!(run_mode(flags(false, false, false), false), RunMode::Headless);
    assert_eq!(run_mode(flags(false, true, false), true), RunMode::Headless);
    assert_eq!(run_mode(flags(true, false, false), true), RunMode::Once);
    assert_eq!(run_mode(flags(true, true, false), false), RunMode::Once);
    assert_eq!(run_mode(flags(true, true, true), true), RunMode::DiagnoseOracles);
    assert!(dashboard_owns_terminal(flags(false, false, true), true));
    assert!(!dashboard_owns_terminal(flags(true, false, false), true));
    assert!(!dashboard_owns_terminal(flags(false, false, false), false));
}

#[test]
fn keys_are_batched_by_hundreds() {
    let keys: Vec<Pubkey> = (0..250u128).map(|n| Pubkey { hi: n, lo: 0 }).collect();
    let out = batches(&keys);
    let sizes: Vec<usize> = out.iter().map(|b| b.len()).collect();
    assert_eq!(sizes, vec![100, 100, 50]);
    assert_eq!(out.concat(), keys);
    assert_eq!(batches(&keys[..100].to_vec()).len(), 1);
    assert_eq!(batches(&vec![]).len(), 0);
}

#[test]
fn replies_are_paired_with_keys() {
    let mut fetched = vec![(key(9), None)];
    pair_replies(&mut fetched, &vec![key(1), key(2)], vec![Some(vec![1, 2]), None, Some(vec![3])]);
    pair_replies(&mut fetched, &vec![key(3), key(4)], vec![Some(vec![4])]);
    assert_eq!(
        fetched,
        vec![
            (key(9), None),
            (key(1), Some(vec![1, 2])),
            (key(2), None),
            (key(3), Some(vec![4])),
        ]
    );
}

#[test]
fn median_is_the_middle_fee() {
    assert_eq!(median_priority_fee(&vec![]), 0);
    assert_eq!(median_priority_fee(&vec![7]), 7);
    assert_eq!(median_priority_fee(&vec![9, 1]), 9);
    assert_eq!(median_priority_fee(&vec![5, 1, 9]), 5);
    assert_eq!(median_priority_fee(&vec![4, 1, 3, 2]), 3);
    assert_eq!(median_priority_fee(&vec![0, 0, u64::MAX, u64::MAX, 6]), 6);
}
