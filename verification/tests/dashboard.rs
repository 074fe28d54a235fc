//! The dashboard: updates, keys and what is shown.

use liq_bot::double::Double;
use liq_bot::protocol::ImplStatus;
use liq_bot::pubkey::Pubkey;
use liq_bot::scanner::{OppRow, ScanResult};
use liq_bot::tui::{make_panels, rank_drifts, rank_whales, App, Key, Panel, ScanUpdate, Status};
use liq_bot::types::{ChainState, DivergenceRow, RiskBuckets, WhaleRow};
use liq_bot::view::{
    aggregate_risk, badge, card, coverage_tone, divergence_table, health_tone, leaderboard,
    opportunities_table, poll_text, priority_text, risk_bars, selected_opp, spinner_frame, spread_tone,
    tick_text, total_opps, whale_table, Border, Tone,
};

fn key(n: u8) -> Pubkey {
    Pubkey::from_bytes(&[n; 32])
}

fn d(v: f64) -> Double {
    Double::from_bits(v.to_bits())
}

fn opp(n: u8, profit: f64) -> OppRow {
    OppRow {
        position: key(n),
        owner: key(n + 1),
        health_factor: d(0.5),
        collateral_usd: d(50.0),
        debt_usd: d(100.0),
        debt_repaid_usd: d(100.0),
        bonus_usd: d(2.5),
        cost_usd: d(0.5),
        est_profit_usd: d(profit),
    }
}

fn whale(n: u8, debt: f64, liquidatable: bool) -> WhaleRow {
    WhaleRow { position: key(n), owner: key(n), debt_usd: d(debt), health_factor: d(0.9), liquidatable }
}

fn drift(n: u8, spread: f64) -> DivergenceRow {
    DivergenceRow { mint: key(n), sources: 3, min_price: d(1.0), max_price: d(2.0), spread_pct: d(spread) }
}

fn result(name: &str, profits: &[(u8, f64)], total: f64) -> ScanResult {
    ScanResult {
        protocol_name: name.to_string(),
        status: ImplStatus::Live,
        banks_total: 40,
        banks_priced: 30,
        positions_scanned: 12_345,
        scan_duration_ms: 61_999,
        opportunities: profits.iter().map(|(n, p)| opp(*n, *p)).collect(),
        risk_buckets: RiskBuckets { liquidatable: 1, edge: 2, at_risk: 3, watch: 4, total_priced: 5 },
        whale_watch: vec![whale(60, 20e3, false), whale(61, 30e3, true)],
        oracle_divergence: vec![drift(70, 0.4), drift(71, 3.0)],
        chain: ChainState { slot: 0, priority_fee_microlamports: 0 },
        total_profit_usd: d(total),
    }
}

fn app() -> App {
    let names = [
        ("marginfi-v2", ImplStatus::Live),
        ("kamino", ImplStatus::Live),
        ("drift", ImplStatus::Live),
        ("solend", ImplStatus::Pending),
        ("fifth", ImplStatus::Live),
    ];
    let scanners = names.iter().map(|(n, s)| (n.to_string(), *s)).collect();
    App::new(make_panels(&scanners, 5), 15)
}

fn started(name: &str) -> ScanUpdate {
    ScanUpdate::Started { protocol: name.to_string() }
}

fn failed(name: &str) -> ScanUpdate {
    ScanUpdate::Failed { protocol: name.to_string(), err: "timeout".to_string() }
}

#[test]
fn panels_start_by_their_status() {
    let app = app();
    let status: Vec<Status> = app.panels.iter().map(|p| p.status).collect();
    let s = Status::Starting;
    assert_eq!(status, vec![s, s, s, Status::Pending, s]);
    let accents: Vec<usize> = app.panels.iter().map(|p| p.accent).collect();
    assert_eq!(accents, vec![0, 1, 2, 3, 0]);
    assert_eq!(app.panels[4].title, "fifth");
    assert_eq!(app.panels[0].scan_started_at, 5);
    assert!(app.panels.iter().all(|p| p.last.is_none() && p.last_done_at.is_none()));
    assert!(app.any_scanning());
}

#[test]
fn panel_follows_its_scans() {
    let mut p = Panel::new("kamino", 1, ImplStatus::Live, 0);
    p.apply(started("kamino"), 10);
    assert_eq!((p.status, p.scan_started_at, p.last_done_at), (Status::Scanning, 10, None));
    p.apply(ScanUpdate::Done(result("kamino", &[], 1.0)), 20);
    assert_eq!((p.status, p.scan_started_at, p.last_done_at), (Status::Idle, 10, Some(20)));
    assert_eq!(p.last.as_ref().unwrap().positions_scanned, 12_345);
    p.apply(failed("kamino"), 30);
    assert_eq!((p.status, p.last_done_at), (Status::Error, Some(30)));
    assert!(p.last.is_some());
    p.apply(ScanUpdate::ChainTick { slot: 1, prio: 2 }, 40);
    assert_eq!((p.status, p.last_done_at), (Status::Error, Some(30)));
}

#[test]
fn pending_panel_stays_pending() {
    let mut p = Panel::new("solend", 3, ImplStatus::Pending, 0);
    p.apply(started("solend"), 10);
    p.apply(failed("solend"), 20);
    assert_eq!((p.status, p.scan_started_at, p.last_done_at), (Status::Pending, 0, None));
    p.apply(ScanUpdate::Done(result("solend", &[], 0.0)), 30);
    assert_eq!((p.status, p.last_done_at), (Status::Pending, Some(30)));
}

#[test]
fn updates_reach_the_panel_they_name() {
    let mut app = app();
    app.route(started("drift"), 10);
    let scanning: Vec<bool> = app.panels.iter().map(|p| p.status == Status::Scanning).collect();
    assert_eq!(scanning, vec![false, false, true, false, false]);
    app.route(failed("nobody"), 20);
    assert!(app.panels.iter().all(|p| p.status != Status::Error));
    app.route(failed("kamino"), 30);
    assert_eq!(app.panels[1].status, Status::Error);
    app.route(ScanUpdate::ChainTick { slot: 77, prio: 9 }, 40);
    assert_eq!((app.current_slot(), app.priority_fee()), (77, 9));
    assert_eq!(app.profit_history.len(), 0);
}

#[test]
fn history_keeps_the_newest_totals() {
    let mut app = app();
    for i in 0..250 {
        app.route(ScanUpdate::Done(result("kamino", &[], i as f64)), i);
    }
    assert_eq!(app.profit_history.len(), 240);
    assert_eq!(app.profit_history[0], d(10.0));
    assert_eq!(app.profit_history[239], d(249.0));
    // A total counts even where no panel has the name.
    app.route(ScanUpdate::Done(result("nobody", &[], -1.0)), 0);
    assert_eq!(app.profit_history[239], d(-1.0));
}

#[test]
fn scanning_ends_with_the_last_scan() {
    let mut app = app();
    for name in ["marginfi-v2", "kamino", "drift", "fifth"] {
        assert!(app.any_scanning());
        app.route(ScanUpdate::Done(result(name, &[], 0.0)), 1);
    }
    assert!(!app.any_scanning());
}

fn filled() -> App {
    let mut app = app();
    app.route(ScanUpdate::Done(result("kamino", &[(10, 5.0), (11, 1.0)], 6.0)), 1);
    app.route(ScanUpdate::Done(result("drift", &[(20, 9.0), (21, 5.0)], 14.0)), 2);
    app
}

#[test]
fn opportunities_are_ranked_over_all_panels() {
    let opps = filled().all_opps();
    let shown: Vec<(usize, Pubkey)> = opps.iter().map(|o| (o.panel, o.row.position)).collect();
    assert_eq!(shown, vec![(2, key(20)), (1, key(10)), (2, key(21)), (1, key(11))]);
    assert_eq!(total_opps(&filled().panels), 4);
    assert_eq!(app().all_opps().len(), 0);
}

#[test]
fn keys_move_the_selection() {
    let mut app = filled();
    app.on_key(Key::Up, false, true);
    assert_eq!(app.selected, Some(0));
    app.on_key(Key::Down, false, true);
    app.on_key(Key::Letter('j'), false, true);
    app.on_key(Key::Letter('j'), false, true);
    assert_eq!(app.selected, Some(3));
    app.on_key(Key::Down, false, true);
    assert_eq!(app.selected, Some(3));
    app.on_key(Key::Letter('k'), false, true);
    assert_eq!(app.selected, Some(2));
    app.on_key(Key::Up, false, false);
    app.on_key(Key::Other, false, true);
    assert_eq!(app.selected, Some(2));
    let mut empty = App::new(Vec::new(), 1);
    empty.on_key(Key::Down, false, true);
    assert_eq!(empty.selected, None);
}

#[test]
fn keys_quit() {
    let quits = |k: Key, ctrl: bool, pressed: bool| {
        let mut a = app();
        a.on_key(k, ctrl, pressed);
        a.should_quit
    };
    assert!(quits(Key::Letter('q'), false, true));
    assert!(quits(Key::Esc, false, true));
    assert!(quits(Key::Letter('c'), true, true));
    assert!(!quits(Key::Letter('c'), false, true));
    assert!(!quits(Key::Letter('q'), false, false));
    assert!(!quits(Key::Down, true, true));
}

#[test]
fn ticks_wrap_around() {
    let mut app = app();
    app.advance();
    assert_eq!(app.tick, 1);
    app.tick = u64::MAX;
    app.advance();
    assert_eq!(app.tick, 0);
    assert_eq!((spinner_frame(0), spinner_frame(3), spinner_frame(20)), (0, 1, 0));
}

#[test]
fn cards_show_the_last_scan() {
    let app = filled();
    let c = card(&app.panels[1], 7);
    assert_eq!((c.badge, c.badge_tone), ("LIVE", Tone::Good));
    assert_eq!((c.border, c.spinner), (Border::Accent, None));
    let s = c.stats.unwrap();
    assert_eq!(s.positions, "12,345");
    assert_eq!(s.opps, "2");
    assert_eq!(s.scan_time, "61s");
    assert_eq!(s.coverage, "oracle 30/40");
    assert_eq!((s.priced, s.total, s.profit), (30, 40, d(6.0)));
    let c = card(&app.panels[0], 7);
    assert_eq!((c.badge, c.border, c.spinner), ("STARTING", Border::Pulse, Some(3)));
    assert_eq!(c.stats.unwrap().coverage, "oracle 0/0");
    let c = card(&app.panels[3], 7);
    assert_eq!((c.badge, c.badge_tone, c.border), ("PENDING", Tone::Muted, Border::Dim));
    assert!(c.stats.is_none());
    assert_eq!(badge(Status::Scanning), ("SCANNING", Tone::Warn));
    assert_eq!(badge(Status::Error), ("ERROR", Tone::Bad));
}

#[test]
fn risk_is_added_up() {
    let agg = aggregate_risk(&filled().panels);
    assert_eq!(
        agg,
        RiskBuckets { liquidatable: 2, edge: 4, at_risk: 6, watch: 8, total_priced: 10 }
    );
    let bars = risk_bars(&agg);
    let shown: Vec<(&str, usize, Tone)> = bars.iter().map(|b| (b.label, b.n, b.tone)).collect();
    assert_eq!(
        shown,
        vec![
            ("HF < 1.00  liquidatable", 2, Tone::Bad),
            ("HF < 1.02  edge", 4, Tone::Orange),
            ("HF < 1.05  at risk", 6, Tone::Warn),
            ("HF < 1.10  watch", 8, Tone::Muted),
        ]
    );
}

#[test]
fn leaderboard_goes_by_profit() {
    let board = leaderboard(&filled().panels);
    let shown: Vec<(usize, usize)> = board.iter().map(|s| (s.panel, s.opps)).collect();
    assert_eq!(shown, vec![(2, 2), (1, 2), (0, 0), (3, 0), (4, 0)]);
    assert_eq!(board[0].profit, d(14.0));
    assert_eq!(board[3].impl_status, ImplStatus::Pending);
}

#[test]
fn tables_show_as_many_rows_as_fit() {
    let app = filled();
    let lines = opportunities_table(&app.panels, 5);
    assert_eq!(lines.len(), 3);
    assert_eq!((lines[0].rank.as_str(), lines[0].proto.as_str()), ("1", "DRFT"));
    assert_eq!(lines[0].accent, 2);
    assert_eq!(lines[0].health_tone, Tone::Orange);
    assert_eq!(lines[0].row.position, key(20));
    assert_eq!(lines[0].position, liq_bot::base58::fmt_pk(&key(20)));
    assert_eq!(lines[0].owner, liq_bot::base58::fmt_pk(&key(21)));
    assert_eq!((lines[1].rank.as_str(), lines[1].proto.as_str()), ("2", "KMNO"));
    assert_eq!(opportunities_table(&app.panels, 100).len(), 4);
    assert_eq!(opportunities_table(&app.panels, 2).len(), 0);
    assert_eq!(opportunities_table(&app.panels, 0).len(), 0);
}

#[test]
fn breakdown_is_of_the_selected_opportunity() {
    let app = filled();
    assert_eq!(selected_opp(&app.panels, None).unwrap().position, key(20));
    assert_eq!(selected_opp(&app.panels, Some(3)).unwrap().position, key(11));
    assert!(selected_opp(&app.panels, Some(4)).is_none());
}

#[test]
fn whales_of_all_panels_are_ranked() {
    let app = filled();
    let lines = whale_table(&app.panels, 100);
    let shown: Vec<(&str, &str, Tone)> =
        lines.iter().map(|l| (l.proto.as_str(), l.status, l.status_tone)).collect();
    assert_eq!(
        shown,
        vec![
            ("KMNO", "LIQ NOW", Tone::Bad),
            ("DRFT", "LIQ NOW", Tone::Bad),
            ("KMNO", "watching", Tone::Muted),
            ("DRFT", "watching", Tone::Muted),
        ]
    );
    assert_eq!(lines[2].rank, "3");
    assert_eq!(lines[0].row.position, key(61));
    assert_eq!(lines[0].health_tone, Tone::Lime);
    assert_eq!(rank_whales(&app.panels).len(), 4);
    assert_eq!(whale_table(&app.panels, 3).len(), 1);
}

#[test]
fn drifts_of_all_panels_are_ranked() {
    let app = filled();
    let lines = divergence_table(&app.panels, 100);
    let shown: Vec<(&str, Pubkey, Tone)> =
        lines.iter().map(|l| (l.proto.as_str(), l.row.mint, l.spread_tone)).collect();
    assert_eq!(
        shown,
        vec![
            ("KMNO", key(71), Tone::Bad),
            ("DRFT", key(71), Tone::Bad),
            ("KMNO", key(70), Tone::Good),
            ("DRFT", key(70), Tone::Good),
        ]
    );
    assert_eq!(lines[0].sources, "3");
    assert_eq!(lines[0].mint, liq_bot::base58::fmt_pk(&key(71)));
    assert_eq!(rank_drifts(&app.panels)[0].panel, 1);
}

#[test]
fn tones_change_at_their_bounds() {
    let health: Vec<Tone> = [0.2499, 0.25, 0.5999, 0.6, 0.8499, 0.85].iter().map(|v| health_tone(d(*v))).collect();
    assert_eq!(
        health,
        vec![Tone::Bad, Tone::Orange, Tone::Orange, Tone::Warn, Tone::Warn, Tone::Lime]
    );
    assert_eq!(health_tone(d(f64::NAN)), Tone::Lime);
    let spread: Vec<Tone> = [0.4999, 0.5, 1.9999, 2.0].iter().map(|v| spread_tone(d(*v))).collect();
    assert_eq!(spread, vec![Tone::Good, Tone::Warn, Tone::Warn, Tone::Bad]);
    let covered: Vec<Tone> = [0.25, 0.2501, 0.66, 0.6601].iter().map(|v| coverage_tone(d(*v))).collect();
    assert_eq!(covered, vec![Tone::Bad, Tone::Warn, Tone::Warn, Tone::Good]);
}

#[test]
fn footers_are_written() {
    assert_eq!(priority_text(0), "0");
    assert_eq!(priority_text(1_500), "1500 \u{00b5}lpc");
    assert_eq!(poll_text(15), "\u{2022} poll 15s  ");
    assert_eq!(tick_text(42), "tick 42");
}
