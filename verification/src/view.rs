//! What each part of the screen shows.
//!
//! Texts and tones are settled here; figures that are doubles are handed on
//! as they are, to be written with the number of decimals that the column
//! has.

use crate::base58::{base58_encoded, fmt_pk, shortened};
use crate::double::{law_rank_refines_order, Double, ZERO};
use crate::protocol::ImplStatus;
use crate::ranking::{
    by_key, is_sorted_desc, law_sorted_items, law_sorting_is_unique, sort_desc, Ranked,
};
use crate::scanner::OppRow;
use crate::tally::{lemma_sum_at_most, lemma_sum_grows, lemma_sum_same, sum};
use crate::text::{decimal, decimal_digits, fmt_int, grouped_digits, short_name, short_proto};
use crate::tui::{
    by_debt, by_profit, by_spread, drifts_of, law_placed_holds_the_rows_of_all_panels, opps_of,
    placed, rank_drifts, rank_opps, rank_whales, whales_of, Panel, Placed, Status,
};
use crate::types::{DivergenceRow, RiskBuckets, WhaleRow};
use vstd::prelude::*;
use vstd::string::StringExecFns;

verus! {

/// How many frames the spinner has.
pub const SPINNER_FRAMES: u64 = 10;

/// 0.25
pub const QUARTER: u64 = 0x3fd0_0000_0000_0000;
/// 0.5
pub const HALF: u64 = 0x3fe0_0000_0000_0000;
/// 0.6
pub const SIX_TENTHS: u64 = 0x3fe3_3333_3333_3333;
/// 0.66
pub const WELL_COVERED: u64 = 0x3fe5_1eb8_51eb_851f;
/// 0.85
pub const NEARLY_SAFE: u64 = 0x3feb_3333_3333_3333;
/// 2.0
pub const TWO: u64 = 0x4000_0000_0000_0000;

/// The tone of a text or a bar.
#[derive(Clone, Copy, PartialEq, Eq, Structural, Debug)]
pub enum Tone {
    Good,
    Warn,
    Bad,
    Muted,
    Orange,
    Lime,
}

pub open spec fn health_tone_of(h: Double) -> Tone {
    if h.lt(Double::of(QUARTER)) {
        Tone::Bad
    } else if h.lt(Double::of(SIX_TENTHS)) {
        Tone::Orange
    } else if h.lt(Double::of(NEARLY_SAFE)) {
        Tone::Warn
    } else {
        Tone::Lime
    }
}

/// The tone of a health factor: the lower, the worse.
pub fn health_tone(h: Double) -> (out: Tone)
    ensures
        out == health_tone_of(h),
{
    if h.less_than(Double::from_bits(QUARTER)) {
        Tone::Bad
    } else if h.less_than(Double::from_bits(SIX_TENTHS)) {
        Tone::Orange
    } else if h.less_than(Double::from_bits(NEARLY_SAFE)) {
        Tone::Warn
    } else {
        Tone::Lime
    }
}

pub open spec fn spread_tone_of(spread_pct: Double) -> Tone {
    if spread_pct.lt(Double::of(HALF)) {
        Tone::Good
    } else if spread_pct.lt(Double::of(TWO)) {
        Tone::Warn
    } else {
        Tone::Bad
    }
}

/// The tone of a spread in percent: the wider, the worse.
pub fn spread_tone(spread_pct: Double) -> (out: Tone)
    ensures
        out == spread_tone_of(spread_pct),
{
    if spread_pct.less_than(Double::from_bits(HALF)) {
        Tone::Good
    } else if spread_pct.less_than(Double::from_bits(TWO)) {
        Tone::Warn
    } else {
        Tone::Bad
    }
}

/// The tone of an oracle coverage: the fewer banks have a price, the worse.
pub fn coverage_tone(ratio: Double) -> (out: Tone)
    ensures
        out == if Double::of(WELL_COVERED).lt(ratio) {
            Tone::Good
        } else if Double::of(QUARTER).lt(ratio) {
            Tone::Warn
        } else {
            Tone::Bad
        },
{
    if Double::from_bits(WELL_COVERED).less_than(ratio) {
        Tone::Good
    } else if Double::from_bits(QUARTER).less_than(ratio) {
        Tone::Warn
    } else {
        Tone::Bad
    }
}

pub open spec fn badge_of(status: Status) -> (Seq<char>, Tone) {
    match status {
        Status::Starting => ("STARTING"@, Tone::Warn),
        Status::Scanning => ("SCANNING"@, Tone::Warn),
        Status::Idle => ("LIVE"@, Tone::Good),
        Status::Error => ("ERROR"@, Tone::Bad),
        Status::Pending => ("PENDING"@, Tone::Muted),
    }
}

/// The badge of a status, and its tone.
pub fn badge(status: Status) -> (out: (&'static str, Tone))
    ensures
        (out.0@, out.1) == badge_of(status),
{
    match status {
        Status::Starting => ("STARTING", Tone::Warn),
        Status::Scanning => ("SCANNING", Tone::Warn),
        Status::Idle => ("LIVE", Tone::Good),
        Status::Error => ("ERROR", Tone::Bad),
        Status::Pending => ("PENDING", Tone::Muted),
    }
}

/// Which frame the spinner shows: each frame for two ticks.
pub fn spinner_frame(tick: u64) -> (out: usize)
    ensures
        out == tick / 2 % SPINNER_FRAMES,
        out < SPINNER_FRAMES,
{
    (tick / 2 % SPINNER_FRAMES) as usize
}

/// How the border of a card is drawn.
#[derive(Clone, Copy, PartialEq, Eq, Structural, Debug)]
pub enum Border {
    /// The accent, pulsing.
    Pulse,
    Dim,
    Accent,
}

/// What the card of a live protocol shows.
pub struct CardStats {
    pub positions: String,
    pub opps: String,
    pub profit: Double,
    pub scan_time: String,
    pub priced: usize,
    pub total: usize,
    pub coverage: String,
}

/// What the card of a protocol shows.
pub struct Card {
    pub badge: &'static str,
    pub badge_tone: Tone,
    pub border: Border,
    /// The frame of the spinner while a scan is under way.
    pub spinner: Option<usize>,
    /// None for a protocol that is pending.
    pub stats: Option<CardStats>,
}

/// The figures of the last scan: positions, opportunities, seconds, banks
/// priced, banks, profit. All zero before the first scan.
pub open spec fn last_figures(p: Panel) -> (usize, nat, u64, usize, usize, Double) {
    match p.last {
        Some(r) => (
            r.positions_scanned,
            r.opportunities@.len(),
            r.scan_duration_ms / 1000,
            r.banks_priced,
            r.banks_total,
            r.total_profit_usd,
        ),
        None => (0, 0, 0, 0, 0, Double::of(ZERO)),
    }
}

/// Whether `stats` is what the card of the panel shows.
pub open spec fn shows_last(stats: CardStats, p: Panel) -> bool {
    let (scanned, opps, secs, priced, total, profit) = last_figures(p);
    &&& stats.positions@ == grouped_digits(scanned as nat)
    &&& stats.opps@ == decimal_digits(opps)
    &&& stats.profit == profit
    &&& stats.scan_time@ == decimal_digits(secs as nat) + "s"@
    &&& stats.priced == priced
    &&& stats.total == total
    &&& stats.coverage@ == "oracle "@ + decimal_digits(priced as nat) + "/"@ + decimal_digits(
        total as nat,
    )
}

/// The card of a protocol at the given tick.
pub fn card(panel: &Panel, tick: u64) -> (out: Card)
    ensures
        (out.badge@, out.badge_tone) == badge_of(panel.status),
        out.border == if panel.busy() {
            Border::Pulse
        } else if panel.impl_status == ImplStatus::Pending {
            Border::Dim
        } else {
            Border::Accent
        },
        out.spinner == if panel.busy() {
            Some((tick / 2 % SPINNER_FRAMES) as usize)
        } else {
            None
        },
        match out.stats {
            None => panel.impl_status == ImplStatus::Pending,
            Some(stats) => panel.impl_status == ImplStatus::Live && shows_last(stats, *panel),
        },
{
    let (badge, badge_tone) = badge(panel.status);
    let scanning: bool = panel.is_busy();
    let border: Border = if scanning {
        Border::Pulse
    } else if panel.impl_status == ImplStatus::Pending {
        Border::Dim
    } else {
        Border::Accent
    };
    let spinner: Option<usize> = if scanning {
        Some(spinner_frame(tick))
    } else {
        None
    };
    if panel.impl_status == ImplStatus::Pending {
        return Card { badge, badge_tone, border, spinner, stats: None };
    }
    let mut scanned: usize = 0;
    let mut opps: usize = 0;
    let mut secs: u64 = 0;
    let mut priced: usize = 0;
    let mut total: usize = 0;
    let mut profit: Double = Double::from_bits(ZERO);
    if let Some(r) = &panel.last {
        scanned = r.positions_scanned;
        opps = r.opportunities.len();
        secs = r.scan_duration_ms / 1000;
        priced = r.banks_priced;
        total = r.banks_total;
        profit = r.total_profit_usd;
    }
    let priced_text: String = decimal(priced as u64);
    let total_text: String = decimal(total as u64);
    let stats: CardStats = CardStats {
        positions: fmt_int(scanned),
        opps: decimal(opps as u64),
        profit,
        scan_time: decimal(secs).concat("s"),
        priced,
        total,
        coverage: "oracle ".to_string().concat(priced_text.as_str()).concat("/").concat(
            total_text.as_str(),
        ),
    };
    Card { badge, badge_tone, border, spinner, stats: Some(stats) }
}

/// How many opportunities all protocols have together.
pub fn total_opps(panels: &Vec<Panel>) -> (out: usize)
    ensures
        out == placed(opps_of(panels@), panels@.len() as int).len(),
{
    rank_opps(panels).len()
}

/// One of the risk figures of each panel; zero before its first scan.
pub open spec fn risk_of(
    panels: Seq<Panel>,
    figure: spec_fn(RiskBuckets) -> usize,
) -> spec_fn(int) -> nat {
    |i: int|
        match panels[i].last {
            Some(r) => figure(r.risk_buckets) as nat,
            None => 0,
        }
}

pub open spec fn liquidatable_of() -> spec_fn(RiskBuckets) -> usize {
    |r: RiskBuckets| r.liquidatable
}

pub open spec fn edge_of() -> spec_fn(RiskBuckets) -> usize {
    |r: RiskBuckets| r.edge
}

pub open spec fn at_risk_of() -> spec_fn(RiskBuckets) -> usize {
    |r: RiskBuckets| r.at_risk
}

pub open spec fn watch_of() -> spec_fn(RiskBuckets) -> usize {
    |r: RiskBuckets| r.watch
}

pub open spec fn total_priced_of() -> spec_fn(RiskBuckets) -> usize {
    |r: RiskBuckets| r.total_priced
}

/// One of the risk figures over all panels.
pub open spec fn risk_sum(panels: Seq<Panel>, figure: spec_fn(RiskBuckets) -> usize) -> nat {
    sum(risk_of(panels, figure), panels.len() as int)
}

/// Whether all risk figures, added up over the panels, can be counted.
pub open spec fn risk_fits(panels: Seq<Panel>) -> bool {
    &&& risk_sum(panels, liquidatable_of()) <= usize::MAX
    &&& risk_sum(panels, edge_of()) <= usize::MAX
    &&& risk_sum(panels, at_risk_of()) <= usize::MAX
    &&& risk_sum(panels, watch_of()) <= usize::MAX
    &&& risk_sum(panels, total_priced_of()) <= usize::MAX
}

/// The risk buckets of all protocols together.
pub fn aggregate_risk(panels: &Vec<Panel>) -> (out: RiskBuckets)
    requires
        risk_fits(panels@),
    ensures
        out.liquidatable == risk_sum(panels@, liquidatable_of()),
        out.edge == risk_sum(panels@, edge_of()),
        out.at_risk == risk_sum(panels@, at_risk_of()),
        out.watch == risk_sum(panels@, watch_of()),
        out.total_priced == risk_sum(panels@, total_priced_of()),
{
    let ghost n = panels@.len() as int;
    let ghost l = risk_of(panels@, liquidatable_of());
    let ghost e = risk_of(panels@, edge_of());
    let ghost a = risk_of(panels@, at_risk_of());
    let ghost w = risk_of(panels@, watch_of());
    let ghost t = risk_of(panels@, total_priced_of());
    let mut agg: RiskBuckets = RiskBuckets::default();
    let mut i: usize = 0;
    while i < panels.len()
        invariant
            i <= panels@.len(),
            n == panels@.len(),
            risk_fits(panels@),
            l == risk_of(panels@, liquidatable_of()),
            e == risk_of(panels@, edge_of()),
            a == risk_of(panels@, at_risk_of()),
            w == risk_of(panels@, watch_of()),
            t == risk_of(panels@, total_priced_of()),
            agg.liquidatable == sum(l, i as int),
            agg.edge == sum(e, i as int),
            agg.at_risk == sum(a, i as int),
            agg.watch == sum(w, i as int),
            agg.total_priced == sum(t, i as int),
        decreases panels@.len() - i,
    {
        proof {
            lemma_sum_grows(l, i + 1, n);
            lemma_sum_grows(e, i + 1, n);
            lemma_sum_grows(a, i + 1, n);
            lemma_sum_grows(w, i + 1, n);
            lemma_sum_grows(t, i + 1, n);
        }
        if let Some(r) = &panels[i].last {
            agg.total_priced = agg.total_priced + r.risk_buckets.total_priced;
            agg.watch = agg.watch + r.risk_buckets.watch;
            agg.at_risk = agg.at_risk + r.risk_buckets.at_risk;
            agg.edge = agg.edge + r.risk_buckets.edge;
            agg.liquidatable = agg.liquidatable + r.risk_buckets.liquidatable;
        }
        i = i + 1;
    }
    agg
}

/// One bar of the risk radar.
#[derive(Clone, Copy, PartialEq, Eq, Debug)]
pub struct Bar {
    pub label: &'static str,
    pub n: usize,
    pub tone: Tone,
}

/// The bars of the risk radar, the innermost bucket first.
pub fn risk_bars(agg: &RiskBuckets) -> (out: Vec<Bar>)
    ensures
        out@.len() == 4,
        out@[0].label@ == "HF < 1.00  liquidatable"@ && out@[0].n == agg.liquidatable
            && out@[0].tone == Tone::Bad,
        out@[1].label@ == "HF < 1.02  edge"@ && out@[1].n == agg.edge && out@[1].tone
            == Tone::Orange,
        out@[2].label@ == "HF < 1.05  at risk"@ && out@[2].n == agg.at_risk && out@[2].tone
            == Tone::Warn,
        out@[3].label@ == "HF < 1.10  watch"@ && out@[3].n == agg.watch && out@[3].tone
            == Tone::Muted,
{
    let mut out: Vec<Bar> = Vec::with_capacity(4);
    out.push(Bar { label: "HF < 1.00  liquidatable", n: agg.liquidatable, tone: Tone::Bad });
    out.push(Bar { label: "HF < 1.02  edge", n: agg.edge, tone: Tone::Orange });
    out.push(Bar { label: "HF < 1.05  at risk", n: agg.at_risk, tone: Tone::Warn });
    out.push(Bar { label: "HF < 1.10  watch", n: agg.watch, tone: Tone::Muted });
    out
}

/// One line of the leaderboard.
#[derive(Clone, Copy, PartialEq, Eq, Structural, Debug)]
pub struct Standing {
    pub panel: usize,
    pub profit: Double,
    pub opps: usize,
    pub impl_status: ImplStatus,
}

/// Where each panel stands.
pub open spec fn standing(panels: Seq<Panel>) -> spec_fn(int) -> Standing {
    |i: int|
        Standing {
            panel: i as usize,
            profit: last_figures(panels[i]).5,
            opps: last_figures(panels[i]).1 as usize,
            impl_status: panels[i].impl_status,
        }
}

pub open spec fn potential() -> spec_fn(Standing) -> u64 {
    |s: Standing| s.profit.spec_rank()
}

impl Ranked for Standing {
    open spec fn rank_key(self) -> u64 {
        self.profit.spec_rank()
    }

    fn key(&self) -> u64 {
        self.profit.rank()
    }
}

/// The protocols by potential profit, the highest first.
pub fn leaderboard(panels: &Vec<Panel>) -> (out: Vec<Standing>)
    ensures
        is_sorted_desc(Seq::new(panels@.len(), standing(panels@)), potential(), out@),
{
    let ghost all = Seq::new(panels@.len(), standing(panels@));
    let mut entries: Vec<Standing> = Vec::with_capacity(panels.len());
    let mut i: usize = 0;
    while i < panels.len()
        invariant
            i <= panels@.len(),
            all == Seq::new(panels@.len(), standing(panels@)),
            entries@ == all.take(i as int),
        decreases panels@.len() - i,
    {
        let mut profit: Double = Double::from_bits(ZERO);
        let mut opps: usize = 0;
        if let Some(r) = &panels[i].last {
            profit = r.total_profit_usd;
            opps = r.opportunities.len();
        }
        let entry: Standing = Standing {
            panel: i,
            profit,
            opps,
            impl_status: panels[i].impl_status,
        };
        entries.push(entry);
        assert(entry == all[i as int]);
        assert(all.take(i + 1) =~= all.take(i as int).push(entry));
        i = i + 1;
    }
    assert(all.take(panels@.len() as int) =~= all);
    assert(by_key::<Standing>() =~= potential());
    sort_desc(&entries)
}

/// How many rows fit into a table of the given height, under its header.
pub open spec fn rows_shown(len: nat, height: u16) -> nat {
    let room = if height >= 2 {
        (height - 2) as nat
    } else {
        0
    };
    if len <= room {
        len
    } else {
        room
    }
}

fn shown(len: usize, height: u16) -> (out: usize)
    ensures
        out == rows_shown(len as nat, height),
{
    let room: usize = if height >= 2 {
        (height - 2) as usize
    } else {
        0
    };
    if len <= room {
        len
    } else {
        room
    }
}

/// One line of the table of opportunities.
pub struct OppLine {
    pub rank: String,
    pub proto: String,
    pub accent: usize,
    pub position: String,
    pub owner: String,
    pub health_tone: Tone,
    pub row: OppRow,
}

/// Whether `line` shows the opportunity at `i`.
pub open spec fn shows_opp(
    line: OppLine,
    panels: Seq<Panel>,
    opp: Placed<OppRow>,
    i: int,
) -> bool {
    &&& line.rank@ == decimal_digits((i + 1) as nat)
    &&& line.proto@ == short_name(panels[opp.panel as int].title@)
    &&& line.accent == panels[opp.panel as int].accent
    &&& line.position@ == shortened(base58_encoded(opp.row.position.bytes()))
    &&& line.owner@ == shortened(base58_encoded(opp.row.owner.bytes()))
    &&& line.health_tone == health_tone_of(opp.row.health_factor)
    &&& line.row == opp.row
}

/// Whether every row comes from one of the panels.
pub open spec fn all_placed<T>(rows: Seq<Placed<T>>, panels: int) -> bool {
    forall|i: int| 0 <= i < rows.len() ==> (#[trigger] rows[i]).panel < panels
}

fn opp_lines(panels: &Vec<Panel>, opps: &Vec<Placed<OppRow>>, height: u16) -> (out: Vec<OppLine>)
    requires
        all_placed(opps@, panels@.len() as int),
    ensures
        out@.len() == rows_shown(opps@.len(), height),
        forall|i: int|
            0 <= i < out@.len() ==> shows_opp(#[trigger] out@[i], panels@, opps@[i], i),
{
    let n: usize = shown(opps.len(), height);
    let mut out: Vec<OppLine> = Vec::with_capacity(n);
    let mut i: usize = 0;
    while i < n
        invariant
            i <= n == rows_shown(opps@.len(), height) <= opps@.len(),
            out@.len() == i,
            all_placed(opps@, panels@.len() as int),
            forall|j: int|
                0 <= j < i ==> shows_opp(#[trigger] out@[j], panels@, opps@[j], j),
        decreases n - i,
    {
        let opp: Placed<OppRow> = opps[i];
        assert(opps@[i as int].panel < panels@.len());
        let panel: &Panel = &panels[opp.panel];
        out.push(
            OppLine {
                rank: decimal(i as u64 + 1),
                proto: short_proto(panel.title.as_str()),
                accent: panel.accent,
                position: fmt_pk(&opp.row.position),
                owner: fmt_pk(&opp.row.owner),
                health_tone: health_tone(opp.row.health_factor),
                row: opp.row,
            },
        );
        i = i + 1;
    }
    out
}

/// The opportunities of all panels in the order in which they are shown.
pub open spec fn is_opp_order(panels: Seq<Panel>, opps: Seq<Placed<OppRow>>) -> bool {
    is_sorted_desc(placed(opps_of(panels), panels.len() as int), by_profit(), opps)
}

/// The table of opportunities: those of all protocols, most profitable first,
/// as many as fit.
pub fn opportunities_table(panels: &Vec<Panel>, height: u16) -> (out: Vec<OppLine>)
    ensures
        exists|opps: Seq<Placed<OppRow>>| #[trigger]
            is_opp_order(panels@, opps) && out@.len() == rows_shown(opps.len(), height) && (forall|
                i: int,
            |
                0 <= i < out@.len() ==> shows_opp(#[trigger] out@[i], panels@, opps[i], i)),
{
    let opps: Vec<Placed<OppRow>> = rank_opps(panels);
    let n: usize = panels.len();
    proof {
        lemma_placed(opps_of(panels@), n as int, n as int);
        lemma_sorted_is_placed(placed(opps_of(panels@), n as int), by_profit(), opps@, n as int);
        assert(is_opp_order(panels@, opps@));
    }
    opp_lines(panels, &opps, height)
}

/// The opportunity that the breakdown is about: the selected one, the first
/// where none is selected.
pub fn selected_opp(panels: &Vec<Panel>, selected: Option<usize>) -> (out: Option<OppRow>)
    ensures
        exists|opps: Seq<Placed<OppRow>>| #[trigger]
            is_opp_order(panels@, opps) && out == ({
                let at = match selected {
                    Some(c) => c as int,
                    None => 0,
                };
                if at < opps.len() {
                    Some(opps[at].row)
                } else {
                    None
                }
            }),
{
    let opps: Vec<Placed<OppRow>> = rank_opps(panels);
    assert(is_opp_order(panels@, opps@));
    let at: usize = match selected {
        Some(c) => c,
        None => 0,
    };
    if at < opps.len() {
        Some(opps[at].row)
    } else {
        None
    }
}

/// One line of the whale watch.
pub struct WhaleLine {
    pub rank: String,
    pub proto: String,
    pub accent: usize,
    pub position: String,
    pub owner: String,
    pub health_tone: Tone,
    pub status: &'static str,
    pub status_tone: Tone,
    pub row: WhaleRow,
}

/// Whether `line` shows the whale at `i`.
pub open spec fn shows_whale(
    line: WhaleLine,
    panels: Seq<Panel>,
    whale: Placed<WhaleRow>,
    i: int,
) -> bool {
    &&& line.rank@ == decimal_digits((i + 1) as nat)
    &&& line.proto@ == short_name(panels[whale.panel as int].title@)
    &&& line.accent == panels[whale.panel as int].accent
    &&& line.position@ == shortened(base58_encoded(whale.row.position.bytes()))
    &&& line.owner@ == shortened(base58_encoded(whale.row.owner.bytes()))
    &&& line.health_tone == health_tone_of(whale.row.health_factor)
    &&& line.row == whale.row
    &&& if whale.row.liquidatable {
        line.status@ == "LIQ NOW"@ && line.status_tone == Tone::Bad
    } else {
        line.status@ == "watching"@ && line.status_tone == Tone::Muted
    }
}

fn whale_lines(panels: &Vec<Panel>, whales: &Vec<Placed<WhaleRow>>, height: u16) -> (out: Vec<
    WhaleLine,
>)
    requires
        all_placed(whales@, panels@.len() as int),
    ensures
        out@.len() == rows_shown(whales@.len(), height),
        forall|i: int|
            0 <= i < out@.len() ==> shows_whale(#[trigger] out@[i], panels@, whales@[i], i),
{
    let n: usize = shown(whales.len(), height);
    let mut out: Vec<WhaleLine> = Vec::with_capacity(n);
    let mut i: usize = 0;
    while i < n
        invariant
            i <= n == rows_shown(whales@.len(), height) <= whales@.len(),
            out@.len() == i,
            all_placed(whales@, panels@.len() as int),
            forall|j: int|
                0 <= j < i ==> shows_whale(#[trigger] out@[j], panels@, whales@[j], j),
        decreases n - i,
    {
        let whale: Placed<WhaleRow> = whales[i];
        assert(whales@[i as int].panel < panels@.len());
        let panel: &Panel = &panels[whale.panel];
        let (status, status_tone) = if whale.row.liquidatable {
            ("LIQ NOW", Tone::Bad)
        } else {
            ("watching", Tone::Muted)
        };
        out.push(
            WhaleLine {
                rank: decimal(i as u64 + 1),
                proto: short_proto(panel.title.as_str()),
                accent: panel.accent,
                position: fmt_pk(&whale.row.position),
                owner: fmt_pk(&whale.row.owner),
                health_tone: health_tone(whale.row.health_factor),
                status,
                status_tone,
                row: whale.row,
            },
        );
        i = i + 1;
    }
    out
}

/// The whales of all panels in the order in which they are shown.
pub open spec fn is_whale_order(panels: Seq<Panel>, whales: Seq<Placed<WhaleRow>>) -> bool {
    is_sorted_desc(placed(whales_of(panels), panels.len() as int), by_debt(), whales)
}

/// The whale watch: the whales of all protocols, the largest debt first, as
/// many as fit.
pub fn whale_table(panels: &Vec<Panel>, height: u16) -> (out: Vec<WhaleLine>)
    ensures
        exists|whales: Seq<Placed<WhaleRow>>| #[trigger]
            is_whale_order(panels@, whales) && out@.len() == rows_shown(whales.len(), height) && (
            forall|i: int|
                0 <= i < out@.len() ==> shows_whale(#[trigger] out@[i], panels@, whales[i], i)),
{
    let whales: Vec<Placed<WhaleRow>> = rank_whales(panels);
    let n: usize = panels.len();
    proof {
        lemma_placed(whales_of(panels@), n as int, n as int);
        lemma_sorted_is_placed(placed(whales_of(panels@), n as int), by_debt(), whales@, n as int);
        assert(is_whale_order(panels@, whales@));
    }
    whale_lines(panels, &whales, height)
}

/// One line of the oracle divergence.
pub struct DriftLine {
    pub proto: String,
    pub accent: usize,
    pub mint: String,
    pub sources: String,
    pub spread_tone: Tone,
    pub row: DivergenceRow,
}

/// Whether `line` shows the divergent mint.
pub open spec fn shows_drift(
    line: DriftLine,
    panels: Seq<Panel>,
    drift: Placed<DivergenceRow>,
) -> bool {
    &&& line.proto@ == short_name(panels[drift.panel as int].title@)
    &&& line.accent == panels[drift.panel as int].accent
    &&& line.mint@ == shortened(base58_encoded(drift.row.mint.bytes()))
    &&& line.sources@ == decimal_digits(drift.row.sources as nat)
    &&& line.spread_tone == spread_tone_of(drift.row.spread_pct)
    &&& line.row == drift.row
}

fn drift_lines(
    panels: &Vec<Panel>,
    drifts: &Vec<Placed<DivergenceRow>>,
    height: u16,
) -> (out: Vec<DriftLine>)
    requires
        all_placed(drifts@, panels@.len() as int),
    ensures
        out@.len() == rows_shown(drifts@.len(), height),
        forall|i: int|
            0 <= i < out@.len() ==> shows_drift(#[trigger] out@[i], panels@, drifts@[i]),
{
    let n: usize = shown(drifts.len(), height);
    let mut out: Vec<DriftLine> = Vec::with_capacity(n);
    let mut i: usize = 0;
    while i < n
        invariant
            i <= n == rows_shown(drifts@.len(), height) <= drifts@.len(),
            out@.len() == i,
            all_placed(drifts@, panels@.len() as int),
            forall|j: int| 0 <= j < i ==> shows_drift(#[trigger] out@[j], panels@, drifts@[j]),
        decreases n - i,
    {
        let drift: Placed<DivergenceRow> = drifts[i];
        assert(drifts@[i as int].panel < panels@.len());
        let panel: &Panel = &panels[drift.panel];
        out.push(
            DriftLine {
                proto: short_proto(panel.title.as_str()),
                accent: panel.accent,
                mint: fmt_pk(&drift.row.mint),
                sources: decimal(drift.row.sources as u64),
                spread_tone: spread_tone(drift.row.spread_pct),
                row: drift.row,
            },
        );
        i = i + 1;
    }
    out
}

/// The divergent mints of all panels in the order in which they are shown.
pub open spec fn is_drift_order(panels: Seq<Panel>, drifts: Seq<Placed<DivergenceRow>>) -> bool {
    is_sorted_desc(placed(drifts_of(panels), panels.len() as int), by_spread(), drifts)
}

/// The oracle divergence: the divergent mints of all protocols, the widest
/// spread first, as many as fit.
pub fn divergence_table(panels: &Vec<Panel>, height: u16) -> (out: Vec<DriftLine>)
    ensures
        exists|drifts: Seq<Placed<DivergenceRow>>| #[trigger]
            is_drift_order(panels@, drifts) && out@.len() == rows_shown(drifts.len(), height) && (
            forall|i: int|
                0 <= i < out@.len() ==> shows_drift(#[trigger] out@[i], panels@, drifts[i])),
{
    let drifts: Vec<Placed<DivergenceRow>> = rank_drifts(panels);
    let n: usize = panels.len();
    proof {
        lemma_placed(drifts_of(panels@), n as int, n as int);
        lemma_sorted_is_placed(
            placed(drifts_of(panels@), n as int),
            by_spread(),
            drifts@,
            n as int,
        );
        assert(is_drift_order(panels@, drifts@));
    }
    drift_lines(panels, &drifts, height)
}

/// The priority fee as the chain panel writes it.
pub fn priority_text(prio: u64) -> (out: String)
    ensures
        out@ == if prio == 0 {
            "0"@
        } else {
            decimal_digits(prio as nat) + " \u{00b5}lpc"@
        },
{
    if prio == 0 {
        "0".to_string()
    } else {
        decimal(prio).concat(" \u{00b5}lpc")
    }
}

/// The poll interval as the footer writes it.
pub fn poll_text(secs: u64) -> (out: String)
    ensures
        out@ == "\u{2022} poll "@ + decimal_digits(secs as nat) + "s  "@,
{
    let secs: String = decimal(secs);
    "\u{2022} poll ".to_string().concat(secs.as_str()).concat("s  ")
}

/// The tick as the footer writes it.
pub fn tick_text(tick: u64) -> (out: String)
    ensures
        out@ == "tick "@ + decimal_digits(tick as nat),
{
    let tick: String = decimal(tick);
    "tick ".to_string().concat(tick.as_str())
}

/// There is one order in which the opportunities are shown.
pub proof fn law_opp_order_is_unique(
    panels: Seq<Panel>,
    a: Seq<Placed<OppRow>>,
    b: Seq<Placed<OppRow>>,
)
    requires
        is_opp_order(panels, a),
        is_opp_order(panels, b),
    ensures
        a == b,
{
    law_sorting_is_unique(placed(opps_of(panels), panels.len() as int), by_profit(), a, b);
}

/// Adding up buckets that are nested gives buckets that are nested.
pub proof fn law_aggregate_risk_is_nested(panels: Seq<Panel>)
    requires
        forall|i: int|
            0 <= i < panels.len() ==> ((#[trigger] panels[i]).last matches Some(r)
                ==> r.risk_buckets.nested()),
    ensures
        risk_sum(panels, liquidatable_of()) <= risk_sum(panels, edge_of()),
        risk_sum(panels, edge_of()) <= risk_sum(panels, at_risk_of()),
        risk_sum(panels, at_risk_of()) <= risk_sum(panels, watch_of()),
        risk_sum(panels, watch_of()) <= risk_sum(panels, total_priced_of()),
{
    let n = panels.len() as int;
    let l = risk_of(panels, liquidatable_of());
    let e = risk_of(panels, edge_of());
    let a = risk_of(panels, at_risk_of());
    let w = risk_of(panels, watch_of());
    let t = risk_of(panels, total_priced_of());
    assert forall|i: int| 0 <= i < n implies #[trigger] l(i) <= e(i) && e(i) <= a(i) && a(i) <= w(i)
        && w(i) <= t(i) by {
        assert(panels[i].last matches Some(r) ==> r.risk_buckets.nested());
    }
    assert forall|i: int| 0 <= i < n implies #[trigger] e(i) <= a(i) by {
        assert(l(i) <= e(i));
    }
    assert forall|i: int| 0 <= i < n implies #[trigger] a(i) <= w(i) by {
        assert(l(i) <= e(i));
    }
    assert forall|i: int| 0 <= i < n implies #[trigger] w(i) <= t(i) by {
        assert(l(i) <= e(i));
    }
    lemma_sum_at_most(l, e, n);
    lemma_sum_at_most(e, a, n);
    lemma_sum_at_most(a, w, n);
    lemma_sum_at_most(w, t, n);
}

proof fn lemma_placed<T>(rows_of: spec_fn(int) -> Seq<T>, n: int, panels: int)
    requires
        0 <= n <= panels <= usize::MAX,
    ensures
        all_placed(placed(rows_of, n), panels),
    decreases n,
{
    if n > 0 {
        lemma_placed(rows_of, n - 1, panels);
    }
}

proof fn lemma_sorted_is_placed<T>(
    items: Seq<Placed<T>>,
    key: spec_fn(Placed<T>) -> u64,
    out: Seq<Placed<T>>,
    panels: int,
)
    requires
        is_sorted_desc(items, key, out),
        all_placed(items, panels),
    ensures
        all_placed(out, panels),
{
    law_sorted_items(items, key, out);
    assert forall|i: int| 0 <= i < out.len() implies (#[trigger] out[i]).panel < panels by {
        assert(out.contains(out[i]));
        let k = choose|k: int| 0 <= k < items.len() && items[k] == out[i];
        assert(items[k].panel < panels);
    }
}

/// The tones by their limits: a health factor is bad below 0.25, orange below
/// 0.6, a warning below 0.85 and lime from there on; a spread is good below
/// half a percent, a warning below two and bad from there on; a coverage is
/// good above 0.66, a warning above 0.25 and bad otherwise.
pub proof fn law_tones_follow_their_limits(h: Double, spread: Double, ratio: Double, tone: Tone)
    requires
        call_ensures(coverage_tone, (ratio,), tone),
    ensures
        ({
            let quarter = Double { bits: 0x3fd0_0000_0000_0000 };
            let six_tenths = Double { bits: 0x3fe3_3333_3333_3333 };
            let nearly_safe = Double { bits: 0x3feb_3333_3333_3333 };
            let half = Double { bits: 0x3fe0_0000_0000_0000 };
            let two = Double { bits: 0x4000_0000_0000_0000 };
            let well_covered = Double { bits: 0x3fe5_1eb8_51eb_851f };
            &&& health_tone_of(h) == Tone::Bad <==> h.lt(quarter)
            &&& health_tone_of(h) == Tone::Orange <==> !h.lt(quarter) && h.lt(six_tenths)
            &&& health_tone_of(h) == Tone::Warn <==> !h.lt(six_tenths) && h.lt(nearly_safe)
            &&& health_tone_of(h) == Tone::Lime <==> !h.lt(nearly_safe)
            &&& spread_tone_of(spread) == Tone::Good <==> spread.lt(half)
            &&& spread_tone_of(spread) == Tone::Warn <==> !spread.lt(half) && spread.lt(two)
            &&& spread_tone_of(spread) == Tone::Bad <==> !spread.lt(two)
            &&& tone == Tone::Good <==> well_covered.lt(ratio)
            &&& tone == Tone::Warn <==> !well_covered.lt(ratio) && quarter.lt(ratio)
            &&& tone == Tone::Bad <==> !quarter.lt(ratio)
        }),
{
}

/// The card of a live protocol shows the figures of its last scan, all zero
/// before the first; that of a pending one shows none. While a scan is under
/// way the border pulses and the spinner turns, a frame every two ticks.
pub proof fn law_card_shows_the_last_scan(panel: Panel, tick: u64, out: Card)
    requires
        call_ensures(card, (&panel, tick), out),
    ensures
        out.stats is None <==> panel.impl_status == ImplStatus::Pending,
        out.stats matches Some(stats) ==> match panel.last {
            Some(r) => {
                &&& stats.positions@ == grouped_digits(r.positions_scanned as nat)
                &&& stats.opps@ == decimal_digits(r.opportunities@.len())
                &&& stats.profit == r.total_profit_usd
                &&& stats.scan_time@ == decimal_digits((r.scan_duration_ms / 1000) as nat) + "s"@
                &&& stats.priced == r.banks_priced
                &&& stats.total == r.banks_total
                &&& stats.coverage@ == "oracle "@ + decimal_digits(r.banks_priced as nat) + "/"@
                    + decimal_digits(r.banks_total as nat)
            },
            None => {
                &&& stats.positions@ == grouped_digits(0)
                &&& stats.opps@ == decimal_digits(0)
                &&& stats.profit == (Double { bits: 0 })
                &&& stats.priced == 0
                &&& stats.total == 0
            },
        },
        out.border == Border::Pulse <==> (panel.status == Status::Scanning || panel.status
            == Status::Starting),
        out.border == Border::Pulse <==> out.spinner is Some,
        out.spinner matches Some(frame) ==> frame == (tick / 2) % 10,
        out.badge_tone == Tone::Bad <==> panel.status == Status::Error,
        out.badge_tone == Tone::Good <==> panel.status == Status::Idle,
        out.badge_tone == Tone::Muted <==> panel.status == Status::Pending,
{
}

/// The buckets of all protocols together are the sums of the buckets of their
/// last scans, a protocol without one counting for nothing.
pub proof fn law_risk_adds_up_over_panels(panels: Vec<Panel>, out: RiskBuckets)
    requires
        call_ensures(aggregate_risk, (&panels,), out),
    ensures
        ({
            let n = panels@.len() as int;
            let of = |figure: spec_fn(RiskBuckets) -> nat|
                sum(
                    |i: int|
                        match panels@[i].last {
                            Some(r) => figure(r.risk_buckets),
                            None => 0,
                        },
                    n,
                );
            &&& out.liquidatable == of(|b: RiskBuckets| b.liquidatable as nat)
            &&& out.edge == of(|b: RiskBuckets| b.edge as nat)
            &&& out.at_risk == of(|b: RiskBuckets| b.at_risk as nat)
            &&& out.watch == of(|b: RiskBuckets| b.watch as nat)
            &&& out.total_priced == of(|b: RiskBuckets| b.total_priced as nat)
        }),
{
    lemma_risk_sum(panels@, liquidatable_of(), |b: RiskBuckets| b.liquidatable as nat);
    lemma_risk_sum(panels@, edge_of(), |b: RiskBuckets| b.edge as nat);
    lemma_risk_sum(panels@, at_risk_of(), |b: RiskBuckets| b.at_risk as nat);
    lemma_risk_sum(panels@, watch_of(), |b: RiskBuckets| b.watch as nat);
    lemma_risk_sum(panels@, total_priced_of(), |b: RiskBuckets| b.total_priced as nat);
}

proof fn lemma_risk_sum(
    panels: Seq<Panel>,
    figure: spec_fn(RiskBuckets) -> usize,
    same: spec_fn(RiskBuckets) -> nat,
)
    requires
        forall|b: RiskBuckets| #[trigger] figure(b) == same(b),
    ensures
        risk_sum(panels, figure) == sum(
            |i: int|
                match panels[i].last {
                    Some(r) => same(r.risk_buckets),
                    None => 0,
                },
            panels.len() as int,
        ),
{
    let g = |i: int|
        match panels[i].last {
            Some(r) => same(r.risk_buckets),
            None => 0,
        };
    lemma_sum_same(risk_of(panels, figure), g, panels.len() as int);
}

/// The radar has a bar for each bucket, the innermost first.
pub proof fn law_radar_shows_the_buckets(agg: RiskBuckets, out: Vec<Bar>)
    requires
        call_ensures(risk_bars, (&agg,), out),
    ensures
        out@.map_values(|b: Bar| b.n) == seq![agg.liquidatable, agg.edge, agg.at_risk, agg.watch],
        out@.map_values(|b: Bar| b.tone) == seq![Tone::Bad, Tone::Orange, Tone::Warn, Tone::Muted],
{
    assert(out@.map_values(|b: Bar| b.n) =~= seq![
        agg.liquidatable,
        agg.edge,
        agg.at_risk,
        agg.watch,
    ]);
    assert(out@.map_values(|b: Bar| b.tone) =~= seq![
        Tone::Bad,
        Tone::Orange,
        Tone::Warn,
        Tone::Muted,
    ]);
}

/// Whether `s` is where the panel it names stands: by the profit and the number
/// of opportunities of its last scan, both zero before the first.
pub open spec fn stands_where(panels: Seq<Panel>, s: Standing) -> bool {
    &&& s.panel < panels.len()
    &&& s.impl_status == panels[s.panel as int].impl_status
    &&& match panels[s.panel as int].last {
        Some(r) => s.profit == r.total_profit_usd && s.opps == r.opportunities@.len(),
        None => s.profit == (Double { bits: 0 }) && s.opps == 0,
    }
}

/// The leaderboard has a line for every protocol, says where each stands, and
/// puts none before one with a higher profit.
pub proof fn law_leaderboard_ranks_all_protocols(panels: Vec<Panel>, out: Vec<Standing>)
    requires
        call_ensures(leaderboard, (&panels,), out),
    ensures
        out@.len() == panels@.len(),
        forall|k: int| 0 <= k < out@.len() ==> stands_where(panels@, #[trigger] out@[k]),
        forall|p: int|
            0 <= p < panels@.len() ==> has_standing(out@, p, #[trigger] panels@[p]),
        forall|j: int, k: int|
            0 <= j < k < out@.len() ==> !(#[trigger] out@[j]).profit.lt((#[trigger] out@[k]).profit),
{
    let n = panels.len();
    assert(n == panels@.len());
    let all = Seq::new(panels@.len(), standing(panels@));
    law_sorted_items(all, potential(), out@);
    assert forall|k: int| 0 <= k < out@.len() implies stands_where(panels@, #[trigger] out@[k]) by {
        assert(out@.contains(out@[k]));
        let i = choose|i: int| 0 <= i < all.len() && all[i] == out@[k];
        if let Some(r) = panels@[i].last {
            assert(r.opportunities.len() == r.opportunities@.len());
        }
    }
    assert forall|p: int| 0 <= p < panels@.len() implies has_standing(
        out@,
        p,
        #[trigger] panels@[p],
    ) by {
        assert(all.contains(all[p]));
        assert(out@.contains(all[p]));
        let k = choose|k: int| 0 <= k < out@.len() && out@[k] == all[p];
        assert(out@[k].panel == p);
    }
    assert forall|j: int, k: int| 0 <= j < k < out@.len() implies !(#[trigger] out@[j]).profit.lt(
        (#[trigger] out@[k]).profit,
    ) by {
        assert((potential())(out@[j]) >= (potential())(out@[k]));
        law_rank_refines_order(out@[j].profit, out@[k].profit);
    }
}

/// Whether the panel at `p` has a line of the leaderboard.
pub open spec fn has_standing(out: Seq<Standing>, p: int, panel: Panel) -> bool {
    exists|k: int|
        0 <= k < out.len() && (#[trigger] out[k]).panel == p && out[k].impl_status
            == panel.impl_status
}

/// Whether `row` is among the opportunities of the panel at `p`.
pub open spec fn has_opp(panels: Seq<Panel>, p: int, row: OppRow) -> bool {
    0 <= p < panels.len() && (panels[p].last matches Some(r) && r.opportunities@.contains(row))
}

/// The table of opportunities numbers its lines from one, shows opportunities
/// of the panels with their protocol, keys and tone, none before a more
/// profitable one, and as many as there are or as fit under the header.
pub proof fn law_opportunity_table_shows_the_best(
    panels: Vec<Panel>,
    height: u16,
    out: Vec<OppLine>,
)
    requires
        call_ensures(opportunities_table, (&panels, height), out),
    ensures
        ({
            let all = sum(
                |p: int|
                    match panels@[p].last {
                        Some(r) => r.opportunities@.len(),
                        None => 0,
                    },
                panels@.len() as int,
            );
            let room = if height < 2 {
                0
            } else {
                height - 2
            };
            out@.len() == (if all < room {
                all as int
            } else {
                room
            })
        }),
        forall|i: int|
            0 <= i < out@.len() ==> {
                &&& (#[trigger] out@[i]).rank@ == decimal_digits((i + 1) as nat)
                &&& out@[i].position@ == shortened(base58_encoded(out@[i].row.position.bytes()))
                &&& out@[i].owner@ == shortened(base58_encoded(out@[i].row.owner.bytes()))
                &&& out@[i].health_tone == health_tone_of(out@[i].row.health_factor)
                &&& comes_from(panels@, out@[i])
            },
        forall|i: int, j: int|
            0 <= i < j < out@.len() ==> !(#[trigger] out@[i]).row.est_profit_usd.lt(
                (#[trigger] out@[j]).row.est_profit_usd,
            ),
        forall|p: int, row: OppRow, i: int|
            #[trigger] has_opp(panels@, p, row) && 0 <= i < out@.len() && !(exists|k: int|
                0 <= k < out@.len() && (#[trigger] out@[k]).row == row) ==> !(
            #[trigger] out@[i]).row.est_profit_usd.lt(row.est_profit_usd),
{
    let n = panels.len() as int;
    assert(n == panels@.len());
    let rows_of = opps_of(panels@);
    let opps = choose|opps: Seq<Placed<OppRow>>| #[trigger]
        is_opp_order(panels@, opps) && out@.len() == rows_shown(opps.len(), height) && (forall|
            i: int,
        |
            0 <= i < out@.len() ==> shows_opp(#[trigger] out@[i], panels@, opps[i], i));
    law_placed_holds_the_rows_of_all_panels(rows_of, n);
    law_sorted_items(placed(rows_of, n), by_profit(), opps);
    lemma_sum_same(
        |p: int| rows_of(p).len(),
        |p: int|
            match panels@[p].last {
                Some(r) => r.opportunities@.len(),
                None => 0,
            },
        n,
    );
    assert forall|i: int| 0 <= i < out@.len() implies {
        &&& (#[trigger] out@[i]).rank@ == decimal_digits((i + 1) as nat)
        &&& out@[i].position@ == shortened(base58_encoded(out@[i].row.position.bytes()))
        &&& out@[i].owner@ == shortened(base58_encoded(out@[i].row.owner.bytes()))
        &&& out@[i].health_tone == health_tone_of(out@[i].row.health_factor)
        &&& comes_from(panels@, out@[i])
    } by {
        assert(shows_opp(out@[i], panels@, opps[i], i));
        assert(opps.contains(opps[i]));
        assert(placed(rows_of, n).contains(opps[i]));
        let p = opps[i].panel as int;
        assert(has_opp(panels@, p, opps[i].row));
    }
    assert forall|i: int, j: int| 0 <= i < j < out@.len() implies !(
    #[trigger] out@[i]).row.est_profit_usd.lt((#[trigger] out@[j]).row.est_profit_usd) by {
        assert(shows_opp(out@[i], panels@, opps[i], i));
        assert(shows_opp(out@[j], panels@, opps[j], j));
        assert((by_profit())(opps[i]) >= (by_profit())(opps[j]));
        law_rank_refines_order(opps[i].row.est_profit_usd, opps[j].row.est_profit_usd);
    }
    assert forall|p: int, row: OppRow, i: int|
        #[trigger] has_opp(panels@, p, row) && 0 <= i < out@.len() && !(exists|k: int|
            0 <= k < out@.len() && (#[trigger] out@[k]).row == row) implies !(
    #[trigger] out@[i]).row.est_profit_usd.lt(row.est_profit_usd) by {
        let rows = rows_of(p);
        let q = choose|q: int| 0 <= q < rows.len() && rows[q] == row;
        let x = Placed { panel: p as usize, row };
        assert(x == Placed { panel: p as usize, row: rows_of(p)[q] });
        assert(placed(rows_of, n).contains(x));
        assert(opps.contains(x));
        let k = choose|k: int| 0 <= k < opps.len() && opps[k] == x;
        if k < out@.len() {
            assert(shows_opp(out@[k], panels@, opps[k], k));
            assert(out@[k].row == row);
        }
        assert(shows_opp(out@[i], panels@, opps[i], i));
        assert((by_profit())(opps[i]) >= (by_profit())(opps[k]));
        law_rank_refines_order(opps[i].row.est_profit_usd, row.est_profit_usd);
    }
}

/// Whether the line shows an opportunity of a panel with the panel's name and
/// accent.
pub open spec fn comes_from(panels: Seq<Panel>, line: OppLine) -> bool {
    exists|p: int| #[trigger]
        has_opp(panels, p, line.row) && line.proto@ == short_name(panels[p].title@) && line.accent
            == panels[p].accent
}

/// Without a selection the breakdown is about an opportunity that no other is
/// more profitable than; there is none only where there are no opportunities.
pub proof fn law_breakdown_starts_with_the_best(panels: Vec<Panel>, out: Option<OppRow>)
    requires
        call_ensures(selected_opp, (&panels, None::<usize>), out),
    ensures
        out matches Some(best) ==> (exists|p: int| #[trigger] has_opp(panels@, p, best)) && forall|
            p: int,
            row: OppRow,
        | #[trigger]
            has_opp(panels@, p, row) ==> !best.est_profit_usd.lt(row.est_profit_usd),
        out is None ==> forall|p: int, row: OppRow| !#[trigger] has_opp(panels@, p, row),
{
    let n = panels.len() as int;
    assert(n == panels@.len());
    let rows_of = opps_of(panels@);
    let opps = choose|opps: Seq<Placed<OppRow>>| #[trigger]
        is_opp_order(panels@, opps) && out == (if 0 < opps.len() {
            Some(opps[0].row)
        } else {
            None
        });
    law_placed_holds_the_rows_of_all_panels(rows_of, n);
    law_sorted_items(placed(rows_of, n), by_profit(), opps);
    assert forall|p: int, row: OppRow| #[trigger] has_opp(panels@, p, row) implies out is Some
        && !out->0.est_profit_usd.lt(row.est_profit_usd) by {
        let rows = rows_of(p);
        let q = choose|q: int| 0 <= q < rows.len() && rows[q] == row;
        let x = Placed { panel: p as usize, row };
        assert(x == Placed { panel: p as usize, row: rows_of(p)[q] });
        assert(placed(rows_of, n).contains(x));
        assert(opps.contains(x));
        let k = choose|k: int| 0 <= k < opps.len() && opps[k] == x;
        assert((by_profit())(opps[0]) >= (by_profit())(opps[k]));
        law_rank_refines_order(opps[0].row.est_profit_usd, row.est_profit_usd);
    }
    if out is Some {
        assert(opps.contains(opps[0]));
        assert(placed(rows_of, n).contains(opps[0]));
        assert(has_opp(panels@, opps[0].panel as int, opps[0].row));
    }
}

/// The whale watch and the oracle divergence show as many rows of the panels as
/// there are, but no more than their height less two: each with its protocol,
/// its keys and its tones, none before one with a larger debt or a wider
/// spread. Whales that can be liquidated are marked.
pub proof fn law_tables_show_what_fits(
    panels: Vec<Panel>,
    height: u16,
    whales: Vec<WhaleLine>,
    drifts: Vec<DriftLine>,
)
    requires
        call_ensures(whale_table, (&panels, height), whales),
        call_ensures(divergence_table, (&panels, height), drifts),
    ensures
        ({
            let room = if height < 2 {
                0
            } else {
                height - 2
            };
            let all_whales = sum(
                |p: int|
                    match panels@[p].last {
                        Some(r) => r.whale_watch@.len(),
                        None => 0,
                    },
                panels@.len() as int,
            );
            let all_drifts = sum(
                |p: int|
                    match panels@[p].last {
                        Some(r) => r.oracle_divergence@.len(),
                        None => 0,
                    },
                panels@.len() as int,
            );
            &&& whales@.len() == (if all_whales < room {
                all_whales as int
            } else {
                room
            })
            &&& drifts@.len() == (if all_drifts < room {
                all_drifts as int
            } else {
                room
            })
        }),
        forall|i: int|
            0 <= i < whales@.len() ==> {
                let line = #[trigger] whales@[i];
                &&& line.rank@ == decimal_digits((i + 1) as nat)
                &&& line.position@ == shortened(base58_encoded(line.row.position.bytes()))
                &&& line.owner@ == shortened(base58_encoded(line.row.owner.bytes()))
                &&& line.health_tone == health_tone_of(line.row.health_factor)
                &&& line.row.liquidatable ==> line.status@ == "LIQ NOW"@ && line.status_tone
                    == Tone::Bad
                &&& !line.row.liquidatable ==> line.status@ == "watching"@ && line.status_tone
                    == Tone::Muted
                &&& whale_comes_from(panels@, line)
            },
        forall|i: int, j: int|
            0 <= i < j < whales@.len() ==> !(#[trigger] whales@[i]).row.debt_usd.lt(
                (#[trigger] whales@[j]).row.debt_usd,
            ),
        forall|i: int|
            0 <= i < drifts@.len() ==> {
                let line = #[trigger] drifts@[i];
                &&& line.mint@ == shortened(base58_encoded(line.row.mint.bytes()))
                &&& line.sources@ == decimal_digits(line.row.sources as nat)
                &&& line.spread_tone == spread_tone_of(line.row.spread_pct)
                &&& drift_comes_from(panels@, line)
            },
        forall|i: int, j: int|
            0 <= i < j < drifts@.len() ==> !(#[trigger] drifts@[i]).row.spread_pct.lt(
                (#[trigger] drifts@[j]).row.spread_pct,
            ),
{
    let n = panels.len() as int;
    assert(n == panels@.len());
    let w = whales_of(panels@);
    let d = drifts_of(panels@);
    let wo = choose|wo: Seq<Placed<WhaleRow>>| #[trigger]
        is_whale_order(panels@, wo) && whales@.len() == rows_shown(wo.len(), height) && (forall|
            i: int,
        |
            0 <= i < whales@.len() ==> shows_whale(#[trigger] whales@[i], panels@, wo[i], i));
    let dr = choose|dr: Seq<Placed<DivergenceRow>>| #[trigger]
        is_drift_order(panels@, dr) && drifts@.len() == rows_shown(dr.len(), height) && (forall|
            i: int,
        |
            0 <= i < drifts@.len() ==> shows_drift(#[trigger] drifts@[i], panels@, dr[i]));
    law_placed_holds_the_rows_of_all_panels(w, n);
    law_placed_holds_the_rows_of_all_panels(d, n);
    law_sorted_items(placed(w, n), by_debt(), wo);
    law_sorted_items(placed(d, n), by_spread(), dr);
    lemma_sum_same(
        |p: int| w(p).len(),
        |p: int|
            match panels@[p].last {
                Some(r) => r.whale_watch@.len(),
                None => 0,
            },
        n,
    );
    lemma_sum_same(
        |p: int| d(p).len(),
        |p: int|
            match panels@[p].last {
                Some(r) => r.oracle_divergence@.len(),
                None => 0,
            },
        n,
    );
    assert forall|i: int| 0 <= i < whales@.len() implies whale_comes_from(
        panels@,
        #[trigger] whales@[i],
    ) by {
        assert(shows_whale(whales@[i], panels@, wo[i], i));
        assert(wo.contains(wo[i]));
        assert(placed(w, n).contains(wo[i]));
        assert(panels@[wo[i].panel as int].last is Some);
    }
    assert forall|i: int, j: int| 0 <= i < j < whales@.len() implies !(
    #[trigger] whales@[i]).row.debt_usd.lt((#[trigger] whales@[j]).row.debt_usd) by {
        assert(shows_whale(whales@[i], panels@, wo[i], i));
        assert(shows_whale(whales@[j], panels@, wo[j], j));
        assert((by_debt())(wo[i]) >= (by_debt())(wo[j]));
        law_rank_refines_order(wo[i].row.debt_usd, wo[j].row.debt_usd);
    }
    assert forall|i: int| 0 <= i < drifts@.len() implies drift_comes_from(
        panels@,
        #[trigger] drifts@[i],
    ) by {
        assert(shows_drift(drifts@[i], panels@, dr[i]));
        assert(dr.contains(dr[i]));
        assert(placed(d, n).contains(dr[i]));
        assert(panels@[dr[i].panel as int].last is Some);
    }
    assert forall|i: int, j: int| 0 <= i < j < drifts@.len() implies !(
    #[trigger] drifts@[i]).row.spread_pct.lt((#[trigger] drifts@[j]).row.spread_pct) by {
        assert(shows_drift(drifts@[i], panels@, dr[i]));
        assert(shows_drift(drifts@[j], panels@, dr[j]));
        assert((by_spread())(dr[i]) >= (by_spread())(dr[j]));
        law_rank_refines_order(dr[i].row.spread_pct, dr[j].row.spread_pct);
    }
}

/// Whether the line shows a whale of a panel with the panel's name and accent.
pub open spec fn whale_comes_from(panels: Seq<Panel>, line: WhaleLine) -> bool {
    exists|p: int|
        0 <= p < panels.len() && ((#[trigger] panels[p]).last matches Some(r)
            && r.whale_watch@.contains(line.row)) && line.proto@ == short_name(panels[p].title@)
            && line.accent == panels[p].accent
}

/// Whether the line shows a divergent mint of a panel with the panel's name and
/// accent.
pub open spec fn drift_comes_from(panels: Seq<Panel>, line: DriftLine) -> bool {
    exists|p: int|
        0 <= p < panels.len() && ((#[trigger] panels[p]).last matches Some(r)
            && r.oracle_divergence@.contains(line.row)) && line.proto@ == short_name(
            panels[p].title@,
        ) && line.accent == panels[p].accent
}

/// The texts of the chain panel and the footer write their numbers in decimal,
/// with a unit after a fee unless it is zero.
pub proof fn law_footer_writes_its_numbers(n: u64, prio: String, poll: String, tick: String)
    requires
        call_ensures(priority_text, (n,), prio),
        call_ensures(poll_text, (n,), poll),
        call_ensures(tick_text, (n,), tick),
    ensures
        n == 0 ==> prio@ == "0"@,
        n > 0 ==> prio@ == decimal_digits(n as nat) + " \u{00b5}lpc"@,
        poll@ == "\u{2022} poll "@ + decimal_digits(n as nat) + "s  "@,
        tick@ == "tick "@ + decimal_digits(n as nat),
{
}

/// The breakdown is about the opportunity at the selected place of the table,
/// counted from the first, and about none where the table does not reach so
/// far. The table has as many opportunities as the panels have together.
pub proof fn law_breakdown_follows_the_selection(
    panels: Vec<Panel>,
    selected: Option<usize>,
    opps: Vec<Placed<OppRow>>,
    total: usize,
    out: Option<OppRow>,
)
    requires
        call_ensures(rank_opps, (&panels,), opps),
        call_ensures(total_opps, (&panels,), total),
        call_ensures(selected_opp, (&panels, selected), out),
    ensures
        total == opps@.len(),
        ({
            let at = match selected {
                Some(c) => c as int,
                None => 0,
            };
            &&& at < opps@.len() ==> out == Some(opps@[at].row)
            &&& at >= opps@.len() ==> out is None
        }),
{
    let at = match selected {
        Some(c) => c as int,
        None => 0,
    };
    let order = choose|order: Seq<Placed<OppRow>>| #[trigger]
        is_opp_order(panels@, order) && out == (if at < order.len() {
            Some(order[at].row)
        } else {
            None
        });
    assert(is_opp_order(panels@, opps@));
    law_opp_order_is_unique(panels@, order, opps@);
    law_sorted_items(
        placed(opps_of(panels@), panels@.len() as int),
        by_profit(),
        opps@,
    );
}

} // verus!
