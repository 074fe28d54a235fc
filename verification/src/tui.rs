//! The state of the dashboard: a panel for each protocol, what arrives from
//! the scans, what the keys do, and what each part of the screen shows.

use crate::double::{law_rank_refines_order, Double};
use crate::protocol::ImplStatus;
use crate::ranking::{by_key, is_sorted_desc, law_sorted_items, sort_desc, Ranked};
use crate::scanner::{OppRow, ScanResult};
use crate::tally::{lemma_sum_same, sum};
use crate::text::same;
use crate::types::{DivergenceRow, WhaleRow};
use std::collections::VecDeque;
use vstd::prelude::*;

verus! {

/// How many totals the profit history keeps.
pub const HISTORY_KEPT: usize = 240;

/// How many accents there are for panels.
pub const ACCENTS: usize = 4;

/// What reaches the dashboard from outside.
pub enum ScanUpdate {
    Started { protocol: String },
    Done(ScanResult),
    Failed { protocol: String, err: String },
    ChainTick { slot: u64, prio: u64 },
}

#[derive(Clone, Copy, PartialEq, Eq, Structural, Debug)]
pub enum Status {
    Starting,
    Scanning,
    Idle,
    Error,
    Pending,
}

/// What the dashboard knows of one protocol. Times are in milliseconds.
pub struct Panel {
    pub title: String,
    /// Which of the accents the panel has.
    pub accent: usize,
    pub status: Status,
    pub last: Option<ScanResult>,
    pub scan_started_at: u64,
    pub last_done_at: Option<u64>,
    pub impl_status: ImplStatus,
}

/// A panel after an update at the time `now`. A protocol that is pending
/// stays so, and takes no notice of starts and failures.
pub open spec fn applied(p: Panel, u: ScanUpdate, now: u64) -> Panel {
    match u {
        ScanUpdate::Started { .. } => if p.impl_status == ImplStatus::Live {
            Panel { status: Status::Scanning, scan_started_at: now, ..p }
        } else {
            p
        },
        ScanUpdate::Done(r) => Panel {
            last: Some(r),
            last_done_at: Some(now),
            status: if p.impl_status == ImplStatus::Pending {
                Status::Pending
            } else {
                Status::Idle
            },
            ..p
        },
        ScanUpdate::Failed { .. } => if p.impl_status == ImplStatus::Live {
            Panel { status: Status::Error, last_done_at: Some(now), ..p }
        } else {
            p
        },
        ScanUpdate::ChainTick { .. } => p,
    }
}

impl Panel {
    pub fn new(title: &str, accent: usize, impl_status: ImplStatus, now: u64) -> (out: Panel)
        ensures
            out.title@ == title@,
            out.accent == accent,
            out.status == if impl_status == ImplStatus::Pending {
                Status::Pending
            } else {
                Status::Starting
            },
            out.last is None,
            out.scan_started_at == now,
            out.last_done_at is None,
            out.impl_status == impl_status,
    {
        let status: Status = if impl_status == ImplStatus::Pending {
            Status::Pending
        } else {
            Status::Starting
        };
        Panel {
            title: title.to_string(),
            accent,
            status,
            last: None,
            scan_started_at: now,
            last_done_at: None,
            impl_status,
        }
    }

    /// Takes an update in.
    pub fn apply(&mut self, u: ScanUpdate, now: u64)
        ensures
            *final(self) == applied(*old(self), u, now),
    {
        match u {
            ScanUpdate::Started { .. } => {
                if self.impl_status == ImplStatus::Live {
                    self.status = Status::Scanning;
                    self.scan_started_at = now;
                }
            },
            ScanUpdate::Done(r) => {
                self.last = Some(r);
                self.last_done_at = Some(now);
                self.status = if self.impl_status == ImplStatus::Pending {
                    Status::Pending
                } else {
                    Status::Idle
                };
            },
            ScanUpdate::Failed { .. } => {
                if self.impl_status == ImplStatus::Live {
                    self.status = Status::Error;
                    self.last_done_at = Some(now);
                }
            },
            ScanUpdate::ChainTick { .. } => {},
        }
    }

    /// Whether a scan is under way or about to be.
    pub open spec fn busy(self) -> bool {
        self.status == Status::Scanning || self.status == Status::Starting
    }

    pub fn is_busy(&self) -> (out: bool)
        ensures
            out == self.busy(),
    {
        self.status == Status::Scanning || self.status == Status::Starting
    }
}

/// Panels for scanners by name and status, the accents taken in turn.
pub fn make_panels(scanners: &Vec<(String, ImplStatus)>, now: u64) -> (out: Vec<Panel>)
    ensures
        out@.len() == scanners@.len(),
        forall|i: int|
            0 <= i < out@.len() ==> {
                let p = #[trigger] out@[i];
                &&& p.title@ == scanners@[i].0@
                &&& p.accent == i % ACCENTS as int
                &&& p.impl_status == scanners@[i].1
                &&& p.status == if p.impl_status == ImplStatus::Pending {
                    Status::Pending
                } else {
                    Status::Starting
                }
                &&& p.last is None
                &&& p.scan_started_at == now
                &&& p.last_done_at is None
            },
{
    let mut out: Vec<Panel> = Vec::with_capacity(scanners.len());
    let mut i: usize = 0;
    while i < scanners.len()
        invariant
            i <= scanners@.len(),
            out@.len() == i,
            forall|j: int|
                0 <= j < i ==> {
                    let p = #[trigger] out@[j];
                    &&& p.title@ == scanners@[j].0@
                    &&& p.accent == j % ACCENTS as int
                    &&& p.impl_status == scanners@[j].1
                    &&& p.status == if p.impl_status == ImplStatus::Pending {
                        Status::Pending
                    } else {
                        Status::Starting
                    }
                    &&& p.last is None
                    &&& p.scan_started_at == now
                    &&& p.last_done_at is None
                },
        decreases scanners@.len() - i,
    {
        out.push(Panel::new(scanners[i].0.as_str(), i % ACCENTS, scanners[i].1, now));
        i = i + 1;
    }
    out
}

/// A row and the panel that it comes from.
#[derive(Debug)]
pub struct Placed<T> {
    pub panel: usize,
    pub row: T,
}

impl<T: Copy> Clone for Placed<T> {
    fn clone(&self) -> (out: Placed<T>)
        ensures
            out == *self,
    {
        *self
    }
}

impl<T: Copy> Copy for Placed<T> {

}

impl<T: Ranked> Ranked for Placed<T> {
    open spec fn rank_key(self) -> u64 {
        self.row.rank_key()
    }

    fn key(&self) -> u64 {
        self.row.key()
    }
}

/// The rows of one panel.
pub open spec fn tagged<T>(panel: int, rows: Seq<T>) -> Seq<Placed<T>> {
    Seq::new(rows.len(), |i: int| Placed { panel: panel as usize, row: rows[i] })
}

/// The rows of the first `n` panels, panel by panel.
pub open spec fn placed<T>(rows_of: spec_fn(int) -> Seq<T>, n: int) -> Seq<Placed<T>>
    decreases n,
{
    if n <= 0 {
        Seq::empty()
    } else {
        placed(rows_of, n - 1) + tagged(n - 1, rows_of(n - 1))
    }
}

/// The opportunities of each panel.
pub open spec fn opps_of(panels: Seq<Panel>) -> spec_fn(int) -> Seq<OppRow> {
    |i: int|
        match panels[i].last {
            Some(r) => r.opportunities@,
            None => Seq::empty(),
        }
}

/// The whales of each panel.
pub open spec fn whales_of(panels: Seq<Panel>) -> spec_fn(int) -> Seq<WhaleRow> {
    |i: int|
        match panels[i].last {
            Some(r) => r.whale_watch@,
            None => Seq::empty(),
        }
}

/// The divergent mints of each panel.
pub open spec fn drifts_of(panels: Seq<Panel>) -> spec_fn(int) -> Seq<DivergenceRow> {
    |i: int|
        match panels[i].last {
            Some(r) => r.oracle_divergence@,
            None => Seq::empty(),
        }
}

pub open spec fn by_profit() -> spec_fn(Placed<OppRow>) -> u64 {
    |p: Placed<OppRow>| p.row.est_profit_usd.spec_rank()
}

pub open spec fn by_debt() -> spec_fn(Placed<WhaleRow>) -> u64 {
    |p: Placed<WhaleRow>| p.row.debt_usd.spec_rank()
}

pub open spec fn by_spread() -> spec_fn(Placed<DivergenceRow>) -> u64 {
    |p: Placed<DivergenceRow>| p.row.spread_pct.spec_rank()
}

fn place<T: Copy>(out: &mut Vec<Placed<T>>, panel: usize, rows: &Vec<T>)
    ensures
        final(out)@ == old(out)@ + tagged(panel as int, rows@),
{
    let ghost start = out@;
    let ghost all = tagged(panel as int, rows@);
    let mut i: usize = 0;
    while i < rows.len()
        invariant
            i <= rows@.len(),
            all == tagged(panel as int, rows@),
            out@ == start + all.take(i as int),
        decreases rows@.len() - i,
    {
        out.push(Placed { panel, row: rows[i] });
        assert(all.take(i + 1) =~= all.take(i as int).push(Placed { panel, row: rows@[i as int] }));
        i = i + 1;
    }
    assert(all.take(rows@.len() as int) =~= all);
}

/// All opportunities, most profitable first.
pub fn rank_opps(panels: &Vec<Panel>) -> (out: Vec<Placed<OppRow>>)
    ensures
        is_sorted_desc(placed(opps_of(panels@), panels@.len() as int), by_profit(), out@),
{
    let ghost rows_of = opps_of(panels@);
    let mut all: Vec<Placed<OppRow>> = Vec::new();
    let mut i: usize = 0;
    while i < panels.len()
        invariant
            i <= panels@.len(),
            rows_of == opps_of(panels@),
            all@ == placed(rows_of, i as int),
        decreases panels@.len() - i,
    {
        if let Some(r) = &panels[i].last {
            place(&mut all, i, &r.opportunities);
        } else {
            assert(tagged(i as int, rows_of(i as int)) =~= Seq::<Placed<OppRow>>::empty());
        }
        assert(all@ =~= placed(rows_of, i + 1));
        i = i + 1;
    }
    assert(by_key::<Placed<OppRow>>() =~= by_profit());
    sort_desc(&all)
}

/// All whales, the largest debt first.
pub fn rank_whales(panels: &Vec<Panel>) -> (out: Vec<Placed<WhaleRow>>)
    ensures
        is_sorted_desc(placed(whales_of(panels@), panels@.len() as int), by_debt(), out@),
{
    let ghost rows_of = whales_of(panels@);
    let mut all: Vec<Placed<WhaleRow>> = Vec::new();
    let mut i: usize = 0;
    while i < panels.len()
        invariant
            i <= panels@.len(),
            rows_of == whales_of(panels@),
            all@ == placed(rows_of, i as int),
        decreases panels@.len() - i,
    {
        if let Some(r) = &panels[i].last {
            place(&mut all, i, &r.whale_watch);
        } else {
            assert(tagged(i as int, rows_of(i as int)) =~= Seq::<Placed<WhaleRow>>::empty());
        }
        assert(all@ =~= placed(rows_of, i + 1));
        i = i + 1;
    }
    assert(by_key::<Placed<WhaleRow>>() =~= by_debt());
    sort_desc(&all)
}

/// All divergent mints, the widest spread first.
pub fn rank_drifts(panels: &Vec<Panel>) -> (out: Vec<Placed<DivergenceRow>>)
    ensures
        is_sorted_desc(placed(drifts_of(panels@), panels@.len() as int), by_spread(), out@),
{
    let ghost rows_of = drifts_of(panels@);
    let mut all: Vec<Placed<DivergenceRow>> = Vec::new();
    let mut i: usize = 0;
    while i < panels.len()
        invariant
            i <= panels@.len(),
            rows_of == drifts_of(panels@),
            all@ == placed(rows_of, i as int),
        decreases panels@.len() - i,
    {
        if let Some(r) = &panels[i].last {
            place(&mut all, i, &r.oracle_divergence);
        } else {
            assert(tagged(i as int, rows_of(i as int)) =~= Seq::<Placed<DivergenceRow>>::empty());
        }
        assert(all@ =~= placed(rows_of, i + 1));
        i = i + 1;
    }
    assert(by_key::<Placed<DivergenceRow>>() =~= by_spread());
    sort_desc(&all)
}

/// A key that was pressed.
#[derive(Clone, Copy, PartialEq, Eq, Structural, Debug)]
pub enum Key {
    Letter(char),
    Esc,
    Down,
    Up,
    Other,
}

/// The dashboard.
pub struct App {
    pub panels: Vec<Panel>,
    /// Which of the opportunities is selected.
    pub selected: Option<usize>,
    pub profit_history: VecDeque<Double>,
    pub poll_interval_secs: u64,
    pub should_quit: bool,
    pub tick: u64,
    pub chain_slot: u64,
    pub chain_priority_fee: u64,
}

/// The protocol that an update is about.
pub open spec fn target_of(u: ScanUpdate) -> Option<Seq<char>> {
    match u {
        ScanUpdate::Started { protocol } => Some(protocol@),
        ScanUpdate::Done(r) => Some(r.protocol_name@),
        ScanUpdate::Failed { protocol, .. } => Some(protocol@),
        ScanUpdate::ChainTick { .. } => None,
    }
}

/// Whether the panel at `k` is the first with this title.
pub open spec fn is_target(panels: Seq<Panel>, title: Seq<char>, k: int) -> bool {
    &&& 0 <= k < panels.len()
    &&& panels[k].title@ == title
    &&& forall|j: int| 0 <= j < k ==> (#[trigger] panels[j]).title@ != title
}

/// A history with one more value, the oldest dropped when it is full.
pub open spec fn recorded(history: Seq<Double>, v: Double) -> Seq<Double> {
    if history.len() + 1 > HISTORY_KEPT {
        history.push(v).skip(1)
    } else {
        history.push(v)
    }
}

/// The history after an update.
pub open spec fn history_after(history: Seq<Double>, u: ScanUpdate) -> Seq<Double> {
    match u {
        ScanUpdate::Done(r) => recorded(history, r.total_profit_usd),
        _ => history,
    }
}

/// Where the selection stands after a key, among `n` opportunities.
pub open spec fn selected_after(selected: Option<usize>, key: Key, n: int) -> Option<usize> {
    let at = match selected {
        Some(c) => c as int,
        None => 0,
    };
    match key {
        Key::Down | Key::Letter('j') => if n > 0 {
            Some(
                (if at + 1 <= n - 1 {
                    at + 1
                } else {
                    n - 1
                }) as usize,
            )
        } else {
            selected
        },
        Key::Up | Key::Letter('k') => Some(
            (if at > 0 {
                at - 1
            } else {
                0
            }) as usize,
        ),
        _ => selected,
    }
}

/// Whether a key ends the program.
pub open spec fn quits(key: Key, ctrl: bool) -> bool {
    key == Key::Esc || key == Key::Letter('q') || (key == Key::Letter('c') && ctrl)
}

impl App {
    pub fn new(panels: Vec<Panel>, poll_interval_secs: u64) -> (out: App)
        ensures
            out.panels == panels,
            out.selected is None,
            out.profit_history@ == Seq::<Double>::empty(),
            out.poll_interval_secs == poll_interval_secs,
            !out.should_quit,
            out.tick == 0,
            out.chain_slot == 0,
            out.chain_priority_fee == 0,
    {
        App {
            panels,
            selected: None,
            profit_history: VecDeque::new(),
            poll_interval_secs,
            should_quit: false,
            tick: 0,
            chain_slot: 0,
            chain_priority_fee: 0,
        }
    }

    fn find_panel(&self, title: &str) -> (out: Option<usize>)
        ensures
            match out {
                Some(k) => is_target(self.panels@, title@, k as int),
                None => forall|k: int| !is_target(self.panels@, title@, k),
            },
    {
        let mut i: usize = 0;
        while i < self.panels.len()
            invariant
                i <= self.panels@.len(),
                forall|j: int| 0 <= j < i ==> (#[trigger] self.panels@[j]).title@ != title@,
            decreases self.panels@.len() - i,
        {
            if same(self.panels[i].title.as_str(), title) {
                return Some(i);
            }
            i = i + 1;
        }
        None
    }

    /// Takes an update in: chain figures go to the dashboard itself, a total
    /// into the history, and what a protocol reports to the first panel with
    /// its name.
    pub fn route(&mut self, u: ScanUpdate, now: u64)
        ensures
            final(self).selected == old(self).selected,
            final(self).poll_interval_secs == old(self).poll_interval_secs,
            final(self).should_quit == old(self).should_quit,
            final(self).tick == old(self).tick,
            match u {
                ScanUpdate::ChainTick { slot, prio } => {
                    &&& final(self).chain_slot == slot
                    &&& final(self).chain_priority_fee == prio
                },
                _ => {
                    &&& final(self).chain_slot == old(self).chain_slot
                    &&& final(self).chain_priority_fee == old(self).chain_priority_fee
                },
            },
            final(self).profit_history@ == history_after(old(self).profit_history@, u),
            final(self).panels@.len() == old(self).panels@.len(),
            forall|i: int|
                0 <= i < old(self).panels@.len() ==> #[trigger] final(self).panels@[i] == if (
                target_of(u) matches Some(title) && is_target(old(self).panels@, title, i)) {
                    applied(old(self).panels@[i], u, now)
                } else {
                    old(self).panels@[i]
                },
    {
        let target: String = match &u {
            ScanUpdate::Started { protocol } => protocol.clone(),
            ScanUpdate::Done(r) => r.protocol_name.clone(),
            ScanUpdate::Failed { protocol, .. } => protocol.clone(),
            ScanUpdate::ChainTick { slot, prio } => {
                self.chain_slot = *slot;
                self.chain_priority_fee = *prio;
                return;
            },
        };
        if let ScanUpdate::Done(r) = &u {
            self.profit_history.push_back(r.total_profit_usd);
            if self.profit_history.len() > HISTORY_KEPT {
                self.profit_history.pop_front();
            }
        }
        assert(self.profit_history@ =~= history_after(old(self).profit_history@, u));
        match self.find_panel(target.as_str()) {
            Some(k) => {
                let ghost before = self.panels@;
                assert(forall|j: int| is_target(before, target@, j) ==> j == k);
                self.panels[k].apply(u, now);
            },
            None => {},
        }
    }

    /// Whether any scan is under way.
    pub fn any_scanning(&self) -> (out: bool)
        ensures
            out == exists|i: int|
                0 <= i < self.panels@.len() && (#[trigger] self.panels@[i]).busy(),
    {
        let mut i: usize = 0;
        while i < self.panels.len()
            invariant
                i <= self.panels@.len(),
                forall|j: int| 0 <= j < i ==> !(#[trigger] self.panels@[j]).busy(),
            decreases self.panels@.len() - i,
        {
            if self.panels[i].is_busy() {
                return true;
            }
            i = i + 1;
        }
        false
    }

    pub fn current_slot(&self) -> (out: u64)
        ensures
            out == self.chain_slot,
    {
        self.chain_slot
    }

    pub fn priority_fee(&self) -> (out: u64)
        ensures
            out == self.chain_priority_fee,
    {
        self.chain_priority_fee
    }

    /// The opportunities of all protocols, most profitable first.
    pub fn all_opps(&self) -> (out: Vec<Placed<OppRow>>)
        ensures
            is_sorted_desc(
                placed(opps_of(self.panels@), self.panels@.len() as int),
                by_profit(),
                out@,
            ),
    {
        rank_opps(&self.panels)
    }

    /// One frame further.
    pub fn advance(&mut self)
        ensures
            final(self).tick == old(self).tick.wrapping_add(1),
            final(self).panels == old(self).panels,
            final(self).selected == old(self).selected,
            final(self).profit_history == old(self).profit_history,
            final(self).poll_interval_secs == old(self).poll_interval_secs,
            final(self).should_quit == old(self).should_quit,
            final(self).chain_slot == old(self).chain_slot,
            final(self).chain_priority_fee == old(self).chain_priority_fee,
    {
        self.tick = self.tick.wrapping_add(1);
    }

    /// Does what a key asks for; only a key that goes down counts.
    pub fn on_key(&mut self, key: Key, ctrl: bool, pressed: bool)
        ensures
            final(self).should_quit == (old(self).should_quit || (pressed && quits(key, ctrl))),
            final(self).selected == if pressed {
                selected_after(
                    old(self).selected,
                    key,
                    placed(opps_of(old(self).panels@), old(self).panels@.len() as int).len() as int,
                )
            } else {
                old(self).selected
            },
            final(self).panels == old(self).panels,
            final(self).profit_history == old(self).profit_history,
            final(self).poll_interval_secs == old(self).poll_interval_secs,
            final(self).tick == old(self).tick,
            final(self).chain_slot == old(self).chain_slot,
            final(self).chain_priority_fee == old(self).chain_priority_fee,
    {
        if !pressed {
            return;
        }
        let at: usize = match self.selected {
            Some(c) => c,
            None => 0,
        };
        match key {
            Key::Letter('q') | Key::Esc => {
                self.should_quit = true;
            },
            Key::Letter('c') => {
                if ctrl {
                    self.should_quit = true;
                }
            },
            Key::Down | Key::Letter('j') => {
                let n: usize = self.all_opps().len();
                if n > 0 {
                    self.selected = Some(if at < n - 1 {
                        at + 1
                    } else {
                        n - 1
                    });
                }
            },
            Key::Up | Key::Letter('k') => {
                self.selected = Some(if at > 0 {
                    at - 1
                } else {
                    0
                });
            },
            _ => {},
        }
    }
}

/// Every update reaches at most one panel.
pub proof fn law_update_reaches_one_panel(panels: Seq<Panel>, title: Seq<char>, j: int, k: int)
    requires
        is_target(panels, title, j),
        is_target(panels, title, k),
    ensures
        j == k,
{
}

/// A panel keeps its title, its accent and its implementation status, and the
/// panel of a protocol that is pending stays pending, whatever arrives.
pub proof fn law_panel_keeps_its_place(p: Panel, u: ScanUpdate, now: u64)
    ensures
        applied(p, u, now).title == p.title,
        applied(p, u, now).accent == p.accent,
        applied(p, u, now).impl_status == p.impl_status,
        p.impl_status == ImplStatus::Pending && p.status == Status::Pending ==> applied(
            p,
            u,
            now,
        ).status == Status::Pending,
        p.last is Some ==> applied(p, u, now).last is Some,
{
}

/// The profit history never outgrows what is kept, and its newest entry is
/// the newest total.
pub proof fn law_history_is_bounded(history: Seq<Double>, v: Double)
    requires
        history.len() <= HISTORY_KEPT,
    ensures
        recorded(history, v).len() <= HISTORY_KEPT,
        recorded(history, v).last() == v,
{
}

/// Moving down lands on an opportunity, moving up never goes further down.
pub proof fn law_selection_stays_in_table(selected: Option<usize>, n: int)
    requires
        0 < n <= usize::MAX,
    ensures
        selected_after(selected, Key::Down, n) matches Some(c) && c < n,
        selected matches Some(c) ==> (selected_after(selected, Key::Up, n) matches Some(d) && d
            <= c),
{
}

/// What an update does to a panel. A start sets a live protocol scanning from
/// now; a result is kept, with the time, and leaves a live protocol idle and a
/// pending one pending; a failure leaves a live protocol in error and keeps its
/// last result; a pending protocol takes no notice of starts and failures, and
/// the chain is no panel's business.
pub proof fn law_update_changes_the_panel(p: Panel, u: ScanUpdate, now: u64)
    ensures
        ({
            let q = applied(p, u, now);
            let live = p.impl_status == ImplStatus::Live;
            match u {
                ScanUpdate::Started { .. } => {
                    &&& live ==> q.status == Status::Scanning && q.scan_started_at == now
                    &&& !live ==> q == p
                    &&& q.last == p.last
                    &&& q.last_done_at == p.last_done_at
                },
                ScanUpdate::Done(r) => {
                    &&& q.last == Some(r)
                    &&& q.last_done_at == Some(now)
                    &&& q.status == if live {
                        Status::Idle
                    } else {
                        Status::Pending
                    }
                    &&& q.scan_started_at == p.scan_started_at
                },
                ScanUpdate::Failed { .. } => {
                    &&& live ==> q.status == Status::Error && q.last_done_at == Some(now)
                    &&& !live ==> q == p
                    &&& q.last == p.last
                    &&& q.scan_started_at == p.scan_started_at
                },
                ScanUpdate::ChainTick { .. } => q == p,
            }
        }),
{
}

/// A panel is busy exactly while it starts or scans.
pub proof fn law_busy_means_starting_or_scanning(p: Panel)
    ensures
        p.busy() <==> match p.status {
            Status::Starting | Status::Scanning => true,
            Status::Idle | Status::Error | Status::Pending => false,
        },
{
}

/// The history holds the newest totals, no more than 240 of them, in the order
/// in which they came; only a result adds to it.
pub proof fn law_history_holds_the_newest_totals(history: Seq<Double>, u: ScanUpdate)
    requires
        history.len() <= 240,
    ensures
        ({
            let after = history_after(history, u);
            match u {
                ScanUpdate::Done(r) => {
                    &&& after.len() == (if history.len() < 240 {
                        history.len() + 1
                    } else {
                        240
                    })
                    &&& after.last() == r.total_profit_usd
                    &&& forall|i: int|
                        1 <= i < after.len() ==> #[trigger] after[after.len() - 1 - i]
                            == history[history.len() - i]
                },
                _ => after == history,
            }
        }),
{
}

/// What the keys do to the selection among `n` opportunities: down goes one
/// further but not past the last, up one back but not before the first, with
/// nothing selected as with the first; `j` and `k` do the same, and no other
/// key moves it. Without opportunities down does nothing.
pub proof fn law_keys_move_the_selection(selected: Option<usize>, key: Key, n: int)
    requires
        0 <= n <= usize::MAX,
    ensures
        ({
            let at = match selected {
                Some(c) => c as int,
                None => 0,
            };
            let after = selected_after(selected, key, n);
            match key {
                Key::Down => {
                    &&& n == 0 ==> after == selected
                    &&& at + 1 < n ==> after == Some((at + 1) as usize)
                    &&& 0 < n <= at + 1 ==> after == Some((n - 1) as usize)
                },
                Key::Up => {
                    &&& at > 0 ==> after == Some((at - 1) as usize)
                    &&& at == 0 ==> after == Some(0usize)
                },
                Key::Letter(c) => {
                    &&& c == 'j' ==> after == selected_after(selected, Key::Down, n)
                    &&& c == 'k' ==> after == selected_after(selected, Key::Up, n)
                    &&& c != 'j' && c != 'k' ==> after == selected
                },
                Key::Esc | Key::Other => after == selected,
            }
        }),
{
}

/// Escape, `q`, and `c` with control end the program, and nothing else does.
pub proof fn law_quitting_keys(key: Key, ctrl: bool)
    ensures
        quits(key, ctrl) <==> match key {
            Key::Esc => true,
            Key::Letter(c) => c == 'q' || (c == 'c' && ctrl),
            Key::Down | Key::Up | Key::Other => false,
        },
{
}

/// The rows of all panels together: every row of a panel is there with the
/// panel it comes from, and there is no other; they are as many as the panels
/// have together.
pub proof fn law_placed_holds_the_rows_of_all_panels<T>(rows_of: spec_fn(int) -> Seq<T>, n: int)
    requires
        0 <= n <= usize::MAX,
    ensures
        forall|p: int, k: int|
            0 <= p < n && 0 <= k < rows_of(p).len() ==> placed(rows_of, n).contains(
                Placed { panel: p as usize, row: #[trigger] rows_of(p)[k] },
            ),
        forall|x: Placed<T>| #[trigger]
            placed(rows_of, n).contains(x) ==> x.panel < n && rows_of(x.panel as int).contains(
                x.row,
            ),
        placed(rows_of, n).len() == sum(|p: int| rows_of(p).len(), n),
    decreases n,
{
    if n > 0 {
        let before = placed(rows_of, n - 1);
        let more = tagged(n - 1, rows_of(n - 1));
        let all = placed(rows_of, n);
        law_placed_holds_the_rows_of_all_panels(rows_of, n - 1);
        lemma_sum_same(|p: int| rows_of(p).len(), |p: int| rows_of(p).len(), n - 1);
        assert forall|p: int, k: int|
            0 <= p < n && 0 <= k < rows_of(p).len() implies all.contains(
            Placed { panel: p as usize, row: #[trigger] rows_of(p)[k] },
        ) by {
            let x = Placed { panel: p as usize, row: rows_of(p)[k] };
            if p < n - 1 {
                assert(before.contains(x));
                let i = choose|i: int| 0 <= i < before.len() && before[i] == x;
                assert(all[i] == x);
            } else {
                assert(more[k] == x);
                assert(all[before.len() + k] == x);
            }
        }
        assert forall|x: Placed<T>| #[trigger] all.contains(x) implies x.panel < n && rows_of(
            x.panel as int,
        ).contains(x.row) by {
            let i = choose|i: int| 0 <= i < all.len() && all[i] == x;
            if i < before.len() {
                assert(before[i] == x);
                assert(before.contains(x));
            } else {
                assert(more[i - before.len()] == x);
                assert(rows_of(n - 1)[i - before.len()] == x.row);
            }
        }
    }
}

/// The tables of all protocols show the rows of the last results: the more
/// profitable opportunities, the larger debts and the wider spreads first.
pub proof fn law_tables_rank_the_last_results(
    panels: Vec<Panel>,
    opps: Vec<Placed<OppRow>>,
    whales: Vec<Placed<WhaleRow>>,
    drifts: Vec<Placed<DivergenceRow>>,
)
    requires
        call_ensures(rank_opps, (&panels,), opps),
        call_ensures(rank_whales, (&panels,), whales),
        call_ensures(rank_drifts, (&panels,), drifts),
    ensures
        forall|p: int, r: OppRow|
            0 <= p < panels@.len() && panels@[p].last is Some
                && #[trigger] panels@[p].last->0.opportunities@.contains(r) ==> opps@.contains(
                Placed { panel: p as usize, row: r },
            ),
        forall|p: int, r: WhaleRow|
            0 <= p < panels@.len() && panels@[p].last is Some
                && #[trigger] panels@[p].last->0.whale_watch@.contains(r) ==> whales@.contains(
                Placed { panel: p as usize, row: r },
            ),
        forall|p: int, r: DivergenceRow|
            0 <= p < panels@.len() && panels@[p].last is Some
                && #[trigger] panels@[p].last->0.oracle_divergence@.contains(r) ==> drifts@.contains(
                Placed { panel: p as usize, row: r },
            ),
        forall|i: int, j: int|
            0 <= i < j < opps@.len() ==> !(#[trigger] opps@[i]).row.est_profit_usd.lt(
                (#[trigger] opps@[j]).row.est_profit_usd,
            ),
        forall|i: int, j: int|
            0 <= i < j < whales@.len() ==> !(#[trigger] whales@[i]).row.debt_usd.lt(
                (#[trigger] whales@[j]).row.debt_usd,
            ),
        forall|i: int, j: int|
            0 <= i < j < drifts@.len() ==> !(#[trigger] drifts@[i]).row.spread_pct.lt(
                (#[trigger] drifts@[j]).row.spread_pct,
            ),
        opps@.len() == sum(
            |p: int|
                match panels@[p].last {
                    Some(r) => r.opportunities@.len(),
                    None => 0,
                },
            panels@.len() as int,
        ),
{
    let n = panels.len() as int;
    assert(n == panels@.len());
    let a = opps_of(panels@);
    let b = whales_of(panels@);
    let c = drifts_of(panels@);
    law_placed_holds_the_rows_of_all_panels(a, n);
    law_placed_holds_the_rows_of_all_panels(b, n);
    law_placed_holds_the_rows_of_all_panels(c, n);
    law_sorted_items(placed(a, n), by_profit(), opps@);
    law_sorted_items(placed(b, n), by_debt(), whales@);
    law_sorted_items(placed(c, n), by_spread(), drifts@);
    assert forall|p: int, r: OppRow|
        0 <= p < n && panels@[p].last is Some
                && #[trigger] panels@[p].last->0.opportunities@.contains(r) implies opps@.contains(
        Placed { panel: p as usize, row: r },
    ) by {
        let rows = a(p);
        let k = choose|k: int| 0 <= k < rows.len() && rows[k] == r;
        assert(placed(a, n).contains(Placed { panel: p as usize, row: a(p)[k] }));
    }
    assert forall|p: int, r: WhaleRow|
        0 <= p < n && panels@[p].last is Some
                && #[trigger] panels@[p].last->0.whale_watch@.contains(r) implies whales@.contains(
        Placed { panel: p as usize, row: r },
    ) by {
        let rows = b(p);
        let k = choose|k: int| 0 <= k < rows.len() && rows[k] == r;
        assert(placed(b, n).contains(Placed { panel: p as usize, row: b(p)[k] }));
    }
    assert forall|p: int, r: DivergenceRow|
        0 <= p < n && panels@[p].last is Some
                && #[trigger] panels@[p].last->0.oracle_divergence@.contains(r) implies drifts@.contains(
        Placed { panel: p as usize, row: r },
    ) by {
        let rows = c(p);
        let k = choose|k: int| 0 <= k < rows.len() && rows[k] == r;
        assert(placed(c, n).contains(Placed { panel: p as usize, row: c(p)[k] }));
    }
    assert forall|i: int, j: int| 0 <= i < j < opps@.len() implies !(
    #[trigger] opps@[i]).row.est_profit_usd.lt((#[trigger] opps@[j]).row.est_profit_usd) by {
        assert((by_profit())(opps@[i]) >= (by_profit())(opps@[j]));
        law_rank_refines_order(opps@[i].row.est_profit_usd, opps@[j].row.est_profit_usd);
    }
    assert forall|i: int, j: int| 0 <= i < j < whales@.len() implies !(
    #[trigger] whales@[i]).row.debt_usd.lt((#[trigger] whales@[j]).row.debt_usd) by {
        assert((by_debt())(whales@[i]) >= (by_debt())(whales@[j]));
        law_rank_refines_order(whales@[i].row.debt_usd, whales@[j].row.debt_usd);
    }
    assert forall|i: int, j: int| 0 <= i < j < drifts@.len() implies !(
    #[trigger] drifts@[i]).row.spread_pct.lt((#[trigger] drifts@[j]).row.spread_pct) by {
        assert((by_spread())(drifts@[i]) >= (by_spread())(drifts@[j]));
        law_rank_refines_order(drifts@[i].row.spread_pct, drifts@[j].row.spread_pct);
    }
    lemma_sum_same(
        |p: int| a(p).len(),
        |p: int|
            match panels@[p].last {
                Some(r) => r.opportunities@.len(),
                None => 0,
            },
        n,
    );
}

/// A new panel has no result yet and waits for its first scan, unless its
/// protocol is pending.
pub proof fn law_new_panel_awaits_its_first_scan(
    title: &str,
    accent: usize,
    impl_status: ImplStatus,
    now: u64,
    out: Panel,
)
    requires
        call_ensures(Panel::new, (title, accent, impl_status, now), out),
    ensures
        out.title@ == title@,
        out.accent == accent,
        out.impl_status == impl_status,
        out.last is None,
        out.last_done_at is None,
        out.scan_started_at == now,
        out.busy() <==> impl_status == ImplStatus::Live,
        !out.busy() ==> out.status == Status::Pending,
{
}

/// A key that goes down does what it stands for, one that goes up nothing: the
/// program ends on escape, on `q` and on `c` with control; down and `j` go to
/// the next of the opportunities, up and `k` to the one before.
pub proof fn law_keys_do_what_they_stand_for(app: &mut App, key: Key, ctrl: bool, pressed: bool)
    requires
        call_ensures(App::on_key, (app, key, ctrl, pressed), ()),
    ensures
        !pressed ==> final(app).selected == old(app).selected && final(app).should_quit
            == old(app).should_quit,
        old(app).should_quit ==> final(app).should_quit,
        pressed && (key == Key::Esc || key == Key::Letter('q') || (key == Key::Letter('c') && ctrl))
            ==> final(app).should_quit,
        final(app).should_quit && !old(app).should_quit ==> key == Key::Esc || key == Key::Letter(
            'q',
        ) || (key == Key::Letter('c') && ctrl),
        ({
            let n = sum(
                |p: int|
                    match old(app).panels@[p].last {
                        Some(r) => r.opportunities@.len(),
                        None => 0,
                    },
                old(app).panels@.len() as int,
            );
            let down = key == Key::Down || key == Key::Letter('j');
            let up = key == Key::Up || key == Key::Letter('k');
            let at = match old(app).selected {
                Some(c) => c as int,
                None => 0,
            };
            &&& pressed && down && at + 1 < n ==> final(app).selected == Some((at + 1) as usize)
            &&& pressed && down && 0 < n <= at + 1 ==> final(app).selected == Some((n - 1) as usize)
            &&& pressed && up && at > 0 ==> final(app).selected == Some((at - 1) as usize)
            &&& pressed && up && at == 0 ==> final(app).selected == Some(0usize)
            &&& !up && (!down || n == 0) ==> final(app).selected == old(app).selected
        }),
        final(app).panels == old(app).panels,
{
    let panels = old(app).panels@;
    let rows_of = opps_of(panels);
    let n = panels.len() as int;
    assert(old(app).panels.len() == n);
    law_placed_holds_the_rows_of_all_panels(rows_of, n);
    lemma_sum_same(
        |p: int| rows_of(p).len(),
        |p: int|
            match panels[p].last {
                Some(r) => r.opportunities@.len(),
                None => 0,
            },
        n,
    );
}

/// A result of a scan reaches the first panel with the name of its protocol,
/// and its total the history; the other panels, the selection and the chain
/// figures stay as they are.
pub proof fn law_result_reaches_its_panel(app: &mut App, r: ScanResult, now: u64, k: int)
    requires
        call_ensures(App::route, (app, ScanUpdate::Done(r), now), ()),
        0 <= k < old(app).panels@.len(),
        old(app).profit_history@.len() <= 240,
    ensures
        final(app).panels@.len() == old(app).panels@.len(),
        ({
            let named = old(app).panels@[k].title@ == r.protocol_name@ && forall|j: int|
                0 <= j < k ==> (#[trigger] old(app).panels@[j]).title@ != r.protocol_name@;
            &&& named ==> final(app).panels@[k].last == Some(r) && final(app).panels@[k].last_done_at == Some(now)
            &&& !named ==> final(app).panels@[k] == old(app).panels@[k]
        }),
        final(app).profit_history@.last() == r.total_profit_usd,
        final(app).profit_history@.len() == (if old(app).profit_history@.len() < 240 {
            old(app).profit_history@.len() + 1
        } else {
            240
        }),
        final(app).selected == old(app).selected,
        final(app).should_quit == old(app).should_quit,
        final(app).chain_slot == old(app).chain_slot,
        final(app).chain_priority_fee == old(app).chain_priority_fee,
{
    law_history_holds_the_newest_totals(old(app).profit_history@, ScanUpdate::Done(r));
    assert(final(app).panels@[k] == final(app).panels@[k]);
}

/// A start or a failure reaches the first panel with the name of its protocol,
/// where that is live, and nothing else.
pub proof fn law_start_or_failure_reaches_its_panel(
    app: &mut App,
    u: ScanUpdate,
    protocol: String,
    now: u64,
    k: int,
)
    requires
        call_ensures(App::route, (app, u, now), ()),
        (u matches ScanUpdate::Started { protocol: p } && p == protocol) || (
        u matches ScanUpdate::Failed { protocol: p, .. } && p == protocol),
        0 <= k < old(app).panels@.len(),
    ensures
        ({
            let before = old(app).panels@[k];
            let after = final(app).panels@[k];
            let named = before.title@ == protocol@ && forall|j: int|
                0 <= j < k ==> (#[trigger] old(app).panels@[j]).title@ != protocol@;
            let live = before.impl_status == ImplStatus::Live;
            &&& named && live && u is Started ==> after.status == Status::Scanning
                && after.scan_started_at == now
            &&& named && live && u is Failed ==> after.status == Status::Error && after.last_done_at
                == Some(now)
            &&& !(named && live) ==> after == before
            &&& after.last == before.last
        }),
        final(app).profit_history@ == old(app).profit_history@,
        final(app).selected == old(app).selected,
        final(app).chain_slot == old(app).chain_slot,
{
    assert(final(app).panels@[k] == final(app).panels@[k]);
}

/// Chain figures go to the dashboard itself and change nothing else.
pub proof fn law_chain_figures_reach_the_dashboard(app: &mut App, slot: u64, prio: u64, now: u64)
    requires
        call_ensures(App::route, (app, ScanUpdate::ChainTick { slot, prio }, now), ()),
    ensures
        final(app).chain_slot == slot,
        final(app).chain_priority_fee == prio,
        final(app).panels@ == old(app).panels@,
        final(app).profit_history@ == old(app).profit_history@,
        final(app).selected == old(app).selected,
{
    assert(final(app).panels@ =~= old(app).panels@);
}

/// There is a panel for each scanner, in their order, and four accents that are
/// taken in turn; some scan is under way exactly while some panel starts or
/// scans.
pub proof fn law_panels_are_those_of_the_scanners(
    scanners: Vec<(String, ImplStatus)>,
    now: u64,
    panels: Vec<Panel>,
    app: App,
    scanning: bool,
)
    requires
        call_ensures(make_panels, (&scanners, now), panels),
        call_ensures(App::any_scanning, (&app,), scanning),
    ensures
        panels@.len() == scanners@.len(),
        forall|i: int|
            0 <= i < panels@.len() ==> {
                &&& (#[trigger] panels@[i]).title@ == scanners@[i].0@
                &&& panels@[i].accent == i % 4
                &&& panels@[i].impl_status == scanners@[i].1
                &&& panels@[i].last is None
                &&& panels@[i].busy() <==> scanners@[i].1 == ImplStatus::Live
            },
        scanning <==> exists|i: int|
            0 <= i < app.panels@.len() && ((#[trigger] app.panels@[i]).status == Status::Starting
                || app.panels@[i].status == Status::Scanning),
{
    if scanning {
        let i = choose|i: int| 0 <= i < app.panels@.len() && (#[trigger] app.panels@[i]).busy();
        assert(app.panels@[i].status == Status::Starting || app.panels@[i].status
            == Status::Scanning);
    }
}

} // verus!
