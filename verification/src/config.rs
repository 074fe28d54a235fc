//! Configuration, and how the program runs.

use crate::double::{Double, ZERO};
use vstd::prelude::*;

verus! {

/// The settings of a configuration file, as far as they are given.
pub struct Settings {
    pub rpc_url: String,
    pub protocol: String,
    pub poll_interval_secs: Option<u64>,
    pub min_profit_usd: Option<Double>,
    pub min_debt_usd: Option<Double>,
    pub dry_run: Option<bool>,
    pub keypair_path: Option<String>,
}

/// Configuration loaded at startup.
pub struct Config {
    /// HTTP RPC endpoint.
    pub rpc_url: String,
    /// Which lending protocol to scan (e.g. "marginfi").
    pub protocol: String,
    /// Seconds between scan passes.
    pub poll_interval_secs: u64,
    /// Minimum estimated profit (USD) before a liquidation is acted on.
    pub min_profit_usd: Double,
    /// Minimum debt (USD) before a liquidatable position is listed.
    pub min_debt_usd: Double,
    /// When true, only report opportunities; never build or send transactions.
    pub dry_run: bool,
    /// The keypair file to sign with; without one there is nothing but
    /// reports.
    pub keypair_path: Option<String>,
}

/// Seconds between scan passes where none are given.
pub fn default_interval() -> (out: u64)
    ensures
        out == 15,
{
    15
}

/// Dry runs are on where nothing is said.
pub fn default_true() -> (out: bool)
    ensures
        out == true,
{
    true
}

impl Config {
    /// Fills in what the settings leave out.
    pub fn from_settings(settings: Settings) -> (out: Config)
        ensures
            out.rpc_url == settings.rpc_url,
            out.protocol == settings.protocol,
            out.poll_interval_secs == match settings.poll_interval_secs {
                Some(secs) => secs,
                None => 15,
            },
            out.min_profit_usd == match settings.min_profit_usd {
                Some(usd) => usd,
                None => Double::of(ZERO),
            },
            out.min_debt_usd == match settings.min_debt_usd {
                Some(usd) => usd,
                None => Double::of(ZERO),
            },
            out.dry_run == match settings.dry_run {
                Some(dry_run) => dry_run,
                None => true,
            },
            out.keypair_path == settings.keypair_path,
    {
        Config {
            rpc_url: settings.rpc_url,
            protocol: settings.protocol,
            poll_interval_secs: match settings.poll_interval_secs {
                Some(secs) => secs,
                None => default_interval(),
            },
            min_profit_usd: match settings.min_profit_usd {
                Some(usd) => usd,
                None => Double::from_bits(ZERO),
            },
            min_debt_usd: match settings.min_debt_usd {
                Some(usd) => usd,
                None => Double::from_bits(ZERO),
            },
            dry_run: match settings.dry_run {
                Some(dry_run) => dry_run,
                None => default_true(),
            },
            keypair_path: settings.keypair_path,
        }
    }
}

/// What the command line asks for.
#[derive(Clone, Copy, PartialEq, Eq, Structural, Debug)]
pub struct Flags {
    /// Run one scan pass and exit.
    pub once: bool,
    /// Plain logs, no dashboard.
    pub headless: bool,
    /// Diagnose unparsed oracle accounts and exit.
    pub diagnose_oracles: bool,
}

/// What the program does after startup.
#[derive(Clone, Copy, PartialEq, Eq, Structural, Debug)]
pub enum RunMode {
    DiagnoseOracles,
    Once,
    Dashboard,
    Headless,
}

/// Whether the dashboard has the terminal to itself.
pub open spec fn owns_terminal(flags: Flags, terminal: bool) -> bool {
    !flags.once && !flags.headless && terminal
}

/// Whether the dashboard has the terminal to itself, so that logs must go to
/// a file.
pub fn dashboard_owns_terminal(flags: Flags, terminal: bool) -> (out: bool)
    ensures
        out == owns_terminal(flags, terminal),
{
    !flags.once && !flags.headless && terminal
}

/// What to do, by the flags and by whether the output is a terminal.
pub fn run_mode(flags: Flags, terminal: bool) -> (out: RunMode)
    ensures
        out == if flags.diagnose_oracles {
            RunMode::DiagnoseOracles
        } else if flags.once {
            RunMode::Once
        } else if owns_terminal(flags, terminal) {
            RunMode::Dashboard
        } else {
            RunMode::Headless
        },
{
    if flags.diagnose_oracles {
        RunMode::DiagnoseOracles
    } else if flags.once {
        RunMode::Once
    } else if dashboard_owns_terminal(flags, terminal) {
        RunMode::Dashboard
    } else {
        RunMode::Headless
    }
}

/// What the settings leave out is filled in on the safe side: dry runs are on,
/// every profit and every debt counts, and a pass comes every fifteen seconds.
/// What they give is kept.
pub proof fn law_settings_are_kept_or_filled_in(settings: Settings, out: Config)
    requires
        call_ensures(Config::from_settings, (settings,), out),
    ensures
        settings.dry_run is None ==> out.dry_run,
        settings.dry_run matches Some(dry_run) ==> out.dry_run == dry_run,
        settings.poll_interval_secs is None ==> out.poll_interval_secs == 15,
        settings.poll_interval_secs matches Some(secs) ==> out.poll_interval_secs == secs,
        settings.min_profit_usd is None ==> out.min_profit_usd == (Double { bits: 0 }),
        settings.min_profit_usd matches Some(usd) ==> out.min_profit_usd == usd,
        settings.min_debt_usd is None ==> out.min_debt_usd == (Double { bits: 0 }),
        settings.min_debt_usd matches Some(usd) ==> out.min_debt_usd == usd,
        out.rpc_url == settings.rpc_url,
        out.protocol == settings.protocol,
        out.keypair_path == settings.keypair_path,
{
}

/// A diagnosis goes before everything else, a single pass before the
/// dashboard, and the dashboard runs only on a terminal and where it was not
/// turned off. Logs leave the terminal exactly where nothing but a diagnosis
/// keeps the dashboard from running.
pub proof fn law_run_mode_follows_the_flags(
    flags: Flags,
    terminal: bool,
    mode: RunMode,
    owns: bool,
)
    requires
        call_ensures(run_mode, (flags, terminal), mode),
        call_ensures(dashboard_owns_terminal, (flags, terminal), owns),
    ensures
        mode == RunMode::DiagnoseOracles <==> flags.diagnose_oracles,
        mode == RunMode::Once <==> flags.once && !flags.diagnose_oracles,
        mode == RunMode::Dashboard <==> terminal && !flags.once && !flags.headless
            && !flags.diagnose_oracles,
        owns <==> terminal && !flags.once && !flags.headless,
{
}

} // verus!
