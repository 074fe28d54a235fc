//! Multi-format on-chain oracle price reader.
//!
//! Banks reference several oracle account formats. The reader tries each
//! known format in turn, guarded so one format's bytes are not misread as
//! another's, and reports coverage so gaps are visible rather than silent.
//!
//! A price is read as the integers that the account holds. Where a format's
//! plausibility range is a range of doubles, the bounds below are the
//! integers at which the quotient, in doubles, enters and leaves it.

use crate::bytes::{
    field, i128_at, i128_spec_at, i32_at, i64_at, le_at, lemma_byte_caps, lemma_le_value_fits,
    lemma_reads_signed, lemma_reads_unsigned, lemma_widths, stores, twos, u32_at,
};
use crate::keymap::PubkeyMap;
use crate::pubkey::Pubkey;
use crate::ranking::{
    arrange, is_ranking, is_sorted_desc, law_sorted_items, law_sorting_keeps_items_apart, rank_desc,
};
use crate::tally::{count, law_count_of_items, lemma_count_fits};
use vstd::arithmetic::power::pow;
use vstd::prelude::*;

verus! {

/// The oracle account formats that can be read.
#[derive(Clone, Copy, PartialEq, Eq, Structural, Debug)]
pub enum OracleFormat {
    PythPull,
    PythLegacy,
    SwitchboardV2,
    SwitchboardOnDemand,
}

/// A price: `mantissa * 10^exponent` dollars.
#[derive(Clone, Copy, PartialEq, Eq, Structural, Debug)]
pub struct OraclePrice {
    pub format: OracleFormat,
    pub mantissa: i128,
    pub exponent: i32,
}

/// Why an account is no price of a format, or of any.
#[derive(Clone, Copy, PartialEq, Eq, Structural, Debug)]
pub enum OracleError {
    NotPriceUpdate,
    ImplausiblePull,
    LegacyTooShort,
    BadMagic,
    ImplausibleLegacy,
    NotAggregator,
    ImplausibleScale,
    ImplausibleV2,
    NotOnDemand,
    NoOnDemandPrice,
    ImplausibleOnDemand,
    UnknownFormat { len: usize },
}

pub type Reading = Result<OraclePrice, OracleError>;

const PULL_PRICE: usize = 73;
const PULL_EXPO: usize = 89;
const PULL_MIN_LEN: usize = 93;
/// PriceUpdateV2 accounts are small (~134 bytes); this size guard cleanly
/// separates them from the multi-kilobyte Switchboard accounts.
const PULL_MAX_LEN: usize = 512;

const LEGACY_MAGIC: u32 = 0xa1b2c3d4;
const LEGACY_EXPO: usize = 20;
const LEGACY_PRICE: usize = 208;
const LEGACY_MIN_LEN: usize = 216;

/// The mantissa offset is an estimate, not verified against a dumped account.
/// The plausibility guard means a wrong offset is rejected, never trusted as
/// a price.
const V2_MANTISSA: usize = 1880;
const V2_SCALE: usize = 1896;
const V2_MAX_SCALE: u32 = 30;

const ON_DEMAND_VALUE: usize = 2412;

/// Both Switchboard accounts are at least this long.
const SWITCHBOARD_MIN_LEN: usize = 3000;

/// The least on-demand value whose quotient by 1e18, in doubles, is at least
/// 0.0001.
pub const ON_DEMAND_LOW: i128 = 100_000_000_000_000;
/// The greatest on-demand value whose quotient by 1e18, in doubles, is at most
/// 1e6.
pub const ON_DEMAND_HIGH: i128 = 1_000_000_000_000_000_050_331_648;

/// By scale, the least mantissa whose quotient by 10^scale, in doubles, is at
/// least 0.0001.
/// For scales above 22 the power of ten is itself no double: the entries there
/// rest on how `f64::powi` rounds it, which std leaves open.
pub const V2_LOW: [i128; 31] = [
    1,
    1,
    1,
    1,
    1,
    10,
    100,
    1_000,
    10_000,
    100_000,
    1_000_000,
    10_000_000,
    100_000_000,
    1_000_000_000,
    10_000_000_000,
    100_000_000_000,
    1_000_000_000_000,
    10_000_000_000_000,
    100_000_000_000_000,
    1_000_000_000_000_000,
    9_999_999_999_999_999,
    99_999_999_999_999_992,
    999_999_999_999_999_936,
    9_999_999_999_999_998_976,
    99_999_999_999_999_991_808,
    1_000_000_000_000_000_065_537,
    10_000_000_000_000_001_048_577,
    100_000_000_000_000_000_000_001,
    999_999_999_999_999_916_113_920,
    9_999_999_999_999_999_832_227_841,
    99_999_999_999_999_996_174_794_753,
];

/// By scale, the greatest mantissa whose quotient by 10^scale, in doubles, is at
/// most 1e6.
/// For scales above 22 the power of ten is itself no double: the entries there
/// rest on how `f64::powi` rounds it, which std leaves open.
pub const V2_HIGH: [i128; 31] = [
    1_000_000,
    10_000_000,
    100_000_000,
    1_000_000_000,
    10_000_000_000,
    100_000_000_000,
    1_000_000_000_000,
    10_000_000_000_000,
    100_000_000_000_000,
    1_000_000_000_000_000,
    10_000_000_000_000_001,
    100_000_000_000_000_008,
    1_000_000_000_000_000_064,
    10_000_000_000_000_001_024,
    100_000_000_000_000_008_192,
    1_000_000_000_000_000_065_536,
    10_000_000_000_000_001_048_576,
    100_000_000_000_000_000_000_000,
    1_000_000_000_000_000_050_331_648,
    9_999_999_999_999_999_832_227_840,
    100_000_000_000_000_013_354_663_935,
    1_000_000_000_000_000_082_007_031_808,
    10_000_000_000_000_000_682_631_364_607,
    100_000_000_000_000_000_229_243_879_423,
    1_000_000_000_000_000_090_253_369_016_320,
    10_000_000_000_000_001_324_746_155_229_183,
    100_000_000_000_000_014_373_361_459_134_463,
    1_000_000_000_000_000_017_632_825_024_970_752,
    10_000_000_000_000_000_032_213_062_173_851_647,
    100_000_000_000_000_006_086_738_144_772_751_360,
    1_000_000_000_000_000_116_207_613_668_856_168_447,
];

/// What a Pyth Pull `PriceUpdateV2` account says. After the 8-byte
/// discriminator: 32 bytes of write authority, 1 of verification level, then
/// the message (32 feed id, 8 price, 8 confidence, 4 exponent).
pub open spec fn pyth_pull(data: Seq<u8>) -> Reading {
    let price = twos(le_at(data, 73, 8), 0x1_0000_0000_0000_0000);
    let expo = twos(le_at(data, 89, 4), 0x1_0000_0000);
    if !(93 <= data.len() <= 512) {
        Err(OracleError::NotPriceUpdate)
    } else if price <= 0 || !(-12 <= expo <= 0) {
        Err(OracleError::ImplausiblePull)
    } else {
        Ok(
            OraclePrice {
                format: OracleFormat::PythPull,
                mantissa: price as i128,
                exponent: expo as i32,
            },
        )
    }
}

/// What a classic Pyth price account says: magic number at 0, exponent at 20,
/// aggregate price at 208.
pub open spec fn pyth_legacy(data: Seq<u8>) -> Reading {
    let price = twos(le_at(data, 208, 8), 0x1_0000_0000_0000_0000);
    let expo = twos(le_at(data, 20, 4), 0x1_0000_0000);
    if data.len() < 216 {
        Err(OracleError::LegacyTooShort)
    } else if le_at(data, 0, 4) != 0xa1b2c3d4 {
        Err(OracleError::BadMagic)
    } else if price <= 0 || !(-12 <= expo <= 0) {
        Err(OracleError::ImplausibleLegacy)
    } else {
        Ok(
            OraclePrice {
                format: OracleFormat::PythLegacy,
                mantissa: price as i128,
                exponent: expo as i32,
            },
        )
    }
}

/// What a Switchboard V2 aggregator says: its latest value is a mantissa and
/// a scale.
pub open spec fn switchboard_v2(data: Seq<u8>) -> Reading {
    let mantissa = i128_spec_at(data, 1880);
    let scale = le_at(data, 1896, 4) as int;
    if data.len() < 3000 {
        Err(OracleError::NotAggregator)
    } else if scale > 30 {
        Err(OracleError::ImplausibleScale)
    } else if !(V2_LOW@[scale] <= mantissa <= V2_HIGH@[scale]) {
        Err(OracleError::ImplausibleV2)
    } else {
        Ok(
            OraclePrice {
                format: OracleFormat::SwitchboardV2,
                mantissa: mantissa as i128,
                exponent: (-scale) as i32,
            },
        )
    }
}

/// What a Switchboard on-demand feed says: a value with 18 decimals.
pub open spec fn switchboard_ondemand(data: Seq<u8>) -> Reading {
    let raw = i128_spec_at(data, 2412);
    if data.len() < 3000 {
        Err(OracleError::NotOnDemand)
    } else if raw <= 0 {
        Err(OracleError::NoOnDemandPrice)
    } else if !(ON_DEMAND_LOW <= raw <= ON_DEMAND_HIGH) {
        Err(OracleError::ImplausibleOnDemand)
    } else {
        Ok(
            OraclePrice {
                format: OracleFormat::SwitchboardOnDemand,
                mantissa: raw as i128,
                exponent: (-18) as i32,
            },
        )
    }
}

/// What an oracle account says: the first format that it can be read as.
pub open spec fn oracle_reading(data: Seq<u8>) -> Reading {
    if pyth_pull(data) is Ok {
        pyth_pull(data)
    } else if pyth_legacy(data) is Ok {
        pyth_legacy(data)
    } else if switchboard_v2(data) is Ok {
        switchboard_v2(data)
    } else if switchboard_ondemand(data) is Ok {
        switchboard_ondemand(data)
    } else {
        Err(OracleError::UnknownFormat { len: data.len() as usize })
    }
}

impl OracleFormat {
    pub open spec fn spec_name(self) -> Seq<char> {
        match self {
            OracleFormat::PythPull => "pyth-pull"@,
            OracleFormat::PythLegacy => "pyth-legacy"@,
            OracleFormat::SwitchboardV2 => "switchboard-v2"@,
            OracleFormat::SwitchboardOnDemand => "switchboard-od"@,
        }
    }

    /// The name of the format in reports.
    pub fn name(&self) -> (out: &'static str)
        ensures
            out@ == self.spec_name(),
    {
        match self {
            OracleFormat::PythPull => "pyth-pull",
            OracleFormat::PythLegacy => "pyth-legacy",
            OracleFormat::SwitchboardV2 => "switchboard-v2",
            OracleFormat::SwitchboardOnDemand => "switchboard-od",
        }
    }
}

/// Reads a Pyth Pull account.
pub fn parse_pyth_pull(data: &[u8]) -> (out: Reading)
    ensures
        out == pyth_pull(data@),
{
    if data.len() < PULL_MIN_LEN || data.len() > PULL_MAX_LEN {
        return Err(OracleError::NotPriceUpdate);
    }
    match (i64_at(data, PULL_PRICE), i32_at(data, PULL_EXPO)) {
        (Ok(price), Ok(expo)) => {
            if price <= 0 || expo < -12 || expo > 0 {
                Err(OracleError::ImplausiblePull)
            } else {
                Ok(
                    OraclePrice {
                        format: OracleFormat::PythPull,
                        mantissa: price as i128,
                        exponent: expo,
                    },
                )
            }
        },
        _ => Err(OracleError::NotPriceUpdate),
    }
}

/// Reads a classic Pyth price account.
pub fn parse_pyth_legacy(data: &[u8]) -> (out: Reading)
    ensures
        out == pyth_legacy(data@),
{
    if data.len() < LEGACY_MIN_LEN {
        return Err(OracleError::LegacyTooShort);
    }
    match (u32_at(data, 0), i32_at(data, LEGACY_EXPO), i64_at(data, LEGACY_PRICE)) {
        (Ok(magic), Ok(expo), Ok(price)) => {
            if magic != LEGACY_MAGIC {
                Err(OracleError::BadMagic)
            } else if price <= 0 || expo < -12 || expo > 0 {
                Err(OracleError::ImplausibleLegacy)
            } else {
                Ok(
                    OraclePrice {
                        format: OracleFormat::PythLegacy,
                        mantissa: price as i128,
                        exponent: expo,
                    },
                )
            }
        },
        _ => Err(OracleError::LegacyTooShort),
    }
}

/// Reads a Switchboard V2 aggregator.
pub fn parse_switchboard_v2(data: &[u8]) -> (out: Reading)
    ensures
        out == switchboard_v2(data@),
{
    if data.len() < SWITCHBOARD_MIN_LEN {
        return Err(OracleError::NotAggregator);
    }
    match (i128_at(data, V2_MANTISSA), u32_at(data, V2_SCALE)) {
        (Ok(mantissa), Ok(scale)) => {
            if scale > V2_MAX_SCALE {
                Err(OracleError::ImplausibleScale)
            } else if mantissa < V2_LOW[scale as usize] || mantissa > V2_HIGH[scale as usize] {
                Err(OracleError::ImplausibleV2)
            } else {
                Ok(
                    OraclePrice {
                        format: OracleFormat::SwitchboardV2,
                        mantissa,
                        exponent: -(scale as i32),
                    },
                )
            }
        },
        _ => Err(OracleError::NotAggregator),
    }
}

/// Reads a Switchboard on-demand feed.
pub fn parse_switchboard_ondemand(data: &[u8]) -> (out: Reading)
    ensures
        out == switchboard_ondemand(data@),
{
    if data.len() < SWITCHBOARD_MIN_LEN {
        return Err(OracleError::NotOnDemand);
    }
    match i128_at(data, ON_DEMAND_VALUE) {
        Ok(raw) => {
            if raw <= 0 {
                Err(OracleError::NoOnDemandPrice)
            } else if raw < ON_DEMAND_LOW || raw > ON_DEMAND_HIGH {
                Err(OracleError::ImplausibleOnDemand)
            } else {
                Ok(
                    OraclePrice {
                        format: OracleFormat::SwitchboardOnDemand,
                        mantissa: raw,
                        exponent: -18,
                    },
                )
            }
        },
        Err(_) => Err(OracleError::NotOnDemand),
    }
}

/// Tries each known oracle format.
pub fn parse_oracle(data: &[u8]) -> (out: Reading)
    ensures
        out == oracle_reading(data@),
{
    let pull: Reading = parse_pyth_pull(data);
    if pull.is_ok() {
        return pull;
    }
    let legacy: Reading = parse_pyth_legacy(data);
    if legacy.is_ok() {
        return legacy;
    }
    let v2: Reading = parse_switchboard_v2(data);
    if v2.is_ok() {
        return v2;
    }
    let ondemand: Reading = parse_switchboard_ondemand(data);
    if ondemand.is_ok() {
        return ondemand;
    }
    Err(OracleError::UnknownFormat { len: data.len() })
}

/// An oracle's address and its account's data, if the account exists.
pub type Fetched = (Pubkey, Option<Vec<u8>>);

/// What a fetched account says, if it exists.
pub open spec fn said(account: Fetched) -> Option<Reading> {
    match account.1 {
        None => None,
        Some(data) => Some(oracle_reading(data@)),
    }
}

/// Whether the account is a price of the given format.
pub open spec fn parsed_as(account: Fetched, format: OracleFormat) -> bool {
    said(account) matches Some(Ok(p)) && p.format == format
}

pub open spec fn is_missing(account: Fetched) -> bool {
    account.1 is None
}

/// Whether the account exists and has no known format.
pub open spec fn is_unparsed(account: Fetched) -> bool {
    said(account) matches Some(Err(_))
}

/// Whether the account is unparsed and `size` bytes long.
pub open spec fn unparsed_of(account: Fetched, size: usize) -> bool {
    is_unparsed(account) && account.1->0@.len() == size
}

/// The prices that the first `n` accounts give, a later account of the same
/// address replacing an earlier one.
pub open spec fn prices_of(accounts: Seq<Fetched>, n: int) -> Map<Pubkey, OraclePrice>
    decreases n,
{
    if n <= 0 {
        Map::empty()
    } else {
        match said(accounts[n - 1]) {
            Some(Ok(p)) => prices_of(accounts, n - 1).insert(accounts[n - 1].0, p),
            _ => prices_of(accounts, n - 1),
        }
    }
}

/// How many accounts were read by each format.
#[derive(Clone, Copy, PartialEq, Eq, Structural, Debug)]
pub struct FormatCounts {
    pub pyth_pull: usize,
    pub pyth_legacy: usize,
    pub switchboard_v2: usize,
    pub switchboard_ondemand: usize,
}

/// The unparsed accounts of one size. A cluster at one size is one oracle
/// format waiting for a parser.
#[derive(Clone, Copy, PartialEq, Eq, Structural, Debug)]
pub struct UnparsedGroup {
    pub size: usize,
    pub count: usize,
    /// Which of the accounts was the first of this size.
    pub first: usize,
    /// The address of that account.
    pub example: Pubkey,
}

/// The outcome of one round of oracle reads.
pub struct PriceCoverage {
    pub prices: PubkeyMap<OraclePrice>,
    pub by_format: FormatCounts,
    pub failed: usize,
    pub missing: usize,
    /// The unparsed accounts by size, largest group first, no more than
    /// `GROUPS_REPORTED` groups.
    pub unparsed: Vec<UnparsedGroup>,
}

/// How many groups of unparsed accounts a round of reads reports.
pub const GROUPS_REPORTED: usize = 5;

/// Whether `g` is the group of its size among the first `n` accounts.
pub open spec fn is_group(accounts: Seq<Fetched>, n: int, g: UnparsedGroup) -> bool {
    &&& g.count == count(|i: int| unparsed_of(accounts[i], g.size), n)
    &&& g.first < n
    &&& unparsed_of(accounts[g.first as int], g.size)
    &&& forall|i: int| 0 <= i < g.first ==> !unparsed_of(#[trigger] accounts[i], g.size)
    &&& g.example == accounts[g.first as int].0
}

/// Whether `groups` are the unparsed accounts among the first `n`, by size,
/// in the order in which the sizes first occur.
pub open spec fn are_groups(accounts: Seq<Fetched>, n: int, groups: Seq<UnparsedGroup>) -> bool {
    &&& forall|g: int| 0 <= g < groups.len() ==> is_group(accounts, n, #[trigger] groups[g])
    &&& forall|g: int, h: int|
        0 <= g < h < groups.len() ==> (#[trigger] groups[g]).first < (#[trigger] groups[h]).first
    &&& forall|i: int|
        0 <= i < n && is_unparsed(#[trigger] accounts[i]) ==> has_size(
            groups,
            accounts[i].1->0@.len() as usize,
        )
}

pub open spec fn has_size(groups: Seq<UnparsedGroup>, size: usize) -> bool {
    exists|g: int| 0 <= g < groups.len() && (#[trigger] groups[g]).size == size
}

/// The groups, largest first.
pub open spec fn are_ranked_groups(accounts: Seq<Fetched>, out: Seq<UnparsedGroup>) -> bool {
    exists|groups: Seq<UnparsedGroup>| #[trigger]
        are_groups(accounts, accounts.len() as int, groups) && is_sorted_desc(
            groups,
            |g: UnparsedGroup| g.count as u64,
            out,
        )
}

/// The largest groups, largest first.
pub open spec fn are_top_groups(accounts: Seq<Fetched>, out: Seq<UnparsedGroup>) -> bool {
    exists|ranked: Seq<UnparsedGroup>| #[trigger]
        are_ranked_groups(accounts, ranked) && out == if ranked.len() <= GROUPS_REPORTED {
            ranked
        } else {
            ranked.take(GROUPS_REPORTED as int)
        }
}

proof fn lemma_group_extends(accounts: Seq<Fetched>, n: int, g: UnparsedGroup)
    requires
        0 <= n < accounts.len(),
        is_group(accounts, n, g),
        !unparsed_of(accounts[n], g.size),
    ensures
        is_group(accounts, n + 1, g),
{
}

/// Groups the unparsed accounts by size.
fn group_unparsed(accounts: &Vec<Fetched>) -> (out: Vec<UnparsedGroup>)
    ensures
        are_groups(accounts@, accounts@.len() as int, out@),
{
    let mut groups: Vec<UnparsedGroup> = Vec::new();
    let mut n: usize = 0;
    while n < accounts.len()
        invariant
            n <= accounts@.len(),
            are_groups(accounts@, n as int, groups@),
        decreases accounts@.len() - n,
    {
        let ghost before = groups@;
        let account = &accounts[n];
        let mut size: Option<usize> = None;
        if let Some(data) = &account.1 {
            if parse_oracle(data.as_slice()).is_err() {
                size = Some(data.len());
            }
        }
        match size {
            None => {
                proof {
                    assert(!is_unparsed(accounts@[n as int]));
                    assert forall|g: int| 0 <= g < groups@.len() implies is_group(
                        accounts@,
                        n + 1,
                        #[trigger] groups@[g],
                    ) by {
                        lemma_group_extends(accounts@, n as int, groups@[g]);
                    }
                }
            },
            Some(size) => {
                let mut at: usize = 0;
                while at < groups.len() && groups[at].size != size
                    invariant
                        at <= groups@.len(),
                        forall|g: int| 0 <= g < at ==> (#[trigger] groups@[g]).size != size,
                    decreases groups@.len() - at,
                {
                    at = at + 1;
                }
                if at < groups.len() {
                    let old_group: UnparsedGroup = groups[at];
                    proof {
                        lemma_count_fits(
                            |i: int| unparsed_of(accounts@[i], size),
                            n as int,
                        );
                        assert(is_group(accounts@, n as int, before[at as int]));
                    }
                    groups.set(
                        at,
                        UnparsedGroup {
                            size,
                            count: old_group.count + 1,
                            first: old_group.first,
                            example: old_group.example,
                        },
                    );
                    proof {
                        assert forall|g: int| 0 <= g < groups@.len() implies is_group(
                            accounts@,
                            n + 1,
                            #[trigger] groups@[g],
                        ) by {
                            assert(is_group(accounts@, n as int, before[g]));
                            if g != at {
                                if before[g].size == size {
                                    assert(is_group(accounts@, n as int, before[at as int]));
                                    if g < at {
                                        assert(before[g].first < before[at as int].first);
                                    } else {
                                        assert(before[at as int].first < before[g].first);
                                    }
                                    let first = before[at as int].first as int;
                                    assert(unparsed_of(accounts@[first], size));
                                    assert(unparsed_of(accounts@[before[g].first as int], size));
                                }
                                lemma_group_extends(accounts@, n as int, before[g]);
                            }
                        }
                        assert forall|i: int| 0 <= i < n + 1 && is_unparsed(
                            #[trigger] accounts@[i],
                        ) implies has_size(groups@, accounts@[i].1->0@.len() as usize) by {
                            if i < n {
                                assert(has_size(before, accounts@[i].1->0@.len() as usize));
                                let g = choose|g: int|
                                    0 <= g < before.len() && (#[trigger] before[g]).size
                                        == accounts@[i].1->0@.len() as usize;
                                assert(groups@[g].size == before[g].size);
                            } else {
                                assert(groups@[at as int].size == size);
                            }
                        }
                    }
                } else {
                    proof {
                        assert forall|i: int| 0 <= i < n implies !unparsed_of(
                            #[trigger] accounts@[i],
                            size,
                        ) by {
                            if unparsed_of(accounts@[i], size) {
                                assert(has_size(before, accounts@[i].1->0@.len() as usize));
                            }
                        }
                        lemma_none(|i: int| unparsed_of(accounts@[i], size), n as int);
                    }
                    groups.push(
                        UnparsedGroup { size, count: 1, first: n, example: account.0 },
                    );
                    proof {
                        assert forall|g: int| 0 <= g < groups@.len() implies is_group(
                            accounts@,
                            n + 1,
                            #[trigger] groups@[g],
                        ) by {
                            if g < before.len() {
                                assert(is_group(accounts@, n as int, before[g]));
                                lemma_group_extends(accounts@, n as int, before[g]);
                            }
                        }
                        assert forall|g: int, h: int| 0 <= g < h < groups@.len() implies (
                        #[trigger] groups@[g]).first < (#[trigger] groups@[h]).first by {
                            assert(is_group(accounts@, n as int, before[g]));
                            if h < before.len() {
                                assert(before[g].first < before[h].first);
                            }
                        }
                        assert forall|i: int| 0 <= i < n + 1 && is_unparsed(
                            #[trigger] accounts@[i],
                        ) implies has_size(groups@, accounts@[i].1->0@.len() as usize) by {
                            if i < n {
                                assert(has_size(before, accounts@[i].1->0@.len() as usize));
                                let g = choose|g: int|
                                    0 <= g < before.len() && (#[trigger] before[g]).size
                                        == accounts@[i].1->0@.len() as usize;
                                assert(groups@[g] == before[g]);
                            } else {
                                assert(groups@[before.len() as int].size == size);
                            }
                        }
                    }
                }
            },
        }
        n = n + 1;
    }
    groups
}

proof fn lemma_none(p: spec_fn(int) -> bool, n: int)
    requires
        forall|i: int| 0 <= i < n ==> !#[trigger] p(i),
    ensures
        count(p, n) == 0,
    decreases n,
{
    if n > 0 {
        lemma_none(p, n - 1);
    }
}

/// The unparsed accounts by size, largest group first.
fn rank_unparsed(accounts: &Vec<Fetched>) -> (out: Vec<UnparsedGroup>)
    ensures
        are_ranked_groups(accounts@, out@),
{
    let groups: Vec<UnparsedGroup> = group_unparsed(accounts);
    let mut keys: Vec<u64> = Vec::new();
    let mut i: usize = 0;
    while i < groups.len()
        invariant
            i <= groups@.len(),
            keys@.len() == i,
            forall|j: int| 0 <= j < i ==> keys@[j] == (#[trigger] groups@[j]).count as u64,
        decreases groups@.len() - i,
    {
        keys.push(groups[i].count as u64);
        i = i + 1;
    }
    let order: Vec<usize> = rank_desc(&keys);
    let out: Vec<UnparsedGroup> = arrange(&groups, &order);
    proof {
        let key = |g: UnparsedGroup| g.count as u64;
        assert(groups@.map_values(key) =~= keys@);
        assert(is_ranking(groups@.map_values(key), order@));
        assert(is_sorted_desc(groups@, key, out@));
    }
    out
}

/// Whether `out` is what the fetched accounts give.
pub open spec fn is_coverage(out: PriceCoverage, accounts: Seq<Fetched>) -> bool {
    let n = accounts.len() as int;
    &&& out.prices@ == prices_of(accounts, n)
    &&& out.by_format.pyth_pull == count(
        |i: int| parsed_as(accounts[i], OracleFormat::PythPull),
        n,
    )
    &&& out.by_format.pyth_legacy == count(
        |i: int| parsed_as(accounts[i], OracleFormat::PythLegacy),
        n,
    )
    &&& out.by_format.switchboard_v2 == count(
        |i: int| parsed_as(accounts[i], OracleFormat::SwitchboardV2),
        n,
    )
    &&& out.by_format.switchboard_ondemand == count(
        |i: int| parsed_as(accounts[i], OracleFormat::SwitchboardOnDemand),
        n,
    )
    &&& out.failed == count(|i: int| is_unparsed(accounts[i]), n)
    &&& out.missing == count(|i: int| is_missing(accounts[i]), n)
    &&& are_top_groups(accounts, out.unparsed@)
}

/// Reads oracle accounts.
pub struct OracleClient;

impl OracleClient {
    pub fn new() -> (out: OracleClient)
        ensures
            out == OracleClient,
    {
        OracleClient
    }

    /// The prices that the fetched accounts give, and how far they reach.
    pub fn get_prices(&self, accounts: &Vec<Fetched>) -> (out: PriceCoverage)
        ensures
            is_coverage(out, accounts@),
    {
        let mut prices: PubkeyMap<OraclePrice> = PubkeyMap::new();
        let mut by_format: FormatCounts = FormatCounts {
            pyth_pull: 0,
            pyth_legacy: 0,
            switchboard_v2: 0,
            switchboard_ondemand: 0,
        };
        let mut failed: usize = 0;
        let mut missing: usize = 0;
        let ghost pull = |i: int| parsed_as(accounts@[i], OracleFormat::PythPull);
        let ghost legacy = |i: int| parsed_as(accounts@[i], OracleFormat::PythLegacy);
        let ghost v2 = |i: int| parsed_as(accounts@[i], OracleFormat::SwitchboardV2);
        let ghost ondemand = |i: int| parsed_as(accounts@[i], OracleFormat::SwitchboardOnDemand);
        let ghost bad = |i: int| is_unparsed(accounts@[i]);
        let ghost gone = |i: int| is_missing(accounts@[i]);
        let mut n: usize = 0;
        while n < accounts.len()
            invariant
                n <= accounts@.len(),
                prices@ == prices_of(accounts@, n as int),
                by_format.pyth_pull == count(pull, n as int),
                by_format.pyth_legacy == count(legacy, n as int),
                by_format.switchboard_v2 == count(v2, n as int),
                by_format.switchboard_ondemand == count(ondemand, n as int),
                failed == count(bad, n as int),
                missing == count(gone, n as int),
                pull == (|i: int| parsed_as(accounts@[i], OracleFormat::PythPull)),
                legacy == (|i: int| parsed_as(accounts@[i], OracleFormat::PythLegacy)),
                v2 == (|i: int| parsed_as(accounts@[i], OracleFormat::SwitchboardV2)),
                ondemand == (|i: int| parsed_as(accounts@[i], OracleFormat::SwitchboardOnDemand)),
                bad == (|i: int| is_unparsed(accounts@[i])),
                gone == (|i: int| is_missing(accounts@[i])),
            decreases accounts@.len() - n,
        {
            proof {
                lemma_count_fits(pull, n as int);
                lemma_count_fits(legacy, n as int);
                lemma_count_fits(v2, n as int);
                lemma_count_fits(ondemand, n as int);
                lemma_count_fits(bad, n as int);
                lemma_count_fits(gone, n as int);
            }
            let account = &accounts[n];
            match &account.1 {
                None => {
                    missing = missing + 1;
                },
                Some(data) => {
                    match parse_oracle(data.as_slice()) {
                        Ok(price) => {
                            prices.insert(account.0, price);
                            match price.format {
                                OracleFormat::PythPull => {
                                    by_format.pyth_pull = by_format.pyth_pull + 1;
                                },
                                OracleFormat::PythLegacy => {
                                    by_format.pyth_legacy = by_format.pyth_legacy + 1;
                                },
                                OracleFormat::SwitchboardV2 => {
                                    by_format.switchboard_v2 = by_format.switchboard_v2 + 1;
                                },
                                OracleFormat::SwitchboardOnDemand => {
                                    by_format.switchboard_ondemand = by_format.switchboard_ondemand
                                        + 1;
                                },
                            }
                        },
                        Err(_) => {
                            failed = failed + 1;
                        },
                    }
                },
            }
            n = n + 1;
        }
        let mut unparsed: Vec<UnparsedGroup> = rank_unparsed(accounts);
        let ghost ranked = unparsed@;
        unparsed.truncate(GROUPS_REPORTED);
        assert(unparsed@ =~= if ranked.len() <= 5 {
            ranked
        } else {
            ranked.take(5)
        });
        PriceCoverage { prices, by_format, failed, missing, unparsed }
    }

    /// The accounts that exist and have no known format, by size, largest
    /// group first.
    pub fn diagnose(&self, accounts: &Vec<Fetched>) -> (out: Vec<UnparsedGroup>)
        ensures
            are_ranked_groups(accounts@, out@),
    {
        rank_unparsed(accounts)
    }
}

/// Whether the bounds for a scale are those of a ten-thousandth of a dollar and
/// of a million dollars, but for one part in 10^15.
spec fn is_bounded(scale: int) -> bool {
    let unit = pow(10, scale as nat);
    &&& V2_LOW@[scale] >= 1
    &&& 1_000_000_000_000_000 * (10_000 * V2_LOW@[scale]) >= 999_999_999_999_999 * unit
    &&& 1_000_000_000_000_000 * (10_000 * (V2_LOW@[scale] - 1)) < 1_000_000_000_000_001 * unit
    &&& 1_000_000_000_000_000 * V2_HIGH@[scale] <= 1_000_000_000_000_001 * (1_000_000 * unit)
    &&& 1_000_000_000_000_000 * (V2_HIGH@[scale] + 1) > 999_999_999_999_999 * (1_000_000 * unit)
}

/// The powers of ten that a scale can stand for.
#[verifier::spinoff_prover]
proof fn lemma_powers_of_ten()
    ensures
        pow(10, 0) == 1,
        pow(10, 1) == 10,
        pow(10, 2) == 100,
        pow(10, 3) == 1_000,
        pow(10, 4) == 10_000,
        pow(10, 5) == 100_000,
        pow(10, 6) == 1_000_000,
        pow(10, 7) == 10_000_000,
        pow(10, 8) == 100_000_000,
        pow(10, 9) == 1_000_000_000,
        pow(10, 10) == 10_000_000_000,
        pow(10, 11) == 100_000_000_000,
        pow(10, 12) == 1_000_000_000_000,
        pow(10, 13) == 10_000_000_000_000,
        pow(10, 14) == 100_000_000_000_000,
        pow(10, 15) == 1_000_000_000_000_000,
        pow(10, 16) == 10_000_000_000_000_000,
        pow(10, 17) == 100_000_000_000_000_000,
        pow(10, 18) == 1_000_000_000_000_000_000,
        pow(10, 19) == 10_000_000_000_000_000_000,
        pow(10, 20) == 100_000_000_000_000_000_000,
        pow(10, 21) == 1_000_000_000_000_000_000_000,
        pow(10, 22) == 10_000_000_000_000_000_000_000,
        pow(10, 23) == 100_000_000_000_000_000_000_000,
        pow(10, 24) == 1_000_000_000_000_000_000_000_000,
        pow(10, 25) == 10_000_000_000_000_000_000_000_000,
        pow(10, 26) == 100_000_000_000_000_000_000_000_000,
        pow(10, 27) == 1_000_000_000_000_000_000_000_000_000,
        pow(10, 28) == 10_000_000_000_000_000_000_000_000_000,
        pow(10, 29) == 100_000_000_000_000_000_000_000_000_000,
        pow(10, 30) == 1_000_000_000_000_000_000_000_000_000_000,
{
    reveal_with_fuel(pow, 31);
}

#[verifier::spinoff_prover]
proof fn lemma_v2_bounds(scale: int)
    requires
        0 <= scale <= 30,
    ensures
        is_bounded(scale),
{
    lemma_powers_of_ten();
    assert(is_bounded(0) && is_bounded(1) && is_bounded(2) && is_bounded(3) && is_bounded(4)
        && is_bounded(5) && is_bounded(6) && is_bounded(7) && is_bounded(8) && is_bounded(9)
        && is_bounded(10) && is_bounded(11) && is_bounded(12) && is_bounded(13) && is_bounded(14)
        && is_bounded(15) && is_bounded(16) && is_bounded(17) && is_bounded(18) && is_bounded(19)
        && is_bounded(20) && is_bounded(21) && is_bounded(22) && is_bounded(23) && is_bounded(24)
        && is_bounded(25) && is_bounded(26) && is_bounded(27) && is_bounded(28) && is_bounded(29)
        && is_bounded(30));
}

/// Whatever the bytes of an account, a price that is read from them is above
/// zero and has at most 30 decimals.
pub proof fn law_prices_are_positive(data: Seq<u8>)
    ensures
        oracle_reading(data) matches Ok(p) ==> p.mantissa > 0 && -30 <= p.exponent <= 0,
{
    let scale = le_at(data, 1896, 4) as int;
    if scale <= 30 {
        lemma_v2_bounds(scale);
    }
    if data.len() >= 3000 {
        lemma_le_value_fits(field(data, 1896, 4));
        lemma_le_value_fits(field(data, 1880, 16));
        lemma_le_value_fits(field(data, 2412, 16));
    }
    if 93 <= data.len() {
        lemma_le_value_fits(field(data, 73, 8));
        lemma_le_value_fits(field(data, 89, 4));
    }
    if 216 <= data.len() {
        lemma_le_value_fits(field(data, 208, 8));
        lemma_le_value_fits(field(data, 20, 4));
    }
    lemma_byte_caps();
}

/// One format's bytes are not misread as another's: small accounts are never
/// read as Switchboard, and Switchboard accounts never as Pyth Pull.
pub proof fn law_sizes_tell_formats_apart(data: Seq<u8>)
    ensures
        oracle_reading(data) matches Ok(p) ==> match p.format {
            OracleFormat::PythPull => 93 <= data.len() <= 512,
            OracleFormat::PythLegacy => 216 <= data.len() && le_at(data, 0, 4) == 0xa1b2c3d4,
            OracleFormat::SwitchboardV2 => 3000 <= data.len(),
            OracleFormat::SwitchboardOnDemand => 3000 <= data.len(),
        },
{
}

/// Every fetched account is missing, unparsed, or a price of one format.
pub proof fn law_accounts_are_accounted_for(accounts: Seq<Fetched>, n: int)
    requires
        0 <= n,
    ensures
        count(|i: int| parsed_as(accounts[i], OracleFormat::PythPull), n) + count(
            |i: int| parsed_as(accounts[i], OracleFormat::PythLegacy),
            n,
        ) + count(|i: int| parsed_as(accounts[i], OracleFormat::SwitchboardV2), n) + count(
            |i: int| parsed_as(accounts[i], OracleFormat::SwitchboardOnDemand),
            n,
        ) + count(|i: int| is_unparsed(accounts[i]), n) + count(
            |i: int| is_missing(accounts[i]),
            n,
        ) == n,
    decreases n,
{
    if n > 0 {
        law_accounts_are_accounted_for(accounts, n - 1);
        match said(accounts[n - 1]) {
            Some(Ok(p)) => {
                assert(parsed_as(accounts[n - 1], p.format));
            },
            _ => {},
        }
    }
}

/// The price kept for an oracle is what one of its fetched accounts says.
pub proof fn law_prices_come_from_accounts(accounts: Seq<Fetched>, n: int, k: Pubkey)
    requires
        prices_of(accounts, n).contains_key(k),
    ensures
        exists|i: int|
            0 <= i < n && (#[trigger] accounts[i]).0 == k && said(accounts[i]) == Some(
                Ok::<OraclePrice, OracleError>(prices_of(accounts, n)[k]),
            ),
    decreases n,
{
    if n > 0 {
        if said(accounts[n - 1]) matches Some(Ok(_)) && accounts[n - 1].0 == k {
            assert(accounts[n - 1].0 == k);
        } else {
            law_prices_come_from_accounts(accounts, n - 1, k);
        }
    }
}

/// Every account that can be read puts a price to its oracle.
pub proof fn law_parsed_accounts_have_prices(accounts: Seq<Fetched>, n: int, i: int)
    requires
        0 <= i < n,
        said(accounts[i]) matches Some(Ok(_)),
    ensures
        prices_of(accounts, n).contains_key(accounts[i].0),
    decreases n,
{
    if i < n - 1 {
        law_parsed_accounts_have_prices(accounts, n - 1, i);
    }
}

/// A Switchboard price is plausible: between a ten-thousandth of a dollar and
/// a million dollars, but for one part in 10^15.
pub proof fn law_switchboard_prices_are_plausible(data: Seq<u8>)
    ensures
        oracle_reading(data) matches Ok(p) ==> (p.format == OracleFormat::SwitchboardV2 || p.format
            == OracleFormat::SwitchboardOnDemand) ==> {
            let unit = pow(10, (-p.exponent) as nat);
            &&& 1_000_000_000_000_000 * (10_000 * p.mantissa) >= 999_999_999_999_999 * unit
            &&& 1_000_000_000_000_000 * p.mantissa <= 1_000_000_000_000_001 * (1_000_000 * unit)
        },
{
    lemma_v2_bounds(18);
    let scale = le_at(data, 1896, 4) as int;
    if scale <= 30 {
        lemma_v2_bounds(scale);
    }
    if data.len() >= 3000 {
        lemma_le_value_fits(field(data, 1896, 4));
        lemma_le_value_fits(field(data, 1880, 16));
        lemma_le_value_fits(field(data, 2412, 16));
    }
    lemma_byte_caps();
}

/// A Pyth Pull account that stores the price `p` at 73 and the exponent `e` at
/// 89 reads as `p * 10^e`, where the price is above zero and the exponent from
/// -12 to 0, and as no price otherwise. Accounts of another size are none.
pub proof fn law_pyth_pull_reads_what_is_stored(data: Seq<u8>, p: int, e: int)
    requires
        stores(data, 73, 8, p),
        i64::MIN <= p <= i64::MAX,
        stores(data, 89, 4, e),
        i32::MIN <= e <= i32::MAX,
    ensures
        pyth_pull(data) == if data.len() > 512 {
            Err(OracleError::NotPriceUpdate)
        } else if p > 0 && -12 <= e && e <= 0 {
            Ok(
                OraclePrice {
                    format: OracleFormat::PythPull,
                    mantissa: p as i128,
                    exponent: e as i32,
                },
            )
        } else {
            Err(OracleError::ImplausiblePull)
        },
        data.len() <= 512 && p > 0 && -12 <= e && e <= 0 ==> oracle_reading(data) == pyth_pull(
            data,
        ),
{
    lemma_reads_signed(data, 73, p);
    lemma_reads_signed(data, 89, e);
}

/// Of two Pyth Pull accounts that store the same price, the one whose exponent
/// is one higher reads as ten times as much.
pub proof fn law_pyth_pull_exponent_is_a_power_of_ten(
    data: Seq<u8>,
    other: Seq<u8>,
    p: int,
    e: int,
)
    requires
        data.len() <= 512,
        other.len() <= 512,
        0 < p <= i64::MAX,
        -12 <= e < 0,
        stores(data, 73, 8, p),
        stores(data, 89, 4, e),
        stores(other, 73, 8, p),
        stores(other, 89, 4, e + 1),
    ensures
        oracle_reading(data) matches Ok(low) && (oracle_reading(other) matches Ok(high) && 10
            * low.mantissa * pow(10, (12 + low.exponent) as nat) == high.mantissa * pow(
            10,
            (12 + high.exponent) as nat,
        )),
{
    law_pyth_pull_reads_what_is_stored(data, p, e);
    law_pyth_pull_reads_what_is_stored(other, p, e + 1);
    reveal(pow);
    let unit = pow(10, (12 + e) as nat);
    assert(pow(10, (13 + e) as nat) == 10 * unit);
    assert(10 * p * unit == p * (10 * unit)) by (nonlinear_arith);
}

/// A classic Pyth account that stores the magic number `magic` at 0, the
/// exponent `e` at 20 and the price `p` at 208 reads as `p * 10^e`, where the
/// magic number is Pyth's, the price above zero and the exponent from -12 to
/// 0, and as no price otherwise.
pub proof fn law_pyth_legacy_reads_what_is_stored(data: Seq<u8>, magic: int, p: int, e: int)
    requires
        stores(data, 0, 4, magic),
        0 <= magic <= u32::MAX,
        stores(data, 208, 8, p),
        i64::MIN <= p <= i64::MAX,
        stores(data, 20, 4, e),
        i32::MIN <= e <= i32::MAX,
    ensures
        pyth_legacy(data) == if magic != 2_712_847_316 {
            Err(OracleError::BadMagic)
        } else if p > 0 && -12 <= e && e <= 0 {
            Ok(
                OraclePrice {
                    format: OracleFormat::PythLegacy,
                    mantissa: p as i128,
                    exponent: e as i32,
                },
            )
        } else {
            Err(OracleError::ImplausibleLegacy)
        },
{
    lemma_widths();
    lemma_reads_unsigned(data, 0, 4, magic);
    lemma_reads_signed(data, 208, p);
    lemma_reads_signed(data, 20, e);
}

/// A Switchboard V2 aggregator that stores the mantissa `m` at 1880 and the
/// scale `s` at 1896 reads as `m / 10^s`, where that is between a
/// ten-thousandth of a dollar and a million dollars, and as no price where it
/// is not; within one part in 10^15 of a bound it is one or the other.
pub proof fn law_switchboard_v2_reads_what_is_stored(data: Seq<u8>, m: int, s: int)
    requires
        data.len() >= 3000,
        stores(data, 1880, 16, m),
        i128::MIN <= m <= i128::MAX,
        stores(data, 1896, 4, s),
        0 <= s <= u32::MAX,
    ensures
        s > 30 ==> switchboard_v2(data) == Err::<OraclePrice, OracleError>(
            OracleError::ImplausibleScale,
        ),
        s <= 30 ==> {
            let unit = pow(10, s as nat);
            let read = Ok::<OraclePrice, OracleError>(
                OraclePrice {
                    format: OracleFormat::SwitchboardV2,
                    mantissa: m as i128,
                    exponent: (-s) as i32,
                },
            );
            let refused = Err::<OraclePrice, OracleError>(OracleError::ImplausibleV2);
            &&& switchboard_v2(data) == read || switchboard_v2(data) == refused
            &&& 1_000_000_000_000_000 * (10_000 * m) >= 1_000_000_000_000_001 * unit
                && 1_000_000_000_000_000 * m <= 999_999_999_999_999 * (1_000_000 * unit)
                ==> switchboard_v2(data) == read
            &&& 1_000_000_000_000_000 * (10_000 * m) < 999_999_999_999_999 * unit
                || 1_000_000_000_000_000 * m > 1_000_000_000_000_001 * (1_000_000 * unit)
                ==> switchboard_v2(data) == refused
        },
{
    lemma_widths();
    lemma_reads_signed(data, 1880, m);
    lemma_reads_unsigned(data, 1896, 4, s);
    if s <= 30 {
        lemma_v2_bounds(s);
    }
}

/// A Switchboard on-demand feed that stores `r` at 2412 reads as `r / 10^18`,
/// where that is between a ten-thousandth of a dollar and a million dollars,
/// and as no price where it is not; within one part in 10^15 of a bound it is
/// one or the other.
pub proof fn law_switchboard_ondemand_reads_what_is_stored(data: Seq<u8>, r: int)
    requires
        data.len() >= 3000,
        stores(data, 2412, 16, r),
        i128::MIN <= r <= i128::MAX,
    ensures
        ({
            let unit: int = 1_000_000_000_000_000_000;
            let read = Ok::<OraclePrice, OracleError>(
                OraclePrice {
                    format: OracleFormat::SwitchboardOnDemand,
                    mantissa: r as i128,
                    exponent: (-18) as i32,
                },
            );
            let refused = Err::<OraclePrice, OracleError>(
                if r <= 0 {
                    OracleError::NoOnDemandPrice
                } else {
                    OracleError::ImplausibleOnDemand
                },
            );
            &&& switchboard_ondemand(data) == read || switchboard_ondemand(data) == refused
            &&& 1_000_000_000_000_000 * (10_000 * r) >= 1_000_000_000_000_001 * unit
                && 1_000_000_000_000_000 * r <= 999_999_999_999_999 * (1_000_000 * unit)
                ==> switchboard_ondemand(data) == read
            &&& 1_000_000_000_000_000 * (10_000 * r) < 999_999_999_999_999 * unit
                || 1_000_000_000_000_000 * r > 1_000_000_000_000_001 * (1_000_000 * unit)
                ==> switchboard_ondemand(data) == refused
        }),
{
    lemma_reads_signed(data, 2412, r);
}

/// Accounts that are too short for a format are no price of it, whatever is in
/// them.
pub proof fn law_short_accounts_are_no_price(data: Seq<u8>)
    ensures
        data.len() < 93 ==> pyth_pull(data) == Err::<OraclePrice, OracleError>(
            OracleError::NotPriceUpdate,
        ),
        data.len() < 216 ==> pyth_legacy(data) == Err::<OraclePrice, OracleError>(
            OracleError::LegacyTooShort,
        ),
        data.len() < 3000 ==> switchboard_v2(data) == Err::<OraclePrice, OracleError>(
            OracleError::NotAggregator,
        ),
        data.len() < 3000 ==> switchboard_ondemand(data) == Err::<OraclePrice, OracleError>(
            OracleError::NotOnDemand,
        ),
{
}

/// An account is read as the first format that it is a price of: Pyth Pull
/// before classic Pyth before Switchboard V2 before on-demand. It is no price
/// only where it is none of any format.
pub proof fn law_formats_are_tried_in_turn(data: Seq<u8>)
    ensures
        oracle_reading(data) matches Err(e) ==> e == (OracleError::UnknownFormat {
            len: data.len() as usize,
        }) && pyth_pull(data) is Err && pyth_legacy(data) is Err && switchboard_v2(data) is Err
            && switchboard_ondemand(data) is Err,
        oracle_reading(data) matches Ok(p) ==> match p.format {
            OracleFormat::PythPull => oracle_reading(data) == pyth_pull(data),
            OracleFormat::PythLegacy => oracle_reading(data) == pyth_legacy(data) && pyth_pull(
                data,
            ) is Err,
            OracleFormat::SwitchboardV2 => oracle_reading(data) == switchboard_v2(data)
                && pyth_pull(data) is Err && pyth_legacy(data) is Err,
            OracleFormat::SwitchboardOnDemand => oracle_reading(data) == switchboard_ondemand(data)
                && pyth_pull(data) is Err && pyth_legacy(data) is Err && switchboard_v2(
                data,
            ) is Err,
        },
{
}

/// The price kept for an oracle is that of the last of its accounts that can
/// be read.
pub proof fn law_last_price_is_kept(accounts: Seq<Fetched>, n: int, i: int, price: OraclePrice)
    requires
        0 <= i < n,
        accounts[i].1 matches Some(data) && oracle_reading(data@) == Ok::<OraclePrice, OracleError>(
            price,
        ),
        forall|j: int|
            i < j < n && (#[trigger] accounts[j]).0 == accounts[i].0 ==> (accounts[j].1 matches Some(
                data,
            ) ==> oracle_reading(data@) is Err),
    ensures
        prices_of(accounts, n).contains_key(accounts[i].0),
        prices_of(accounts, n)[accounts[i].0] == price,
    decreases n,
{
    if i < n - 1 {
        law_last_price_is_kept(accounts, n - 1, i, price);
        if accounts[n - 1].0 == accounts[i].0 {
            assert(accounts[n - 1].1 matches Some(data) ==> oracle_reading(data@) is Err);
        }
    }
}

/// What a round of reads reports adds up: accounts that are not there are
/// missing, accounts that are there and give no price have failed, and the
/// others are counted by the format of the price they give.
pub proof fn law_coverage_counts_accounts(out: PriceCoverage, accounts: Seq<Fetched>)
    requires
        is_coverage(out, accounts),
    ensures
        out.missing == accounts.filter(|a: Fetched| a.1 is None).len(),
        out.failed == accounts.filter(
            |a: Fetched| a.1 matches Some(data) && oracle_reading(data@) is Err,
        ).len(),
        out.by_format.pyth_pull == accounts.filter(
            |a: Fetched|
                a.1 matches Some(data) && (oracle_reading(data@) matches Ok(p) && p.format
                    == OracleFormat::PythPull),
        ).len(),
        out.by_format.pyth_legacy == accounts.filter(
            |a: Fetched|
                a.1 matches Some(data) && (oracle_reading(data@) matches Ok(p) && p.format
                    == OracleFormat::PythLegacy),
        ).len(),
        out.by_format.switchboard_v2 == accounts.filter(
            |a: Fetched|
                a.1 matches Some(data) && (oracle_reading(data@) matches Ok(p) && p.format
                    == OracleFormat::SwitchboardV2),
        ).len(),
        out.by_format.switchboard_ondemand == accounts.filter(
            |a: Fetched|
                a.1 matches Some(data) && (oracle_reading(data@) matches Ok(p) && p.format
                    == OracleFormat::SwitchboardOnDemand),
        ).len(),
        out.missing + out.failed + out.by_format.pyth_pull + out.by_format.pyth_legacy
            + out.by_format.switchboard_v2 + out.by_format.switchboard_ondemand == accounts.len(),
{
    let n = accounts.len() as int;
    law_accounts_are_accounted_for(accounts, n);
    law_count_of_items(accounts, |a: Fetched| a.1 is None, |i: int| is_missing(accounts[i]));
    law_count_of_items(
        accounts,
        |a: Fetched| a.1 matches Some(data) && oracle_reading(data@) is Err,
        |i: int| is_unparsed(accounts[i]),
    );
    law_count_of_items(
        accounts,
        |a: Fetched|
            a.1 matches Some(data) && (oracle_reading(data@) matches Ok(p) && p.format
                == OracleFormat::PythPull),
        |i: int| parsed_as(accounts[i], OracleFormat::PythPull),
    );
    law_count_of_items(
        accounts,
        |a: Fetched|
            a.1 matches Some(data) && (oracle_reading(data@) matches Ok(p) && p.format
                == OracleFormat::PythLegacy),
        |i: int| parsed_as(accounts[i], OracleFormat::PythLegacy),
    );
    law_count_of_items(
        accounts,
        |a: Fetched|
            a.1 matches Some(data) && (oracle_reading(data@) matches Ok(p) && p.format
                == OracleFormat::SwitchboardV2),
        |i: int| parsed_as(accounts[i], OracleFormat::SwitchboardV2),
    );
    law_count_of_items(
        accounts,
        |a: Fetched|
            a.1 matches Some(data) && (oracle_reading(data@) matches Ok(p) && p.format
                == OracleFormat::SwitchboardOnDemand),
        |i: int| parsed_as(accounts[i], OracleFormat::SwitchboardOnDemand),
    );
}

/// The groups of accounts that cannot be read: a group for each size that such
/// an account has, one per size, counting the accounts of that size and naming
/// the first of them; the larger groups first.
pub proof fn law_diagnosis_groups_by_size(accounts: Seq<Fetched>, out: Seq<UnparsedGroup>)
    requires
        are_ranked_groups(accounts, out),
    ensures
        forall|i: int, j: int|
            0 <= i < j < out.len() ==> (#[trigger] out[i]).count >= (#[trigger] out[j]).count
                && out[i].size != out[j].size,
        forall|g: UnparsedGroup| #[trigger]
            out.contains(g) ==> {
                &&& g.count == accounts.filter(
                    |a: Fetched|
                        a.1 matches Some(data) && oracle_reading(data@) is Err && data@.len()
                            == g.size,
                ).len()
                &&& g.first < accounts.len()
                &&& g.example == accounts[g.first as int].0
                &&& accounts[g.first as int].1 matches Some(data) && oracle_reading(data@) is Err
                    && data@.len() == g.size
            },
        forall|i: int|
            0 <= i < accounts.len() && ((#[trigger] accounts[i]).1 matches Some(data)
                && oracle_reading(data@) is Err) ==> exists|g: UnparsedGroup| #[trigger]
                out.contains(g) && g.size == accounts[i].1->0@.len(),
{
    let n = accounts.len() as int;
    let key = |g: UnparsedGroup| g.count as u64;
    let groups = choose|groups: Seq<UnparsedGroup>| #[trigger]
        are_groups(accounts, n, groups) && is_sorted_desc(
            groups,
            |g: UnparsedGroup| g.count as u64,
            out,
        );
    law_sorted_items(groups, key, out);
    assert forall|a: int, b: int|
        0 <= a < b < groups.len() implies (#[trigger] groups[a]).size != (
    #[trigger] groups[b]).size by {
        assert(is_group(accounts, n, groups[a]));
        assert(is_group(accounts, n, groups[b]));
        assert(groups[a].first < groups[b].first);
        assert(unparsed_of(accounts[groups[a].first as int], groups[a].size));
    }
    assert(groups.no_duplicates());
    law_sorting_keeps_items_apart(groups, key, out);
    assert forall|i: int, j: int| 0 <= i < j < out.len() implies (#[trigger] out[i]).count >= (
    #[trigger] out[j]).count && out[i].size != out[j].size by {
        assert(key(out[i]) >= key(out[j]));
        assert(out.contains(out[i]) && out.contains(out[j]));
        let a = choose|a: int| 0 <= a < groups.len() && groups[a] == out[i];
        let b = choose|b: int| 0 <= b < groups.len() && groups[b] == out[j];
        assert(out[i] != out[j]);
    }
    assert forall|g: UnparsedGroup| #[trigger] out.contains(g) implies {
        &&& g.count == accounts.filter(
            |a: Fetched|
                a.1 matches Some(data) && oracle_reading(data@) is Err && data@.len() == g.size,
        ).len()
        &&& g.first < accounts.len()
        &&& g.example == accounts[g.first as int].0
        &&& accounts[g.first as int].1 matches Some(data) && oracle_reading(data@) is Err
            && data@.len() == g.size
    } by {
        let k = choose|k: int| 0 <= k < groups.len() && groups[k] == g;
        assert(is_group(accounts, n, groups[k]));
        law_count_of_items(
            accounts,
            |a: Fetched|
                a.1 matches Some(data) && oracle_reading(data@) is Err && data@.len() == g.size,
            |i: int| unparsed_of(accounts[i], g.size),
        );
    }
    assert forall|i: int|
        0 <= i < accounts.len() && ((#[trigger] accounts[i]).1 matches Some(data) && oracle_reading(
            data@,
        ) is Err) implies exists|g: UnparsedGroup| #[trigger]
        out.contains(g) && g.size == accounts[i].1->0@.len() by {
        assert(is_unparsed(accounts[i]));
        assert(accounts[i].1->0.len() == accounts[i].1->0@.len());
        assert(has_size(groups, accounts[i].1->0@.len() as usize));
        let g = choose|g: int|
            0 <= g < groups.len() && (#[trigger] groups[g]).size == accounts[i].1->0@.len() as usize;
        assert(groups.contains(groups[g]));
        assert(out.contains(groups[g]));
    }
}

/// A round of reads reports the groups that a diagnosis would list first, no
/// more than five.
pub proof fn law_coverage_reports_the_first_groups(out: PriceCoverage, accounts: Seq<Fetched>)
    requires
        is_coverage(out, accounts),
    ensures
        exists|all: Seq<UnparsedGroup>| #[trigger]
            are_ranked_groups(accounts, all) && out.unparsed@ == (if all.len() <= 5 {
                all
            } else {
                all.take(5)
            }),
{
}

} // verus!
