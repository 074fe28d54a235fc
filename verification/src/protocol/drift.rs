//! Drift Protocol v2 spot lending.
//!
//! Offsets derived from the on-chain IDL and verified against live dumps.
//!
//! Drift uses precision constants rather than 2^60 scaling:
//!   SPOT_CUMULATIVE_INTEREST_PRECISION  = 10^10
//!   SPOT_WEIGHT_PRECISION               = 10^4
//!
//! Native token amount of a position =
//!     scaledBalance * cumulativeInterest / 10^10 / 10^decimals
//!
//! so the value of a share is the cumulative interest over 10^10, of deposits
//! for assets and of borrows for liabilities.
//!
//! Drift positions live INSIDE the User account (8-slot SpotPosition array),
//! not as separate accounts. One User has up to 8 entries, split between
//! deposits and borrows by SpotBalanceType. They refer to spot markets by
//! market index, not by address.

use crate::anchor::anchor_disc;
use crate::base58::{address_of, parse_pubkey};
use crate::bytes::{
    field, holds, key_at, law_stored_key_is_read, le_at, lemma_byte_caps, lemma_le_value_fits,
    lemma_reads_unsigned, lemma_widths, pubkey_at, short, stores, stores_key, u128_at, u16_at,
    u32_at, u64_at, u8_at, LayoutError,
};
use crate::protocol::{
    all_positive, at_most_one, borrower, is_cut_short, lemma_walk_collects, lemma_walk_cut_short,
    lemma_walk_fails, make_borrower, modelled, no_sides, walk, BankBook, BankReading, ImplStatus,
    LendingProtocol, ParsedBank, PositionReading, Sides, SidesReading,
};
use crate::pubkey::{law_zero_key_has_zero_bytes, zero_key, Pubkey};
use crate::tally::indices;
use crate::types::{
    law_plain_quantity_is_its_fraction, BankConfig, Holding, PositionModel, Quantity, RawPosition,
    Scale,
};
use std::collections::HashMap;
use vstd::arithmetic::power::{lemma_pow0, pow};
use vstd::prelude::*;

verus! {

broadcast use vstd::std_specs::hash::group_hash_axioms;

// SpotMarket offsets. After the 8-byte discriminator: pubkey(32), oracle(32),
// mint(32), vault(32), and further down the interest, weights and decimals.
const SM_ORACLE: usize = 40;
const SM_MINT: usize = 72;
const SM_VAULT: usize = 104;
const SM_CUMULATIVE_DEPOSIT_INT: usize = 464;
const SM_CUMULATIVE_BORROW_INT: usize = 480;
const SM_MAINT_ASSET_WEIGHT: usize = 644;
const SM_MAINT_LIAB_WEIGHT: usize = 652;
const SM_DECIMALS: usize = 680;
const SM_MARKET_INDEX: usize = 684;

// User offsets. After the 8-byte discriminator: authority(32), delegate(32),
// name(32), then the spot positions at 104, each slot 40 bytes.
const USER_AUTHORITY: usize = 8;
const USER_SPOT_POSITIONS_START: usize = 104;
const USER_SPOT_POSITION_STRIDE: usize = 40;
const USER_SPOT_POSITION_SLOTS: usize = 8;
const SPOT_MARKET_INDEX: usize = 32;
const SPOT_BALANCE_TYPE: usize = 34;

const SPOT_CUMULATIVE_INT_DIGITS: u32 = 10;
const SPOT_WEIGHT_DIGITS: u32 = 4;

const BALANCE_TYPE_DEPOSIT: u8 = 0;
const BALANCE_TYPE_BORROW: u8 = 1;

const MAX_DECIMALS: u32 = 18;

/// Cumulative interest of 0.5. Interest starts at 1 and does not fall: less
/// than this means a wrong offset.
pub const INTEREST_LOW: u128 = 5_000_000_000;
/// Cumulative interest of 100: more than this means a wrong offset.
pub const INTEREST_HIGH: u128 = 1_000_000_000_000;

pub open spec fn plausible_interest(raw: u128) -> bool {
    INTEREST_LOW <= raw <= INTEREST_HIGH
}

/// What a SpotMarket account says.
pub open spec fn spot_market_reading(address: Pubkey, data: Seq<u8>) -> BankReading {
    let deposit = le_at(data, 464, 16) as u128;
    let borrow = le_at(data, 480, 16) as u128;
    if data.len() < 72 {
        Err(short(data, 40, 32))
    } else if data.len() < 104 {
        Err(short(data, 72, 32))
    } else if data.len() < 136 {
        Err(short(data, 104, 32))
    } else if data.len() < 480 {
        Err(short(data, 464, 16))
    } else if data.len() < 496 {
        Err(short(data, 480, 16))
    } else if !plausible_interest(deposit) || !plausible_interest(borrow) {
        Err(LayoutError::ImplausibleInterest { deposit, borrow })
    } else if data.len() < 648 {
        Err(short(data, 644, 4))
    } else if data.len() < 656 {
        Err(short(data, 652, 4))
    } else if data.len() < 684 {
        Err(short(data, 680, 4))
    } else if le_at(data, 680, 4) > 18 {
        Err(LayoutError::DecimalsOutOfRange { decimals: le_at(data, 680, 4) as u64 })
    } else if data.len() < 686 {
        Err(short(data, 684, 2))
    } else {
        Ok(
            ParsedBank {
                config: BankConfig {
                    address,
                    mint: key_at(data, 72),
                    oracle: key_at(data, 40),
                    decimals: le_at(data, 680, 4) as u8,
                    asset_weight_maint: Quantity::plain(
                        le_at(data, 644, 4) as u128,
                        Scale::Decimal(4),
                    ),
                    liab_weight_maint: Quantity::plain(
                        le_at(data, 652, 4) as u128,
                        Scale::Decimal(4),
                    ),
                    asset_share_value: Quantity::plain(deposit, Scale::Decimal(10)),
                    liab_share_value: Quantity::plain(borrow, Scale::Decimal(10)),
                    group: zero_key(),
                    liquidity_vault: key_at(data, 104),
                    insurance_vault: zero_key(),
                },
                market_index: Some(le_at(data, 684, 2) as u16),
                odd_oracle_setup: None,
            },
        )
    }
}

/// What a spot position slot of a User holds: nothing where the balance is
/// zero, the market is not known or the balance type is neither deposit nor
/// borrow.
pub open spec fn spot_slot(data: Seq<u8>, markets: Map<u16, Pubkey>, slot: int) -> SidesReading {
    let base = 104 + slot * 40;
    if !holds(data, base, 8) {
        Err(short(data, base, 8))
    } else if le_at(data, base, 8) == 0 {
        Ok(no_sides())
    } else if !holds(data, base + 32, 2) {
        Err(short(data, base + 32, 2))
    } else if !holds(data, base + 34, 1) {
        Err(short(data, base + 34, 1))
    } else {
        let market = le_at(data, base + 32, 2) as u16;
        let balance = Quantity::plain(le_at(data, base, 8) as u128, Scale::Decimal(0));
        if !markets.contains_key(market) {
            Ok(no_sides())
        } else if data[base + 34] == 0 {
            Ok(Sides { deposits: seq![(markets[market], balance)], borrows: Seq::empty() })
        } else if data[base + 34] == 1 {
            Ok(Sides { deposits: Seq::empty(), borrows: seq![(markets[market], balance)] })
        } else {
            Ok(no_sides())
        }
    }
}

/// What a User account says.
pub open spec fn user_reading(
    address: Pubkey,
    data: Seq<u8>,
    markets: Map<u16, Pubkey>,
) -> PositionReading {
    if !holds(data, 8, 32) {
        Err(short(data, 8, 32))
    } else {
        match walk(|slot: int| spot_slot(data, markets, slot), 8) {
            Err(e) => Err(e),
            Ok(sides) => Ok(borrower(address, key_at(data, 8), sides)),
        }
    }
}

/// Reads a SpotMarket account.
pub fn parse_spot_market(address: &Pubkey, data: &[u8]) -> (out: BankReading)
    ensures
        out == spot_market_reading(*address, data@),
{
    let oracle: Pubkey = pubkey_at(data, SM_ORACLE)?;
    let mint: Pubkey = pubkey_at(data, SM_MINT)?;
    let vault: Pubkey = pubkey_at(data, SM_VAULT)?;
    let deposit: u128 = u128_at(data, SM_CUMULATIVE_DEPOSIT_INT)?;
    let borrow: u128 = u128_at(data, SM_CUMULATIVE_BORROW_INT)?;
    if deposit < INTEREST_LOW || deposit > INTEREST_HIGH || borrow < INTEREST_LOW || borrow
        > INTEREST_HIGH {
        return Err(LayoutError::ImplausibleInterest { deposit, borrow });
    }
    let asset_weight: u32 = u32_at(data, SM_MAINT_ASSET_WEIGHT)?;
    let liab_weight: u32 = u32_at(data, SM_MAINT_LIAB_WEIGHT)?;
    let decimals: u32 = u32_at(data, SM_DECIMALS)?;
    if decimals > MAX_DECIMALS {
        return Err(LayoutError::DecimalsOutOfRange { decimals: decimals as u64 });
    }
    let market_index: u16 = u16_at(data, SM_MARKET_INDEX)?;
    let weight_scale: Scale = Scale::Decimal(SPOT_WEIGHT_DIGITS);
    let interest_scale: Scale = Scale::Decimal(SPOT_CUMULATIVE_INT_DIGITS);
    Ok(
        ParsedBank {
            config: BankConfig {
                address: *address,
                mint,
                oracle,
                decimals: decimals as u8,
                asset_weight_maint: Quantity::unsigned(asset_weight as u128, weight_scale),
                liab_weight_maint: Quantity::unsigned(liab_weight as u128, weight_scale),
                asset_share_value: Quantity::unsigned(deposit, interest_scale),
                liab_share_value: Quantity::unsigned(borrow, interest_scale),
                group: Pubkey::default(),
                liquidity_vault: vault,
                insurance_vault: Pubkey::default(),
            },
            market_index: Some(market_index),
            odd_oracle_setup: None,
        },
    )
}

fn read_spot(
    data: &[u8],
    markets: &HashMap<u16, Pubkey>,
    slot: usize,
    deposits: &mut Vec<Holding>,
    borrows: &mut Vec<Holding>,
) -> (out: Result<(), LayoutError>)
    requires
        slot < 8,
    ensures
        match spot_slot(data@, markets@, slot as int) {
            Err(e) => out == Err::<(), LayoutError>(e),
            Ok(more) => {
                &&& out is Ok
                &&& final(deposits)@ == old(deposits)@ + more.deposits
                &&& final(borrows)@ == old(borrows)@ + more.borrows
            },
        },
{
    let base: usize = USER_SPOT_POSITIONS_START + slot * USER_SPOT_POSITION_STRIDE;
    let scaled_balance: u64 = u64_at(data, base)?;
    if scaled_balance == 0 {
        return Ok(());
    }
    let market_index: u16 = u16_at(data, base + SPOT_MARKET_INDEX)?;
    let balance_type: u8 = u8_at(data, base + SPOT_BALANCE_TYPE)?;
    if let Some(bank) = markets.get(&market_index) {
        let shares: Quantity = Quantity::unsigned(scaled_balance as u128, Scale::Decimal(0));
        if balance_type == BALANCE_TYPE_DEPOSIT {
            deposits.push((*bank, shares));
        } else if balance_type == BALANCE_TYPE_BORROW {
            borrows.push((*bank, shares));
        }
    }
    Ok(())
}

/// Reads a User account.
pub fn parse_user(address: &Pubkey, data: &[u8], markets: &HashMap<u16, Pubkey>) -> (out: Result<
    Option<RawPosition>,
    LayoutError,
>)
    ensures
        modelled(out) == user_reading(*address, data@, markets@),
{
    let owner: Pubkey = pubkey_at(data, USER_AUTHORITY)?;
    let mut deposits: Vec<Holding> = Vec::new();
    let mut borrows: Vec<Holding> = Vec::new();
    let ghost reading = |slot: int| spot_slot(data@, markets@, slot);
    let mut slot: usize = 0;
    while slot < USER_SPOT_POSITION_SLOTS
        invariant
            slot <= 8,
            holds(data@, 8, 32),
            reading == (|slot: int| spot_slot(data@, markets@, slot)),
            walk(reading, slot as int) == Ok::<Sides, LayoutError>(
                Sides { deposits: deposits@, borrows: borrows@ },
            ),
        decreases 8 - slot,
    {
        let step: Result<(), LayoutError> = read_spot(
            data,
            markets,
            slot,
            &mut deposits,
            &mut borrows,
        );
        if let Err(e) = step {
            proof {
                assert(walk(reading, slot + 1) == Err::<Sides, LayoutError>(e));
                lemma_walk_fails(reading, slot + 1, 8);
            }
            return Err(e);
        }
        slot = slot + 1;
    }
    Ok(make_borrower(address, owner, deposits, borrows))
}

/// What a slot holds is more than nothing.
pub(crate) proof fn lemma_slot_positive(data: Seq<u8>, markets: Map<u16, Pubkey>, slot: int)
    requires
        0 <= slot,
    ensures
        spot_slot(data, markets, slot) matches Ok(sides) ==> all_positive(sides.deposits)
            && all_positive(sides.borrows),
{
    lemma_byte_caps();
    let base = 104 + slot * 40;
    if holds(data, base, 8) {
        lemma_le_value_fits(field(data, base, 8));
    }
}

/// The interest of a spot market is plausible: both share values lie between
/// one half and one hundred, and its decimals fit a token.
pub proof fn law_spot_market_is_plausible(address: Pubkey, data: Seq<u8>)
    ensures
        spot_market_reading(address, data) matches Ok(bank) ==> {
            let asset = bank.config.asset_share_value;
            let liab = bank.config.liab_share_value;
            &&& asset.denominator() <= 2 * asset.numerator()
            &&& asset.numerator() <= 100 * asset.denominator()
            &&& liab.denominator() <= 2 * liab.numerator()
            &&& liab.numerator() <= 100 * liab.denominator()
            &&& bank.config.decimals <= 18
            &&& bank.market_index is Some
        },
{
    if let Ok(bank) = spot_market_reading(address, data) {
        let asset = bank.config.asset_share_value;
        let liab = bank.config.liab_share_value;
        lemma_pow0(10);
        reveal_with_fuel(pow, 11);
        assert(pow(10, 10) == 10_000_000_000);
        assert(asset.magnitude * pow(10, 0) == asset.magnitude) by (nonlinear_arith)
            requires
                pow(10, 0) == 1,
        ;
        assert(liab.magnitude * pow(10, 0) == liab.magnitude) by (nonlinear_arith)
            requires
                pow(10, 0) == 1,
        ;
    }
}

/// The Drift v2 program.
#[derive(Clone, Copy, PartialEq, Eq, Structural, Debug)]
pub struct Drift {
    pub program_id: Pubkey,
}

impl Drift {
    /// The program at its address, where the address can be read.
    pub fn new() -> (out: Option<Drift>)
        ensures
            out == match address_of("dRiftyHA39MWEi3m9aunc5MzRF1JYuBsbn6VPcn33UH"@) {
                Some(program_id) => Some(Drift { program_id }),
                None => None,
            },
    {
        match parse_pubkey("dRiftyHA39MWEi3m9aunc5MzRF1JYuBsbn6VPcn33UH") {
            Some(program_id) => Some(Drift { program_id }),
            None => None,
        }
    }
}

impl LendingProtocol for Drift {
    open spec fn label(&self) -> Seq<char> {
        "drift"@
    }

    open spec fn readiness(&self) -> ImplStatus {
        ImplStatus::Live
    }

    open spec fn bank_type(&self) -> Seq<char> {
        "SpotMarket"@
    }

    open spec fn position_type(&self) -> Seq<char> {
        "User"@
    }

    open spec fn reads_positions(&self, markets: Map<u16, Pubkey>) -> bool {
        !markets.is_empty()
    }

    open spec fn bank_of(&self, address: Pubkey, data: Seq<u8>) -> BankReading {
        spot_market_reading(address, data)
    }

    open spec fn position_of(
        &self,
        address: Pubkey,
        data: Seq<u8>,
        banks: Map<Pubkey, BankConfig>,
        markets: Map<u16, Pubkey>,
    ) -> PositionReading {
        user_reading(address, data, markets)
    }

    fn name(&self) -> &'static str {
        "drift"
    }

    fn status(&self) -> ImplStatus {
        ImplStatus::Live
    }

    fn bank_disc(&self) -> [u8; 8] {
        anchor_disc("SpotMarket")
    }

    fn position_disc(&self) -> [u8; 8] {
        anchor_disc("User")
    }

    fn wants_positions(&self, book: &BankBook) -> bool {
        !book.markets.is_empty()
    }

    fn read_bank(&self, address: &Pubkey, data: &[u8]) -> BankReading {
        parse_spot_market(address, data)
    }

    fn read_position(&self, address: &Pubkey, data: &[u8], book: &BankBook) -> Result<
        Option<RawPosition>,
        LayoutError,
    > {
        parse_user(address, data, &book.markets)
    }
}

/// A SpotMarket account says what it stores: the oracle at 40, the mint at 72,
/// the vault at 104, the cumulative interest of deposits at 464 and of borrows
/// at 480, integers over 10^10, the weights at 644 and 652, integers over
/// 10^4, the decimals at 680 and the market index at 684. Interest outside of
/// one half to one hundred is refused, and so are more than 18 decimals.
pub proof fn law_spot_market_says_what_is_stored(
    address: Pubkey,
    data: Seq<u8>,
    oracle: Pubkey,
    mint: Pubkey,
    vault: Pubkey,
    interest: (int, int),
    weights: (int, int),
    decimals: int,
    index: int,
)
    requires
        stores_key(data, 40, oracle),
        stores_key(data, 72, mint),
        stores_key(data, 104, vault),
        stores(data, 464, 16, interest.0),
        stores(data, 480, 16, interest.1),
        0 <= interest.0 <= u128::MAX,
        0 <= interest.1 <= u128::MAX,
        stores(data, 644, 4, weights.0),
        stores(data, 652, 4, weights.1),
        0 <= weights.0 <= u32::MAX,
        0 <= weights.1 <= u32::MAX,
        stores(data, 680, 4, decimals),
        0 <= decimals <= u32::MAX,
        stores(data, 684, 2, index),
        0 <= index <= u16::MAX,
    ensures
        ({
            let unit = pow(10, 10);
            let sound = unit <= 2 * interest.0 && interest.0 <= 100 * unit && unit <= 2 * interest.1
                && interest.1 <= 100 * unit;
            &&& !sound ==> spot_market_reading(address, data) == Err::<ParsedBank, LayoutError>(
                LayoutError::ImplausibleInterest {
                    deposit: interest.0 as u128,
                    borrow: interest.1 as u128,
                },
            )
            &&& sound && decimals > 18 ==> spot_market_reading(address, data) == Err::<
                ParsedBank,
                LayoutError,
            >(LayoutError::DecimalsOutOfRange { decimals: decimals as u64 })
            &&& sound && decimals <= 18 ==> (spot_market_reading(address, data) matches Ok(bank)
                && {
                let config = bank.config;
                &&& config.address == address
                &&& config.mint == mint
                &&& config.oracle == oracle
                &&& config.decimals == decimals
                &&& config.asset_share_value.numerator() == interest.0
                &&& config.asset_share_value.denominator() == unit
                &&& config.liab_share_value.numerator() == interest.1
                &&& config.liab_share_value.denominator() == unit
                &&& config.asset_weight_maint.numerator() == weights.0
                &&& config.asset_weight_maint.denominator() == pow(10, 4)
                &&& config.liab_weight_maint.numerator() == weights.1
                &&& config.liab_weight_maint.denominator() == pow(10, 4)
                &&& config.group.bytes() == Seq::new(32, |i: int| 0u8)
                &&& config.liquidity_vault == vault
                &&& config.insurance_vault.bytes() == Seq::new(32, |i: int| 0u8)
                &&& bank.market_index == Some(index as u16)
                &&& bank.odd_oracle_setup is None
            })
        }),
{
    lemma_widths();
    law_stored_key_is_read(data, 40, oracle);
    law_stored_key_is_read(data, 72, mint);
    law_stored_key_is_read(data, 104, vault);
    lemma_reads_unsigned(data, 464, 16, interest.0);
    lemma_reads_unsigned(data, 480, 16, interest.1);
    lemma_reads_unsigned(data, 644, 4, weights.0);
    lemma_reads_unsigned(data, 652, 4, weights.1);
    lemma_reads_unsigned(data, 680, 4, decimals);
    lemma_reads_unsigned(data, 684, 2, index);
    law_plain_quantity_is_its_fraction(interest.0 as u128, 10);
    law_plain_quantity_is_its_fraction(interest.1 as u128, 10);
    law_plain_quantity_is_its_fraction(weights.0 as u128, 4);
    law_plain_quantity_is_its_fraction(weights.1 as u128, 4);
    law_zero_key_has_zero_bytes();
    assert(pow(10, 10) == 10_000_000_000) by {
        reveal_with_fuel(pow, 11);
    }
}

/// A User says what it stores. The owner is at 8. Each of the eight spot
/// positions from 104 on, 40 bytes each, holds a balance, 32 bytes on the index
/// of its market, and 34 bytes on whether it is a deposit, 0, or a borrow, 1.
/// A balance of zero, of a market that is not known or of another type counts
/// for nothing. Without a borrow there is no position.
pub proof fn law_user_says_what_is_stored(
    address: Pubkey,
    data: Seq<u8>,
    markets: Map<u16, Pubkey>,
    owner: Pubkey,
    balance: spec_fn(int) -> int,
    market: spec_fn(int) -> int,
)
    requires
        stores_key(data, 8, owner),
        data.len() >= 419,
        forall|s: int|
            0 <= s < 8 ==> {
                &&& stores(data, 104 + 40 * s, 8, #[trigger] balance(s))
                &&& 0 <= balance(s) <= u64::MAX
                &&& stores(data, 136 + 40 * s, 2, market(s))
                &&& 0 <= market(s) <= u16::MAX
            },
    ensures
        ({
            let deposits = indices(8).filter_map(
                |s: int|
                    if data[138 + 40 * s] == 0 && balance(s) > 0 && markets.contains_key(
                        market(s) as u16,
                    ) {
                        Some(
                            (
                                markets[market(s) as u16],
                                Quantity::plain(balance(s) as u128, Scale::Decimal(0)),
                            ),
                        )
                    } else {
                        None
                    },
            );
            let borrows = indices(8).filter_map(
                |s: int|
                    if data[138 + 40 * s] == 1 && balance(s) > 0 && markets.contains_key(
                        market(s) as u16,
                    ) {
                        Some(
                            (
                                markets[market(s) as u16],
                                Quantity::plain(balance(s) as u128, Scale::Decimal(0)),
                            ),
                        )
                    } else {
                        None
                    },
            );
            user_reading(address, data, markets) == Ok::<Option<PositionModel>, LayoutError>(
                if borrows.len() == 0 {
                    None
                } else {
                    Some(PositionModel { address, owner, deposits, borrows })
                },
            )
        }),
{
    let deposit = |s: int|
        if data[138 + 40 * s] == 0 && balance(s) > 0 && markets.contains_key(market(s) as u16) {
            Some(
                (
                    markets[market(s) as u16],
                    Quantity::plain(balance(s) as u128, Scale::Decimal(0)),
                ),
            )
        } else {
            None
        };
    let borrow = |s: int|
        if data[138 + 40 * s] == 1 && balance(s) > 0 && markets.contains_key(market(s) as u16) {
            Some(
                (
                    markets[market(s) as u16],
                    Quantity::plain(balance(s) as u128, Scale::Decimal(0)),
                ),
            )
        } else {
            None
        };
    let slots = |slot: int| spot_slot(data, markets, slot);
    lemma_widths();
    law_stored_key_is_read(data, 8, owner);
    assert forall|s: int| 0 <= s < 8 implies #[trigger] slots(s) == Ok::<Sides, LayoutError>(
        Sides { deposits: at_most_one(deposit(s)), borrows: at_most_one(borrow(s)) },
    ) by {
        lemma_reads_unsigned(data, 104 + 40 * s, 8, balance(s));
        lemma_reads_unsigned(data, 136 + 40 * s, 2, market(s));
        let base = 104 + s * 40;
        assert(base == 104 + 40 * s && base + 32 == 136 + 40 * s && base + 34 == 138 + 40 * s);
    }
    lemma_walk_collects(slots, deposit, borrow, 8);
}

/// A SpotMarket account that does not reach to the end of its market index, at
/// 686, is not read.
pub proof fn law_short_spot_market_is_not_read(address: Pubkey, data: Seq<u8>)
    requires
        data.len() <= usize::MAX,
    ensures
        data.len() < 686 ==> spot_market_reading(address, data) is Err,
        data.len() < 496 ==> (spot_market_reading(address, data) matches Err(e) && is_cut_short(
            e,
            data,
        )),
        spot_market_reading(address, data) matches Err(e) ==> (e is Short ==> is_cut_short(e, data)),
{
}

/// A User that reaches to the end of its spot positions, at 419, can be read;
/// what cannot be read is cut short.
pub proof fn law_user_is_read_or_cut_short(
    address: Pubkey,
    data: Seq<u8>,
    markets: Map<u16, Pubkey>,
)
    requires
        data.len() <= usize::MAX,
    ensures
        data.len() >= 419 ==> user_reading(address, data, markets) is Ok,
        user_reading(address, data, markets) matches Err(e) ==> is_cut_short(e, data),
{
    let slots = |slot: int| spot_slot(data, markets, slot);
    lemma_walk_cut_short(slots, data, 8);
}

} // verus!
