//! Kamino Lend.
//!
//! All byte offsets derived from the on-chain IDL (Reserve, ReserveLiquidity,
//! Obligation, ObligationCollateral, ObligationLiquidity) and cross-checked
//! against live dumps.
//!
//! Two scaling conventions live in Kamino's on-chain data:
//!
//!   * Reserve.liquidity.marketPriceSf: price * 2^60
//!   * ObligationCollateral.depositedAmount: native lamports
//!   * ObligationLiquidity.borrowedAmountSf: ui_amount * 2^60, i.e. already
//!     scaled by 10^decimals on-chain
//!
//! The scanner's pricing formula is
//!     amount_usd = shares * share_value / 10^decimals * price * weight
//! and each reserve is encoded so that it works without changes: the share
//! value is the dollar price, the price is 1, and borrowed shares are lifted
//! by 10^decimals so that the formula's /10^decimals cancels.

use crate::anchor::anchor_disc;
use crate::base58::{address_of, parse_pubkey};
use crate::bytes::{
    field, holds, key_at, law_stored_key_is_read, le_at, lemma_byte_caps, lemma_le_value_fits,
    lemma_reads_unsigned, lemma_widths, pubkey_at, short, stores, stores_key, u128_at, u64_at,
    LayoutError,
};
use crate::keymap::PubkeyMap;
use crate::pricing::{priced_asset, MarketModel};
use crate::protocol::{
    all_positive, at_most_one, borrower, is_cut_short, lemma_walk_collects, lemma_walk_cut_short,
    lemma_walk_fails, make_borrower, modelled, no_sides, walk, BankBook, BankReading, ImplStatus,
    LendingProtocol, ParsedBank, PositionReading, Sides, SidesReading,
};
use crate::pubkey::{law_zero_key_has_zero_bytes, zero_key, Pubkey};
use crate::tally::indices;
use crate::types::{
    law_plain_quantity_is_its_fraction, BankConfig, Holding, PositionModel, Quantity, RawPosition,
    Scale,
};
use vstd::arithmetic::power::{lemma_pow0, pow};
use vstd::arithmetic::power2::{lemma2_to64_rest, pow2};
use vstd::prelude::*;

verus! {

// Reserve offsets.
const RESERVE_LENDING_MARKET: usize = 32;
const RESERVE_MINT: usize = 128;
const RESERVE_SUPPLY_VAULT: usize = 160;
const RESERVE_MARKET_PRICE_SF: usize = 248;
const RESERVE_MINT_DECIMALS: usize = 272;

// Obligation offsets. After the 8-byte discriminator: tag (8), lastUpdate
// (16), lendingMarket (32), owner (32).
const OBLIGATION_OWNER: usize = 64;
const OBLIGATION_DEPOSITS_START: usize = 96;
const OBLIGATION_DEPOSIT_STRIDE: usize = 136;
const OBLIGATION_DEPOSIT_SLOTS: usize = 8;
const DEPOSIT_AMOUNT: usize = 32;
const OBLIGATION_BORROWS_START: usize = 1208;
const OBLIGATION_BORROW_STRIDE: usize = 200;
const OBLIGATION_BORROW_SLOTS: usize = 5;
const BORROW_AMOUNT_SF: usize = 88;

/// Scaled fractions have 60 fractional bits.
const KAMINO_SF_SHIFT: u32 = 60;

const MAX_DECIMALS: u64 = 18;

/// The least scaled fraction that is, in doubles, at least 0.000001.
pub const PRICE_SF_LOW: u128 = 1_152_921_504_607;
/// The greatest scaled fraction that is, in doubles, at most 1000000.
pub const PRICE_SF_HIGH: u128 = 1_152_921_504_606_847_043_108_864;

/// A scaled fraction.
pub open spec fn sf(raw: u128) -> Quantity {
    Quantity::plain(raw, Scale::Binary(60))
}

/// What a Reserve account says.
pub open spec fn reserve_reading(address: Pubkey, data: Seq<u8>) -> BankReading {
    if data.len() < 160 {
        Err(short(data, 128, 32))
    } else if data.len() < 192 {
        Err(short(data, 160, 32))
    } else if data.len() < 264 {
        Err(short(data, 248, 16))
    } else if data.len() < 280 {
        Err(short(data, 272, 8))
    } else {
        let price = le_at(data, 248, 16) as u128;
        let decimals = le_at(data, 272, 8) as u64;
        if decimals > 18 {
            Err(LayoutError::DecimalsOutOfRange { decimals })
        } else if !(PRICE_SF_LOW <= price <= PRICE_SF_HIGH) {
            Err(LayoutError::ImplausiblePrice { raw: price })
        } else {
            Ok(
                ParsedBank {
                    config: BankConfig {
                        address,
                        mint: key_at(data, 128),
                        oracle: address,
                        decimals: decimals as u8,
                        asset_weight_maint: Quantity::plain(85, Scale::Decimal(2)),
                        liab_weight_maint: Quantity::plain(1, Scale::Decimal(0)),
                        asset_share_value: sf(price),
                        liab_share_value: sf(price),
                        group: key_at(data, 32),
                        liquidity_vault: key_at(data, 160),
                        insurance_vault: zero_key(),
                    },
                    market_index: None,
                    odd_oracle_setup: None,
                },
            )
        }
    }
}

/// What a deposit slot of an Obligation holds: native lamports.
pub open spec fn deposit_slot(data: Seq<u8>, slot: int) -> SidesReading {
    let base = 96 + slot * 136;
    if !holds(data, base, 32) {
        Err(short(data, base, 32))
    } else if key_at(data, base) == zero_key() {
        Ok(no_sides())
    } else if !holds(data, base + 32, 8) {
        Err(short(data, base + 32, 8))
    } else if le_at(data, base + 32, 8) == 0 {
        Ok(no_sides())
    } else {
        let native = Quantity::plain(le_at(data, base + 32, 8) as u128, Scale::Decimal(0));
        Ok(Sides { deposits: seq![(key_at(data, base), native)], borrows: Seq::empty() })
    }
}

/// The decimals of a reserve; none if it is not known.
pub open spec fn decimals_of(banks: Map<Pubkey, BankConfig>, reserve: Pubkey) -> u8 {
    if banks.contains_key(reserve) {
        banks[reserve].decimals
    } else {
        0
    }
}

/// What a borrow slot of an Obligation holds: an amount as shown to users,
/// lifted to native lamports.
pub open spec fn borrow_slot(
    data: Seq<u8>,
    banks: Map<Pubkey, BankConfig>,
    slot: int,
) -> SidesReading {
    let base = 1208 + slot * 200;
    if !holds(data, base, 32) {
        Err(short(data, base, 32))
    } else if key_at(data, base) == zero_key() {
        Ok(no_sides())
    } else if !holds(data, base + 88, 16) {
        Err(short(data, base + 88, 16))
    } else if le_at(data, base + 88, 16) == 0 {
        Ok(no_sides())
    } else {
        let reserve = key_at(data, base);
        let lifted = Quantity {
            negative: false,
            magnitude: le_at(data, base + 88, 16) as u128,
            lift: decimals_of(banks, reserve),
            scale: Scale::Binary(60),
        };
        Ok(Sides { deposits: Seq::empty(), borrows: seq![(reserve, lifted)] })
    }
}

/// The slots of an Obligation: eight for deposits, then five for borrows.
pub open spec fn obligation_slot(
    data: Seq<u8>,
    banks: Map<Pubkey, BankConfig>,
    slot: int,
) -> SidesReading {
    if slot < 8 {
        deposit_slot(data, slot)
    } else {
        borrow_slot(data, banks, slot - 8)
    }
}

/// What an Obligation account says.
pub open spec fn obligation_reading(
    address: Pubkey,
    data: Seq<u8>,
    banks: Map<Pubkey, BankConfig>,
) -> PositionReading {
    if !holds(data, 64, 32) {
        Err(short(data, 64, 32))
    } else {
        match walk(|slot: int| obligation_slot(data, banks, slot), 13) {
            Err(e) => Err(e),
            Ok(sides) => Ok(borrower(address, key_at(data, 64), sides)),
        }
    }
}

/// Reads a Reserve account.
pub fn parse_reserve(address: &Pubkey, data: &[u8]) -> (out: BankReading)
    ensures
        out == reserve_reading(*address, data@),
{
    let mint: Pubkey = pubkey_at(data, RESERVE_MINT)?;
    let supply_vault: Pubkey = pubkey_at(data, RESERVE_SUPPLY_VAULT)?;
    let lending_market: Pubkey = pubkey_at(data, RESERVE_LENDING_MARKET)?;
    let market_price_sf: u128 = u128_at(data, RESERVE_MARKET_PRICE_SF)?;
    let decimals: u64 = u64_at(data, RESERVE_MINT_DECIMALS)?;
    if decimals > MAX_DECIMALS {
        return Err(LayoutError::DecimalsOutOfRange { decimals });
    }
    if market_price_sf < PRICE_SF_LOW || market_price_sf > PRICE_SF_HIGH {
        return Err(LayoutError::ImplausiblePrice { raw: market_price_sf });
    }
    let usd_price: Quantity = Quantity::unsigned(market_price_sf, Scale::Binary(KAMINO_SF_SHIFT));
    Ok(
        ParsedBank {
            config: BankConfig {
                address: *address,
                mint,
                oracle: *address,
                decimals: decimals as u8,
                asset_weight_maint: Quantity::unsigned(85, Scale::Decimal(2)),
                liab_weight_maint: Quantity::unsigned(1, Scale::Decimal(0)),
                asset_share_value: usd_price,
                liab_share_value: usd_price,
                group: lending_market,
                liquidity_vault: supply_vault,
                insurance_vault: Pubkey::default(),
            },
            market_index: None,
            odd_oracle_setup: None,
        },
    )
}

fn read_deposit(data: &[u8], slot: usize, deposits: &mut Vec<Holding>) -> (out: Result<
    (),
    LayoutError,
>)
    requires
        slot < 8,
    ensures
        match deposit_slot(data@, slot as int) {
            Err(e) => out == Err::<(), LayoutError>(e),
            Ok(more) => {
                &&& out is Ok
                &&& final(deposits)@ == old(deposits)@ + more.deposits
                &&& more.borrows == Seq::<Holding>::empty()
            },
        },
{
    let base: usize = OBLIGATION_DEPOSITS_START + slot * OBLIGATION_DEPOSIT_STRIDE;
    let reserve: Pubkey = pubkey_at(data, base)?;
    if reserve == Pubkey::default() {
        return Ok(());
    }
    let native: u64 = u64_at(data, base + DEPOSIT_AMOUNT)?;
    if native > 0 {
        deposits.push((reserve, Quantity::unsigned(native as u128, Scale::Decimal(0))));
    }
    Ok(())
}

fn read_borrow(
    data: &[u8],
    banks: &PubkeyMap<BankConfig>,
    slot: usize,
    borrows: &mut Vec<Holding>,
) -> (out: Result<(), LayoutError>)
    requires
        slot < 5,
    ensures
        match borrow_slot(data@, banks@, slot as int) {
            Err(e) => out == Err::<(), LayoutError>(e),
            Ok(more) => {
                &&& out is Ok
                &&& final(borrows)@ == old(borrows)@ + more.borrows
                &&& more.deposits == Seq::<Holding>::empty()
            },
        },
{
    let base: usize = OBLIGATION_BORROWS_START + slot * OBLIGATION_BORROW_STRIDE;
    let reserve: Pubkey = pubkey_at(data, base)?;
    if reserve == Pubkey::default() {
        return Ok(());
    }
    let amount_sf: u128 = u128_at(data, base + BORROW_AMOUNT_SF)?;
    if amount_sf == 0 {
        return Ok(());
    }
    let decimals: u8 = match banks.get(&reserve) {
        Some(bank) => bank.decimals,
        None => 0,
    };
    borrows.push(
        (
            reserve,
            Quantity {
                negative: false,
                magnitude: amount_sf,
                lift: decimals,
                scale: Scale::Binary(KAMINO_SF_SHIFT),
            },
        ),
    );
    Ok(())
}

/// Reads an Obligation account.
pub fn parse_obligation(
    address: &Pubkey,
    data: &[u8],
    banks: &PubkeyMap<BankConfig>,
) -> (out: Result<Option<RawPosition>, LayoutError>)
    ensures
        modelled(out) == obligation_reading(*address, data@, banks@),
{
    let owner: Pubkey = pubkey_at(data, OBLIGATION_OWNER)?;
    let mut deposits: Vec<Holding> = Vec::new();
    let mut borrows: Vec<Holding> = Vec::new();
    let ghost reading = |slot: int| obligation_slot(data@, banks@, slot);
    let mut i: usize = 0;
    while i < OBLIGATION_DEPOSIT_SLOTS
        invariant
            i <= 8,
            holds(data@, 64, 32),
            borrows@.len() == 0,
            reading == (|slot: int| obligation_slot(data@, banks@, slot)),
            walk(reading, i as int) == Ok::<Sides, LayoutError>(
                Sides { deposits: deposits@, borrows: borrows@ },
            ),
        decreases 8 - i,
    {
        let step: Result<(), LayoutError> = read_deposit(data, i, &mut deposits);
        if let Err(e) = step {
            proof {
                assert(walk(reading, i + 1) == Err::<Sides, LayoutError>(e));
                lemma_walk_fails(reading, i + 1, 13);
            }
            return Err(e);
        }
        assert(borrows@ + Seq::<Holding>::empty() =~= borrows@);
        i = i + 1;
    }
    let mut i: usize = 0;
    while i < OBLIGATION_BORROW_SLOTS
        invariant
            i <= 5,
            holds(data@, 64, 32),
            reading == (|slot: int| obligation_slot(data@, banks@, slot)),
            walk(reading, i + 8) == Ok::<Sides, LayoutError>(
                Sides { deposits: deposits@, borrows: borrows@ },
            ),
        decreases 5 - i,
    {
        let step: Result<(), LayoutError> = read_borrow(data, banks, i, &mut borrows);
        if let Err(e) = step {
            proof {
                assert(walk(reading, i + 9) == Err::<Sides, LayoutError>(e));
                lemma_walk_fails(reading, i + 9, 13);
            }
            return Err(e);
        }
        assert(deposits@ + Seq::<Holding>::empty() =~= deposits@);
        i = i + 1;
    }
    Ok(make_borrower(address, owner, deposits, borrows))
}

/// What a slot holds is more than nothing.
pub(crate) proof fn lemma_slot_positive(data: Seq<u8>, banks: Map<Pubkey, BankConfig>, slot: int)
    requires
        0 <= slot,
    ensures
        obligation_slot(data, banks, slot) matches Ok(sides) ==> all_positive(sides.deposits)
            && all_positive(sides.borrows),
{
    lemma_byte_caps();
    if slot < 8 {
        let base = 96 + slot * 136;
        if holds(data, base + 32, 8) {
            lemma_le_value_fits(field(data, base + 32, 8));
        }
    } else {
        let base = 1208 + (slot - 8) * 200;
        if holds(data, base + 88, 16) {
            lemma_le_value_fits(field(data, base + 88, 16));
        }
    }
}

/// A reserve prices itself: it is its own oracle, both its share values are
/// its market price, which is above zero, and its decimals fit a token.
pub proof fn law_reserve_prices_itself(address: Pubkey, data: Seq<u8>)
    ensures
        reserve_reading(address, data) matches Ok(bank) ==> {
            &&& bank.config.oracle == address
            &&& bank.config.asset_share_value == bank.config.liab_share_value
            &&& bank.config.asset_share_value.is_positive()
            &&& bank.config.decimals <= 18
        },
{
}

/// The price of a reserve is plausible: no less than a millionth of a dollar,
/// and over a million dollars by no more than one part in 10^16.
pub proof fn law_reserve_price_is_plausible(address: Pubkey, data: Seq<u8>)
    ensures
        reserve_reading(address, data) matches Ok(bank) ==> {
            let price = bank.config.asset_share_value;
            &&& price.denominator() <= 1_000_000 * price.numerator()
            &&& 10_000_000_000_000_000 * price.numerator() <= 10_000_000_000_000_001 * (1_000_000
                * price.denominator())
        },
{
    if let Ok(bank) = reserve_reading(address, data) {
        let price = bank.config.asset_share_value;
        lemma2_to64_rest();
        lemma_pow0(10);
        assert(price.magnitude * pow(10, 0) == price.magnitude) by (nonlinear_arith)
            requires
                pow(10, 0) == 1,
        ;
        assert(price.denominator() == 1_152_921_504_606_846_976);
    }
}

/// The Kamino Lend program.
#[derive(Clone, Copy, PartialEq, Eq, Structural, Debug)]
pub struct Kamino {
    pub program_id: Pubkey,
}

impl Kamino {
    /// The program at its address, where the address can be read.
    pub fn new() -> (out: Option<Kamino>)
        ensures
            out == match address_of("KLend2g3cP87fffoy8q1mQqGKjrxjC8boSyAYavgmjD"@) {
                Some(program_id) => Some(Kamino { program_id }),
                None => None,
            },
    {
        match parse_pubkey("KLend2g3cP87fffoy8q1mQqGKjrxjC8boSyAYavgmjD") {
            Some(program_id) => Some(Kamino { program_id }),
            None => None,
        }
    }
}

impl LendingProtocol for Kamino {
    open spec fn label(&self) -> Seq<char> {
        "kamino"@
    }

    open spec fn readiness(&self) -> ImplStatus {
        ImplStatus::Live
    }

    open spec fn bank_type(&self) -> Seq<char> {
        "Reserve"@
    }

    open spec fn position_type(&self) -> Seq<char> {
        "Obligation"@
    }

    open spec fn reads_positions(&self, markets: Map<u16, Pubkey>) -> bool {
        true
    }

    open spec fn bank_of(&self, address: Pubkey, data: Seq<u8>) -> BankReading {
        reserve_reading(address, data)
    }

    open spec fn position_of(
        &self,
        address: Pubkey,
        data: Seq<u8>,
        banks: Map<Pubkey, BankConfig>,
        markets: Map<u16, Pubkey>,
    ) -> PositionReading {
        obligation_reading(address, data, banks)
    }

    fn name(&self) -> &'static str {
        "kamino"
    }

    fn status(&self) -> ImplStatus {
        ImplStatus::Live
    }

    fn bank_disc(&self) -> [u8; 8] {
        anchor_disc("Reserve")
    }

    fn position_disc(&self) -> [u8; 8] {
        anchor_disc("Obligation")
    }

    fn wants_positions(&self, book: &BankBook) -> bool {
        true
    }

    fn read_bank(&self, address: &Pubkey, data: &[u8]) -> BankReading {
        parse_reserve(address, data)
    }

    fn read_position(&self, address: &Pubkey, data: &[u8], book: &BankBook) -> Result<
        Option<RawPosition>,
        LayoutError,
    > {
        parse_obligation(address, data, &book.banks)
    }
}

/// A Reserve account says what it stores: the lending market at 32, the mint
/// at 128, the supply vault at 160, the market price at 248, an integer over
/// 2^60, and the decimals at 272. Both share values are that price, collateral
/// counts by 0.85 and debt in full. More than 18 decimals are refused, and so
/// is a price that is not between a millionth of a dollar and a million
/// dollars; above a million dollars by one part in 10^16 it is one or the
/// other.
pub proof fn law_reserve_says_what_is_stored(
    address: Pubkey,
    data: Seq<u8>,
    market: Pubkey,
    mint: Pubkey,
    vault: Pubkey,
    price: int,
    decimals: int,
)
    requires
        stores_key(data, 32, market),
        stores_key(data, 128, mint),
        stores_key(data, 160, vault),
        stores(data, 248, 16, price),
        0 <= price <= u128::MAX,
        stores(data, 272, 8, decimals),
        0 <= decimals <= u64::MAX,
    ensures
        decimals > 18 ==> reserve_reading(address, data) == Err::<ParsedBank, LayoutError>(
            LayoutError::DecimalsOutOfRange { decimals: decimals as u64 },
        ),
        decimals <= 18 ==> {
            let refused = Err::<ParsedBank, LayoutError>(
                LayoutError::ImplausiblePrice { raw: price as u128 },
            );
            &&& 1_000_000 * price < pow2(60) ==> reserve_reading(address, data) == refused
            &&& 10_000_000_000_000_000 * price > 10_000_000_000_000_001 * (1_000_000 * pow2(60))
                ==> reserve_reading(address, data) == refused
            &&& 1_000_000 * price >= pow2(60) && price <= 1_000_000 * pow2(60)
                ==> reserve_reading(address, data) is Ok
            &&& reserve_reading(address, data) is Err ==> reserve_reading(address, data) == refused
        },
        reserve_reading(address, data) matches Ok(bank) ==> {
            let config = bank.config;
            &&& config.address == address
            &&& config.mint == mint
            &&& config.oracle == address
            &&& config.decimals == decimals
            &&& config.asset_share_value.numerator() == price
            &&& config.asset_share_value.denominator() == pow2(60)
            &&& config.liab_share_value.numerator() == price
            &&& config.liab_share_value.denominator() == pow2(60)
            &&& 100 * config.asset_weight_maint.numerator() == 85
                * config.asset_weight_maint.denominator()
            &&& config.liab_weight_maint.numerator() == config.liab_weight_maint.denominator()
            &&& config.group == market
            &&& config.liquidity_vault == vault
            &&& config.insurance_vault.bytes() == Seq::new(32, |i: int| 0u8)
            &&& bank.market_index is None
            &&& bank.odd_oracle_setup is None
        },
{
    lemma_widths();
    law_stored_key_is_read(data, 32, market);
    law_stored_key_is_read(data, 128, mint);
    law_stored_key_is_read(data, 160, vault);
    lemma_reads_unsigned(data, 248, 16, price);
    lemma_reads_unsigned(data, 272, 8, decimals);
    lemma2_to64_rest();
    law_plain_quantity_is_its_fraction(price as u128, 60);
    law_plain_quantity_is_its_fraction(85, 2);
    law_plain_quantity_is_its_fraction(1, 0);
    lemma_pow0(10);
    reveal_with_fuel(pow, 3);
    assert(pow(10, 2) == 100);
    law_zero_key_has_zero_bytes();
}

/// A Reserve account that does not reach to the end of its decimals, at 280,
/// is reported as cut short, and no other is.
pub proof fn law_reserve_is_whole_or_cut_short(address: Pubkey, data: Seq<u8>)
    requires
        data.len() <= usize::MAX,
    ensures
        (reserve_reading(address, data) matches Err(e) && is_cut_short(e, data)) <==> data.len()
            < 280,
{
}

/// An Obligation says what it stores. The owner is at 64. Each of the eight
/// deposits from 96 on, 136 bytes each, names a reserve and 32 bytes on holds
/// an amount in native units. Each of the five borrows from 1208 on, 200 bytes
/// each, names a reserve and 88 bytes on holds an amount over 2^60, lifted by
/// the decimals of the reserve, where that is known. An entry whose reserve or
/// amount is zero counts for nothing. Without a borrow there is no position.
pub proof fn law_obligation_says_what_is_stored(
    address: Pubkey,
    data: Seq<u8>,
    banks: Map<Pubkey, BankConfig>,
    owner: Pubkey,
    deposited_in: spec_fn(int) -> Pubkey,
    deposited: spec_fn(int) -> int,
    borrowed_from: spec_fn(int) -> Pubkey,
    borrowed: spec_fn(int) -> int,
)
    requires
        stores_key(data, 64, owner),
        forall|s: int|
            0 <= s < 8 ==> {
                &&& stores_key(data, 96 + 136 * s, #[trigger] deposited_in(s))
                &&& stores(data, 128 + 136 * s, 8, deposited(s))
                &&& 0 <= deposited(s) <= u64::MAX
            },
        forall|s: int|
            0 <= s < 5 ==> {
                &&& stores_key(data, 1208 + 200 * s, #[trigger] borrowed_from(s))
                &&& stores(data, 1296 + 200 * s, 16, borrowed(s))
                &&& 0 <= borrowed(s) <= u128::MAX
            },
    ensures
        ({
            let deposits = indices(8).filter_map(
                |s: int|
                    if deposited_in(s) != (Pubkey { hi: 0, lo: 0 }) && deposited(s) > 0 {
                        Some(
                            (
                                deposited_in(s),
                                Quantity::plain(deposited(s) as u128, Scale::Decimal(0)),
                            ),
                        )
                    } else {
                        None
                    },
            );
            let borrows = indices(5).filter_map(
                |s: int|
                    if borrowed_from(s) != (Pubkey { hi: 0, lo: 0 }) && borrowed(s) > 0 {
                        Some(
                            (
                                borrowed_from(s),
                                Quantity {
                                    negative: false,
                                    magnitude: borrowed(s) as u128,
                                    lift: if banks.contains_key(borrowed_from(s)) {
                                        banks[borrowed_from(s)].decimals
                                    } else {
                                        0
                                    },
                                    scale: Scale::Binary(60),
                                },
                            ),
                        )
                    } else {
                        None
                    },
            );
            obligation_reading(address, data, banks) == Ok::<Option<PositionModel>, LayoutError>(
                if borrows.len() == 0 {
                    None
                } else {
                    Some(PositionModel { address, owner, deposits, borrows })
                },
            )
        }),
{
    let deposit = |s: int|
        if deposited_in(s) != (Pubkey { hi: 0, lo: 0 }) && deposited(s) > 0 {
            Some((deposited_in(s), Quantity::plain(deposited(s) as u128, Scale::Decimal(0))))
        } else {
            None
        };
    let borrow = |s: int|
        if borrowed_from(s) != (Pubkey { hi: 0, lo: 0 }) && borrowed(s) > 0 {
            Some(
                (
                    borrowed_from(s),
                    Quantity {
                        negative: false,
                        magnitude: borrowed(s) as u128,
                        lift: if banks.contains_key(borrowed_from(s)) {
                            banks[borrowed_from(s)].decimals
                        } else {
                            0
                        },
                        scale: Scale::Binary(60),
                    },
                ),
            )
        } else {
            None
        };
    let slots = |slot: int| obligation_slot(data, banks, slot);
    let first = |slot: int|
        if slot < 8 {
            deposit(slot)
        } else {
            None
        };
    let second = |slot: int|
        if slot < 8 {
            None
        } else {
            borrow(slot - 8)
        };
    lemma_widths();
    law_stored_key_is_read(data, 64, owner);
    assert forall|s: int| 0 <= s < 13 implies #[trigger] slots(s) == Ok::<Sides, LayoutError>(
        Sides { deposits: at_most_one(first(s)), borrows: at_most_one(second(s)) },
    ) by {
        if s < 8 {
            law_stored_key_is_read(data, 96 + 136 * s, deposited_in(s));
            lemma_reads_unsigned(data, 128 + 136 * s, 8, deposited(s));
            let base = 96 + s * 136;
            assert(base == 96 + 136 * s && base + 32 == 128 + 136 * s);
        } else {
            let b = s - 8;
            law_stored_key_is_read(data, 1208 + 200 * b, borrowed_from(b));
            lemma_reads_unsigned(data, 1296 + 200 * b, 16, borrowed(b));
            let base = 1208 + b * 200;
            assert(base == 1208 + 200 * b && base + 88 == 1296 + 200 * b);
        }
    }
    lemma_walk_collects(slots, first, second, 13);
    lemma_first_part(first, deposit, 8, 5);
    lemma_second_part(second, borrow, 8, 5);
}

proof fn lemma_first_part(
    whole: spec_fn(int) -> Option<Holding>,
    part: spec_fn(int) -> Option<Holding>,
    m: nat,
    n: nat,
)
    requires
        forall|i: int| 0 <= i < m ==> #[trigger] whole(i) == part(i),
        forall|i: int| m <= i < m + n ==> #[trigger] whole(i) is None,
    ensures
        indices(m + n).filter_map(whole) == indices(m).filter_map(part),
    decreases m + n,
{
    if n > 0 {
        lemma_first_part(whole, part, m, (n - 1) as nat);
        assert(indices(m + n).drop_last() =~= indices((m + n - 1) as nat));
        assert(whole(m + n - 1) is None);
    } else if m > 0 {
        lemma_first_part(whole, part, (m - 1) as nat, 0);
        assert(indices(m).drop_last() =~= indices((m - 1) as nat));
        assert(whole(m - 1) == part(m - 1));
    } else {
        assert(indices(0).filter_map(whole) =~= indices(0).filter_map(part));
    }
}

proof fn lemma_second_part(
    whole: spec_fn(int) -> Option<Holding>,
    part: spec_fn(int) -> Option<Holding>,
    m: nat,
    n: nat,
)
    requires
        forall|i: int| 0 <= i < m ==> #[trigger] whole(i) is None,
        forall|i: int| m <= i < m + n ==> #[trigger] whole(i) == part(i - m),
    ensures
        indices(m + n).filter_map(whole) == indices(n).filter_map(part),
    decreases m + n,
{
    if n > 0 {
        lemma_second_part(whole, part, m, (n - 1) as nat);
        assert(indices(m + n).drop_last() =~= indices((m + n - 1) as nat));
        assert(indices(n).drop_last() =~= indices((n - 1) as nat));
        assert(whole(m + n - 1) == part(n - 1));
    } else if m > 0 {
        lemma_second_part(whole, part, (m - 1) as nat, 0);
        assert(indices(m).drop_last() =~= indices((m - 1) as nat));
        assert(whole(m - 1) is None);
    } else {
        assert(indices(0).filter_map(whole) =~= indices(0).filter_map(part));
    }
}

/// The lift cancels: what is borrowed from a reserve that is known, divided by
/// 10 to the power of the reserve's own decimals as pricing does, is the stored
/// amount over 2^60, whatever the decimals.
pub proof fn law_borrow_lift_cancels(
    data: Seq<u8>,
    market: MarketModel,
    slot: int,
    reserve: Pubkey,
    raw: int,
)
    requires
        0 <= slot < 5,
        stores_key(data, 1208 + 200 * slot, reserve),
        stores(data, 1296 + 200 * slot, 16, raw),
        0 < raw <= u128::MAX,
        reserve != (Pubkey { hi: 0, lo: 0 }),
        market.banks.contains_key(reserve),
    ensures
        borrow_slot(data, market.banks, slot) matches Ok(sides) && sides.deposits.len() == 0
            && sides.borrows.len() == 1 && {
            let debt = priced_asset(market, sides.borrows[0], false);
            &&& sides.borrows[0].0 == reserve
            &&& debt.decimals == market.banks[reserve].decimals
            &&& debt.share_value == market.banks[reserve].liab_share_value
            &&& debt.shares.numerator() * pow2(60) == (raw * pow(10, debt.decimals as nat))
                * debt.shares.denominator()
        },
{
    lemma_widths();
    law_stored_key_is_read(data, 1208 + 200 * slot, reserve);
    lemma_reads_unsigned(data, 1296 + 200 * slot, 16, raw);
    let base = 1208 + slot * 200;
    assert(base == 1208 + 200 * slot && base + 88 == 1296 + 200 * slot);
}

/// An Obligation that reaches to the end of its borrows, at 2112, can be read;
/// what cannot be read is cut short.
pub proof fn law_obligation_is_read_or_cut_short(
    address: Pubkey,
    data: Seq<u8>,
    banks: Map<Pubkey, BankConfig>,
)
    requires
        data.len() <= usize::MAX,
    ensures
        data.len() >= 2112 ==> obligation_reading(address, data, banks) is Ok,
        obligation_reading(address, data, banks) matches Err(e) ==> is_cut_short(e, data),
{
    let slots = |slot: int| obligation_slot(data, banks, slot);
    lemma_walk_cut_short(slots, data, 13);
}

} // verus!
