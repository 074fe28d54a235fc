//! MarginFi v2. Offsets derived from the on-chain IDL.

use crate::anchor::anchor_disc;
use crate::base58::{address_of, parse_pubkey};
use crate::bytes::{
    holds, i128_at, i128_spec_at, key_at, law_stored_key_is_read, lemma_reads_signed, pubkey_at,
    short, stores, stores_key, u8_at, LayoutError,
};
use crate::protocol::{
    at_most_one, borrower, is_cut_short, lemma_walk_collects, lemma_walk_cut_short,
    lemma_walk_fails, make_borrower, modelled, no_sides, walk, BankBook, BankReading, ImplStatus,
    LendingProtocol, ParsedBank, PositionReading, Sides, SidesReading,
};
use crate::pubkey::{law_zero_key_has_zero_bytes, zero_key, Pubkey};
use crate::tally::indices;
use crate::types::{
    law_quantity_is_its_fraction, BankConfig, Holding, PositionModel, Quantity, RawPosition, Scale,
};
use vstd::arithmetic::power2::pow2;
use vstd::prelude::*;

verus! {

// Bank offsets (absolute, from start of account data).
const BANK_MINT: usize = 8;
const BANK_MINT_DECIMALS: usize = 40;
const BANK_ASSET_SHARE_VALUE: usize = 80;
const BANK_LIAB_SHARE_VALUE: usize = 96;
// The config begins at 296; these are 16, 48, 313 and 314 past its start.
const CFG_ASSET_WEIGHT_MAINT: usize = 312;
const CFG_LIAB_WEIGHT_MAINT: usize = 344;
const CFG_ORACLE_SETUP: usize = 609;
const CFG_ORACLE_KEYS: usize = 610;

/// OracleSetup has 18 variants. A number beyond them means that the offset is
/// wrong.
const LAST_ORACLE_SETUP: u8 = 17;

// MarginfiAccount offsets.
const MFI_AUTHORITY: usize = 40;
const MFI_BALANCES_START: usize = 72;
const BALANCE_SLOTS: usize = 16;
const BALANCE_STRIDE: usize = 104;
const BAL_BANK_PK: usize = 1;
const BAL_ASSET_SHARES: usize = 40;
const BAL_LIAB_SHARES: usize = 56;

/// The fractional bits of a WrappedI80F48.
const I80F48_FRACTION: u32 = 48;

/// WrappedI80F48: 16 raw bytes, signed, 48 fractional bits.
pub open spec fn i80f48(data: Seq<u8>, off: int) -> Quantity {
    Quantity::signed(i128_spec_at(data, off), Scale::Binary(48))
}

/// What a Bank account says.
pub open spec fn bank_reading(address: Pubkey, data: Seq<u8>) -> BankReading {
    if data.len() < 40 {
        Err(short(data, 8, 32))
    } else if data.len() < 41 {
        Err(short(data, 40, 1))
    } else if data.len() < 96 {
        Err(short(data, 80, 16))
    } else if data.len() < 112 {
        Err(short(data, 96, 16))
    } else if data.len() < 328 {
        Err(short(data, 312, 16))
    } else if data.len() < 360 {
        Err(short(data, 344, 16))
    } else if data.len() < 610 {
        Err(short(data, 609, 1))
    } else if data.len() < 642 {
        Err(short(data, 610, 32))
    } else {
        Ok(
            ParsedBank {
                config: BankConfig {
                    address,
                    mint: key_at(data, 8),
                    oracle: key_at(data, 610),
                    decimals: data[40],
                    asset_weight_maint: i80f48(data, 312),
                    liab_weight_maint: i80f48(data, 344),
                    asset_share_value: i80f48(data, 80),
                    liab_share_value: i80f48(data, 96),
                    group: zero_key(),
                    liquidity_vault: zero_key(),
                    insurance_vault: zero_key(),
                },
                market_index: None,
                odd_oracle_setup: if data[609] > 17 {
                    Some(data[609])
                } else {
                    None
                },
            },
        )
    }
}

/// The holding that a positive share count makes.
pub open spec fn held(bank: Pubkey, shares: Quantity) -> Seq<Holding> {
    if shares.is_positive() {
        seq![(bank, shares)]
    } else {
        Seq::empty()
    }
}

/// What a balance slot of a MarginfiAccount holds: nothing unless it is
/// active.
pub open spec fn balance_slot(data: Seq<u8>, slot: int) -> SidesReading {
    let base = 72 + slot * 104;
    if !holds(data, base, 1) {
        Err(short(data, base, 1))
    } else if data[base] == 0 {
        Ok(no_sides())
    } else if !holds(data, base + 1, 32) {
        Err(short(data, base + 1, 32))
    } else if !holds(data, base + 40, 16) {
        Err(short(data, base + 40, 16))
    } else if !holds(data, base + 56, 16) {
        Err(short(data, base + 56, 16))
    } else {
        let bank = key_at(data, base + 1);
        Ok(
            Sides {
                deposits: held(bank, i80f48(data, base + 40)),
                borrows: held(bank, i80f48(data, base + 56)),
            },
        )
    }
}

/// What a MarginfiAccount says.
pub open spec fn account_reading(address: Pubkey, data: Seq<u8>) -> PositionReading {
    if !holds(data, 40, 32) {
        Err(short(data, 40, 32))
    } else {
        match walk(|slot: int| balance_slot(data, slot), 16) {
            Err(e) => Err(e),
            Ok(sides) => Ok(borrower(address, key_at(data, 40), sides)),
        }
    }
}

/// The WrappedI80F48 at `off`.
pub fn i80f48_at(data: &[u8], off: usize) -> (out: Result<Quantity, LayoutError>)
    ensures
        match out {
            Ok(v) => holds(data@, off as int, 16) && v == i80f48(data@, off as int),
            Err(e) => !holds(data@, off as int, 16) && e == short(data@, off as int, 16),
        },
{
    let raw: i128 = i128_at(data, off)?;
    Ok(Quantity::from_signed(raw, Scale::Binary(I80F48_FRACTION)))
}

/// Reads a Bank account.
pub fn parse_bank(address: &Pubkey, data: &[u8]) -> (out: BankReading)
    ensures
        out == bank_reading(*address, data@),
{
    let mint: Pubkey = pubkey_at(data, BANK_MINT)?;
    let decimals: u8 = u8_at(data, BANK_MINT_DECIMALS)?;
    let asset_share_value: Quantity = i80f48_at(data, BANK_ASSET_SHARE_VALUE)?;
    let liab_share_value: Quantity = i80f48_at(data, BANK_LIAB_SHARE_VALUE)?;
    let asset_weight_maint: Quantity = i80f48_at(data, CFG_ASSET_WEIGHT_MAINT)?;
    let liab_weight_maint: Quantity = i80f48_at(data, CFG_LIAB_WEIGHT_MAINT)?;
    let oracle_setup: u8 = u8_at(data, CFG_ORACLE_SETUP)?;
    let oracle: Pubkey = pubkey_at(data, CFG_ORACLE_KEYS)?;
    Ok(
        ParsedBank {
            config: BankConfig {
                address: *address,
                mint,
                oracle,
                decimals,
                asset_weight_maint,
                liab_weight_maint,
                asset_share_value,
                liab_share_value,
                group: Pubkey::default(),
                liquidity_vault: Pubkey::default(),
                insurance_vault: Pubkey::default(),
            },
            market_index: None,
            odd_oracle_setup: if oracle_setup > LAST_ORACLE_SETUP {
                Some(oracle_setup)
            } else {
                None
            },
        },
    )
}

fn read_balance(
    data: &[u8],
    slot: usize,
    deposits: &mut Vec<Holding>,
    borrows: &mut Vec<Holding>,
) -> (out: Result<(), LayoutError>)
    requires
        slot < 16,
    ensures
        match balance_slot(data@, slot as int) {
            Err(e) => out == Err::<(), LayoutError>(e),
            Ok(more) => {
                &&& out is Ok
                &&& final(deposits)@ == old(deposits)@ + more.deposits
                &&& final(borrows)@ == old(borrows)@ + more.borrows
            },
        },
{
    let base: usize = MFI_BALANCES_START + slot * BALANCE_STRIDE;
    if u8_at(data, base)? == 0 {
        return Ok(());
    }
    let bank: Pubkey = pubkey_at(data, base + BAL_BANK_PK)?;
    let asset_shares: Quantity = i80f48_at(data, base + BAL_ASSET_SHARES)?;
    let liab_shares: Quantity = i80f48_at(data, base + BAL_LIAB_SHARES)?;
    if asset_shares.positive() {
        deposits.push((bank, asset_shares));
    }
    if liab_shares.positive() {
        borrows.push((bank, liab_shares));
    }
    Ok(())
}

/// Reads a MarginfiAccount.
pub fn parse_marginfi_account(address: &Pubkey, data: &[u8]) -> (out: Result<
    Option<RawPosition>,
    LayoutError,
>)
    ensures
        modelled(out) == account_reading(*address, data@),
{
    let owner: Pubkey = pubkey_at(data, MFI_AUTHORITY)?;
    let mut deposits: Vec<Holding> = Vec::new();
    let mut borrows: Vec<Holding> = Vec::new();
    let ghost reading = |slot: int| balance_slot(data@, slot);
    let mut slot: usize = 0;
    while slot < BALANCE_SLOTS
        invariant
            slot <= 16,
            holds(data@, 40, 32),
            owner == key_at(data@, 40),
            reading == (|slot: int| balance_slot(data@, slot)),
            walk(reading, slot as int) == Ok::<Sides, LayoutError>(
                Sides { deposits: deposits@, borrows: borrows@ },
            ),
        decreases 16 - slot,
    {
        let step: Result<(), LayoutError> = read_balance(data, slot, &mut deposits, &mut borrows);
        if let Err(e) = step {
            proof {
                assert(walk(reading, slot + 1) == Err::<Sides, LayoutError>(e));
                lemma_walk_fails(reading, slot + 1, 16);
            }
            return Err(e);
        }
        slot = slot + 1;
    }
    Ok(make_borrower(address, owner, deposits, borrows))
}

/// The MarginFi v2 program.
#[derive(Clone, Copy, PartialEq, Eq, Structural, Debug)]
pub struct MarginFi {
    pub program_id: Pubkey,
}

impl MarginFi {
    /// The program at its address, where the address can be read.
    pub fn new() -> (out: Option<MarginFi>)
        ensures
            out == match address_of("MFv2hWf31Z9kbCa1snEPYctwafyhdvnV7FZnsebVacA"@) {
                Some(program_id) => Some(MarginFi { program_id }),
                None => None,
            },
    {
        match parse_pubkey("MFv2hWf31Z9kbCa1snEPYctwafyhdvnV7FZnsebVacA") {
            Some(program_id) => Some(MarginFi { program_id }),
            None => None,
        }
    }
}

impl LendingProtocol for MarginFi {
    open spec fn label(&self) -> Seq<char> {
        "marginfi-v2"@
    }

    open spec fn readiness(&self) -> ImplStatus {
        ImplStatus::Live
    }

    open spec fn bank_type(&self) -> Seq<char> {
        "Bank"@
    }

    open spec fn position_type(&self) -> Seq<char> {
        "MarginfiAccount"@
    }

    open spec fn reads_positions(&self, markets: Map<u16, Pubkey>) -> bool {
        true
    }

    open spec fn bank_of(&self, address: Pubkey, data: Seq<u8>) -> BankReading {
        bank_reading(address, data)
    }

    open spec fn position_of(
        &self,
        address: Pubkey,
        data: Seq<u8>,
        banks: Map<Pubkey, BankConfig>,
        markets: Map<u16, Pubkey>,
    ) -> PositionReading {
        account_reading(address, data)
    }

    fn name(&self) -> &'static str {
        "marginfi-v2"
    }

    fn status(&self) -> ImplStatus {
        ImplStatus::Live
    }

    fn bank_disc(&self) -> [u8; 8] {
        anchor_disc("Bank")
    }

    fn position_disc(&self) -> [u8; 8] {
        anchor_disc("MarginfiAccount")
    }

    fn wants_positions(&self, book: &BankBook) -> bool {
        true
    }

    fn read_bank(&self, address: &Pubkey, data: &[u8]) -> BankReading {
        parse_bank(address, data)
    }

    fn read_position(&self, address: &Pubkey, data: &[u8], book: &BankBook) -> Result<
        Option<RawPosition>,
        LayoutError,
    > {
        parse_marginfi_account(address, data)
    }
}

/// A Bank account says what it stores: the mint at 8, the decimals at 40, the
/// share values at 80 and 96, the weights at 312 and 344 and the oracle at 610,
/// each value and weight being a signed integer over 2^48. An oracle setup
/// above 17 is reported.
pub proof fn law_bank_says_what_is_stored(
    address: Pubkey,
    data: Seq<u8>,
    mint: Pubkey,
    oracle: Pubkey,
    share_values: (int, int),
    weights: (int, int),
)
    requires
        stores_key(data, 8, mint),
        stores_key(data, 610, oracle),
        stores(data, 80, 16, share_values.0),
        stores(data, 96, 16, share_values.1),
        stores(data, 312, 16, weights.0),
        stores(data, 344, 16, weights.1),
        i128::MIN <= share_values.0 <= i128::MAX,
        i128::MIN <= share_values.1 <= i128::MAX,
        i128::MIN <= weights.0 <= i128::MAX,
        i128::MIN <= weights.1 <= i128::MAX,
    ensures
        bank_reading(address, data) matches Ok(bank) && {
            let config = bank.config;
            &&& config.address == address
            &&& config.mint == mint
            &&& config.oracle == oracle
            &&& config.decimals == data[40]
            &&& config.asset_share_value.numerator() == share_values.0
            &&& config.asset_share_value.denominator() == pow2(48)
            &&& config.liab_share_value.numerator() == share_values.1
            &&& config.liab_share_value.denominator() == pow2(48)
            &&& config.asset_weight_maint.numerator() == weights.0
            &&& config.asset_weight_maint.denominator() == pow2(48)
            &&& config.liab_weight_maint.numerator() == weights.1
            &&& config.liab_weight_maint.denominator() == pow2(48)
            &&& config.group.bytes() == Seq::new(32, |i: int| 0u8)
            &&& config.liquidity_vault.bytes() == Seq::new(32, |i: int| 0u8)
            &&& config.insurance_vault.bytes() == Seq::new(32, |i: int| 0u8)
            &&& bank.market_index is None
            &&& bank.odd_oracle_setup == (if data[609] > 17 {
                Some(data[609])
            } else {
                None
            })
        },
{
    law_stored_key_is_read(data, 8, mint);
    law_stored_key_is_read(data, 610, oracle);
    lemma_reads_signed(data, 80, share_values.0);
    lemma_reads_signed(data, 96, share_values.1);
    lemma_reads_signed(data, 312, weights.0);
    lemma_reads_signed(data, 344, weights.1);
    law_quantity_is_its_fraction(share_values.0, 48);
    law_quantity_is_its_fraction(share_values.1, 48);
    law_quantity_is_its_fraction(weights.0, 48);
    law_quantity_is_its_fraction(weights.1, 48);
    law_zero_key_has_zero_bytes();
}

/// A Bank account can be read exactly when it reaches to the end of the oracle
/// key, at 642; a shorter one is reported as such.
pub proof fn law_bank_is_read_or_cut_short(address: Pubkey, data: Seq<u8>)
    requires
        data.len() <= usize::MAX,
    ensures
        bank_reading(address, data) is Ok <==> data.len() >= 642,
        bank_reading(address, data) matches Err(e) ==> is_cut_short(e, data),
{
}

/// Banks whose accounts differ in the decimals differ in the decimals.
pub proof fn law_bank_decimals_are_those_of_the_account(
    address: Pubkey,
    data: Seq<u8>,
    other: Seq<u8>,
)
    requires
        bank_reading(address, data) is Ok,
        bank_reading(address, other) is Ok,
    ensures
        bank_reading(address, data)->Ok_0.config.decimals == bank_reading(
            address,
            other,
        )->Ok_0.config.decimals <==> data[40] == other[40],
{
}

/// A MarginfiAccount says what it stores. The owner is at 40. Each of the
/// sixteen balances from 72 on, 104 bytes each, counts where its first byte is
/// not zero: it names a bank one byte on, and holds asset shares 40 bytes on
/// and liability shares 56 bytes on, signed integers over 2^48, of which those
/// above zero are a deposit and a borrow. Without a borrow there is no
/// position.
pub proof fn law_account_says_what_is_stored(
    address: Pubkey,
    data: Seq<u8>,
    owner: Pubkey,
    bank: spec_fn(int) -> Pubkey,
    assets: spec_fn(int) -> int,
    liabilities: spec_fn(int) -> int,
)
    requires
        stores_key(data, 40, owner),
        forall|s: int|
            0 <= s < 16 ==> {
                &&& stores_key(data, 73 + 104 * s, #[trigger] bank(s))
                &&& stores(data, 112 + 104 * s, 16, assets(s))
                &&& stores(data, 128 + 104 * s, 16, liabilities(s))
                &&& i128::MIN <= assets(s) <= i128::MAX
                &&& i128::MIN <= liabilities(s) <= i128::MAX
            },
    ensures
        ({
            let deposits = indices(16).filter_map(
                |s: int|
                    if data[72 + 104 * s] != 0 && assets(s) > 0 {
                        Some((bank(s), Quantity::signed(assets(s), Scale::Binary(48))))
                    } else {
                        None
                    },
            );
            let borrows = indices(16).filter_map(
                |s: int|
                    if data[72 + 104 * s] != 0 && liabilities(s) > 0 {
                        Some((bank(s), Quantity::signed(liabilities(s), Scale::Binary(48))))
                    } else {
                        None
                    },
            );
            account_reading(address, data) == Ok::<Option<PositionModel>, LayoutError>(
                if borrows.len() == 0 {
                    None
                } else {
                    Some(PositionModel { address, owner, deposits, borrows })
                },
            )
        }),
{
    let deposit = |s: int|
        if data[72 + 104 * s] != 0 && assets(s) > 0 {
            Some((bank(s), Quantity::signed(assets(s), Scale::Binary(48))))
        } else {
            None
        };
    let borrow = |s: int|
        if data[72 + 104 * s] != 0 && liabilities(s) > 0 {
            Some((bank(s), Quantity::signed(liabilities(s), Scale::Binary(48))))
        } else {
            None
        };
    let slots = |slot: int| balance_slot(data, slot);
    law_stored_key_is_read(data, 40, owner);
    assert forall|s: int| 0 <= s < 16 implies #[trigger] slots(s) == Ok::<Sides, LayoutError>(
        Sides { deposits: at_most_one(deposit(s)), borrows: at_most_one(borrow(s)) },
    ) by {
        law_stored_key_is_read(data, 73 + 104 * s, bank(s));
        lemma_reads_signed(data, 112 + 104 * s, assets(s));
        lemma_reads_signed(data, 128 + 104 * s, liabilities(s));
        law_quantity_is_its_fraction(assets(s), 48);
        law_quantity_is_its_fraction(liabilities(s), 48);
        let base = 72 + s * 104;
        assert(base + 1 == 73 + 104 * s && base + 40 == 112 + 104 * s && base + 56 == 128 + 104
            * s);
    }
    lemma_walk_collects(slots, deposit, borrow, 16);
}

/// A MarginfiAccount that reaches to the end of its balances, at 1736, can be
/// read; what cannot be read is cut short.
pub proof fn law_account_is_read_or_cut_short(address: Pubkey, data: Seq<u8>)
    requires
        data.len() <= usize::MAX,
    ensures
        data.len() >= 1736 ==> account_reading(address, data) is Ok,
        account_reading(address, data) matches Err(e) ==> is_cut_short(e, data),
{
    let slots = |slot: int| balance_slot(data, slot);
    lemma_walk_cut_short(slots, data, 16);
}

/// A Bank account that is cut short is reported by the first of its fields, in
/// the order in which they are stored, that lies past its end.
pub proof fn law_cut_bank_names_the_first_missing_field(address: Pubkey, data: Seq<u8>)
    requires
        data.len() < 642,
    ensures
        bank_reading(address, data) matches Err(LayoutError::Short { off, width, len }) && len
            == data.len() && (off, width) == (if data.len() < 40 {
            (8usize, 32usize)
        } else if data.len() < 41 {
            (40usize, 1usize)
        } else if data.len() < 96 {
            (80usize, 16usize)
        } else if data.len() < 112 {
            (96usize, 16usize)
        } else if data.len() < 328 {
            (312usize, 16usize)
        } else if data.len() < 360 {
            (344usize, 16usize)
        } else if data.len() < 610 {
            (609usize, 1usize)
        } else {
            (610usize, 32usize)
        }),
{
}

} // verus!
