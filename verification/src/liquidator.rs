//! Liquidation decisions: whose key signs, what is worth sending, and the
//! instruction that would be sent.
//!
//! SAFETY: nothing is handed out for sending unless the estimated net profit
//! clears the configured threshold, dry runs are off, and the layout of the
//! instruction has been verified.

use crate::anchor::{anchor_ix_disc, discriminator, sha256};
use crate::base58::{address_of, parse_pubkey};
use crate::bytes::{law_read_number_is_stored, le_at, stores, u64_bytes};
use crate::double::{law_order_is_numeric, Double};
use crate::pubkey::{key_of, zero_key, Pubkey};
use crate::scanner::{Opportunity, OpportunityModel};
use vstd::prelude::*;
use vstd::utf8::encode_utf8;

verus! {

/// Whether the account order and the signer and writable flags of the
/// liquidation instruction have been verified against the on-chain IDL. Until
/// then no instruction is built. To be set only after fetching the IDL and
/// confirming the account order, and after a successful dry run on devnet.
pub const LIQUIDATE_LAYOUT_VERIFIED: bool = false;

#[verifier::external_type_specification]
#[verifier::external_body]
pub struct ExJsonError(serde_json::Error);

/// The bytes that a text lists as a JSON array of numbers, where it does.
pub uninterp spec fn json_bytes(text: Seq<char>) -> Option<Seq<u8>>;

/// Calls `serde_json::from_str` for a `Vec<u8>`. Trusted to depend on nothing
/// but the text, whether it succeeds and in the bytes it gives.
#[verifier::external_body]
fn parse_json_bytes(text: &str) -> (out: Result<Vec<u8>, serde_json::Error>)
    ensures
        match out {
            Ok(bytes) => json_bytes(text@) == Some(bytes@),
            Err(_) => json_bytes(text@) is None,
        },
{
    serde_json::from_str(text)
}

/// The public key of the keypair that the bytes are, where they are one.
pub uninterp spec fn keypair_key(bytes: Seq<u8>) -> Option<Seq<u8>>;

/// Calls `solana_sdk::signature::Keypair::from_bytes` and takes the public key
/// of the keypair. Trusted to depend on nothing but the bytes; to accept only
/// 64 bytes; and to give the last 32 of them, which are the public key.
#[verifier::external_body]
fn keypair_pubkey(bytes: &[u8]) -> (out: Option<Vec<u8>>)
    ensures
        match out {
            Some(key) => {
                &&& keypair_key(bytes@) == Some(key@)
                &&& bytes@.len() == 64
                &&& key@ == bytes@.subrange(32, 64)
            },
            None => keypair_key(bytes@) is None,
        },
{
    match solana_sdk::signature::Keypair::from_bytes(bytes) {
        Ok(keypair) => Some(solana_sdk::signature::Signer::pubkey(&keypair).to_bytes().to_vec()),
        Err(_) => None,
    }
}

/// Why there is no liquidator.
#[derive(Clone, Copy, PartialEq, Eq, Structural, Debug)]
pub enum KeypairError {
    /// The keypair file is no JSON array of bytes.
    NotByteArray,
    /// The bytes are no keypair.
    NotKeypair,
    /// The address of the lending program cannot be read.
    BadProgramId,
}

/// Holds the signer and decides on liquidations.
pub struct Liquidator {
    /// The keypair, secret half first.
    pub keypair: Vec<u8>,
    pub key: Pubkey,
    pub program_id: Pubkey,
    pub dry_run: bool,
    pub min_profit_usd: Double,
}

/// An account that an instruction names.
#[derive(Clone, Copy, PartialEq, Eq, Structural, Debug)]
pub struct AccountMeta {
    pub pubkey: Pubkey,
    pub is_signer: bool,
    pub is_writable: bool,
}

impl AccountMeta {
    pub open spec fn writes(pubkey: Pubkey, is_signer: bool) -> AccountMeta {
        AccountMeta { pubkey, is_signer, is_writable: true }
    }

    pub open spec fn reads(pubkey: Pubkey) -> AccountMeta {
        AccountMeta { pubkey, is_signer: false, is_writable: false }
    }

    /// An account that the instruction may write.
    pub fn new(pubkey: Pubkey, is_signer: bool) -> (out: AccountMeta)
        ensures
            out == AccountMeta::writes(pubkey, is_signer),
    {
        AccountMeta { pubkey, is_signer, is_writable: true }
    }

    /// An account that the instruction only reads, and that signs nothing.
    pub fn new_readonly(pubkey: Pubkey) -> (out: AccountMeta)
        ensures
            out == AccountMeta::reads(pubkey),
    {
        AccountMeta { pubkey, is_signer: false, is_writable: false }
    }
}

/// A call of an on-chain program.
#[derive(Debug)]
pub struct Instruction {
    pub program_id: Pubkey,
    pub accounts: Vec<AccountMeta>,
    pub data: Vec<u8>,
}

/// What an instruction says, apart from how it is stored.
#[verifier::ext_equal]
pub struct InstructionModel {
    pub program_id: Pubkey,
    pub accounts: Seq<AccountMeta>,
    pub data: Seq<u8>,
}

impl View for Instruction {
    type V = InstructionModel;

    open spec fn view(&self) -> InstructionModel {
        InstructionModel {
            program_id: self.program_id,
            accounts: self.accounts@,
            data: self.data@,
        }
    }
}

/// A key that an opportunity must have before anything is sent.
#[derive(Clone, Copy, PartialEq, Eq, Structural, Debug)]
pub enum OppField {
    MarginfiGroup,
    AssetBank,
    AssetBankOracle,
    AssetBankLiquidityVault,
    LiabBank,
    LiabBankOracle,
    LiabBankLiquidityVault,
    InsuranceVault,
    LiquidatorMarginfiAccount,
}

impl OppField {
    pub open spec fn spec_label(self) -> Seq<char> {
        match self {
            OppField::MarginfiGroup => "marginfi_group"@,
            OppField::AssetBank => "asset_bank"@,
            OppField::AssetBankOracle => "asset_bank_oracle"@,
            OppField::AssetBankLiquidityVault => "asset_bank_liquidity_vault"@,
            OppField::LiabBank => "liab_bank"@,
            OppField::LiabBankOracle => "liab_bank_oracle"@,
            OppField::LiabBankLiquidityVault => "liab_bank_liquidity_vault"@,
            OppField::InsuranceVault => "insurance_vault"@,
            OppField::LiquidatorMarginfiAccount => "liquidator_marginfi_account"@,
        }
    }

    /// The name of the field.
    pub fn label(self) -> (out: &'static str)
        ensures
            out@ == self.spec_label(),
    {
        match self {
            OppField::MarginfiGroup => "marginfi_group",
            OppField::AssetBank => "asset_bank",
            OppField::AssetBankOracle => "asset_bank_oracle",
            OppField::AssetBankLiquidityVault => "asset_bank_liquidity_vault",
            OppField::LiabBank => "liab_bank",
            OppField::LiabBankOracle => "liab_bank_oracle",
            OppField::LiabBankLiquidityVault => "liab_bank_liquidity_vault",
            OppField::InsuranceVault => "insurance_vault",
            OppField::LiquidatorMarginfiAccount => "liquidator_marginfi_account",
        }
    }
}

/// Why no instruction is built.
#[derive(Clone, Copy, PartialEq, Eq, Structural, Debug)]
pub enum BuildError {
    /// The account layout has not been verified against the IDL.
    LayoutUnverified,
    /// The opportunity has no key for this field.
    Unset(OppField),
    /// There is nothing to seize.
    ZeroAmount,
    /// The address of the token program cannot be read.
    BadTokenProgram,
}

/// What to do about an opportunity.
pub enum Decision {
    /// The profit is below the threshold: skip it.
    BelowThreshold,
    /// Dry runs are on: report it only.
    DryRun,
    /// Send this instruction.
    Send(Instruction),
}

/// The keys that must be set, in the order in which they are looked at.
pub open spec fn needed_keys(opp: OpportunityModel) -> Seq<(OppField, Pubkey)> {
    seq![
        (OppField::MarginfiGroup, opp.marginfi_group),
        (OppField::AssetBank, opp.asset_bank),
        (OppField::AssetBankOracle, opp.asset_bank_oracle),
        (OppField::AssetBankLiquidityVault, opp.asset_bank_liquidity_vault),
        (OppField::LiabBank, opp.liab_bank),
        (OppField::LiabBankOracle, opp.liab_bank_oracle),
        (OppField::LiabBankLiquidityVault, opp.liab_bank_liquidity_vault),
        (OppField::InsuranceVault, opp.insurance_vault),
        (OppField::LiquidatorMarginfiAccount, opp.liquidator_marginfi_account),
    ]
}

/// Whether `k` is the first of the needed keys that is not set.
pub open spec fn is_first_unset(keys: Seq<(OppField, Pubkey)>, k: int) -> bool {
    &&& 0 <= k < keys.len()
    &&& keys[k].1 == zero_key()
    &&& forall|j: int| 0 <= j < k ==> (#[trigger] keys[j]).1 != zero_key()
}

/// Whether all needed keys are set.
pub open spec fn all_set(keys: Seq<(OppField, Pubkey)>) -> bool {
    forall|j: int| 0 <= j < keys.len() ==> (#[trigger] keys[j]).1 != zero_key()
}

/// The accounts for the health check: each bank followed by its oracle.
pub open spec fn health_accounts(remaining: Seq<(Pubkey, Pubkey)>) -> Seq<AccountMeta> {
    Seq::new(
        2 * remaining.len(),
        |i: int|
            AccountMeta::reads(
                if i % 2 == 0 {
                    remaining[i / 2].0
                } else {
                    remaining[i / 2].1
                },
            ),
    )
}

/// The accounts of the instruction before those for the health check.
pub open spec fn fixed_accounts(
    opp: OpportunityModel,
    signer: Pubkey,
    token_program: Pubkey,
) -> Seq<AccountMeta> {
    seq![
        AccountMeta::reads(opp.marginfi_group),
        AccountMeta::writes(opp.asset_bank, false),
        AccountMeta::reads(opp.asset_bank_oracle),
        AccountMeta::writes(opp.liab_bank, false),
        AccountMeta::reads(opp.liab_bank_oracle),
        AccountMeta::writes(opp.liquidator_marginfi_account, false),
        AccountMeta::writes(signer, true),
        AccountMeta::writes(opp.position, false),
        AccountMeta::writes(opp.liab_bank_liquidity_vault, false),
        AccountMeta::writes(opp.asset_bank_liquidity_vault, false),
        AccountMeta::writes(opp.insurance_vault, false),
        AccountMeta::reads(token_program),
    ]
}

/// Whether `ix` is the liquidation instruction for `opp`.
pub open spec fn is_liquidation(
    ix: InstructionModel,
    opp: OpportunityModel,
    program_id: Pubkey,
    signer: Pubkey,
    token_program: Pubkey,
) -> bool {
    &&& ix.program_id == program_id
    &&& ix.accounts == fixed_accounts(opp, signer, token_program) + health_accounts(
        opp.liquidatee_remaining_accounts,
    )
    &&& ix.data.len() == 16
    &&& ix.data.take(8) == discriminator("global:"@, "lending_account_liquidate"@)
    &&& le_at(ix.data, 8, 8) == opp.liquidate_asset_amount
}

/// The error that keeps an instruction from being built, if any.
pub open spec fn build_error(
    opp: OpportunityModel,
    layout_verified: bool,
    token_program: Option<Pubkey>,
) -> Option<BuildError> {
    let keys = needed_keys(opp);
    if !layout_verified {
        Some(BuildError::LayoutUnverified)
    } else if !all_set(keys) {
        Some(BuildError::Unset(keys[choose|k: int| is_first_unset(keys, k)].0))
    } else if opp.liquidate_asset_amount == 0 {
        Some(BuildError::ZeroAmount)
    } else if token_program is None {
        Some(BuildError::BadTokenProgram)
    } else {
        None
    }
}

/// Whether `out` is what building the instruction must give.
pub open spec fn is_built(
    out: Result<Instruction, BuildError>,
    opp: OpportunityModel,
    layout_verified: bool,
    program_id: Pubkey,
    signer: Pubkey,
    token_program: Option<Pubkey>,
) -> bool {
    match out {
        Err(e) => build_error(opp, layout_verified, token_program) == Some(e),
        Ok(ix) => {
            &&& build_error(opp, layout_verified, token_program) is None
            &&& is_liquidation(ix@, opp, program_id, signer, token_program->0)
        },
    }
}

/// The address of the token program.
pub open spec fn token_program() -> Option<Pubkey> {
    address_of("TokenkegQfeZyiNwAJbNbGKPFXCWuBvf9Ss623VQ5DA"@)
}

/// Reads the address of the token program.
pub fn spl_token_program_id() -> (out: Option<Pubkey>)
    ensures
        out == token_program(),
{
    parse_pubkey("TokenkegQfeZyiNwAJbNbGKPFXCWuBvf9Ss623VQ5DA")
}

fn first_unset(opp: &Opportunity) -> (out: Option<OppField>)
    ensures
        match out {
            Some(f) => {
                let keys = needed_keys(opp@);
                !all_set(keys) && f == keys[choose|k: int| is_first_unset(keys, k)].0
            },
            None => all_set(needed_keys(opp@)),
        },
{
    let keys: [(OppField, Pubkey); 9] = [
        (OppField::MarginfiGroup, opp.marginfi_group),
        (OppField::AssetBank, opp.asset_bank),
        (OppField::AssetBankOracle, opp.asset_bank_oracle),
        (OppField::AssetBankLiquidityVault, opp.asset_bank_liquidity_vault),
        (OppField::LiabBank, opp.liab_bank),
        (OppField::LiabBankOracle, opp.liab_bank_oracle),
        (OppField::LiabBankLiquidityVault, opp.liab_bank_liquidity_vault),
        (OppField::InsuranceVault, opp.insurance_vault),
        (OppField::LiquidatorMarginfiAccount, opp.liquidator_marginfi_account),
    ];
    let ghost needed = needed_keys(opp@);
    assert(keys@ =~= needed);
    let mut i: usize = 0;
    while i < 9
        invariant
            i <= 9,
            keys@ == needed,
            needed.len() == 9,
            needed == needed_keys(opp@),
            forall|j: int| 0 <= j < i ==> (#[trigger] needed[j]).1 != zero_key(),
        decreases 9 - i,
    {
        if keys[i].1 == Pubkey::default() {
            proof {
                assert(is_first_unset(needed, i as int));
                let k = choose|k: int| is_first_unset(needed, k);
                assert(needed[i as int].1 == zero_key());
                assert(needed[k].1 == zero_key());
            }
            return Some(keys[i].0);
        }
        i = i + 1;
    }
    None
}

/// Writes the instruction that seizes the opportunity's asset for its debt.
///
/// The accounts are, for the account order of the program: the group, the
/// asset bank and its oracle, the liability bank and its oracle, the
/// liquidator's account and signer, the position, the vaults, the token
/// program, and for the health check the position's banks each followed by
/// its oracle, without which the program rejects the transaction.
pub fn write_liquidation(
    opp: &Opportunity,
    layout_verified: bool,
    program_id: Pubkey,
    signer: Pubkey,
    token_program: Option<Pubkey>,
) -> (out: Result<Instruction, BuildError>)
    ensures
        is_built(out, opp@, layout_verified, program_id, signer, token_program),
{
    if !layout_verified {
        return Err(BuildError::LayoutUnverified);
    }
    // Reject an opportunity with unset accounts rather than sending
    // a transaction full of system-program (zero) pubkeys.
    if let Some(f) = first_unset(opp) {
        return Err(BuildError::Unset(f));
    }
    if opp.liquidate_asset_amount == 0 {
        return Err(BuildError::ZeroAmount);
    }
    let token_program: Pubkey = match token_program {
        Some(k) => k,
        None => return Err(BuildError::BadTokenProgram),
    };

    let disc: [u8; 8] = anchor_ix_disc("lending_account_liquidate");
    let amount: [u8; 8] = u64_bytes(opp.liquidate_asset_amount);
    let mut data: Vec<u8> = Vec::with_capacity(16);
    let mut i: usize = 0;
    while i < 8
        invariant
            i <= 8,
            data@ == disc@.take(i as int),
        decreases 8 - i,
    {
        data.push(disc[i]);
        assert(disc@.take(i + 1) =~= disc@.take(i as int).push(disc@[i as int]));
        i = i + 1;
    }
    assert(data@ =~= disc@);
    let mut i: usize = 0;
    while i < 8
        invariant
            i <= 8,
            data@ == disc@ + amount@.take(i as int),
        decreases 8 - i,
    {
        data.push(amount[i]);
        assert(amount@.take(i + 1) =~= amount@.take(i as int).push(amount@[i as int]));
        i = i + 1;
    }
    assert(data@.take(8) =~= disc@);
    assert(data@.subrange(8, 16) =~= amount@);

    let mut accounts: Vec<AccountMeta> = Vec::new();
    accounts.push(AccountMeta::new_readonly(opp.marginfi_group));
    accounts.push(AccountMeta::new(opp.asset_bank, false));
    accounts.push(AccountMeta::new_readonly(opp.asset_bank_oracle));
    accounts.push(AccountMeta::new(opp.liab_bank, false));
    accounts.push(AccountMeta::new_readonly(opp.liab_bank_oracle));
    accounts.push(AccountMeta::new(opp.liquidator_marginfi_account, false));
    accounts.push(AccountMeta::new(signer, true));
    accounts.push(AccountMeta::new(opp.position, false));
    accounts.push(AccountMeta::new(opp.liab_bank_liquidity_vault, false));
    accounts.push(AccountMeta::new(opp.asset_bank_liquidity_vault, false));
    accounts.push(AccountMeta::new(opp.insurance_vault, false));
    accounts.push(AccountMeta::new_readonly(token_program));
    let ghost start = fixed_accounts(opp@, signer, token_program);
    assert(accounts@ =~= start);

    let remaining: &Vec<(Pubkey, Pubkey)> = &opp.liquidatee_remaining_accounts;
    assert(health_accounts(remaining@.take(0)) =~= Seq::<AccountMeta>::empty());
    let mut i: usize = 0;
    while i < remaining.len()
        invariant
            i <= remaining@.len(),
            accounts@ == start + health_accounts(remaining@.take(i as int)),
        decreases remaining@.len() - i,
    {
        let ghost before = health_accounts(remaining@.take(i as int));
        accounts.push(AccountMeta::new_readonly(remaining[i].0));
        accounts.push(AccountMeta::new_readonly(remaining[i].1));
        assert(health_accounts(remaining@.take(i + 1)) =~= before.push(
            AccountMeta::reads(remaining@[i as int].0),
        ).push(AccountMeta::reads(remaining@[i as int].1)));
        i = i + 1;
    }
    assert(remaining@.take(remaining@.len() as int) =~= remaining@);
    Ok(Instruction { program_id, accounts, data })
}

/// Whether `out` is what the parts of a liquidator make.
pub open spec fn is_assembled(
    out: Result<Liquidator, KeypairError>,
    keypair: Seq<u8>,
    key: Option<Seq<u8>>,
    program_id: Option<Pubkey>,
    dry_run: bool,
    min_profit_usd: Double,
) -> bool {
    match (key, program_id) {
        (None, _) => out == Err::<Liquidator, KeypairError>(KeypairError::NotKeypair),
        (Some(_), None) => out == Err::<Liquidator, KeypairError>(KeypairError::BadProgramId),
        (Some(key), Some(program_id)) => {
            &&& out matches Ok(l)
            &&& l.keypair@ == keypair
            &&& l.key == key_of(key)
            &&& l.program_id == program_id
            &&& l.dry_run == dry_run
            &&& l.min_profit_usd == min_profit_usd
        },
    }
}

impl Liquidator {
    /// Puts a liquidator together.
    pub fn assemble(
        keypair: Vec<u8>,
        key: Option<Vec<u8>>,
        program_id: Option<Pubkey>,
        dry_run: bool,
        min_profit_usd: Double,
    ) -> (out: Result<Liquidator, KeypairError>)
        requires
            key matches Some(k) ==> k@.len() == 32,
        ensures
            is_assembled(
                out,
                keypair@,
                match key {
                    Some(k) => Some(k@),
                    None => None,
                },
                program_id,
                dry_run,
                min_profit_usd,
            ),
    {
        let key: Pubkey = match key {
            Some(key) => Pubkey::from_bytes(key.as_slice()),
            None => return Err(KeypairError::NotKeypair),
        };
        match program_id {
            Some(program_id) => Ok(
                Liquidator { keypair, key, program_id, dry_run, min_profit_usd },
            ),
            None => Err(KeypairError::BadProgramId),
        }
    }

    /// Load the liquidator keypair from the contents of a standard Solana CLI
    /// keypair file (a JSON array of 64 bytes).
    pub fn from_keypair_file(contents: &str, dry_run: bool, min_profit_usd: Double) -> (out: Result<
        Liquidator,
        KeypairError,
    >)
        ensures
            match json_bytes(contents@) {
                None => out == Err::<Liquidator, KeypairError>(KeypairError::NotByteArray),
                Some(bytes) => is_assembled(
                    out,
                    bytes,
                    keypair_key(bytes),
                    address_of("MFv2hWf31Z9kbCa1snEPYctwafyhdvnV7FZnsebVacA"@),
                    dry_run,
                    min_profit_usd,
                ),
            },
            out matches Ok(l) ==> l.keypair@.len() == 64 && l.key == key_of(
                l.keypair@.subrange(32, 64),
            ),
    {
        let bytes: Vec<u8> = match parse_json_bytes(contents) {
            Ok(bytes) => bytes,
            Err(_) => return Err(KeypairError::NotByteArray),
        };
        let key: Option<Vec<u8>> = keypair_pubkey(bytes.as_slice());
        let program_id: Option<Pubkey> = parse_pubkey(
            "MFv2hWf31Z9kbCa1snEPYctwafyhdvnV7FZnsebVacA",
        );
        Liquidator::assemble(bytes, key, program_id, dry_run, min_profit_usd)
    }

    /// The liquidator's public key.
    pub fn pubkey(&self) -> (out: Pubkey)
        ensures
            out == self.key,
    {
        self.key
    }

    /// Construct the `lending_account_liquidate` instruction for an
    /// opportunity.
    pub fn build_liquidate_ix(&self, opp: &Opportunity) -> (out: Result<Instruction, BuildError>)
        ensures
            is_built(
                out,
                opp@,
                LIQUIDATE_LAYOUT_VERIFIED,
                self.program_id,
                self.key,
                token_program(),
            ),
    {
        write_liquidation(
            opp,
            LIQUIDATE_LAYOUT_VERIFIED,
            self.program_id,
            self.key,
            spl_token_program_id(),
        )
    }

    /// Decide on one opportunity, by its estimated net profit: skip it, report
    /// it, or send an instruction.
    pub fn try_liquidate(&self, opp: &Opportunity, est_profit_usd: Double) -> (out: Result<
        Decision,
        BuildError,
    >)
        ensures
            if est_profit_usd.lt(self.min_profit_usd) {
                out == Ok::<Decision, BuildError>(Decision::BelowThreshold)
            } else if self.dry_run {
                out == Ok::<Decision, BuildError>(Decision::DryRun)
            } else {
                match out {
                    Ok(Decision::Send(ix)) => is_built(
                        Ok(ix),
                        opp@,
                        LIQUIDATE_LAYOUT_VERIFIED,
                        self.program_id,
                        self.key,
                        token_program(),
                    ),
                    Ok(_) => false,
                    Err(e) => is_built(
                        Err(e),
                        opp@,
                        LIQUIDATE_LAYOUT_VERIFIED,
                        self.program_id,
                        self.key,
                        token_program(),
                    ),
                }
            },
    {
        if est_profit_usd.less_than(self.min_profit_usd) {
            return Ok(Decision::BelowThreshold);
        }
        if self.dry_run {
            return Ok(Decision::DryRun);
        }
        match self.build_liquidate_ix(opp) {
            Ok(ix) => Ok(Decision::Send(ix)),
            Err(e) => Err(e),
        }
    }
}

/// While the layout is not verified nothing is ever built.
pub proof fn law_unverified_layout_builds_nothing(
    out: Result<Instruction, BuildError>,
    opp: OpportunityModel,
    program_id: Pubkey,
    signer: Pubkey,
    token_program: Option<Pubkey>,
)
    requires
        is_built(out, opp, false, program_id, signer, token_program),
    ensures
        out == Err::<Instruction, BuildError>(BuildError::LayoutUnverified),
{
}

/// An instruction that is built has all its keys set, seizes something, and
/// is signed by the liquidator alone.
pub proof fn law_built_instruction_is_complete(
    ix: Instruction,
    opp: OpportunityModel,
    layout_verified: bool,
    program_id: Pubkey,
    signer: Pubkey,
    token_program: Option<Pubkey>,
)
    requires
        is_built(Ok(ix), opp, layout_verified, program_id, signer, token_program),
    ensures
        layout_verified,
        all_set(needed_keys(opp)),
        opp.liquidate_asset_amount > 0,
        ix@.accounts.len() == 12 + 2 * opp.liquidatee_remaining_accounts.len(),
        forall|i: int|
            0 <= i < ix@.accounts.len() ==> ((#[trigger] ix@.accounts[i]).is_signer <==> i == 6),
        ix@.accounts[6].pubkey == signer,
{
}

/// An opportunity as a scan gives it, without a liquidator account and an
/// amount, is never sent.
pub proof fn law_scanned_opportunity_is_not_sent(
    out: Result<Instruction, BuildError>,
    opp: OpportunityModel,
    layout_verified: bool,
    program_id: Pubkey,
    signer: Pubkey,
    token_program: Option<Pubkey>,
)
    requires
        opp.liquidator_marginfi_account == zero_key(),
        is_built(out, opp, layout_verified, program_id, signer, token_program),
    ensures
        out is Err,
{
    assert(needed_keys(opp)[8].1 == zero_key());
}

/// What becomes of an opportunity: below the threshold it is skipped; otherwise
/// a dry run only reports it; otherwise it is sent as the instruction that is
/// built for it, or not at all where none can be built.
pub proof fn law_decision_follows_the_rules(
    l: Liquidator,
    opp: Opportunity,
    profit: Double,
    out: Result<Decision, BuildError>,
)
    requires
        call_ensures(Liquidator::try_liquidate, (&l, &opp, profit), out),
    ensures
        ({
            let below = !profit.is_nan() && !l.min_profit_usd.is_nan() && profit.units()
                < l.min_profit_usd.units();
            &&& below <==> out == Ok::<Decision, BuildError>(Decision::BelowThreshold)
            &&& !below && l.dry_run <==> out == Ok::<Decision, BuildError>(Decision::DryRun)
            &&& !below && !l.dry_run <==> (out is Err || (out is Ok && out->Ok_0 is Send))
        }),
{
    if !profit.is_nan() && !l.min_profit_usd.is_nan() {
        law_order_is_numeric(profit, l.min_profit_usd);
    }
}

/// While the layout of the instruction has not been verified, nothing is ever
/// sent: what is worth it and no dry run is refused.
pub proof fn law_nothing_is_sent_yet(
    l: Liquidator,
    opp: Opportunity,
    profit: Double,
    out: Result<Decision, BuildError>,
)
    requires
        call_ensures(Liquidator::try_liquidate, (&l, &opp, profit), out),
    ensures
        out matches Ok(decision) ==> !(decision is Send),
        out matches Err(e) ==> e == BuildError::LayoutUnverified,
{
}

/// The instruction that is built calls the program, names the accounts of the
/// liquidation in the order in which the program takes them, followed for the
/// health check by each bank of the position and its oracle, and carries the
/// discriminator of the instruction and the amount to seize.
pub proof fn law_instruction_says_what_to_do(
    ix: Instruction,
    opp: OpportunityModel,
    layout_verified: bool,
    program_id: Pubkey,
    signer: Pubkey,
    token_program: Option<Pubkey>,
)
    requires
        is_built(Ok(ix), opp, layout_verified, program_id, signer, token_program),
    ensures
        ({
            let only_read = |k: Pubkey|
                AccountMeta { pubkey: k, is_signer: false, is_writable: false };
            let written = |k: Pubkey|
                AccountMeta { pubkey: k, is_signer: false, is_writable: true };
            let a = ix@.accounts;
            let n = opp.liquidatee_remaining_accounts.len() as int;
            &&& ix@.program_id == program_id
            &&& a.len() == 12 + 2 * n
            &&& a[0] == only_read(opp.marginfi_group)
            &&& a[1] == written(opp.asset_bank)
            &&& a[2] == only_read(opp.asset_bank_oracle)
            &&& a[3] == written(opp.liab_bank)
            &&& a[4] == only_read(opp.liab_bank_oracle)
            &&& a[5] == written(opp.liquidator_marginfi_account)
            &&& a[6] == (AccountMeta { pubkey: signer, is_signer: true, is_writable: true })
            &&& a[7] == written(opp.position)
            &&& a[8] == written(opp.liab_bank_liquidity_vault)
            &&& a[9] == written(opp.asset_bank_liquidity_vault)
            &&& a[10] == written(opp.insurance_vault)
            &&& token_program == Some(a[11].pubkey) && a[11] == only_read(a[11].pubkey)
            &&& forall|j: int|
                0 <= j < n ==> a[12 + 2 * j] == only_read(
                    (#[trigger] opp.liquidatee_remaining_accounts[j]).0,
                ) && a[13 + 2 * j] == only_read(opp.liquidatee_remaining_accounts[j].1)
            &&& ix@.data.len() == 16
            &&& ix@.data.take(8) == sha256(
                encode_utf8("global:"@ + "lending_account_liquidate"@),
            ).take(8)
            &&& stores(ix@.data, 8, 8, opp.liquidate_asset_amount as int)
        }),
{
    law_read_number_is_stored(ix@.data, 8, 8);
    let n = opp.liquidatee_remaining_accounts.len() as int;
    let a = ix@.accounts;
    assert forall|j: int| 0 <= j < n implies a[12 + 2 * j].pubkey == (
    #[trigger] opp.liquidatee_remaining_accounts[j]).0 && a[13 + 2 * j].pubkey
        == opp.liquidatee_remaining_accounts[j].1 by {
        assert((2 * j) / 2 == j && (2 * j + 1) / 2 == j);
    }
}

/// The key of an opportunity that a field names.
pub open spec fn named_key(opp: OpportunityModel, f: OppField) -> Pubkey {
    match f {
        OppField::MarginfiGroup => opp.marginfi_group,
        OppField::AssetBank => opp.asset_bank,
        OppField::AssetBankOracle => opp.asset_bank_oracle,
        OppField::AssetBankLiquidityVault => opp.asset_bank_liquidity_vault,
        OppField::LiabBank => opp.liab_bank,
        OppField::LiabBankOracle => opp.liab_bank_oracle,
        OppField::LiabBankLiquidityVault => opp.liab_bank_liquidity_vault,
        OppField::InsuranceVault => opp.insurance_vault,
        OppField::LiquidatorMarginfiAccount => opp.liquidator_marginfi_account,
    }
}

/// The place of a field among those that must be set.
pub open spec fn place_of(f: OppField) -> int {
    match f {
        OppField::MarginfiGroup => 0,
        OppField::AssetBank => 1,
        OppField::AssetBankOracle => 2,
        OppField::AssetBankLiquidityVault => 3,
        OppField::LiabBank => 4,
        OppField::LiabBankOracle => 5,
        OppField::LiabBankLiquidityVault => 6,
        OppField::InsuranceVault => 7,
        OppField::LiquidatorMarginfiAccount => 8,
    }
}

/// An instruction is built exactly when the layout is verified, every key is
/// set, there is something to seize and the token program is known. Otherwise
/// the error says which of these is missing, in that order, and of the keys
/// the first that is zero.
pub proof fn law_instruction_is_built_or_refused(
    out: Result<Instruction, BuildError>,
    opp: OpportunityModel,
    layout_verified: bool,
    program_id: Pubkey,
    signer: Pubkey,
    token_program: Option<Pubkey>,
)
    requires
        is_built(out, opp, layout_verified, program_id, signer, token_program),
    ensures
        ({
            let zero = Pubkey { hi: 0, lo: 0 };
            let set = forall|f: OppField| #[trigger] named_key(opp, f) != zero;
            &&& out is Ok <==> layout_verified && set && opp.liquidate_asset_amount > 0
                && token_program is Some
            &&& out matches Err(e) ==> match e {
                BuildError::LayoutUnverified => !layout_verified,
                BuildError::Unset(f) => layout_verified && named_key(opp, f) == zero && forall|
                    g: OppField,
                |
                    place_of(g) < place_of(f) ==> #[trigger] named_key(opp, g) != zero,
                BuildError::ZeroAmount => layout_verified && set && opp.liquidate_asset_amount == 0,
                BuildError::BadTokenProgram => layout_verified && set && opp.liquidate_asset_amount
                    > 0 && token_program is None,
            }
        }),
{
    let zero = Pubkey { hi: 0, lo: 0 };
    let keys = needed_keys(opp);
    assert forall|f: OppField| 0 <= place_of(f) < 9 && #[trigger] named_key(opp, f) == keys[place_of(
        f,
    )].1 by {
        assert(keys[place_of(f)].0 == f);
    }
    assert(all_set(keys) <==> forall|f: OppField| #[trigger] named_key(opp, f) != zero) by {
        if all_set(keys) {
            assert forall|f: OppField| #[trigger] named_key(opp, f) != zero by {
                assert(keys[place_of(f)].1 != zero_key());
            }
        }
        if forall|f: OppField| #[trigger] named_key(opp, f) != zero {
            assert forall|j: int| 0 <= j < keys.len() implies (#[trigger] keys[j]).1
                != zero_key() by {
                assert(place_of(keys[j].0) == j);
                assert(named_key(opp, keys[j].0) != zero);
            }
        }
    }
    if layout_verified && !all_set(keys) {
        lemma_first_unset_exists(keys, 0);
        let k = choose|k: int| is_first_unset(keys, k);
        assert(place_of(keys[k].0) == k);
        assert(named_key(opp, keys[k].0) == keys[k].1);
    }
}

proof fn lemma_first_unset_exists(keys: Seq<(OppField, Pubkey)>, from: int)
    requires
        0 <= from <= keys.len(),
        forall|j: int| 0 <= j < from ==> (#[trigger] keys[j]).1 != zero_key(),
        !all_set(keys),
    ensures
        exists|k: int| is_first_unset(keys, k),
    decreases keys.len() - from,
{
    if from < keys.len() {
        if keys[from].1 == zero_key() {
            assert(is_first_unset(keys, from));
        } else {
            lemma_first_unset_exists(keys, from + 1);
        }
    }
}

/// A liquidator that was loaded signs with the second half of its keypair as
/// its key, is for the lending program, and keeps the settings it was loaded
/// with; without a keypair there is none.
pub proof fn law_liquidator_keeps_its_settings(
    contents: &str,
    dry_run: bool,
    min_profit_usd: Double,
    out: Result<Liquidator, KeypairError>,
)
    requires
        call_ensures(Liquidator::from_keypair_file, (contents, dry_run, min_profit_usd), out),
    ensures
        out matches Ok(l) ==> {
            &&& json_bytes(contents@) == Some(l.keypair@)
            &&& keypair_key(l.keypair@) is Some
            &&& l.keypair@.len() == 64
            &&& l.key == key_of(l.keypair@.subrange(32, 64))
            &&& Some(l.program_id) == address_of("MFv2hWf31Z9kbCa1snEPYctwafyhdvnV7FZnsebVacA"@)
            &&& l.dry_run == dry_run
            &&& l.min_profit_usd == min_profit_usd
        },
        out matches Err(e) ==> match e {
            KeypairError::NotByteArray => json_bytes(contents@) is None,
            KeypairError::NotKeypair => json_bytes(contents@) matches Some(bytes) && keypair_key(
                bytes,
            ) is None,
            KeypairError::BadProgramId => json_bytes(contents@) matches Some(bytes) && keypair_key(
                bytes,
            ) is Some,
        },
{
}

} // verus!
