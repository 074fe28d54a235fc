//! Who signs, what is sent, and what is not.

use liq_bot::base58::parse_pubkey;
use liq_bot::double::Double;
use liq_bot::health::assess;
use liq_bot::liquidator::{
    spl_token_program_id, write_liquidation, BuildError, Decision, KeypairError, Liquidator, OppField,
    LIQUIDATE_LAYOUT_VERIFIED,
};
use liq_bot::pubkey::Pubkey;
use liq_bot::scanner::Opportunity;
use solana_sdk::signature::{keypair_from_seed, Keypair, Signer};

fn key(n: u8) -> Pubkey {
    Pubkey::from_bytes(&[n; 32])
}

fn d(v: f64) -> Double {
    Double::from_bits(v.to_bits())
}

fn keypair() -> Keypair {
    keypair_from_seed(&[7u8; 32]).unwrap()
}

fn keypair_file() -> String {
    format!("{:?}", keypair().to_bytes().to_vec())
}

fn opportunity() -> Opportunity {
    Opportunity {
        position: key(1),
        owner: key(2),
        report: assess(d(90.0), d(100.0), d(0.9)),
        marginfi_group: key(3),
        asset_bank: key(4),
        asset_bank_oracle: key(5),
        asset_bank_liquidity_vault: key(6),
        liab_bank: key(7),
        liab_bank_oracle: key(8),
        liab_bank_liquidity_vault: key(9),
        insurance_vault: key(10),
        liquidator_marginfi_account: key(11),
        liquidate_asset_amount: 0x0102_0304_0506_0708,
        liquidatee_remaining_accounts: vec![(key(4), key(5)), (key(7), key(8))],
    }
}

#[test]
fn keypair_file_makes_a_liquidator() {
    let l = Liquidator::from_keypair_file(&keypair_file(), true, d(1.5)).unwrap();
    assert_eq!(l.pubkey().to_bytes(), keypair().pubkey().to_bytes().to_vec());
    assert_eq!(l.keypair, keypair().to_bytes().to_vec());
    assert_eq!(l.keypair[32..], l.pubkey().to_bytes()[..]);
    assert_eq!(l.program_id, parse_pubkey("MFv2hWf31Z9kbCa1snEPYctwafyhdvnV7FZnsebVacA").unwrap());
    assert!(l.dry_run);
    assert_eq!(l.min_profit_usd, d(1.5));
}

fn load_error(contents: &str) -> KeypairError {
    match Liquidator::from_keypair_file(contents, true, d(0.0)) {
        Ok(_) => panic!("accepted: {contents}"),
        Err(e) => e,
    }
}

#[test]
fn keypair_file_must_be_a_keypair() {
    assert_eq!(load_error(""), KeypairError::NotByteArray);
    assert_eq!(load_error("{}"), KeypairError::NotByteArray);
    assert_eq!(load_error("[1, 2, 256]"), KeypairError::NotByteArray);
    assert_eq!(load_error("[1, 2, 3"), KeypairError::NotByteArray);
    assert_eq!(load_error("[1, 2, 3]"), KeypairError::NotKeypair);
    let bytes = keypair().to_bytes().to_vec();
    let mut longer = bytes.clone();
    longer.push(0);
    assert_eq!(load_error(&format!("{longer:?}")), KeypairError::NotKeypair);
    let mut other = bytes;
    other[0] ^= 1;
    assert_eq!(load_error(&format!("{other:?}")), KeypairError::NotKeypair);
}

#[test]
fn liquidator_needs_its_parts() {
    let program = Some(key(9));
    let made = |key: Option<Vec<u8>>, program| Liquidator::assemble(vec![1, 2], key, program, false, d(2.0));
    assert_eq!(made(None, program).err(), Some(KeypairError::NotKeypair));
    assert_eq!(made(None, None).err(), Some(KeypairError::NotKeypair));
    assert_eq!(made(Some(vec![5; 32]), None).err(), Some(KeypairError::BadProgramId));
    let l = made(Some(vec![5; 32]), program).unwrap();
    assert_eq!((l.pubkey(), l.program_id, l.dry_run), (key(5), key(9), false));
    assert_eq!(l.keypair, vec![1, 2]);
}

#[test]
fn instruction_is_laid_out() {
    let token = spl_token_program_id().unwrap();
    let ix = write_liquidation(&opportunity(), true, key(20), key(21), Some(token)).unwrap();
    assert_eq!(ix.program_id, key(20));
    assert_eq!(
        ix.data,
        vec![214, 169, 151, 213, 251, 167, 86, 219, 8, 7, 6, 5, 4, 3, 2, 1]
    );
    let accounts: Vec<(Pubkey, bool, bool)> =
        ix.accounts.iter().map(|a| (a.pubkey, a.is_signer, a.is_writable)).collect();
    assert_eq!(
        accounts,
        vec![
            (key(3), false, false),
            (key(4), false, true),
            (key(5), false, false),
            (key(7), false, true),
            (key(8), false, false),
            (key(11), false, true),
            (key(21), true, true),
            (key(1), false, true),
            (key(9), false, true),
            (key(6), false, true),
            (key(10), false, true),
            (token, false, false),
            (key(4), false, false),
            (key(5), false, false),
            (key(7), false, false),
            (key(8), false, false),
        ]
    );
}

#[test]
fn token_program_is_the_known_one() {
    let expected = solana_sdk::pubkey::Pubkey::new_from_array(
        spl_token_program_id().unwrap().to_bytes().try_into().unwrap(),
    );
    assert_eq!(expected.to_string(), "TokenkegQfeZyiNwAJbNbGKPFXCWuBvf9Ss623VQ5DA");
}

fn build_error(opp: &Opportunity, verified: bool, token: Option<Pubkey>) -> BuildError {
    write_liquidation(opp, verified, key(20), key(21), token).unwrap_err()
}

#[test]
fn unset_keys_are_refused_in_order() {
    let token = Some(key(30));
    let zero = Pubkey::default();
    let unset = |change: fn(&mut Opportunity, Pubkey)| {
        let mut opp = opportunity();
        change(&mut opp, zero);
        match build_error(&opp, true, token) {
            BuildError::Unset(f) => f,
            other => panic!("{other:?}"),
        }
    };
    assert_eq!(unset(|o, z| o.marginfi_group = z), OppField::MarginfiGroup);
    assert_eq!(unset(|o, z| o.asset_bank = z), OppField::AssetBank);
    assert_eq!(unset(|o, z| o.asset_bank_oracle = z), OppField::AssetBankOracle);
    assert_eq!(unset(|o, z| o.asset_bank_liquidity_vault = z), OppField::AssetBankLiquidityVault);
    assert_eq!(unset(|o, z| o.liab_bank = z), OppField::LiabBank);
    assert_eq!(unset(|o, z| o.liab_bank_oracle = z), OppField::LiabBankOracle);
    assert_eq!(unset(|o, z| o.liab_bank_liquidity_vault = z), OppField::LiabBankLiquidityVault);
    assert_eq!(unset(|o, z| o.insurance_vault = z), OppField::InsuranceVault);
    assert_eq!(
        unset(|o, z| o.liquidator_marginfi_account = z),
        OppField::LiquidatorMarginfiAccount
    );
    let first = unset(|o, z| {
        o.insurance_vault = z;
        o.liab_bank = z;
    });
    assert_eq!(first, OppField::LiabBank);
    assert_eq!(first.label(), "liab_bank");
    assert_eq!(OppField::LiquidatorMarginfiAccount.label(), "liquidator_marginfi_account");
}

#[test]
fn nothing_is_built_without_need() {
    let opp = opportunity();
    assert_eq!(build_error(&opp, false, Some(key(30))), BuildError::LayoutUnverified);
    assert_eq!(build_error(&opp, true, None), BuildError::BadTokenProgram);
    let mut empty = opportunity();
    empty.liquidate_asset_amount = 0;
    assert_eq!(build_error(&empty, true, Some(key(30))), BuildError::ZeroAmount);
}

#[test]
fn unverified_layout_blocks_sending() {
    assert!(!LIQUIDATE_LAYOUT_VERIFIED);
    let l = Liquidator::from_keypair_file(&keypair_file(), false, d(1.0)).unwrap();
    assert_eq!(l.build_liquidate_ix(&opportunity()).unwrap_err(), BuildError::LayoutUnverified);
    assert_eq!(l.try_liquidate(&opportunity(), d(5.0)).err(), Some(BuildError::LayoutUnverified));
}

#[test]
fn small_profits_and_dry_runs_are_skipped() {
    let dry = Liquidator::from_keypair_file(&keypair_file(), true, d(2.0)).unwrap();
    let wet = Liquidator::from_keypair_file(&keypair_file(), false, d(2.0)).unwrap();
    let opp = opportunity();
    for l in [&dry, &wet] {
        assert!(matches!(l.try_liquidate(&opp, d(1.99)), Ok(Decision::BelowThreshold)));
        assert!(matches!(l.try_liquidate(&opp, d(-3.0)), Ok(Decision::BelowThreshold)));
    }
    assert!(matches!(dry.try_liquidate(&opp, d(2.0)), Ok(Decision::DryRun)));
    assert!(wet.try_liquidate(&opp, d(2.0)).is_err());
}
