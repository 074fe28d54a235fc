//! Domain types shared across the scanner.

use crate::double::Double;
use crate::pubkey::Pubkey;
use vstd::arithmetic::power::{lemma_pow0, lemma_pow_positive, pow};
use vstd::arithmetic::power2::{lemma_pow2_pos, pow2};
use vstd::prelude::*;

verus! {

/// What a raw on-chain integer is divided by.
#[derive(Clone, Copy, PartialEq, Eq, Structural, Debug)]
pub enum Scale {
    /// By 2 to this power.
    Binary(u32),
    /// By 10 to this power.
    Decimal(u32),
}

/// An amount, a weight or a value per share, as the chain stores it: a signed
/// integer, times 10 to the power `lift`, divided by `scale`.
#[derive(Clone, Copy, PartialEq, Eq, Structural, Debug)]
pub struct Quantity {
    pub negative: bool,
    pub magnitude: u128,
    pub lift: u8,
    pub scale: Scale,
}

impl Quantity {
    /// The signed integer with its powers of ten.
    pub open spec fn numerator(self) -> int {
        let size = self.magnitude * pow(10, self.lift as nat);
        if self.negative {
            -size
        } else {
            size
        }
    }

    /// What the numerator is divided by.
    pub open spec fn denominator(self) -> int {
        match self.scale {
            Scale::Binary(n) => pow2(n as nat) as int,
            Scale::Decimal(n) => pow(10, n as nat),
        }
    }

    /// Whether the quantity is above zero.
    pub open spec fn is_positive(self) -> bool {
        !self.negative && self.magnitude > 0
    }

    /// An unsigned integer over `scale`.
    pub open spec fn plain(magnitude: u128, scale: Scale) -> Quantity {
        Quantity { negative: false, magnitude, lift: 0, scale }
    }

    /// A signed integer over `scale`.
    pub open spec fn signed(raw: int, scale: Scale) -> Quantity {
        Quantity {
            negative: raw < 0,
            magnitude: if raw < 0 {
                (-raw) as u128
            } else {
                raw as u128
            },
            lift: 0,
            scale,
        }
    }

    pub fn unsigned(magnitude: u128, scale: Scale) -> (out: Quantity)
        ensures
            out == Quantity::plain(magnitude, scale),
    {
        Quantity { negative: false, magnitude, lift: 0, scale }
    }

    pub fn from_signed(raw: i128, scale: Scale) -> (out: Quantity)
        ensures
            out == Quantity::signed(raw as int, scale),
    {
        if raw < 0 {
            let below: i128 = -(raw + 1);
            Quantity { negative: true, magnitude: below as u128 + 1, lift: 0, scale }
        } else {
            Quantity { negative: false, magnitude: raw as u128, lift: 0, scale }
        }
    }

    pub fn positive(&self) -> (out: bool)
        ensures
            out == self.is_positive(),
    {
        !self.negative && self.magnitude > 0
    }
}

/// A lending pool as a protocol's account describes it.
#[derive(Clone, Copy, PartialEq, Eq, Structural, Debug)]
pub struct BankConfig {
    pub address: Pubkey,
    pub mint: Pubkey,
    pub oracle: Pubkey,
    pub decimals: u8,
    pub asset_weight_maint: Quantity,
    pub liab_weight_maint: Quantity,
    pub asset_share_value: Quantity,
    pub liab_share_value: Quantity,
    pub group: Pubkey,
    pub liquidity_vault: Pubkey,
    pub insurance_vault: Pubkey,
}

/// A bank and the shares of it that a position holds.
pub type Holding = (Pubkey, Quantity);

/// A borrower: the shares deposited and the shares borrowed, bank by bank.
pub struct RawPosition {
    pub address: Pubkey,
    pub owner: Pubkey,
    pub deposits: Vec<Holding>,
    pub borrows: Vec<Holding>,
}

/// What a position says, apart from how it is stored.
#[verifier::ext_equal]
pub struct PositionModel {
    pub address: Pubkey,
    pub owner: Pubkey,
    pub deposits: Seq<Holding>,
    pub borrows: Seq<Holding>,
}

impl View for RawPosition {
    type V = PositionModel;

    open spec fn view(&self) -> PositionModel {
        PositionModel {
            address: self.address,
            owner: self.owner,
            deposits: self.deposits@,
            borrows: self.borrows@,
        }
    }
}

/// What each of the positions says.
pub open spec fn models(positions: Seq<RawPosition>) -> Seq<PositionModel> {
    positions.map_values(|p: RawPosition| p@)
}

/// One holding with everything its value in dollars is computed from:
/// `shares * share_value / 10^decimals` tokens at `price`, counted by `weight`.
#[derive(Clone, Copy, PartialEq, Eq, Structural, Debug)]
pub struct PricedAsset {
    pub mint: Pubkey,
    pub shares: Quantity,
    pub share_value: Quantity,
    pub decimals: u8,
    pub price: Double,
    pub weight: Quantity,
}

/// Forward-looking risk buckets: how many positions sit at each health
/// threshold across ALL scanned positions (not just currently
/// liquidatable). This is the opportunity pipeline.
#[derive(Clone, Copy, PartialEq, Eq, Structural, Debug)]
pub struct RiskBuckets {
    /// Health factor below 1.00.
    pub liquidatable: usize,
    /// Health factor below 1.02.
    pub edge: usize,
    /// Health factor below 1.05.
    pub at_risk: usize,
    /// Health factor below 1.10.
    pub watch: usize,
    /// Every position fully priced this scan, also where its figures are too
    /// odd to count towards the thresholds.
    pub total_priced: usize,
}

impl RiskBuckets {
    pub open spec fn empty() -> RiskBuckets {
        RiskBuckets { liquidatable: 0, edge: 0, at_risk: 0, watch: 0, total_priced: 0 }
    }

    /// Each bucket lies inside the next.
    pub open spec fn nested(self) -> bool {
        self.liquidatable <= self.edge <= self.at_risk <= self.watch <= self.total_priced
    }
}

impl Default for RiskBuckets {
    fn default() -> (out: RiskBuckets)
        ensures
            out == RiskBuckets::empty(),
    {
        RiskBuckets { liquidatable: 0, edge: 0, at_risk: 0, watch: 0, total_priced: 0 }
    }
}

/// A position that is large, whatever its health.
#[derive(Clone, Copy, PartialEq, Eq, Structural, Debug)]
pub struct WhaleRow {
    pub position: Pubkey,
    pub owner: Pubkey,
    pub debt_usd: Double,
    pub health_factor: Double,
    pub liquidatable: bool,
}

/// A mint whose banks do not agree on its price.
#[derive(Clone, Copy, PartialEq, Eq, Structural, Debug)]
pub struct DivergenceRow {
    pub mint: Pubkey,
    pub sources: usize,
    pub min_price: Double,
    pub max_price: Double,
    pub spread_pct: Double,
}

/// Chain state snapshot, taken once per scan.
#[derive(Clone, Copy, PartialEq, Eq, Structural, Debug)]
pub struct ChainState {
    pub slot: u64,
    pub priority_fee_microlamports: u64,
}

impl Default for ChainState {
    fn default() -> (out: ChainState)
        ensures
            out == (ChainState { slot: 0, priority_fee_microlamports: 0 }),
    {
        ChainState { slot: 0, priority_fee_microlamports: 0 }
    }
}

/// A quantity made from a signed integer stands for that integer over the
/// scale: over 2^n or over 10^n.
pub proof fn law_quantity_is_its_fraction(raw: int, n: u32)
    requires
        i128::MIN <= raw <= i128::MAX,
    ensures
        Quantity::signed(raw, Scale::Binary(n)).numerator() == raw,
        Quantity::signed(raw, Scale::Binary(n)).denominator() == pow2(n as nat),
        Quantity::signed(raw, Scale::Decimal(n)).numerator() == raw,
        Quantity::signed(raw, Scale::Decimal(n)).denominator() == pow(10, n as nat),
        Quantity::signed(raw, Scale::Binary(n)).is_positive() <==> raw > 0,
{
    lemma_pow0(10);
    assert(raw * 1 == raw && (-raw) * 1 == -raw);
}

/// A quantity made from an unsigned integer stands for that integer over the
/// scale.
pub proof fn law_plain_quantity_is_its_fraction(raw: u128, n: u32)
    ensures
        Quantity::plain(raw, Scale::Binary(n)).numerator() == raw,
        Quantity::plain(raw, Scale::Binary(n)).denominator() == pow2(n as nat),
        Quantity::plain(raw, Scale::Decimal(n)).numerator() == raw,
        Quantity::plain(raw, Scale::Decimal(n)).denominator() == pow(10, n as nat),
        Quantity::plain(raw, Scale::Binary(n)).is_positive() <==> raw > 0,
        Quantity::plain(raw, Scale::Decimal(n)).is_positive() <==> raw > 0,
{
    lemma_pow0(10);
    assert(raw * 1 == raw);
}

/// A quantity is above zero exactly when its numerator is.
pub proof fn law_positive_is_above_zero(q: Quantity)
    ensures
        q.is_positive() <==> q.numerator() > 0,
        q.denominator() > 0,
{
    lemma_pow_positive(10, q.lift as nat);
    let unit = pow(10, q.lift as nat);
    assert(q.magnitude * unit > 0 <==> q.magnitude > 0) by (nonlinear_arith)
        requires
            unit > 0,
            q.magnitude >= 0,
    ;
    assert(q.magnitude * unit >= 0) by (nonlinear_arith)
        requires
            unit > 0,
            q.magnitude >= 0,
    ;
    match q.scale {
        Scale::Binary(n) => {
            lemma_pow2_pos(n as nat);
        },
        Scale::Decimal(n) => {
            lemma_pow_positive(10, n as nat);
        },
    }
}

} // verus!
