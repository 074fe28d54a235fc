//! Double-precision figures, held by their bit patterns.
//!
//! Dollar amounts, prices and health factors are IEEE 754 binary64 numbers.
//! The decisions of this library only ever compare them, and a comparison of
//! doubles is a comparison of integers read off the bits: [`Double`] carries
//! the bits, and its methods are the ordered comparisons and the total order
//! of the standard.

use vstd::arithmetic::power2::{lemma2_to64, lemma_pow2_pos, lemma_pow2_unfold, pow2};
use vstd::prelude::*;

verus! {

/// The sign bit.
pub const SIGN_BIT: u64 = 0x8000_0000_0000_0000;

/// Positive infinity.
pub const INFINITY: u64 = 0x7ff0_0000_0000_0000;

/// 0.0
pub const ZERO: u64 = 0;

/// 1.0
pub const ONE: u64 = 0x3ff0_0000_0000_0000;

/// An IEEE 754 binary64 number. Two values are `==` when their bits are.
#[derive(Clone, Copy, PartialEq, Eq, Structural, Debug)]
pub struct Double {
    pub bits: u64,
}

impl Double {
    pub open spec fn of(bits: u64) -> Double {
        Double { bits }
    }

    pub open spec fn is_negative(self) -> bool {
        self.bits >= SIGN_BIT
    }

    /// The bits below the sign bit: exponent and fraction, as one number.
    pub open spec fn magnitude(self) -> nat {
        if self.is_negative() {
            (self.bits - SIGN_BIT) as nat
        } else {
            self.bits as nat
        }
    }

    pub open spec fn is_nan(self) -> bool {
        self.magnitude() > INFINITY
    }

    /// The place of the number among the doubles, both zeros being at 0.
    pub open spec fn place(self) -> int {
        if self.is_negative() {
            -(self.magnitude() as int)
        } else {
            self.magnitude() as int
        }
    }

    /// `self < other`, which no NaN takes part in.
    pub open spec fn lt(self, other: Double) -> bool {
        !self.is_nan() && !other.is_nan() && self.place() < other.place()
    }

    /// `self <= other`, which no NaN takes part in.
    pub open spec fn le(self, other: Double) -> bool {
        !self.is_nan() && !other.is_nan() && self.place() <= other.place()
    }

    /// The place of the bit pattern in the total order of the standard, in
    /// which -0 comes before +0 and the NaNs stand at both ends.
    pub open spec fn spec_rank(self) -> u64 {
        if self.is_negative() {
            (u64::MAX - self.bits) as u64
        } else {
            (SIGN_BIT + self.bits) as u64
        }
    }

    /// The number itself, in units of the smallest positive double (2^-1074).
    /// For an infinity this is the value one step beyond the largest double.
    pub open spec fn units(self) -> int {
        if self.is_negative() {
            -(magnitude_units(self.magnitude()) as int)
        } else {
            magnitude_units(self.magnitude()) as int
        }
    }

    pub fn from_bits(bits: u64) -> (out: Double)
        ensures
            out == Double::of(bits),
    {
        Double { bits }
    }

    fn nan(self) -> (out: bool)
        ensures
            out == self.is_nan(),
    {
        let magnitude: u64 = if self.bits >= SIGN_BIT {
            self.bits - SIGN_BIT
        } else {
            self.bits
        };
        magnitude > INFINITY
    }

    /// `self < other`.
    pub fn less_than(self, other: Double) -> (out: bool)
        ensures
            out == self.lt(other),
    {
        if self.nan() || other.nan() {
            return false;
        }
        if self.bits >= SIGN_BIT {
            if other.bits >= SIGN_BIT {
                self.bits > other.bits
            } else {
                self.bits != SIGN_BIT || other.bits != ZERO
            }
        } else if other.bits >= SIGN_BIT {
            false
        } else {
            self.bits < other.bits
        }
    }

    /// `self <= other`.
    pub fn at_most(self, other: Double) -> (out: bool)
        ensures
            out == self.le(other),
    {
        !self.nan() && !other.nan() && !other.less_than(self)
    }

    /// A number that orders doubles as the total order of the standard does.
    pub fn rank(self) -> (out: u64)
        ensures
            out == self.spec_rank(),
    {
        if self.bits >= SIGN_BIT {
            u64::MAX - self.bits
        } else {
            SIGN_BIT + self.bits
        }
    }
}

/// What the exponent and the fraction encode, in units of 2^-1074: a fraction
/// alone below the first exponent, and 53 significant bits shifted left by
/// the exponent from there on.
pub open spec fn magnitude_units(m: nat) -> nat {
    let exponent = m / 0x10_0000_0000_0000;
    let fraction = m % 0x10_0000_0000_0000;
    if exponent == 0 {
        fraction
    } else {
        (0x10_0000_0000_0000 + fraction) * pow2((exponent - 1) as nat)
    }
}

proof fn lemma_next_magnitude(m: nat)
    ensures
        magnitude_units(m) < magnitude_units(m + 1),
{
    let c: nat = 0x10_0000_0000_0000;
    let e = m / c;
    let f = m % c;
    if f + 1 < c {
        assert((m + 1) / c == e && (m + 1) % c == f + 1);
        if e > 0 {
            let p = pow2((e - 1) as nat);
            lemma_pow2_pos((e - 1) as nat);
            assert((c + f) * p < (c + f + 1) * p) by (nonlinear_arith)
                requires
                    p > 0,
            ;
        }
    } else {
        assert((m + 1) / c == e + 1 && (m + 1) % c == 0);
        if e == 0 {
            lemma2_to64();
            assert(magnitude_units(m + 1) == c * pow2(0));
        } else {
            let p = pow2((e - 1) as nat);
            lemma_pow2_pos((e - 1) as nat);
            lemma_pow2_unfold(e);
            assert((c + f) * p < c * (2 * p)) by (nonlinear_arith)
                requires
                    p > 0,
                    f < c,
            ;
            assert(magnitude_units(m) == (c + f) * p);
            assert(magnitude_units(m + 1) == (c + 0) * pow2(e));
        }
    }
}

proof fn lemma_magnitudes(m: nat, n: nat)
    requires
        m < n,
    ensures
        magnitude_units(m) < magnitude_units(n),
    decreases n,
{
    if m + 1 < n {
        lemma_magnitudes(m, (n - 1) as nat);
    }
    lemma_next_magnitude((n - 1) as nat);
}

/// Comparing bits is comparing numbers: of two doubles that are no NaN, one
/// is below the other exactly when its value is.
pub proof fn law_order_is_numeric(a: Double, b: Double)
    requires
        !a.is_nan(),
        !b.is_nan(),
    ensures
        a.lt(b) <==> a.units() < b.units(),
        a.le(b) <==> a.units() <= b.units(),
{
    let m = a.magnitude();
    let n = b.magnitude();
    if m < n {
        lemma_magnitudes(m, n);
    } else if n < m {
        lemma_magnitudes(n, m);
    }
    assert(magnitude_units(0) == 0);
    if m > 0 {
        lemma_magnitudes(0, m);
    }
    if n > 0 {
        lemma_magnitudes(0, n);
    }
}

/// The total order agrees with `<` wherever `<` decides, and tells any two
/// bit patterns apart.
pub proof fn law_rank_refines_order(a: Double, b: Double)
    ensures
        a.lt(b) ==> a.spec_rank() < b.spec_rank(),
        a.spec_rank() == b.spec_rank() ==> a == b,
{
}

/// No comparison holds of a NaN, which is what has all bits of the exponent and
/// some of the fraction set; of two other numbers either one is below the other
/// or each is at most the other.
pub proof fn law_nan_compares_with_nothing(a: Double, b: Double)
    ensures
        a.is_nan() <==> (a.bits / 0x10_0000_0000_0000) % 2048 == 2047 && a.bits
            % 0x10_0000_0000_0000 != 0,
        a.is_nan() || b.is_nan() ==> !a.lt(b) && !a.le(b),
        !a.is_nan() && !b.is_nan() ==> (a.lt(b) <==> !b.le(a)),
{
}

/// A positive number of the form `(2^52 + f) * 2^k`, in units of 2^-1074, by
/// its bits.
pub(crate) proof fn lemma_units(bits: u64, exponent: nat, fraction: nat)
    requires
        bits == exponent * 0x10_0000_0000_0000 + fraction,
        0 < exponent < 2047,
        fraction < 0x10_0000_0000_0000,
    ensures
        Double::of(bits).units() == (0x10_0000_0000_0000 + fraction) * pow2((exponent - 1) as nat),
{
    assert(bits as nat / 0x10_0000_0000_0000 == exponent);
    assert(bits as nat % 0x10_0000_0000_0000 == fraction);
}

} // verus!
