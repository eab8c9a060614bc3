//! Inexact numbers, as bit patterns, and the table of floating-point results.
//!
//! A [`Float`] is an IEEE-754 double held as its 64 bits: one sign bit, eleven
//! exponent bits, 52 fraction bits.  What the evaluator has to *decide* about
//! a double (is it zero, is it negative, does it lie in `[-1, 1]`) can be read
//! off the bits and is decided here.  What has to be *computed* in floating
//! point is not computed here at all: each such operation is a [`FloatOp`],
//! and its result is looked up in a [`FloatTable`] that the caller supplies.
//! Where the table has no entry, evaluation stops and names the operation,
//! so that the caller can compute it, record it and evaluate again.

use vstd::prelude::*;
use crate::token::Decimal;

verus! {

/// The bit of the sign.
pub const SIGN_BIT: u64 = 0x8000_0000_0000_0000;

/// The bits of positive infinity; every larger magnitude is a NaN.
pub const INFINITY_BITS: u64 = 0x7ff0_0000_0000_0000;

/// The bits of `1.0`.
pub const ONE_BITS: u64 = 0x3ff0_0000_0000_0000;

/// An IEEE-754 double, by its bits.
#[derive(Clone, Copy, Debug, PartialEq, Eq, Structural)]
pub struct Float {
    pub bits: u64,
}

impl Float {
    /// The bits without the sign: the bits of the absolute value.
    pub open spec fn magnitude(self) -> int {
        if self.bits >= SIGN_BIT {
            self.bits - SIGN_BIT
        } else {
            self.bits as int
        }
    }

    /// No number: the exponent bits all set and the fraction not zero.
    pub open spec fn is_nan(self) -> bool {
        self.magnitude() > INFINITY_BITS
    }

    /// `+0.0` or `-0.0`.
    pub open spec fn is_zero(self) -> bool {
        self.magnitude() == 0
    }

    /// Whether the sign bit is set.
    pub open spec fn sign_negative(self) -> bool {
        self.bits >= SIGN_BIT
    }

    /// `0 <= self`: a number, and zero or of positive sign.
    pub open spec fn is_nonnegative(self) -> bool {
        !self.is_nan() && (self.is_zero() || !self.sign_negative())
    }

    /// `0 < self`.
    pub open spec fn is_positive(self) -> bool {
        !self.is_nan() && !self.is_zero() && !self.sign_negative()
    }

    /// `-1 <= self <= 1`.  Among the doubles of one sign the order of the
    /// bits is the order of the magnitudes.
    pub open spec fn in_unit_interval(self) -> bool {
        self.magnitude() <= ONE_BITS
    }

    /// Whether the two doubles compare equal: neither is a NaN, and they have
    /// the same bits or are both zero.
    pub open spec fn same_number(self, other: Float) -> bool {
        !self.is_nan() && !other.is_nan() && (self.bits == other.bits || (self.is_zero()
            && other.is_zero()))
    }

    /// The double with the sign bit flipped.
    pub open spec fn negated(self) -> Float {
        if self.bits >= SIGN_BIT {
            Float { bits: (self.bits - SIGN_BIT) as u64 }
        } else {
            Float { bits: (self.bits + SIGN_BIT) as u64 }
        }
    }

    /// The double with the sign bit cleared.
    pub open spec fn absolute(self) -> Float {
        Float { bits: self.magnitude() as u64 }
    }

    /// The double with these bits.
    pub fn from_bits(bits: u64) -> (f: Float)
        ensures
            f.bits == bits,
    {
        Float { bits }
    }

    /// The bits of the double.
    pub fn to_bits(self) -> (bits: u64)
        ensures
            bits == self.bits,
    {
        self.bits
    }

    fn magnitude_bits(self) -> (m: u64)
        ensures
            m == self.magnitude(),
    {
        if self.bits >= SIGN_BIT {
            self.bits - SIGN_BIT
        } else {
            self.bits
        }
    }

    /// Whether the double is `+0.0` or `-0.0`.
    pub fn zero(self) -> (r: bool)
        ensures
            r == self.is_zero(),
    {
        self.magnitude_bits() == 0
    }

    /// Whether the double is a NaN.
    pub fn nan(self) -> (r: bool)
        ensures
            r == self.is_nan(),
    {
        self.magnitude_bits() > INFINITY_BITS
    }

    /// Whether `0 <= self`.
    pub fn nonnegative(self) -> (r: bool)
        ensures
            r == self.is_nonnegative(),
    {
        let m = self.magnitude_bits();
        m <= INFINITY_BITS && (m == 0 || self.bits < SIGN_BIT)
    }

    /// Whether `0 < self`.
    pub fn positive(self) -> (r: bool)
        ensures
            r == self.is_positive(),
    {
        let m = self.magnitude_bits();
        m <= INFINITY_BITS && m != 0 && self.bits < SIGN_BIT
    }

    /// Whether `-1 <= self <= 1`.
    pub fn within_unit_interval(self) -> (r: bool)
        ensures
            r == self.in_unit_interval(),
    {
        self.magnitude_bits() <= ONE_BITS
    }

    /// Whether the two doubles compare equal.
    pub fn equals(self, other: Float) -> (r: bool)
        ensures
            r == self.same_number(other),
    {
        !self.nan() && !other.nan() && (self.bits == other.bits || (self.zero() && other.zero()))
    }

    /// The negative of the double.
    pub fn neg(self) -> (r: Float)
        ensures
            r == self.negated(),
    {
        if self.bits >= SIGN_BIT {
            Float { bits: self.bits - SIGN_BIT }
        } else {
            Float { bits: self.bits + SIGN_BIT }
        }
    }

    /// The absolute value of the double.
    pub fn abs(self) -> (r: Float)
        ensures
            r == self.absolute(),
    {
        Float { bits: self.magnitude_bits() }
    }
}

/// `v × 2^k`, where that is at most `2^63`.
pub open spec fn scaled_up(v: nat, k: nat) -> Option<nat>
    decreases k,
{
    if k == 0 {
        if v <= 0x8000_0000_0000_0000 {
            Some(v)
        } else {
            None
        }
    } else if v > 0x4000_0000_0000_0000 {
        None
    } else {
        scaled_up(2 * v, (k - 1) as nat)
    }
}

/// `v / 2^k`, where that is an integer.
pub open spec fn scaled_down(v: nat, k: nat) -> Option<nat>
    decreases k,
{
    if k == 0 {
        Some(v)
    } else if v % 2 == 1 {
        None
    } else {
        scaled_down(v / 2, (k - 1) as nat)
    }
}

/// The bits below the exponent: the fraction has 52 of them.
pub const FRACTION_UNIT: u64 = 0x10_0000_0000_0000;

impl Float {
    /// The eleven exponent bits.  A finite double other than zero with the
    /// exponent bits `e` and the fraction bits `f` is
    /// `±(2^52 + f) × 2^(e - 1075)`; all exponent bits set mark the infinities
    /// and the NaNs.
    pub open spec fn exponent_bits(self) -> int {
        self.magnitude() / (FRACTION_UNIT as int)
    }

    /// The 52 fraction bits.
    pub open spec fn fraction_bits(self) -> int {
        self.magnitude() % (FRACTION_UNIT as int)
    }

    /// The integer that the double is, where it is one in the range of the
    /// 64-bit integers.
    pub open spec fn integer(self) -> Option<int> {
        let e = self.exponent_bits();
        let significand = (FRACTION_UNIT + self.fraction_bits()) as nat;
        if self.is_zero() {
            Some(0)
        } else if e < 1023 || e > 1086 {
            None
        } else {
            let size = if e >= 1075 {
                scaled_up(significand, (e - 1075) as nat)
            } else {
                scaled_down(significand, (1075 - e) as nat)
            };
            match size {
                None => None,
                Some(v) => if self.sign_negative() {
                    Some(-(v as int))
                } else if v < 0x8000_0000_0000_0000 {
                    Some(v as int)
                } else {
                    None
                },
            }
        }
    }

    /// The integer that the double is.
    #[verifier::loop_isolation(false)]
    pub fn to_integer(self) -> (r: Option<i64>)
        ensures
            match (r, self.integer()) {
                (Some(i), Some(j)) => i == j,
                (None, None) => true,
                _ => false,
            },
    {
        let m = self.magnitude_bits();
        if m == 0 {
            return Some(0);
        }
        let e: u64 = m / FRACTION_UNIT;
        let significand: u64 = FRACTION_UNIT + m % FRACTION_UNIT;
        if e < 1023 || e > 1086 {
            return None;
        }
        let mut v: u64 = significand;
        if e >= 1075 {
            let mut k: u64 = e - 1075;
            while k > 0
                invariant
                    scaled_up(v as nat, k as nat) == scaled_up(significand as nat, (e - 1075) as nat),
                decreases k,
            {
                if v > 0x4000_0000_0000_0000 {
                    return None;
                }
                v = 2 * v;
                k = k - 1;
            }
            if v > 0x8000_0000_0000_0000 {
                return None;
            }
        } else {
            let mut k: u64 = 1075 - e;
            while k > 0
                invariant
                    v <= significand,
                    scaled_down(v as nat, k as nat) == scaled_down(
                        significand as nat,
                        (1075 - e) as nat,
                    ),
                decreases k,
            {
                if v % 2 == 1 {
                    return None;
                }
                v = v / 2;
                k = k - 1;
            }
        }
        if self.bits >= SIGN_BIT {
            if v == 0x8000_0000_0000_0000 {
                Some(i64::MIN)
            } else {
                Some(-(v as i64))
            }
        } else if v < 0x8000_0000_0000_0000 {
            Some(v as i64)
        } else {
            None
        }
    }
}

/// Functions of one double that the caller computes.
#[derive(Clone, Copy, Debug, PartialEq, Eq, Structural)]
pub enum UnaryFn {
    Sin,
    Cos,
    Tan,
    Asin,
    Acos,
    Atan,
    Sinh,
    Cosh,
    Tanh,
    Sqrt,
    Exp,
    Exp2,
    Ln,
    Log2,
    Log10,
    ToRadians,
    ToDegrees,
    Floor,
    Ceil,
    Round,
    /// `1 / x`
    Recip,
}

/// Functions of two doubles that the caller computes.
#[derive(Clone, Copy, Debug, PartialEq, Eq, Structural)]
pub enum BinaryFn {
    Add,
    Sub,
    Mul,
    Div,
    /// The least non-negative remainder.
    RemEuclid,
    /// The first to the power of the second.
    Pow,
    /// The logarithm of the first to the base of the second.
    Log,
}

/// One floating-point operation that evaluation needs the result of.
#[derive(Clone, Copy, Debug, PartialEq, Eq, Structural)]
pub enum FloatOp {
    /// The double nearest to a decimal literal.
    Literal(Decimal),
    /// The double nearest to an integer.
    FromInteger(i64),
    /// The quotient of the doubles nearest to numerator and denominator.
    FromRatio(i64, i64),
    Unary(UnaryFn, Float),
    Binary(BinaryFn, Float, Float),
    /// A double to an integer power.
    Powi(Float, i64),
}

/// The first result that `entries` records for `op`.
pub open spec fn lookup(entries: Seq<(FloatOp, Float)>, op: FloatOp) -> Option<Float>
    decreases entries.len(),
{
    if entries.len() == 0 {
        None
    } else if entries[0].0 == op {
        Some(entries[0].1)
    } else {
        lookup(entries.skip(1), op)
    }
}

/// Results of floating-point operations, computed by the caller.
///
/// An operation keeps the first result recorded for it.
#[derive(Debug)]
pub struct FloatTable {
    entries: Vec<(FloatOp, Float)>,
}

impl View for FloatTable {
    type V = Seq<(FloatOp, Float)>;

    closed spec fn view(&self) -> Seq<(FloatOp, Float)> {
        self.entries@
    }
}

impl FloatTable {
    /// The table without results.
    pub fn new() -> (table: FloatTable)
        ensures
            table@ == Seq::<(FloatOp, Float)>::empty(),
    {
        FloatTable { entries: Vec::new() }
    }

    /// The number of results recorded.
    pub fn len(&self) -> (n: usize)
        ensures
            n == self@.len(),
    {
        self.entries.len()
    }

    /// Records that `op` gives `result`.
    pub fn record(&mut self, op: FloatOp, result: Float)
        ensures
            final(self)@ == old(self)@.push((op, result)),
    {
        self.entries.push((op, result));
    }

    /// Forgets every result.
    pub fn clear(&mut self)
        ensures
            final(self)@ == Seq::<(FloatOp, Float)>::empty(),
    {
        self.entries = Vec::new();
    }

    /// The result recorded for `op`.
    pub fn get(&self, op: FloatOp) -> (r: Option<Float>)
        ensures
            r == lookup(self@, op),
    {
        let mut i: usize = 0;
        proof {
            assert(self.entries@.skip(0) =~= self.entries@);
        }
        while i < self.entries.len()
            invariant
                i <= self.entries@.len(),
                lookup(self.entries@, op) == lookup(self.entries@.skip(i as int), op),
            decreases self.entries@.len() - i,
        {
            if self.entries[i].0 == op {
                return Some(self.entries[i].1);
            }
            proof {
                assert(self.entries@.skip(i as int).skip(1) =~= self.entries@.skip(i + 1));
            }
            i = i + 1;
        }
        None
    }
}

} // verus!
