//! Double-precision numbers as bit patterns, with the comparisons of IEEE 754
//! stated and computed on the patterns.

use vstd::arithmetic::power2::{
    lemma2_to64, lemma_pow2_pos, lemma_pow2_strictly_increases, lemma_pow2_unfold, pow2,
};
use vstd::prelude::*;

verus! {

/// The sign bit of a pattern.
pub const SIGN_BIT: u64 = 0x8000_0000_0000_0000;

/// The pattern of positive infinity. A pattern whose magnitude is larger is a
/// NaN.
pub const INFINITY_BITS: u64 = 0x7FF0_0000_0000_0000;

/// Two to the power of fifty-two: the number of patterns with one sign and
/// one exponent.
pub const FRACTION_SPAN: u64 = 0x0010_0000_0000_0000;

/// An IEEE 754 double-precision number, held by its 64-bit pattern: one sign
/// bit, eleven exponent bits, fifty-two fraction bits.
#[derive(Clone, Copy, Debug, PartialEq, Eq, Structural)]
pub struct Binary64 {
    pub bits: u64,
}

impl Binary64 {
    /// The pattern without its sign bit.
    pub open spec fn magnitude(self) -> int {
        if self.bits >= SIGN_BIT {
            self.bits - SIGN_BIT
        } else {
            self.bits as int
        }
    }

    /// Whether the sign bit is set. It is set in negative zero too.
    pub open spec fn sign_negative(self) -> bool {
        self.bits >= SIGN_BIT
    }

    /// Whether the pattern is a NaN.
    pub open spec fn spec_is_nan(self) -> bool {
        self.magnitude() > INFINITY_BITS
    }

    /// Whether the pattern is a number other than an infinity.
    pub open spec fn is_finite(self) -> bool {
        self.magnitude() < INFINITY_BITS
    }

    /// The exponent field of the pattern.
    pub open spec fn exponent(self) -> nat {
        (self.magnitude() / (FRACTION_SPAN as int)) as nat
    }

    /// The fraction field of the pattern.
    pub open spec fn fraction(self) -> nat {
        (self.magnitude() % (FRACTION_SPAN as int)) as nat
    }

    /// What a finite number amounts to without its sign, counted in units of
    /// two to the power of -1074, the smallest number above zero. With the
    /// exponent field at zero it is the fraction field. Else the fraction
    /// field stands behind a leading one, and each step of the exponent
    /// doubles the amount.
    pub open spec fn size(self) -> nat {
        if self.exponent() == 0 {
            self.fraction()
        } else {
            ((FRACTION_SPAN + self.fraction()) * pow2((self.exponent() - 1) as nat)) as nat
        }
    }

    /// What a finite number amounts to, in the same units.
    pub open spec fn value(self) -> int {
        if self.sign_negative() {
            -self.size()
        } else {
            self.size() as int
        }
    }

    /// Where a number that is no NaN stands among the others: the magnitude
    /// with the sign in front. Both zeros have rank 0, positive infinity has
    /// the largest rank and negative infinity the smallest.
    pub open spec fn rank(self) -> int {
        if self.sign_negative() {
            -self.magnitude()
        } else {
            self.magnitude()
        }
    }

    /// `self < other` as IEEE 754 has it: false where either is a NaN.
    pub open spec fn spec_lt(self, other: Binary64) -> bool {
        !self.spec_is_nan() && !other.spec_is_nan() && self.rank() < other.rank()
    }

    /// `self <= other` as IEEE 754 has it: false where either is a NaN.
    pub open spec fn spec_le(self, other: Binary64) -> bool {
        !self.spec_is_nan() && !other.spec_is_nan() && self.rank() <= other.rank()
    }

    /// `self >= 0` as IEEE 754 has it: true of both zeros, of every positive
    /// number and of positive infinity, false of a NaN.
    pub open spec fn spec_is_non_negative(self) -> bool {
        !self.spec_is_nan() && self.rank() >= 0
    }

    /// The number with the given pattern.
    pub fn from_bits(bits: u64) -> (r: Binary64)
        ensures
            r.bits == bits,
    {
        Binary64 { bits }
    }

    /// The pattern of the number.
    pub fn to_bits(self) -> (r: u64)
        ensures
            r == self.bits,
    {
        self.bits
    }

    fn magnitude_bits(self) -> (r: u64)
        ensures
            r == self.magnitude(),
    {
        if self.bits >= SIGN_BIT {
            self.bits - SIGN_BIT
        } else {
            self.bits
        }
    }

    /// Whether the pattern is a NaN.
    #[verifier::when_used_as_spec(spec_is_nan)]
    pub fn is_nan(self) -> (r: bool)
        ensures
            r == self.spec_is_nan(),
    {
        self.magnitude_bits() > INFINITY_BITS
    }

    /// Whether the number is at least zero.
    #[verifier::when_used_as_spec(spec_is_non_negative)]
    pub fn is_non_negative(self) -> (r: bool)
        ensures
            r == self.spec_is_non_negative(),
    {
        self.bits <= INFINITY_BITS || self.bits == SIGN_BIT
    }

    /// Whether the number is less than `other`.
    #[verifier::when_used_as_spec(spec_lt)]
    pub fn lt(self, other: Binary64) -> (r: bool)
        ensures
            r == self.spec_lt(other),
    {
        if self.is_nan() || other.is_nan() {
            false
        } else if self.bits >= SIGN_BIT {
            if other.bits >= SIGN_BIT {
                self.bits > other.bits
            } else {
                self.bits > SIGN_BIT || other.bits > 0
            }
        } else {
            other.bits < SIGN_BIT && self.bits < other.bits
        }
    }

    /// Whether the number is at most `other`.
    #[verifier::when_used_as_spec(spec_le)]
    pub fn le(self, other: Binary64) -> (r: bool)
        ensures
            r == self.spec_le(other),
    {
        if self.is_nan() || other.is_nan() {
            false
        } else if self.bits >= SIGN_BIT {
            if other.bits >= SIGN_BIT {
                self.bits >= other.bits
            } else {
                true
            }
        } else {
            if other.bits >= SIGN_BIT {
                self.bits == 0 && other.bits == SIGN_BIT
            } else {
                self.bits <= other.bits
            }
        }
    }
}

/// With the exponent field at `e`, the size is below the span times two to
/// the power of `e`, and from the first exponent on it is at least half of
/// that.
proof fn lemma_size_bounds(a: Binary64)
    ensures
        a.size() < FRACTION_SPAN * pow2(a.exponent()),
        a.exponent() > 0 ==> a.size() >= FRACTION_SPAN * pow2((a.exponent() - 1) as nat),
{
    let e = a.exponent();
    let f = a.fraction() as int;
    let span = FRACTION_SPAN as int;
    if e == 0 {
        lemma2_to64();
    } else {
        let half = pow2((e - 1) as nat) as int;
        lemma_pow2_pos((e - 1) as nat);
        lemma_pow2_unfold(e);
        assert((span + f) * half < span * (2 * half) && (span + f) * half >= span * half)
            by (nonlinear_arith)
            requires
                0 <= f < span,
                half > 0,
        ;
    }
}

/// A larger magnitude is a larger size.
proof fn lemma_size_grows_with_magnitude(a: Binary64, b: Binary64)
    requires
        a.magnitude() < b.magnitude(),
    ensures
        a.size() < b.size(),
{
    let span = FRACTION_SPAN as int;
    if a.exponent() == b.exponent() {
        if a.exponent() > 0 {
            let half = pow2((a.exponent() - 1) as nat) as int;
            let fa = a.fraction() as int;
            let fb = b.fraction() as int;
            lemma_pow2_pos((a.exponent() - 1) as nat);
            assert((span + fa) * half < (span + fb) * half) by (nonlinear_arith)
                requires
                    fa < fb,
                    half > 0,
            ;
        }
    } else {
        let above = pow2(a.exponent()) as int;
        let below = pow2((b.exponent() - 1) as nat) as int;
        lemma_size_bounds(a);
        lemma_size_bounds(b);
        if a.exponent() < b.exponent() - 1 {
            lemma_pow2_strictly_increases(a.exponent(), (b.exponent() - 1) as nat);
        }
        assert(span * above <= span * below) by (nonlinear_arith)
            requires
                above <= below,
                span > 0,
        ;
    }
}

/// The rank orders the finite numbers as their values do: of two finite
/// numbers the one of lower rank is the one of lower value, and they have one
/// rank exactly if they have one value. The infinities stand at the two ends
/// of the ranks.
pub proof fn lemma_rank_orders_as_value(a: Binary64, b: Binary64)
    requires
        a.is_finite(),
        b.is_finite(),
    ensures
        a.rank() < b.rank() <==> a.value() < b.value(),
        a.rank() == b.rank() <==> a.value() == b.value(),
        a.rank() < (Binary64 { bits: INFINITY_BITS }).rank(),
        a.rank() > (Binary64 { bits: 0xFFF0_0000_0000_0000 }).rank(),
{
    let zero = Binary64 { bits: 0 };
    assert(zero.size() == 0);
    if a.magnitude() > 0 {
        lemma_size_grows_with_magnitude(zero, a);
    }
    if b.magnitude() > 0 {
        lemma_size_grows_with_magnitude(zero, b);
    }
    if a.magnitude() < b.magnitude() {
        lemma_size_grows_with_magnitude(a, b);
    }
    if b.magnitude() < a.magnitude() {
        lemma_size_grows_with_magnitude(b, a);
    }
}

} // verus!
