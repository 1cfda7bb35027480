//! Amounts of money and percentages.
//!
//! An amount is a binary64 number of IEEE 754, held by its encoding. What the
//! encodings stand for, how they are ordered, what their sums, products and
//! quotients are and how they are printed is all said and computed here with
//! whole numbers.

pub mod arithmetic;
pub mod digits;
pub mod nearness;
pub mod order;
pub mod print;
pub mod read;
pub mod rounding;
pub mod sums;

use vstd::arithmetic::power2::pow2;
use vstd::prelude::*;

verus! {

/// The encodings from here on carry a minus sign.
pub const SIGN: u64 = 0x8000_0000_0000_0000;

/// The encoding of positive infinity. Magnitudes above it are not numbers.
pub const INFINITE: u64 = 0x7FF0_0000_0000_0000;

/// One step of the exponent field.
pub const EXPONENT_STEP: u64 = 0x0010_0000_0000_0000;

/// An amount in US dollars, or a percentage, in binary64 encoding.
#[derive(Clone, Copy, Debug, PartialEq, Eq, Structural)]
pub struct Amount {
    pub bits: u64,
}

/// The encoding of one cent, the amount below which a cost is noise.
pub const MIN_COST_THRESHOLD: u64 = 0x3F84_7AE1_47AE_147B;

/// The amount zero.
#[verifier::allow_in_spec]
pub fn zero() -> (r: Amount)
    returns
        (Amount { bits: 0u64 }),
{
    Amount { bits: 0 }
}

/// Positive infinity: the growth of something that was not there before.
#[verifier::allow_in_spec]
pub fn unbounded() -> (r: Amount)
    returns
        (Amount { bits: INFINITE }),
{
    Amount { bits: INFINITE }
}

/// A hundred.
#[verifier::allow_in_spec]
pub fn hundred() -> (r: Amount)
    returns
        (Amount { bits: 0x4059_0000_0000_0000u64 }),
{
    Amount { bits: 0x4059_0000_0000_0000 }
}

/// One cent.
#[verifier::allow_in_spec]
pub fn cent() -> (r: Amount)
    returns
        (Amount { bits: MIN_COST_THRESHOLD }),
{
    Amount { bits: MIN_COST_THRESHOLD }
}

/// Ten cents.
#[verifier::allow_in_spec]
pub fn ten_cents() -> (r: Amount)
    returns
        (Amount { bits: 0x3FB9_9999_9999_999Au64 }),
{
    Amount { bits: 0x3FB9_9999_9999_999A }
}

/// The number that a magnitude (an encoding without its sign) stands for, in
/// multiples of the smallest positive number, 2^-1074. Infinity comes out
/// above every finite number.
pub open spec fn magnitude_units(magnitude: int) -> int {
    let exponent: int = magnitude / EXPONENT_STEP as int;
    let fraction: int = magnitude % EXPONENT_STEP as int;
    if exponent == 0 {
        fraction
    } else {
        (EXPONENT_STEP + fraction) * pow2((exponent - 1) as nat)
    }
}

impl Amount {
    pub open spec fn negative(self) -> bool {
        self.bits >= SIGN
    }

    pub open spec fn magnitude(self) -> int {
        if self.negative() {
            self.bits - SIGN
        } else {
            self.bits as int
        }
    }

    pub open spec fn not_a_number(self) -> bool {
        self.magnitude() > INFINITE
    }

    pub open spec fn infinite(self) -> bool {
        self.magnitude() == INFINITE
    }

    pub open spec fn finite(self) -> bool {
        self.magnitude() < INFINITE
    }

    /// The number itself, in multiples of 2^-1074.
    pub open spec fn units(self) -> int {
        if self.negative() {
            -magnitude_units(self.magnitude())
        } else {
            magnitude_units(self.magnitude())
        }
    }

    /// Whether the number is smaller than the other. Nothing is smaller than
    /// what is not a number, nor the other way round.
    pub open spec fn below(self, other: Amount) -> bool {
        &&& !self.not_a_number()
        &&& !other.not_a_number()
        &&& self.units() < other.units()
    }

    /// Whether the number is smaller than the other or equal to it.
    pub open spec fn at_most(self, other: Amount) -> bool {
        &&& !self.not_a_number()
        &&& !other.not_a_number()
        &&& self.units() <= other.units()
    }

    /// The place in the total order of all encodings: negative numbers before
    /// positive ones, minus zero before zero, and what is not a number at
    /// either end, by its sign.
    pub open spec fn place(self) -> int {
        if self.negative() {
            -self.magnitude() - 1
        } else {
            self.magnitude()
        }
    }

    /// A whole number that orders encodings as `units` does.
    pub open spec fn signed_magnitude(self) -> int {
        if self.negative() {
            -self.magnitude()
        } else {
            self.magnitude()
        }
    }

    fn signed(self) -> (r: i64)
        ensures
            r == self.signed_magnitude(),
    {
        if self.is_negative() {
            -(self.size() as i64)
        } else {
            self.bits as i64
        }
    }

    pub fn is_negative(self) -> (r: bool)
        ensures
            r == self.negative(),
    {
        self.bits >= SIGN
    }

    /// The encoding without its sign.
    pub fn size(self) -> (r: u64)
        ensures
            r == self.magnitude(),
    {
        if self.is_negative() {
            self.bits - SIGN
        } else {
            self.bits
        }
    }

    pub fn is_nan(self) -> (r: bool)
        ensures
            r == self.not_a_number(),
    {
        self.size() > INFINITE
    }

    pub fn is_infinite(self) -> (r: bool)
        ensures
            r == self.infinite(),
    {
        self.size() == INFINITE
    }

    pub fn is_finite(self) -> (r: bool)
        ensures
            r == self.finite(),
    {
        self.size() < INFINITE
    }

    pub fn is_below(self, other: Amount) -> (r: bool)
        ensures
            r == self.below(other),
    {
        proof {
            lemma_order_of_encodings(self, other);
        }
        !self.is_nan() && !other.is_nan() && self.signed() < other.signed()
    }

    pub fn is_at_most(self, other: Amount) -> (r: bool)
        ensures
            r == self.at_most(other),
    {
        proof {
            lemma_order_of_encodings(other, self);
        }
        !self.is_nan() && !other.is_nan() && self.signed() <= other.signed()
    }

    /// The place in the total order, as a number to sort by.
    pub fn sort_place(self) -> (r: i64)
        ensures
            r == self.place(),
    {
        if self.is_negative() {
            -(self.size() as i64) - 1
        } else {
            self.bits as i64
        }
    }
}

/// A larger magnitude stands for a larger number.
pub proof fn lemma_magnitudes_grow(a: int, b: int)
    requires
        0 <= a < b,
    ensures
        magnitude_units(a) < magnitude_units(b),
{
    let step: int = EXPONENT_STEP as int;
    let (ea, fa) = (a / step, a % step);
    let (eb, fb) = (b / step, b % step);
    assert(0 <= fa < step && 0 <= fb < step && 0 <= ea <= eb);
    assert(a == ea * step + fa && b == eb * step + fb);
    if ea < eb {
        let high: int = pow2((eb - 1) as nat) as int;
        assert(high > 0) by {
            vstd::arithmetic::power2::lemma_pow2_pos((eb - 1) as nat);
        }
        assert(magnitude_units(b) >= step * high) by (nonlinear_arith)
            requires
                magnitude_units(b) == (step + fb) * high,
                fb >= 0,
                high > 0,
        ;
        if ea == 0 {
            assert(step * high >= step) by (nonlinear_arith)
                requires
                    step > 0,
                    high >= 1,
            ;
        } else {
            let low: int = pow2((ea - 1) as nat) as int;
            assert(low > 0) by {
                vstd::arithmetic::power2::lemma_pow2_pos((ea - 1) as nat);
            }
            assert(2 * low <= high) by {
                vstd::arithmetic::power2::lemma_pow2_unfold(ea as nat);
                if ea < eb - 1 {
                    vstd::arithmetic::power2::lemma_pow2_strictly_increases(
                        ea as nat,
                        (eb - 1) as nat,
                    );
                }
            }
            assert((step + fa) * low < step * high) by (nonlinear_arith)
                requires
                    0 <= fa < step,
                    low > 0,
                    2 * low <= high,
            ;
        }
    } else if ea > 0 {
        let low: int = pow2((ea - 1) as nat) as int;
        assert(low > 0) by {
            vstd::arithmetic::power2::lemma_pow2_pos((ea - 1) as nat);
        }
        assert((step + fa) * low < (step + fb) * low) by (nonlinear_arith)
            requires
                fa < fb,
                low > 0,
        ;
    }
}

/// Comparing encodings as signed whole numbers compares the numbers themselves.
pub proof fn lemma_order_of_encodings(a: Amount, b: Amount)
    ensures
        (a.signed_magnitude() < b.signed_magnitude()) == (a.units() < b.units()),
{
    let (ma, mb) = (a.magnitude(), b.magnitude());
    assert(magnitude_units(0) == 0);
    if ma < mb {
        lemma_magnitudes_grow(ma, mb);
    }
    if mb < ma {
        lemma_magnitudes_grow(mb, ma);
    }
    if ma > 0 {
        lemma_magnitudes_grow(0, ma);
    }
    if mb > 0 {
        lemma_magnitudes_grow(0, mb);
    }
}

/// The order by which amounts are sorted never contradicts their order as
/// numbers.
pub proof fn lemma_place_follows_order(a: Amount, b: Amount)
    requires
        a.below(b),
    ensures
        a.place() < b.place(),
{
    lemma_order_of_encodings(a, b);
}

} // verus!
