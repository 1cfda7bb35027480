//! Sums, differences, products, quotients and whole numbers, each rounded to
//! the nearest encoding.

use super::rounding::{nearest, power_of_two, reaches, round_to_magnitude, rounded};
use super::{magnitude_units, lemma_magnitudes_grow, Amount, EXPONENT_STEP, INFINITE, SIGN};
use vstd::arithmetic::power2::{lemma_pow2_adds, lemma_pow2_pos, lemma_pow2_strictly_increases, pow2};
use vstd::prelude::*;

verus! {

/// What an operation without a numeric answer gives.
pub const NOT_A_NUMBER: u64 = 0x7FF8_0000_0000_0000;

/// The number one, in multiples of 2^-1074.
pub open spec fn one() -> int {
    pow2(1074) as int
}

pub open spec fn encoded(negative: bool, magnitude: int) -> Amount {
    if negative {
        Amount { bits: (SIGN + magnitude) as u64 }
    } else {
        Amount { bits: magnitude as u64 }
    }
}

impl Amount {
    /// The number of the other sign.
    pub open spec fn opposite(self) -> Amount {
        encoded(!self.negative(), self.magnitude())
    }

    pub open spec fn sum(self, other: Amount) -> Amount {
        if self.not_a_number() || other.not_a_number() {
            Amount { bits: NOT_A_NUMBER }
        } else if self.infinite() {
            if other.infinite() && self.negative() != other.negative() {
                Amount { bits: NOT_A_NUMBER }
            } else {
                self
            }
        } else if other.infinite() {
            other
        } else {
            let exact: int = self.units() + other.units();
            if exact == 0 {
                encoded(self.negative() && other.negative(), 0)
            } else if exact < 0 {
                encoded(true, rounded(-exact, 1))
            } else {
                encoded(false, rounded(exact, 1))
            }
        }
    }

    pub open spec fn difference(self, other: Amount) -> Amount {
        self.sum(other.opposite())
    }

    pub open spec fn product(self, other: Amount) -> Amount {
        let negative = self.negative() != other.negative();
        if self.not_a_number() || other.not_a_number() {
            Amount { bits: NOT_A_NUMBER }
        } else if self.infinite() || other.infinite() {
            if self.magnitude() == 0 || other.magnitude() == 0 {
                Amount { bits: NOT_A_NUMBER }
            } else {
                encoded(negative, INFINITE as int)
            }
        } else {
            encoded(
                negative,
                rounded(
                    magnitude_units(self.magnitude()) * magnitude_units(other.magnitude()),
                    one(),
                ),
            )
        }
    }

    pub open spec fn quotient(self, other: Amount) -> Amount {
        let negative = self.negative() != other.negative();
        if self.not_a_number() || other.not_a_number() {
            Amount { bits: NOT_A_NUMBER }
        } else if self.infinite() {
            if other.infinite() {
                Amount { bits: NOT_A_NUMBER }
            } else {
                encoded(negative, INFINITE as int)
            }
        } else if other.infinite() {
            encoded(negative, 0)
        } else if other.magnitude() == 0 {
            if self.magnitude() == 0 {
                Amount { bits: NOT_A_NUMBER }
            } else {
                encoded(negative, INFINITE as int)
            }
        } else {
            encoded(
                negative,
                rounded(
                    magnitude_units(self.magnitude()) * one(),
                    magnitude_units(other.magnitude()),
                ),
            )
        }
    }

    /// The nearest whole number, the one further from zero where two are
    /// equally near.
    pub open spec fn whole(self) -> Amount {
        if self.finite() {
            let count: int = (2 * magnitude_units(self.magnitude()) + one()) / (2 * one());
            encoded(self.negative(), rounded(count * one(), 1))
        } else {
            self
        }
    }
}

/// The number that a count stands for.
pub open spec fn number_of(count: nat) -> Amount {
    encoded(false, rounded(count * one(), 1))
}

proof fn lemma_nonzero_units(magnitude: int)
    requires
        magnitude >= 0,
    ensures
        magnitude_units(magnitude) >= 0,
        (magnitude_units(magnitude) == 0) == (magnitude == 0),
{
    assert(magnitude_units(0) == 0);
    if magnitude > 0 {
        lemma_magnitudes_grow(0, magnitude);
    }
}

/// Nothing is rounded to nothing.
pub proof fn lemma_round_zero(d: int)
    requires
        d > 0,
    ensures
        rounded(0, d) == 0,
        nearest(0, 0, d),
{
    assert(magnitude_units(0) == 0);
    assert(magnitude_units(1) == 1);
    assert(nearest(0, 0, d)) by {
        assert((magnitude_units(0) + magnitude_units(1)) * d == d) by (nonlinear_arith)
            requires
                magnitude_units(0) + magnitude_units(1) == 1,
        ;
    }
    super::rounding::lemma_nearest_is_unique(0, rounded(0, d), 0, d);
}

fn encode(negative: bool, magnitude: u64) -> (r: Amount)
    requires
        magnitude < SIGN,
    ensures
        r == encoded(negative, magnitude as int),
{
    if negative {
        Amount { bits: SIGN + magnitude }
    } else {
        Amount { bits: magnitude }
    }
}

/// A magnitude as a significand and the power of two that scales it.
pub(crate) struct Parts {
    pub significand: u64,
    pub scale: u32,
}

impl Parts {
    pub(crate) open spec fn of(self, magnitude: int) -> bool {
        &&& magnitude_units(magnitude) == self.significand * pow2(self.scale as nat)
        &&& self.significand < 2 * EXPONENT_STEP
        &&& self.scale <= 2045
        &&& self.scale > 0 ==> self.significand >= EXPONENT_STEP
        &&& (self.significand == 0) == (magnitude == 0)
    }
}

/// Takes a magnitude apart.
pub(crate) fn parts_of(magnitude: u64) -> (r: Parts)
    requires
        magnitude < INFINITE,
    ensures
        r.of(magnitude as int),
        r.scale == if magnitude < EXPONENT_STEP {
            0
        } else {
            magnitude / EXPONENT_STEP - 1
        },
{
    proof {
        vstd::arithmetic::power2::lemma2_to64();
        lemma_nonzero_units(magnitude as int);
    }
    if magnitude < EXPONENT_STEP {
        assert(magnitude * pow2(0) == magnitude) by (nonlinear_arith)
            requires
                pow2(0) == 1,
        ;
        Parts { significand: magnitude, scale: 0 }
    } else {
        assert(magnitude as int / EXPONENT_STEP as int == (magnitude / EXPONENT_STEP) as int);
        assert(magnitude as int % EXPONENT_STEP as int == (magnitude % EXPONENT_STEP) as int);
        Parts {
            significand: EXPONENT_STEP + magnitude % EXPONENT_STEP,
            scale: (magnitude / EXPONENT_STEP - 1) as u32,
        }
    }
}

/// The part of a smaller number that reaches down to a coarser scale.
struct Coarse {
    count: u64,
    left_over: bool,
}

/// How often 2^`k` goes into the number.
fn coarsen(m: u64, k: u32) -> (r: Coarse)
    ensures
        r.count <= m,
        r.count * pow2(k as nat) <= m < (r.count + 1) * pow2(k as nat),
        r.left_over == (r.count * pow2(k as nat) < m),
{
    proof {
        vstd::arithmetic::power2::lemma2_to64();
        lemma_pow2_pos(k as nat);
    }
    if k >= 64 {
        proof {
            if k > 64 {
                lemma_pow2_strictly_increases(64, k as nat);
            }
        }
        Coarse { count: 0, left_over: m != 0 }
    } else {
        let unit: u128 = power_of_two(k);
        let count: u128 = m as u128 / unit;
        proof {
            let (c, u) = (count as int, unit as int);
            vstd::arithmetic::div_mod::lemma_fundamental_div_mod(m as int, u);
            vstd::arithmetic::mul::lemma_mul_is_commutative(u, c);
            assert(c * u <= m < (c + 1) * u) by (nonlinear_arith)
                requires
                    m == c * u + m as int % u,
                    0 <= m as int % u < u,
            ;
            assert(c <= m) by (nonlinear_arith)
                requires
                    c * u <= m,
                    u >= 1,
                    c >= 0,
            ;
        }
        Coarse { count: count as u64, left_over: m as u128 % unit != 0 }
    }
}

/// The sum of two magnitudes, or their difference, the larger one first.
fn combine(large: u64, small: u64, subtract: bool) -> (r: u64)
    requires
        small <= large < INFINITE,
        subtract ==> small < large,
    ensures
        ({
            let exact: int = if subtract {
                magnitude_units(large as int) - magnitude_units(small as int)
            } else {
                magnitude_units(large as int) + magnitude_units(small as int)
            };
            nearest(r as int, exact, 1) && r == rounded(exact, 1)
        }),
{
    let a: Parts = parts_of(large);
    let b: Parts = parts_of(small);
    let ghost (ua, ub) = (magnitude_units(large as int), magnitude_units(small as int));
    let ghost exact: int = if subtract {
        ua - ub
    } else {
        ua + ub
    };
    proof {
        if small < large {
            lemma_magnitudes_grow(small as int, large as int);
        }
        assert(b.scale <= a.scale);
        lemma_pow2_pos(b.scale as nat);
        vstd::arithmetic::power2::lemma2_to64();
        vstd::arithmetic::power2::lemma2_to64_rest();
    }
    let apart: u32 = a.scale - b.scale;
    if apart <= 70 {
        let factor: u128 = power_of_two(apart);
        proof {
            lemma_pow2_adds(apart as nat, b.scale as nat);
            lemma_pow2_adds(64, 6);
            if apart < 70 {
                lemma_pow2_strictly_increases(apart as nat, 70);
            }
            let s: int = a.significand as int;
            assert(s * factor <= 0x1F_FFFF_FFFF_FFFF * 0x40_0000_0000_0000_0000) by (nonlinear_arith)
                requires
                    0 <= s <= 0x1F_FFFF_FFFF_FFFF,
                    0 <= factor <= 0x40_0000_0000_0000_0000,
            ;
            let p: int = pow2(b.scale as nat) as int;
            assert(ua == (s * factor) * p) by (nonlinear_arith)
                requires
                    ua == s * pow2(a.scale as nat),
                    pow2(a.scale as nat) == factor * p,
            ;
            let m: int = if subtract {
                s * factor - b.significand
            } else {
                s * factor + b.significand
            };
            assert(m * p == exact) by (nonlinear_arith)
                requires
                    ua == (s * factor) * p,
                    ub == b.significand * p,
                    subtract ==> m == s * factor - b.significand && exact == ua - ub,
                    !subtract ==> m == s * factor + b.significand && exact == ua + ub,
            ;
            assert(m >= 0) by (nonlinear_arith)
                requires
                    m * p == exact,
                    exact >= 0,
                    p > 0,
            ;
            assert(m * (p * 1) == exact * 1);
            assert((m + 1) * (p * 1) > exact * 1) by (nonlinear_arith)
                requires
                    m * p == exact,
                    p > 0,
            ;
        }
        let scaled: u128 = a.significand as u128 * factor;
        let m: u128 = if subtract {
            scaled - b.significand as u128
        } else {
            scaled + b.significand as u128
        };
        assert(reaches(m as int, b.scale as int, exact, 1, false));
        round_to_magnitude(m, b.scale as i64, false, Ghost(exact), Ghost(1))
    } else {
        let part: Coarse = coarsen(b.significand, apart - 70);
        let scale: u32 = a.scale - 70;
        proof {
            lemma_pow2_adds(64, 6);
            lemma_pow2_adds(70, scale as nat);
            lemma_pow2_adds((apart - 70) as nat, b.scale as nat);
            lemma_pow2_pos(scale as nat);
            let p: int = pow2(scale as nat) as int;
            let q: int = pow2(b.scale as nat) as int;
            let k: int = pow2((apart - 70) as nat) as int;
            let s: int = a.significand as int;
            let t: int = b.significand as int;
            let c: int = part.count as int;
            let wide: int = s * 0x40_0000_0000_0000_0000;
            assert(ua == wide * p) by (nonlinear_arith)
                requires
                    ua == s * pow2(a.scale as nat),
                    pow2(a.scale as nat) == 0x40_0000_0000_0000_0000 * p,
                    wide == s * 0x40_0000_0000_0000_0000,
            ;
            assert(c * p <= ub < (c + 1) * p && part.left_over == (c * p < ub)) by (nonlinear_arith)
                requires
                    ub == t * q,
                    p == k * q,
                    q > 0,
                    c * k <= t < (c + 1) * k,
                    part.left_over == (c * k < t),
            ;
            let m: int = if subtract {
                if part.left_over {
                    wide - c - 1
                } else {
                    wide - c
                }
            } else {
                wide + c
            };
            assert(m * p <= exact < (m + 1) * p && part.left_over == (m * p < exact))
                by (nonlinear_arith)
                requires
                    ua == wide * p,
                    c * p <= ub < (c + 1) * p,
                    part.left_over == (c * p < ub),
                    p > 0,
                    subtract ==> exact == ua - ub && m == if part.left_over {
                        wide - c - 1
                    } else {
                        wide - c
                    },
                    !subtract ==> exact == ua + ub && m == wide + c,
            ;
            assert(m * (p * 1) == m * p && (m + 1) * (p * 1) == (m + 1) * p && exact * 1 == exact);
        }
        let wide: u128 = a.significand as u128 * 0x40_0000_0000_0000_0000;
        let m: u128 = if subtract {
            if part.left_over {
                wide - part.count as u128 - 1
            } else {
                wide - part.count as u128
            }
        } else {
            wide + part.count as u128
        };
        assert(reaches(m as int, scale as int, exact, 1, part.left_over));
        round_to_magnitude(m, scale as i64, part.left_over, Ghost(exact), Ghost(1))
    }
}

impl Amount {
    pub fn opposite_of(self) -> (r: Amount)
        ensures
            r == self.opposite(),
    {
        encode(!self.is_negative(), self.size())
    }

    pub fn plus(self, other: Amount) -> (r: Amount)
        ensures
            r == self.sum(other),
    {
        if self.is_nan() || other.is_nan() {
            return Amount { bits: NOT_A_NUMBER };
        }
        if self.is_infinite() {
            return if other.is_infinite() && self.is_negative() != other.is_negative() {
                Amount { bits: NOT_A_NUMBER }
            } else {
                self
            };
        }
        if other.is_infinite() {
            return other;
        }
        let (x, y) = (self.size(), other.size());
        proof {
            lemma_nonzero_units(x as int);
            lemma_nonzero_units(y as int);
            if x < y {
                lemma_magnitudes_grow(x as int, y as int);
            }
            if y < x {
                lemma_magnitudes_grow(y as int, x as int);
            }
        }
        if self.is_negative() == other.is_negative() {
            if x == 0 && y == 0 {
                return encode(self.is_negative(), 0);
            }
            if x >= y {
                encode(self.is_negative(), combine(x, y, false))
            } else {
                encode(self.is_negative(), combine(y, x, false))
            }
        } else if x > y {
            encode(self.is_negative(), combine(x, y, true))
        } else if y > x {
            encode(other.is_negative(), combine(y, x, true))
        } else {
            encode(false, 0)
        }
    }

    pub fn minus(self, other: Amount) -> (r: Amount)
        ensures
            r == self.difference(other),
    {
        self.plus(other.opposite_of())
    }
}

/// The product of two magnitudes.
fn multiply(x: u64, y: u64) -> (r: u64)
    requires
        x < INFINITE,
        y < INFINITE,
    ensures
        ({
            let exact: int = magnitude_units(x as int) * magnitude_units(y as int);
            nearest(r as int, exact, one()) && r == rounded(exact, one())
        }),
{
    let a: Parts = parts_of(x);
    let b: Parts = parts_of(y);
    let scale: i64 = a.scale as i64 + b.scale as i64 - 1074;
    let ghost exact: int = magnitude_units(x as int) * magnitude_units(y as int);
    proof {
        let (s, t) = (a.significand as int, b.significand as int);
        let (p, q) = (pow2(a.scale as nat) as int, pow2(b.scale as nat) as int);
        let d: int = one();
        lemma_pow2_pos(1074);
        assert(s * t < 0x20_0000_0000_0000 * 0x20_0000_0000_0000) by (nonlinear_arith)
            requires
                0 <= s < 0x20_0000_0000_0000,
                0 <= t < 0x20_0000_0000_0000,
        ;
        assert(exact == (s * t) * (p * q)) by (nonlinear_arith)
            requires
                exact == (s * p) * (t * q),
        ;
        lemma_pow2_adds(a.scale as nat, b.scale as nat);
        let times: nat = if scale > 0 {
            scale as nat
        } else {
            0
        };
        let per: nat = if scale < 0 {
            (-scale) as nat
        } else {
            0
        };
        lemma_pow2_adds(times, 1074);
        lemma_pow2_adds((a.scale + b.scale) as nat, per);
        lemma_pow2_pos(times);
        lemma_pow2_pos(per);
        let (f, g) = (pow2(times) as int, pow2(per) as int);
        assert(f * d == (p * q) * g);
        assert((s * t) * (f * d) == exact * g) by (nonlinear_arith)
            requires
                exact == (s * t) * (p * q),
                f * d == (p * q) * g,
        ;
        assert((s * t + 1) * (f * d) > (s * t) * (f * d)) by (nonlinear_arith)
            requires
                f > 0,
                d > 0,
        ;
    }
    let m: u128 = a.significand as u128 * b.significand as u128;
    assert(reaches(m as int, scale as int, exact, one(), false));
    round_to_magnitude(m, scale, false, Ghost(exact), Ghost(one()))
}

/// A significand with all its 53 binary digits in use, and the number of
/// places by which it was moved up.
fn normalized(m: u64) -> (r: (u64, u32))
    requires
        0 < m < 2 * EXPONENT_STEP,
    ensures
        EXPONENT_STEP <= r.0 < 2 * EXPONENT_STEP,
        r.0 == m * pow2(r.1 as nat),
        r.1 <= 52,
{
    proof {
        vstd::arithmetic::power2::lemma2_to64();
        vstd::arithmetic::power2::lemma2_to64_rest();
    }
    let mut moved: u64 = m;
    let mut places: u32 = 0;
    while moved < EXPONENT_STEP
        invariant
            0 < m < 2 * EXPONENT_STEP,
            moved < 2 * EXPONENT_STEP,
            moved == m * pow2(places as nat),
            pow2(places as nat) <= moved,
            places <= 52,
            pow2(52) == EXPONENT_STEP,
        decreases 2 * EXPONENT_STEP - moved,
    {
        proof {
            vstd::arithmetic::power2::lemma_pow2_unfold((places + 1) as nat);
            lemma_pow2_pos(places as nat);
            let p: int = pow2(places as nat) as int;
            assert(m * (2 * p) == 2 * (m * p)) by (nonlinear_arith);
            if places == 52 {
                assert(false);
            }
        }
        moved = moved * 2;
        places = places + 1;
    }
    (moved, places)
}

/// The quotient of two magnitudes.
fn divide(x: u64, y: u64) -> (r: u64)
    requires
        x < INFINITE,
        0 < y < INFINITE,
    ensures
        ({
            let n: int = magnitude_units(x as int) * one();
            let d: int = magnitude_units(y as int);
            nearest(r as int, n, d) && r == rounded(n, d)
        }),
{
    let a: Parts = parts_of(x);
    let b: Parts = parts_of(y);
    let ghost n: int = magnitude_units(x as int) * one();
    let ghost d: int = magnitude_units(y as int);
    proof {
        lemma_nonzero_units(x as int);
        lemma_nonzero_units(y as int);
    }
    if x == 0 {
        proof {
            assert(n == 0) by (nonlinear_arith)
                requires
                    n == magnitude_units(x as int) * one(),
                    magnitude_units(x as int) == 0,
            ;
            lemma_round_zero(d);
        }
        return 0;
    }
    let (top, places) = normalized(a.significand);
    let wide: u128 = top as u128 * 0x40_0000_0000_0000_0000;
    let m: u128 = wide / b.significand as u128;
    let left_over: bool = wide % b.significand as u128 != 0;
    let scale: i64 = a.scale as i64 - places as i64 - 70 + 1074 - b.scale as i64;
    proof {
        vstd::arithmetic::power2::lemma2_to64();
        let (t, w, q) = (b.significand as int, wide as int, m as int);
        vstd::arithmetic::div_mod::lemma_fundamental_div_mod(w, t);
        assert(q * t <= w < (q + 1) * t && left_over == (q * t < w)) by (nonlinear_arith)
            requires
                w == t * q + w % t,
                0 <= w % t < t,
                left_over == (w % t != 0),
        ;
        assert(q >= 0x40_0000_0000_0000) by (nonlinear_arith)
            requires
                w < (q + 1) * t,
                w >= 0x10_0000_0000_0000 * 0x40_0000_0000_0000_0000,
                0 < t < 0x20_0000_0000_0000,
        ;
        assert(q <= w) by (nonlinear_arith)
            requires
                q * t <= w,
                t >= 1,
                q >= 0,
        ;
        let times: nat = if scale > 0 {
            scale as nat
        } else {
            0
        };
        let per: nat = if scale < 0 {
            (-scale) as nat
        } else {
            0
        };
        lemma_pow2_pos(times);
        lemma_pow2_pos(b.scale as nat);
        lemma_pow2_adds(64, 6);
        lemma_pow2_adds(a.scale as nat, 1074);
        lemma_pow2_adds((a.scale + 1074) as nat, per);
        lemma_pow2_adds(places as nat, 70);
        lemma_pow2_adds(times, b.scale as nat);
        lemma_pow2_adds((places + 70) as nat, times + b.scale as nat);
        let (f, g) = (pow2(times) as int, pow2(per) as int);
        let (pa, pb, up) = (
            pow2(a.scale as nat) as int,
            pow2(b.scale as nat) as int,
            pow2(places as nat) as int,
        );
        let s: int = a.significand as int;
        let u: int = f * pb;
        assert(pa * one() * g == (up * 0x40_0000_0000_0000_0000) * u);
        assert(n * g == w * u) by (nonlinear_arith)
            requires
                n == (s * pa) * one(),
                w == (s * up) * 0x40_0000_0000_0000_0000,
                pa * one() * g == (up * 0x40_0000_0000_0000_0000) * u,
        ;
        assert(f * d == t * u) by (nonlinear_arith)
            requires
                d == t * pb,
                u == f * pb,
        ;
        assert(q * (f * d) <= n * g < (q + 1) * (f * d) && left_over == (q * (f * d) < n * g))
            by (nonlinear_arith)
            requires
                n * g == w * u,
                f * d == t * u,
                q * t <= w < (q + 1) * t,
                left_over == (q * t < w),
                u == f * pb,
                f > 0,
                pb > 0,
        ;
    }
    assert(reaches(m as int, scale as int, n, d, left_over));
    round_to_magnitude(m, scale, left_over, Ghost(n), Ghost(d))
}

/// The magnitude of a count.
fn count_magnitude(count: u64) -> (r: u64)
    ensures
        nearest(r as int, count * one(), 1),
        r == rounded(count * one(), 1),
{
    proof {
        lemma_pow2_pos(1074);
        let p: int = one();
        assert(count * (p * 1) == count * p && (count * p) * pow2(0) == count * p) by {
            vstd::arithmetic::power2::lemma2_to64();
        }
        assert((count + 1) * (p * 1) > count * p) by (nonlinear_arith)
            requires
                p > 0,
        ;
    }
    assert(reaches(count as int, 1074, count * one(), 1, false));
    round_to_magnitude(count as u128, 1074, false, Ghost(count * one()), Ghost(1))
}

/// The number that a count stands for.
pub fn amount_of(count: u64) -> (r: Amount)
    ensures
        r == number_of(count as nat),
{
    encode(false, count_magnitude(count))
}

impl Amount {
    pub fn times(self, other: Amount) -> (r: Amount)
        ensures
            r == self.product(other),
    {
        let negative: bool = self.is_negative() != other.is_negative();
        if self.is_nan() || other.is_nan() {
            Amount { bits: NOT_A_NUMBER }
        } else if self.is_infinite() || other.is_infinite() {
            if self.size() == 0 || other.size() == 0 {
                Amount { bits: NOT_A_NUMBER }
            } else {
                encode(negative, INFINITE)
            }
        } else {
            encode(negative, multiply(self.size(), other.size()))
        }
    }

    pub fn over(self, other: Amount) -> (r: Amount)
        ensures
            r == self.quotient(other),
    {
        let negative: bool = self.is_negative() != other.is_negative();
        if self.is_nan() || other.is_nan() {
            Amount { bits: NOT_A_NUMBER }
        } else if self.is_infinite() {
            if other.is_infinite() {
                Amount { bits: NOT_A_NUMBER }
            } else {
                encode(negative, INFINITE)
            }
        } else if other.is_infinite() {
            encode(negative, 0)
        } else if other.size() == 0 {
            if self.size() == 0 {
                Amount { bits: NOT_A_NUMBER }
            } else {
                encode(negative, INFINITE)
            }
        } else {
            encode(negative, divide(self.size(), other.size()))
        }
    }

    /// The nearest whole number.
    pub fn to_whole(self) -> (r: Amount)
        ensures
            r == self.whole(),
    {
        if !self.is_finite() {
            return self;
        }
        let a: Parts = parts_of(self.size());
        let ghost units: int = magnitude_units(self.magnitude());
        proof {
            vstd::arithmetic::power2::lemma2_to64();
            vstd::arithmetic::power2::lemma2_to64_rest();
            lemma_pow2_pos(1074);
            lemma_pow2_pos(a.scale as nat);
        }
        if a.scale >= 1074 {
            proof {
                // The number is whole already, so it is rounded to itself.
                let k: nat = (a.scale - 1074) as nat;
                lemma_pow2_adds(k, 1074);
                let count: int = a.significand * pow2(k);
                assert(units == count * one()) by (nonlinear_arith)
                    requires
                        units == a.significand * pow2(a.scale as nat),
                        pow2(a.scale as nat) == pow2(k) * one(),
                        count == a.significand * pow2(k),
                ;
                assert((2 * units + one()) / (2 * one()) == count) by {
                    assert(2 * units + one() == count * (2 * one()) + one()) by (nonlinear_arith)
                        requires
                            units == count * one(),
                    ;
                    vstd::arithmetic::div_mod::lemma_fundamental_div_mod_converse(
                        2 * units + one(),
                        2 * one(),
                        count,
                        one(),
                    );
                }
                lemma_exact_is_kept(
                    self.magnitude(),
                    magnitude_units(self.magnitude()),
                    1,
                );
            }
            return self;
        }
        let places: u32 = 1074 - a.scale;
        let count: u64 = if places > 60 {
            0
        } else {
            let unit: u128 = power_of_two(places);
            let half: u128 = power_of_two(places - 1);
            proof {
                lemma_pow2_pos(places as nat);
                lemma_pow2_strictly_increases((places - 1) as nat, 64);
            }
            let sum: u128 = a.significand as u128 + half;
            assert(sum / unit <= sum) by (nonlinear_arith)
                requires
                    unit >= 1,
                    sum >= 0,
            ;
            (sum / unit) as u64
        };
        proof {
            lemma_pow2_adds(places as nat, a.scale as nat);
            vstd::arithmetic::power2::lemma_pow2_unfold(places as nat);
            lemma_pow2_pos((places - 1) as nat);
            let p: int = pow2(a.scale as nat) as int;
            let unit: int = pow2(places as nat) as int;
            let half: int = pow2((places - 1) as nat) as int;
            let s: int = a.significand as int;
            let c: int = count as int;
            if places > 60 {
                lemma_pow2_strictly_increases(60, places as nat);
                assert(c * unit <= s + half < (c + 1) * unit);
            } else {
                vstd::arithmetic::div_mod::lemma_fundamental_div_mod(s + half, unit);
                assert(c * unit <= s + half < (c + 1) * unit) by (nonlinear_arith)
                    requires
                        s + half == unit * c + (s + half) % unit,
                        0 <= (s + half) % unit < unit,
                ;
            }
            let rest: int = 2 * units + one() - c * (2 * one());
            assert(0 <= rest < 2 * one()) by (nonlinear_arith)
                requires
                    units == s * p,
                    one() == unit * p,
                    unit == 2 * half,
                    c * unit <= s + half < (c + 1) * unit,
                    rest == 2 * units + one() - c * (2 * one()),
                    p > 0,
            ;
            vstd::arithmetic::div_mod::lemma_fundamental_div_mod_converse(
                2 * units + one(),
                2 * one(),
                c,
                rest,
            );
        }
        encode(self.is_negative(), count_magnitude(count))
    }
}

/// A fraction that has an encoding is not changed by rounding.
pub proof fn lemma_exact_is_kept(magnitude: int, n: int, d: int)
    requires
        0 <= magnitude < INFINITE,
        d > 0,
        n == magnitude_units(magnitude) * d,
    ensures
        rounded(n, d) == magnitude,
{
    let units: int = magnitude_units(magnitude);
    let above: int = magnitude_units(magnitude + 1);
    lemma_magnitudes_grow(magnitude, magnitude + 1);
    assert(2 * n < (units + above) * d) by (nonlinear_arith)
        requires
            n == units * d,
            units < above,
            d > 0,
    ;
    if magnitude > 0 {
        let under: int = magnitude_units(magnitude - 1);
        lemma_magnitudes_grow(magnitude - 1, magnitude);
        assert(2 * n > (under + units) * d) by (nonlinear_arith)
            requires
                n == units * d,
                under < units,
                d > 0,
        ;
    }
    assert(nearest(magnitude, n, d));
    super::rounding::lemma_nearest_is_unique(magnitude, rounded(n, d), n, d);
}

} // verus!
