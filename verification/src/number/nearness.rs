//! What the operations give: the nearest number that has an encoding.

use super::arithmetic::{lemma_exact_is_kept, number_of, one};
use super::order::{lemma_encoded, lemma_rounding_succeeds};
use super::rounding::{lemma_encoding, nearest, rounded};
use super::{
    cent, hundred, lemma_magnitudes_grow, lemma_order_of_encodings, magnitude_units, ten_cents,
    unbounded, zero, Amount, EXPONENT_STEP, INFINITE,
};
use vstd::arithmetic::power2::{
    lemma2_to64, lemma2_to64_rest, lemma_pow2_adds, lemma_pow2_pos, lemma_pow2_strictly_increases,
    lemma_pow2_unfold, pow2,
};
use vstd::prelude::*;

verus! {

/// How far two numbers lie apart.
pub open spec fn apart(a: int, b: int) -> int {
    if a < b {
        b - a
    } else {
        a - b
    }
}

/// No encoding lies nearer to a fraction than the one to which it is rounded,
/// and of two that lie equally near it is the even one.
pub proof fn lemma_none_is_nearer(magnitude: int, n: int, d: int, other: int)
    requires
        d > 0,
        nearest(magnitude, n, d),
        0 <= other <= INFINITE,
        other != magnitude,
        n <= magnitude_units(INFINITE as int) * d,
    ensures
        apart(n, magnitude_units(magnitude) * d) <= apart(n, magnitude_units(other) * d),
        apart(n, magnitude_units(magnitude) * d) == apart(n, magnitude_units(other) * d)
            ==> magnitude % 2 == 0,
{
    let here: int = magnitude_units(magnitude);
    let there: int = magnitude_units(other);
    if other < magnitude {
        let under: int = magnitude_units(magnitude - 1);
        lemma_magnitudes_grow(magnitude - 1, magnitude);
        if other < magnitude - 1 {
            lemma_magnitudes_grow(other, magnitude - 1);
        }
        assert((under + here) * d == under * d + here * d) by (nonlinear_arith);
        assert(there * d <= under * d && under * d < here * d && (there < under ==> there * d
            < under * d)) by (nonlinear_arith)
            requires
                there <= under,
                under < here,
                d > 0,
        ;
    } else {
        let above: int = magnitude_units(magnitude + 1);
        lemma_magnitudes_grow(magnitude, magnitude + 1);
        if magnitude + 1 < other {
            lemma_magnitudes_grow(magnitude + 1, other);
        }
        assert((here + above) * d == here * d + above * d) by (nonlinear_arith);
        assert(above * d <= there * d && here * d < above * d && (above < there ==> above * d
            < there * d)) by (nonlinear_arith)
            requires
                above <= there,
                here < above,
                d > 0,
        ;
    }
}

proof fn lemma_sizes(a: Amount)
    ensures
        magnitude_units(a.magnitude()) >= 0,
        (magnitude_units(a.magnitude()) == 0) == (a.magnitude() == 0),
{
    assert(magnitude_units(0) == 0);
    if a.magnitude() > 0 {
        lemma_magnitudes_grow(0, a.magnitude());
    }
}

/// The sum of two numbers is the nearest number to their exact sum, and it has
/// the sign of that.
pub proof fn lemma_sum_is_nearest(a: Amount, b: Amount)
    requires
        a.finite(),
        b.finite(),
    ensures
        nearest(a.sum(b).magnitude(), apart(0, a.units() + b.units()), 1),
        a.units() + b.units() > 0 ==> !a.sum(b).negative(),
        a.units() + b.units() < 0 ==> a.sum(b).negative(),
        a.sum(b) == b.sum(a),
{
    let exact: int = a.units() + b.units();
    lemma_rounding_succeeds(apart(0, exact), 1);
    lemma_encoded(exact < 0, rounded(apart(0, exact), 1));
    if exact == 0 {
        super::arithmetic::lemma_round_zero(1);
        lemma_encoded(a.negative() && b.negative(), 0);
    }
}

/// The difference of two numbers is the nearest number to their exact
/// difference, and it has the sign of that.
pub proof fn lemma_difference_is_nearest(a: Amount, b: Amount)
    requires
        a.finite(),
        b.finite(),
    ensures
        nearest(a.difference(b).magnitude(), apart(a.units(), b.units()), 1),
        a.units() > b.units() ==> !a.difference(b).negative(),
        a.units() < b.units() ==> a.difference(b).negative(),
{
    let c: Amount = b.opposite();
    assert(c.finite() && c.units() == -b.units());
    lemma_sum_is_nearest(a, c);
}

/// The product of two numbers is the nearest number to their exact product.
pub proof fn lemma_product_is_nearest(a: Amount, b: Amount)
    requires
        a.finite(),
        b.finite(),
    ensures
        nearest(
            a.product(b).magnitude(),
            magnitude_units(a.magnitude()) * magnitude_units(b.magnitude()),
            one(),
        ),
        a.product(b).negative() == (a.negative() != b.negative()),
{
    lemma_sizes(a);
    lemma_sizes(b);
    lemma_pow2_pos(1074);
    let (m, n) = (magnitude_units(a.magnitude()), magnitude_units(b.magnitude()));
    assert(m * n >= 0) by (nonlinear_arith)
        requires
            m >= 0,
            n >= 0,
    ;
    lemma_rounding_succeeds(m * n, one());
    lemma_encoded(a.negative() != b.negative(), rounded(m * n, one()));
}

/// The quotient of two numbers is the nearest number to their exact quotient.
pub proof fn lemma_quotient_is_nearest(a: Amount, b: Amount)
    requires
        a.finite(),
        b.finite(),
        b.magnitude() != 0,
    ensures
        nearest(
            a.quotient(b).magnitude(),
            magnitude_units(a.magnitude()) * one(),
            magnitude_units(b.magnitude()),
        ),
        a.quotient(b).negative() == (a.negative() != b.negative()),
{
    lemma_sizes(a);
    lemma_sizes(b);
    lemma_pow2_pos(1074);
    let m: int = magnitude_units(a.magnitude());
    assert(m * one() >= 0) by (nonlinear_arith)
        requires
            m >= 0,
            one() > 0,
    ;
    lemma_rounding_succeeds(m * one(), magnitude_units(b.magnitude()));
    lemma_encoded(
        a.negative() != b.negative(),
        rounded(m * one(), magnitude_units(b.magnitude())),
    );
}

// ---- whole numbers -----------------------------------------------------

/// How many binary digits a number has.
proof fn lemma_binary_length(n: int, most: nat) -> (length: nat)
    requires
        0 < n < pow2(most),
    ensures
        0 < length <= most,
        pow2((length - 1) as nat) <= n < pow2(length),
    decreases most,
{
    lemma2_to64();
    if most == 0 || n >= pow2((most - 1) as nat) {
        most
    } else {
        lemma_binary_length(n, (most - 1) as nat)
    }
}

/// Every whole number of at most 53 binary digits has an encoding.
proof fn lemma_whole_numbers_have_encodings(n: int) -> (magnitude: int)
    requires
        0 <= n < pow2(53),
    ensures
        0 <= magnitude < INFINITE,
        magnitude_units(magnitude) == n * one(),
{
    lemma2_to64();
    lemma2_to64_rest();
    if n == 0 {
        assert(magnitude_units(0) == 0);
        assert(0 * one() == 0);
        0
    } else {
        let length: nat = lemma_binary_length(n, 53);
        let up: nat = (53 - length) as nat;
        let factor: int = pow2(up) as int;
        let significand: int = n * factor;
        let scale: nat = (1074 - up) as nat;
        lemma_pow2_pos(up);
        lemma_pow2_adds(length, up);
        lemma_pow2_adds((length - 1) as nat, up);
        lemma_pow2_adds(up, scale);
        assert(EXPONENT_STEP <= significand < 2 * EXPONENT_STEP) by (nonlinear_arith)
            requires
                pow2((length - 1) as nat) <= n < pow2(length),
                pow2((length - 1) as nat) * factor == EXPONENT_STEP,
                pow2(length) * factor == 2 * EXPONENT_STEP,
                significand == n * factor,
                factor > 0,
        ;
        lemma_encoding(scale as int, significand);
        let p: int = pow2(scale) as int;
        assert(significand * p == n * one()) by (nonlinear_arith)
            requires
                significand == n * factor,
                factor * p == one(),
        ;
        scale * EXPONENT_STEP + significand
    }
}

/// What is rounded to a whole number becomes the nearest one, and of two that
/// are equally near the one further from zero.
pub proof fn lemma_whole_is_nearest(a: Amount) -> (n: int)
    requires
        a.finite(),
    ensures
        n >= 0,
        a.whole().finite(),
        a.whole().negative() == a.negative(),
        magnitude_units(a.whole().magnitude()) == n * one(),
        (2 * n - 1) * one() <= 2 * magnitude_units(a.magnitude()) < (2 * n + 1) * one(),
{
    let m: int = magnitude_units(a.magnitude());
    let n: int = (2 * m + one()) / (2 * one());
    let o: int = one();
    lemma_sizes(a);
    lemma_pow2_pos(1074);
    lemma2_to64();
    lemma2_to64_rest();
    vstd::arithmetic::div_mod::lemma_fundamental_div_mod(2 * m + o, 2 * o);
    let rest: int = (2 * m + o) % (2 * o);
    assert((2 * n - 1) * o <= 2 * m < (2 * n + 1) * o && n >= 0) by (nonlinear_arith)
        requires
            2 * m + o == (2 * o) * n + rest,
            0 <= rest < 2 * o,
            m >= 0,
            o > 0,
    ;
    let step: int = EXPONENT_STEP as int;
    let exponent: int = a.magnitude() / step;
    let magnitude: int = if exponent >= 1075 {
        let k: nat = (exponent - 1075) as nat;
        let s: int = step + a.magnitude() % step;
        lemma_pow2_adds(k, 1074);
        let count: int = s * pow2(k);
        assert(m == count * o) by (nonlinear_arith)
            requires
                m == s * pow2((exponent - 1) as nat),
                pow2((exponent - 1) as nat) == pow2(k) * o,
                count == s * pow2(k),
        ;
        assert(n == count) by (nonlinear_arith)
            requires
                (2 * n - 1) * o <= 2 * m < (2 * n + 1) * o,
                m == count * o,
                o > 0,
        ;
        a.magnitude()
    } else {
        // The number is below 2^53, and so is the whole number next to it.
        lemma_pow2_unfold(1074);
        let half: int = pow2(1073) as int;
        let p: int = if exponent == 0 {
            1
        } else {
            pow2((exponent - 1) as nat) as int
        };
        let s: int = if exponent == 0 {
            a.magnitude() % step
        } else {
            step + a.magnitude() % step
        };
        assert(m == s * p) by {
            if exponent == 0 {
                assert(s * 1 == s);
            }
        }
        lemma_pow2_pos(1073);
        assert(p <= half) by {
            if exponent > 0 && exponent - 1 < 1073 {
                lemma_pow2_strictly_increases((exponent - 1) as nat, 1073);
            }
        }
        assert(p > 0) by {
            if exponent > 0 {
                lemma_pow2_pos((exponent - 1) as nat);
            }
        }
        assert(n < 0x20_0000_0000_0000) by (nonlinear_arith)
            requires
                (2 * n - 1) * o <= 2 * m,
                m == s * p,
                0 <= s < 0x20_0000_0000_0000,
                0 < p <= half,
                o == 2 * half,
                half > 0,
        ;
        lemma_whole_numbers_have_encodings(n)
    };
    lemma_exact_is_kept(magnitude, n * o, 1);
    lemma_encoded(a.negative(), magnitude);
    n
}

/// A count of less than 2^53 is the number itself.
pub proof fn lemma_counts_are_exact(count: nat)
    requires
        count < 0x20_0000_0000_0000,
    ensures
        !number_of(count).negative(),
        number_of(count).finite(),
        number_of(count).units() == count * one(),
{
    lemma2_to64();
    lemma2_to64_rest();
    let magnitude: int = lemma_whole_numbers_have_encodings(count as int);
    lemma_exact_is_kept(magnitude, count * one(), 1);
    lemma_encoded(false, magnitude);
}

/// Numbers that differ are ordered one way or the other, never both. What is
/// not a number has no place among them.
pub proof fn lemma_numbers_are_ordered(a: Amount, b: Amount)
    ensures
        a.not_a_number() || b.not_a_number() ==> !a.below(b) && !a.at_most(b),
        !a.not_a_number() && !b.not_a_number() ==> {
            &&& a.below(b) <==> !b.at_most(a)
            &&& a.at_most(b) <==> a.below(b) || a.units() == b.units()
            &&& a.below(b) <==> a.signed_magnitude() < b.signed_magnitude()
        },
{
    lemma_order_of_encodings(a, b);
}

/// One cent is the nearest number to a hundredth, ten cents are the nearest to a
/// tenth, and a hundred is a hundred.
pub proof fn lemma_fixed_amounts()
    ensures
        nearest(cent().magnitude(), one(), 100),
        nearest(ten_cents().magnitude(), one(), 10),
        hundred().units() == 100 * one(),
        zero().units() == 0,
        unbounded().infinite(),
        !cent().negative(),
        !ten_cents().negative(),
        !unbounded().negative(),
{
    lemma2_to64();
    lemma2_to64_rest();
    lemma_pow2_pos(1015);
    lemma_pow2_pos(1018);
    lemma_pow2_pos(1028);
    lemma_pow2_adds(59, 1015);
    lemma_pow2_adds(56, 1018);
    lemma_pow2_adds(46, 1028);
    let step: int = EXPONENT_STEP as int;
    let c: int = cent().magnitude();
    let p: int = pow2(1015) as int;
    assert(c / step == 1016 && (c - 1) / step == 1016 && (c + 1) / step == 1016);
    assert(c % step == 0x47AE147AE147B && (c - 1) % step == 0x47AE147AE147A && (c + 1) % step
        == 0x47AE147AE147C);
    assert(magnitude_units(c) == 5764607523034235 * p);
    assert(magnitude_units(c - 1) == 5764607523034234 * p);
    assert(magnitude_units(c + 1) == 5764607523034236 * p);
    assert(one() == 576460752303423488 * p);
    let t: int = ten_cents().magnitude();
    let q: int = pow2(1018) as int;
    assert(t / step == 1019 && (t - 1) / step == 1019 && (t + 1) / step == 1019);
    assert(t % step == 0x999999999999A && (t - 1) % step == 0x9999999999999 && (t + 1) % step
        == 0x999999999999B);
    assert(magnitude_units(t) == 7205759403792794 * q);
    assert(magnitude_units(t - 1) == 7205759403792793 * q);
    assert(magnitude_units(t + 1) == 7205759403792795 * q);
    assert(one() == 72057594037927936 * q);
    let h: int = hundred().magnitude();
    assert(h / step == 1029 && h % step == 0x9000000000000);
    assert(magnitude_units(h) == 7036874417766400 * pow2(1028));
    assert(one() == 70368744177664 * pow2(1028));
    assert(magnitude_units(0) == 0);
}

/// What is not a number stays none, whatever is done with it; infinite numbers
/// of opposite signs have no sum, and else a sum with an infinite number is that
/// number; an infinite number over a finite one is infinite, and a finite one
/// over an infinite one is zero.
pub proof fn lemma_beyond_numbers(a: Amount, b: Amount)
    ensures
        a.not_a_number() || b.not_a_number() ==> a.sum(b).not_a_number() && a.difference(
            b,
        ).not_a_number() && a.product(b).not_a_number() && a.quotient(b).not_a_number(),
        a.infinite() && b.infinite() && a.negative() != b.negative() ==> a.sum(b).not_a_number(),
        a.infinite() && b.infinite() && a.negative() == b.negative() ==> a.sum(b) == a
            && a.difference(b).not_a_number(),
        a.infinite() && b.finite() ==> a.sum(b) == a && a.difference(b) == a && b.sum(a) == a
            && a.quotient(b).infinite() && a.quotient(b).negative() == (a.negative()
            != b.negative()) && b.quotient(a).units() == 0,
        a.infinite() && b.infinite() ==> a.quotient(b).not_a_number() && a.product(b).infinite(),
        a.finite() && a.magnitude() != 0 && b.magnitude() == 0 ==> a.quotient(b).infinite(),
        a.magnitude() == 0 && b.magnitude() == 0 ==> a.quotient(b).not_a_number(),
        !a.finite() ==> a.whole() == a,
{
    assert(magnitude_units(0) == 0);
}

} // verus!
