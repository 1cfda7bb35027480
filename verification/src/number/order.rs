//! How rounding, and the operations that round, keep the order of numbers.

use super::arithmetic::{encoded, lemma_round_zero, one};
use super::rounding::{lemma_nearest_beyond, lemma_nearest_from_below, nearest, rounded};
use super::{
    hundred, lemma_magnitudes_grow, lemma_order_of_encodings, magnitude_units, zero, Amount,
    INFINITE,
};
use vstd::arithmetic::power2::lemma_pow2_pos;
use vstd::prelude::*;

verus! {

proof fn lemma_floor(n: int, d: int, m: int) -> (low: int)
    requires
        d > 0,
        n >= 0,
        0 < m <= INFINITE,
        n < magnitude_units(m) * d,
    ensures
        0 <= low < m,
        magnitude_units(low) * d <= n < magnitude_units(low + 1) * d,
    decreases m,
{
    if magnitude_units(m - 1) * d <= n {
        m - 1
    } else {
        assert(magnitude_units(0) == 0);
        assert(0 * d == 0);
        lemma_floor(n, d, m - 1)
    }
}

/// Every fraction is rounded to some magnitude.
pub proof fn lemma_rounding_succeeds(n: int, d: int)
    requires
        d > 0,
        n >= 0,
    ensures
        nearest(rounded(n, d), n, d),
        0 <= rounded(n, d) <= INFINITE,
{
    if n >= magnitude_units(INFINITE as int) * d {
        lemma_nearest_beyond(n, d);
    } else {
        let low: int = lemma_floor(n, d, INFINITE as int);
        let middle: int = (magnitude_units(low) + magnitude_units(low + 1)) * d;
        let up: bool = 2 * n > middle || (2 * n == middle && low % 2 == 1);
        lemma_nearest_from_below(low, n, d, up);
    }
}

/// A larger fraction is never rounded to a smaller magnitude.
pub proof fn lemma_rounding_keeps_order(n1: int, d1: int, n2: int, d2: int)
    requires
        d1 > 0,
        d2 > 0,
        0 <= n1,
        0 <= n2,
        n1 * d2 <= n2 * d1,
    ensures
        rounded(n1, d1) <= rounded(n2, d2),
{
    lemma_rounding_succeeds(n1, d1);
    lemma_rounding_succeeds(n2, d2);
    let (a, b) = (rounded(n1, d1), rounded(n2, d2));
    if a > b {
        let under: int = magnitude_units(a - 1) + magnitude_units(a);
        let above: int = magnitude_units(b) + magnitude_units(b + 1);
        if b < a - 1 {
            lemma_magnitudes_grow(b, a - 1);
            lemma_magnitudes_grow(b + 1, a);
        }
        assert(above <= under && (above == under ==> b == a - 1));
        assert(2 * n1 >= under * d1);
        assert(2 * n2 <= above * d2);
        assert(2 * (n1 * d2) >= under * (d1 * d2)) by (nonlinear_arith)
            requires
                2 * n1 >= under * d1,
                d2 > 0,
        ;
        assert(2 * (n2 * d1) <= above * (d1 * d2)) by (nonlinear_arith)
            requires
                2 * n2 <= above * d2,
                d1 > 0,
        ;
        assert(d1 * d2 > 0) by (nonlinear_arith)
            requires
                d1 > 0,
                d2 > 0,
        ;
        let p: int = d1 * d2;
        if above < under {
            assert(above * p < under * p) by (nonlinear_arith)
                requires
                    above < under,
                    p > 0,
            ;
        }
        assert(above == under);
        if 2 * n1 > under * d1 {
            assert(2 * (n1 * d2) > under * (d1 * d2)) by (nonlinear_arith)
                requires
                    2 * n1 > under * d1,
                    d2 > 0,
            ;
        }
        if 2 * n2 < above * d2 {
            assert(2 * (n2 * d1) < above * (d1 * d2)) by (nonlinear_arith)
                requires
                    2 * n2 < above * d2,
                    d1 > 0,
            ;
        }
        assert(a % 2 == 0 && b % 2 == 0);
    }
}

/// What an encoding that was put together stands for.
pub proof fn lemma_encoded(negative: bool, magnitude: int)
    requires
        0 <= magnitude <= INFINITE,
    ensures
        encoded(negative, magnitude).negative() == negative,
        encoded(negative, magnitude).magnitude() == magnitude,
        !encoded(negative, magnitude).not_a_number(),
{
}

proof fn lemma_units_of_magnitudes(a: Amount)
    ensures
        magnitude_units(a.magnitude()) >= 0,
        (magnitude_units(a.magnitude()) == 0) == (a.magnitude() == 0),
{
    assert(magnitude_units(0) == 0);
    if a.magnitude() > 0 {
        lemma_magnitudes_grow(0, a.magnitude());
    }
}

proof fn lemma_at_most(a: Amount, b: Amount)
    ensures
        a.at_most(b) == (!a.not_a_number() && !b.not_a_number() && a.signed_magnitude()
            <= b.signed_magnitude()),
        a.below(b) == (!a.not_a_number() && !b.not_a_number() && a.signed_magnitude()
            < b.signed_magnitude()),
{
    lemma_order_of_encodings(a, b);
    lemma_order_of_encodings(b, a);
}

proof fn lemma_sum_of_finite(a: Amount, b: Amount)
    requires
        a.finite(),
        b.finite(),
    ensures
        !a.sum(b).not_a_number(),
        ({
            let exact: int = a.units() + b.units();
            let s: int = a.sum(b).signed_magnitude();
            &&& exact > 0 ==> s == rounded(exact, 1)
            &&& exact < 0 ==> s == -rounded(-exact, 1)
            &&& exact == 0 ==> s == 0
            &&& exact >= 0 && !(a.negative() && b.negative()) ==> !a.sum(b).negative()
        }),
{
    let exact: int = a.units() + b.units();
    if exact > 0 {
        lemma_rounding_succeeds(exact, 1);
        lemma_encoded(false, rounded(exact, 1));
    } else if exact < 0 {
        lemma_rounding_succeeds(-exact, 1);
        lemma_encoded(true, rounded(-exact, 1));
    }
}

proof fn lemma_opposite(a: Amount)
    ensures
        a.opposite().negative() != a.negative(),
        a.opposite().magnitude() == a.magnitude(),
        a.opposite().units() == -a.units(),
{
}

/// Less what is taken away, the larger of two amounts is still not smaller
/// than the other.
pub proof fn lemma_difference_keeps_order(a: Amount, b: Amount, taken: Amount)
    requires
        a.at_most(b),
        taken.finite(),
    ensures
        a.difference(taken).at_most(b.difference(taken)),
{
    let c: Amount = taken.opposite();
    lemma_opposite(taken);
    lemma_at_most(a, b);
    lemma_at_most(a.difference(taken), b.difference(taken));
    if a.finite() && b.finite() {
        lemma_sum_of_finite(a, c);
        lemma_sum_of_finite(b, c);
        let (e, f) = (a.units() + c.units(), b.units() + c.units());
        assert(e <= f);
        if e > 0 {
            lemma_rounding_keeps_order(e, 1, f, 1);
        } else if f < 0 {
            lemma_rounding_keeps_order(-f, 1, -e, 1);
        }
        if f > 0 {
            lemma_rounding_succeeds(f, 1);
        }
        if e < 0 {
            lemma_rounding_succeeds(-e, 1);
        }
    } else {
        if a.finite() {
            lemma_sum_of_finite(a, c);
            lemma_bounded(a.sum(c));
        }
        if b.finite() {
            lemma_sum_of_finite(b, c);
            lemma_bounded(b.sum(c));
        }
    }
}

proof fn lemma_bounded(a: Amount)
    requires
        !a.not_a_number(),
    ensures
        -(INFINITE as int) <= a.signed_magnitude() <= INFINITE,
{
}

/// The sign of a quotient by a positive number, and how quotients by it are
/// ordered.
pub proof fn lemma_quotient_keeps_order(a: Amount, b: Amount, by: Amount)
    requires
        a.at_most(b),
        zero().below(by),
        by.finite(),
    ensures
        a.quotient(by).at_most(b.quotient(by)),
{
    lemma_at_most(zero(), by);
    lemma_at_most(a, b);
    lemma_at_most(a.quotient(by), b.quotient(by));
    let d: int = magnitude_units(by.magnitude());
    lemma_units_of_magnitudes(by);
    lemma_units_of_magnitudes(a);
    lemma_units_of_magnitudes(b);
    lemma_pow2_pos(1074);
    let (m, n) = (magnitude_units(a.magnitude()), magnitude_units(b.magnitude()));
    assert(m * one() >= 0 && n * one() >= 0) by (nonlinear_arith)
        requires
            m >= 0,
            n >= 0,
            one() > 0,
    ;
    lemma_rounding_succeeds(m * one(), d);
    lemma_rounding_succeeds(n * one(), d);
    if a.magnitude() < b.magnitude() {
        lemma_magnitudes_grow(a.magnitude(), b.magnitude());
    }
    if b.magnitude() < a.magnitude() {
        lemma_magnitudes_grow(b.magnitude(), a.magnitude());
    }
    if a.finite() && b.finite() {
        lemma_encoded(a.negative(), rounded(m * one(), d));
        lemma_encoded(b.negative(), rounded(n * one(), d));
        if m <= n {
            assert((m * one()) * d <= (n * one()) * d) by (nonlinear_arith)
                requires
                    m <= n,
                    one() > 0,
                    d > 0,
            ;
            lemma_rounding_keeps_order(m * one(), d, n * one(), d);
        }
        if n <= m {
            assert((n * one()) * d <= (m * one()) * d) by (nonlinear_arith)
                requires
                    n <= m,
                    one() > 0,
                    d > 0,
            ;
            lemma_rounding_keeps_order(n * one(), d, m * one(), d);
        }
        lemma_round_zero(d);
        assert(0 * one() == 0);
    } else {
        if a.finite() {
            lemma_encoded(a.negative(), rounded(m * one(), d));
            lemma_bounded(a.quotient(by));
        }
        if b.finite() {
            lemma_encoded(b.negative(), rounded(n * one(), d));
            lemma_bounded(b.quotient(by));
        }
    }
}

/// How hundredfolds are ordered.
pub proof fn lemma_hundredfold_keeps_order(a: Amount, b: Amount)
    requires
        a.at_most(b),
    ensures
        a.product(hundred()).at_most(b.product(hundred())),
{
    lemma_at_most(a, b);
    lemma_at_most(a.product(hundred()), b.product(hundred()));
    let d: int = one();
    let c: int = magnitude_units(hundred().magnitude());
    lemma_units_of_magnitudes(hundred());
    lemma_units_of_magnitudes(a);
    lemma_units_of_magnitudes(b);
    lemma_pow2_pos(1074);
    let (m, n) = (magnitude_units(a.magnitude()), magnitude_units(b.magnitude()));
    assert(m * c >= 0 && n * c >= 0) by (nonlinear_arith)
        requires
            m >= 0,
            n >= 0,
            c > 0,
    ;
    lemma_rounding_succeeds(m * c, d);
    lemma_rounding_succeeds(n * c, d);
    if a.magnitude() < b.magnitude() {
        lemma_magnitudes_grow(a.magnitude(), b.magnitude());
    }
    if b.magnitude() < a.magnitude() {
        lemma_magnitudes_grow(b.magnitude(), a.magnitude());
    }
    if a.finite() && b.finite() {
        lemma_encoded(a.negative(), rounded(m * c, d));
        lemma_encoded(b.negative(), rounded(n * c, d));
        if m <= n {
            assert((m * c) * d <= (n * c) * d) by (nonlinear_arith)
                requires
                    m <= n,
                    c > 0,
                    d > 0,
            ;
            lemma_rounding_keeps_order(m * c, d, n * c, d);
        }
        if n <= m {
            assert((n * c) * d <= (m * c) * d) by (nonlinear_arith)
                requires
                    n <= m,
                    c > 0,
                    d > 0,
            ;
            lemma_rounding_keeps_order(n * c, d, m * c, d);
        }
        lemma_round_zero(d);
        assert(0 * c == 0);
    } else {
        if a.finite() {
            lemma_encoded(a.negative(), rounded(m * c, d));
            lemma_bounded(a.product(hundred()));
        }
        if b.finite() {
            lemma_encoded(b.negative(), rounded(n * c, d));
            lemma_bounded(b.product(hundred()));
        }
    }
}

} // verus!
