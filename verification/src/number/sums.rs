//! Totals and averages.

use super::arithmetic::{amount_of, lemma_exact_is_kept, number_of, one};
use super::order::{lemma_encoded, lemma_rounding_keeps_order, lemma_rounding_succeeds};
use super::rounding::rounded;
use super::{
    cent, lemma_magnitudes_grow, lemma_order_of_encodings, magnitude_units, zero, Amount,
    EXPONENT_STEP, INFINITE, SIGN,
};
use vstd::arithmetic::power2::{
    lemma2_to64, lemma2_to64_rest, lemma_pow2_adds, lemma_pow2_pos, lemma_pow2_strictly_increases,
    pow2,
};
use vstd::prelude::*;

verus! {

/// The total of no amounts: minus zero, which changes no amount it is added to.
#[verifier::allow_in_spec]
pub fn nothing() -> (r: Amount)
    returns
        (Amount { bits: SIGN }),
{
    Amount { bits: SIGN }
}

/// The total of amounts, added up one after another.
pub open spec fn total(amounts: Seq<Amount>) -> Amount
    decreases amounts.len(),
{
    if amounts.len() == 0 {
        nothing()
    } else {
        total(amounts.drop_last()).sum(amounts.last())
    }
}

/// The total divided by the number of amounts.
pub open spec fn mean(amounts: Seq<Amount>) -> Amount {
    total(amounts).quotient(number_of(amounts.len()))
}

/// Adds the amounts up.
pub fn total_of(amounts: &Vec<Amount>) -> (r: Amount)
    ensures
        r == total(amounts@),
{
    let mut so_far: Amount = nothing();
    let mut i: usize = 0;
    while i < amounts.len()
        invariant
            i <= amounts@.len(),
            so_far == total(amounts@.take(i as int)),
        decreases amounts@.len() - i,
    {
        assert(amounts@.take(i + 1).drop_last() =~= amounts@.take(i as int));
        so_far = so_far.plus(amounts[i]);
        i = i + 1;
    }
    assert(amounts@.take(amounts@.len() as int) =~= amounts@);
    so_far
}

/// The average of the amounts.
pub fn mean_of(amounts: &Vec<Amount>) -> (r: Amount)
    ensures
        r == mean(amounts@),
{
    total_of(amounts).over(amount_of(amounts.len() as u64))
}

// ---- totals of positive amounts ----------------------------------------

proof fn lemma_add_positive(so_far: Amount, more: Amount)
    requires
        so_far == nothing() || zero().below(so_far),
        cent().below(more),
    ensures
        cent().at_most(so_far.sum(more)),
{
    let r: Amount = so_far.sum(more);
    lemma_order_of_encodings(cent(), more);
    lemma_order_of_encodings(zero(), so_far);
    lemma_order_of_encodings(r, cent());
    assert(magnitude_units(0) == 0);
    if so_far.finite() && more.finite() {
        let exact: int = so_far.units() + more.units();
        assert(so_far.units() >= 0);
        lemma_magnitudes_grow(0, cent().magnitude());
        lemma_rounding_succeeds(exact, 1);
        lemma_rounding_keeps_order(more.units(), 1, exact, 1);
        lemma_exact_is_kept(more.magnitude(), more.units(), 1);
        lemma_encoded(false, rounded(exact, 1));
    }
}

proof fn lemma_total_of_positive(amounts: Seq<Amount>)
    requires
        amounts.len() > 0,
        forall|i: int| 0 <= i < amounts.len() ==> cent().below(#[trigger] amounts[i]),
    ensures
        cent().at_most(total(amounts)),
    decreases amounts.len(),
{
    let front = amounts.drop_last();
    let last = amounts[amounts.len() - 1];
    if front.len() > 0 {
        assert forall|i: int| 0 <= i < front.len() implies cent().below(#[trigger] front[i]) by {
            assert(front[i] == amounts[i]);
        }
        lemma_total_of_positive(front);
        lemma_cent_is_positive();
    }
    lemma_add_positive(total(front), last);
}

/// One cent is more than nothing.
pub proof fn lemma_cent_is_positive()
    ensures
        zero().below(cent()),
{
    assert(magnitude_units(0) == 0);
    lemma_magnitudes_grow(0, cent().magnitude());
}

/// The average of amounts above one cent is positive.
pub proof fn lemma_mean_of_positive(amounts: Seq<Amount>)
    requires
        0 < amounts.len() <= u32::MAX,
        forall|i: int| 0 <= i < amounts.len() ==> cent().below(#[trigger] amounts[i]),
    ensures
        zero().below(mean(amounts)),
{
    let sum: Amount = total(amounts);
    let count: Amount = number_of(amounts.len());
    let limit: int = 0x41F0_0000_0000_0000;
    lemma_total_of_positive(amounts);
    lemma_order_of_encodings(sum, cent());
    lemma_pow2_pos(1074);
    lemma2_to64();
    lemma2_to64_rest();
    assert(magnitude_units(0) == 0 && magnitude_units(1) == 1);
    // The count: at least one, and no more than 2^32.
    let units: int = amounts.len() * one();
    assert(one() <= units <= 0x1_0000_0000 * one()) by (nonlinear_arith)
        requires
            1 <= amounts.len() <= 0x1_0000_0000,
            units == amounts.len() * one(),
            one() > 0,
    ;
    assert(magnitude_units(limit) == EXPONENT_STEP * pow2(1054)) by {
        assert(limit / EXPONENT_STEP as int == 1055 && limit % EXPONENT_STEP as int == 0);
    }
    lemma_pow2_adds(52, 1054);
    lemma_pow2_adds(32, 1074);
    assert(magnitude_units(limit) == 0x1_0000_0000 * one());
    lemma_rounding_succeeds(units, 1);
    lemma_rounding_keeps_order(units, 1, magnitude_units(limit), 1);
    lemma_exact_is_kept(limit, magnitude_units(limit), 1);
    lemma_rounding_keeps_order(1, 1, units, 1);
    lemma_exact_is_kept(1, 1, 1);
    lemma_encoded(false, rounded(units, 1));
    let d: int = magnitude_units(count.magnitude());
    lemma_magnitudes_grow(0, count.magnitude());
    if count.magnitude() < limit {
        lemma_magnitudes_grow(count.magnitude(), limit);
    }
    assert(0 < d <= magnitude_units(limit));
    if sum.finite() {
        // The total: a cent at least.
        let m: int = magnitude_units(sum.magnitude());
        let low: int = magnitude_units(cent().magnitude());
        if cent().magnitude() < sum.magnitude() {
            lemma_magnitudes_grow(cent().magnitude(), sum.magnitude());
        }
        assert(low >= EXPONENT_STEP * pow2(1015)) by (nonlinear_arith)
            requires
                low == (EXPONENT_STEP + 0x47AE147AE147B) * pow2(1015),
                pow2(1015) >= 0,
        ;
        lemma_pow2_pos(1015);
        lemma_pow2_adds(52, 1015);
        lemma_pow2_strictly_increases(32, 1067);
        assert(m >= 0x1_0000_0000);
        assert(m * one() >= 0x1_0000_0000 * one()) by (nonlinear_arith)
            requires
                m >= 0x1_0000_0000,
                one() > 0,
        ;
        let n: int = m * one();
        assert(1 * d <= n * 1);
        lemma_rounding_succeeds(n, d);
        lemma_rounding_keeps_order(1, 1, n, d);
        lemma_encoded(false, rounded(n, d));
        lemma_order_of_encodings(zero(), mean(amounts));
    } else {
        lemma_encoded(false, INFINITE as int);
        lemma_order_of_encodings(zero(), mean(amounts));
    }
}

/// A total is what its amounts come to, added up one after another: each further
/// amount is added to what the others come to, and a single one is its own
/// total.
pub proof fn lemma_totals_add_up(amounts: Seq<Amount>, more: Amount)
    ensures
        total(amounts.push(more)) == total(amounts).sum(more),
        !more.not_a_number() ==> total(seq![more]) == more,
        mean(amounts) == total(amounts).quotient(number_of(amounts.len())),
{
    assert(amounts.push(more).drop_last() =~= amounts);
    let none = Seq::<Amount>::empty();
    assert(seq![more].drop_last() =~= none);
    assert(total(none) == nothing());
    assert(seq![more].last() == more);
    assert(total(seq![more]) == nothing().sum(more));
    assert(magnitude_units(0) == 0);
    if more.finite() {
        if more.magnitude() > 0 {
            lemma_magnitudes_grow(0, more.magnitude());
            let units: int = magnitude_units(more.magnitude());
            lemma_exact_is_kept(more.magnitude(), units, 1);
        }
    }
}

} // verus!
