//! Whole numbers of any size, by their decimal digits.

use vstd::arithmetic::power::pow;
use vstd::prelude::*;

verus! {

/// The number that digits stand for, the last one first.
pub open spec fn digits_total(digits: Seq<u8>) -> nat
    decreases digits.len(),
{
    if digits.len() == 0 {
        0
    } else {
        digits[0] as nat + 10 * digits_total(digits.drop_first())
    }
}

pub open spec fn are_digits(digits: Seq<u8>) -> bool {
    forall|i: int| 0 <= i < digits.len() ==> #[trigger] digits[i] < 10
}

/// Digits as they are written: none of them superfluous.
pub open spec fn no_leading_zero(digits: Seq<u8>) -> bool {
    digits.len() > 0 && (digits.len() == 1 || digits.last() != 0)
}

/// One more digit at the end where the large ones stand.
pub proof fn lemma_digits_total_push(digits: Seq<u8>, more: u8)
    ensures
        digits_total(digits.push(more)) == digits_total(digits) + more
            * pow(10, digits.len()),
    decreases digits.len(),
{
    vstd::arithmetic::power::lemma_pow0(10);
    if digits.len() == 0 {
        assert(digits.push(more).drop_first() =~= digits);
        assert(more * pow(10, 0) == more) by (nonlinear_arith)
            requires
                pow(10, 0) == 1,
        ;
    } else {
        assert(digits.push(more).drop_first() =~= digits.drop_first().push(more));
        lemma_digits_total_push(digits.drop_first(), more);
        let k: nat = (digits.len() - 1) as nat;
        reveal(pow);
        let p: int = pow(10, k);
        assert(pow(10, digits.len()) == 10 * p);
        assert(10 * (more * p) == more * (10 * p)) by (nonlinear_arith);
    }
}

/// Digits taken apart stand for what their two parts stand for, the second
/// one scaled.
pub proof fn lemma_digits_total_split(digits: Seq<u8>, at: int)
    requires
        0 <= at <= digits.len(),
    ensures
        digits_total(digits) == digits_total(digits.take(at)) + pow(10, at as nat) * digits_total(
            digits.skip(at),
        ),
    decreases at,
{
    if at == 0 {
        vstd::arithmetic::power::lemma_pow0(10);
        assert(digits.skip(0) =~= digits);
        assert(digits_total(digits.take(0)) == 0);
        assert(pow(10, 0) * digits_total(digits) == digits_total(digits)) by (nonlinear_arith)
            requires
                pow(10, 0) == 1,
        ;
    } else {
        let rest = digits.drop_first();
        lemma_digits_total_split(rest, at - 1);
        assert(digits.take(at).drop_first() =~= rest.take(at - 1));
        assert(digits.skip(at) =~= rest.skip(at - 1));
        reveal(pow);
        let p: int = pow(10, (at - 1) as nat);
        let t: int = digits_total(digits.skip(at)) as int;
        assert(pow(10, at as nat) == 10 * p);
        assert(10 * (p * t) == (10 * p) * t) by (nonlinear_arith);
    }
}

/// How large a number with so many digits can be.
pub proof fn lemma_digits_bound(digits: Seq<u8>)
    requires
        are_digits(digits),
    ensures
        digits_total(digits) < pow(10, digits.len()),
    decreases digits.len(),
{
    vstd::arithmetic::power::lemma_pow0(10);
    if digits.len() > 0 {
        let rest = digits.drop_first();
        assert forall|i: int| 0 <= i < rest.len() implies #[trigger] rest[i] < 10 by {
            assert(rest[i] == digits[i + 1]);
        }
        lemma_digits_bound(rest);
        assert(digits[0] < 10);
        reveal(pow);
        assert(pow(10, digits.len()) == 10 * pow(10, rest.len()));
    }
}

/// How large a number with so many digits is at least.
pub proof fn lemma_digits_reach(digits: Seq<u8>)
    requires
        digits.len() > 0,
        digits.last() != 0,
    ensures
        digits_total(digits) >= pow(10, (digits.len() - 1) as nat),
{
    let k: nat = (digits.len() - 1) as nat;
    assert(digits =~= digits.drop_last().push(digits.last()));
    lemma_digits_total_push(digits.drop_last(), digits.last());
    vstd::arithmetic::power::lemma_pow_positive(10, k);
    let (x, p) = (digits.last() as int, pow(10, k));
    assert(x * p >= p) by (nonlinear_arith)
        requires
            x >= 1,
            p > 0,
    ;
}

/// The digits of the number times a single digit.
pub fn multiplied(digits: &Vec<u8>, by: u8) -> (r: Vec<u8>)
    requires
        are_digits(digits@),
        no_leading_zero(digits@),
        1 <= by <= 9,
    ensures
        are_digits(r@),
        no_leading_zero(r@),
        digits_total(r@) == by * digits_total(digits@),
        digits@.len() <= r@.len() <= digits@.len() + 1,
{
    let mut out: Vec<u8> = Vec::new();
    let mut carry: u8 = 0;
    let mut i: usize = 0;
    proof {
        vstd::arithmetic::power::lemma_pow0(10);
        assert(digits@.take(0) =~= Seq::<u8>::empty());
        assert(digits_total(digits@.take(0)) == 0);
        assert(by * 0 == 0);
    }
    while i < digits.len()
        invariant
            are_digits(digits@),
            no_leading_zero(digits@),
            1 <= by <= 9,
            are_digits(out@),
            out@.len() == i <= digits@.len(),
            carry < by,
            digits_total(out@) + carry * pow(10, i as nat) == by * digits_total(
                digits@.take(i as int),
            ),
            i > 0 && digits@[i - 1] != 0 && carry == 0 ==> out@[i - 1] != 0,
        decreases digits@.len() - i,
    {
        assert(digits@[i as int] < 10);
        assert(by * digits@[i as int] <= by * 9 <= 81) by (nonlinear_arith)
            requires
                1 <= by <= 9,
                digits@[i as int] < 10,
        ;
        let x: u8 = by * digits[i] + carry;
        let low: u8 = x % 10;
        let high: u8 = x / 10;
        proof {
            lemma_digits_total_push(out@, low);
            assert(digits@.take(i + 1) =~= digits@.take(i as int).push(digits@[i as int]));
            lemma_digits_total_push(digits@.take(i as int), digits@[i as int]);
            reveal(pow);
            let p: int = pow(10, i as nat);
            let d: int = digits@[i as int] as int;
            let t: int = digits_total(digits@.take(i as int)) as int;
            assert(pow(10, (i + 1) as nat) == 10 * p);
            assert(low * p + high * (10 * p) == by * (d * p) + carry * p) by (nonlinear_arith)
                requires
                    low + 10 * high == by * d + carry,
            ;
            assert(by * (t + d * p) == by * t + by * (d * p)) by (nonlinear_arith);
            if d > 0 {
                assert(by * d >= 1) by (nonlinear_arith)
                    requires
                        by >= 1,
                        d >= 1,
                ;
            }
        }
        out.push(low);
        carry = high;
        i = i + 1;
    }
    proof {
        assert(digits@.take(digits@.len() as int) =~= digits@);
        lemma_digits_total_push(out@, carry);
        assert(0 * pow(10, digits@.len()) == 0);
    }
    if carry > 0 {
        out.push(carry);
    }
    out
}

/// The digits of a number.
pub fn digits_of(n: u64) -> (r: Vec<u8>)
    ensures
        are_digits(r@),
        no_leading_zero(r@),
        digits_total(r@) == n,
    decreases n,
{
    if n < 10 {
        let mut out: Vec<u8> = Vec::new();
        out.push(n as u8);
        assert(out@.drop_first() =~= Seq::<u8>::empty());
        assert(digits_total(out@.drop_first()) == 0);
        out
    } else {
        let rest: Vec<u8> = digits_of(n / 10);
        let mut out: Vec<u8> = Vec::new();
        out.push((n % 10) as u8);
        let ghost head = out@;
        let mut i: usize = 0;
        while i < rest.len()
            invariant
                i <= rest@.len(),
                out@ == head + rest@.take(i as int),
            decreases rest@.len() - i,
        {
            out.push(rest[i]);
            assert(head + rest@.take(i + 1) =~= (head + rest@.take(i as int)).push(rest@[i as int]));
            i = i + 1;
        }
        assert(rest@.take(rest@.len() as int) =~= rest@);
        assert(out@.drop_first() =~= rest@);
        assert(are_digits(out@)) by {
            assert forall|k: int| 0 <= k < out@.len() implies #[trigger] out@[k] < 10 by {
                if k > 0 {
                    assert(out@[k] == rest@[k - 1]);
                }
            }
        }
        proof {
            if rest@.len() == 1 {
                assert(digits_total(rest@.drop_first()) == 0);
            }
        }
        out
    }
}

} // verus!
