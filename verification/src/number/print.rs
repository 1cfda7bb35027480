//! Numbers as text: with two decimals for money, with none for percentages.

use super::arithmetic::{one, parts_of, Parts};
use super::digits::{are_digits, digits_of, digits_total, multiplied, no_leading_zero};
use super::rounding::power_of_two;
use super::{magnitude_units, Amount};
use crate::text::{decimal, digit, write_decimal};
use vstd::arithmetic::power2::{lemma_pow2_adds, lemma_pow2_pos, lemma_pow2_strictly_increases, pow2};
use vstd::prelude::*;

verus! {

/// The whole number nearest to `n / d`, the even one where two are equally
/// near.
pub open spec fn even_quotient(n: int, d: int) -> int {
    if 2 * (n % d) < d {
        n / d
    } else if 2 * (n % d) > d {
        n / d + 1
    } else {
        n / d + (n / d) % 2
    }
}

pub open spec fn sign_text(a: Amount) -> Seq<char> {
    if a.negative() {
        seq!['-']
    } else {
        Seq::<char>::empty()
    }
}

/// A number rounded to a whole one, as text.
pub open spec fn no_decimals(a: Amount) -> Seq<char> {
    if a.not_a_number() {
        seq!['N', 'a', 'N']
    } else if a.infinite() {
        sign_text(a) + seq!['i', 'n', 'f']
    } else {
        sign_text(a) + decimal(even_quotient(magnitude_units(a.magnitude()), one()) as nat)
    }
}

/// A number rounded to hundredths, as text.
pub open spec fn two_decimals(a: Amount) -> Seq<char> {
    if a.not_a_number() {
        seq!['N', 'a', 'N']
    } else if a.infinite() {
        sign_text(a) + seq!['i', 'n', 'f']
    } else {
        let hundredths: int = even_quotient(magnitude_units(a.magnitude()) * 100, one());
        sign_text(a) + decimal((hundredths / 100) as nat).push('.').push(
            digit((hundredths / 10) % 10),
        ).push(digit(hundredths % 10))
    }
}

/// The digits as text, the first one first.
spec fn spelled(digits: Seq<u8>) -> Seq<char> {
    Seq::new(digits.len(), |i: int| digit(digits[digits.len() - 1 - i] as int))
}

proof fn lemma_spelled_is_decimal(digits: Seq<u8>)
    requires
        are_digits(digits),
        no_leading_zero(digits),
    ensures
        spelled(digits) == decimal(digits_total(digits)),
        digits.len() > 1 ==> digits_total(digits) >= 10,
    decreases digits.len(),
{
    let n = digits_total(digits);
    let rest = digits.drop_first();
    assert(digits[0] < 10);
    if digits.len() == 1 {
        assert(digits_total(rest) == 0);
        assert(spelled(digits) =~= decimal(n));
    } else {
        assert(are_digits(rest)) by {
            assert forall|i: int| 0 <= i < rest.len() implies #[trigger] rest[i] < 10 by {
                assert(rest[i] == digits[i + 1]);
            }
        }
        assert(rest.last() == digits.last());
        lemma_spelled_is_decimal(rest);
        if rest.len() == 1 {
            assert(digits_total(rest.drop_first()) == 0);
            assert(digits_total(rest) == rest[0]);
        }
        assert(digits_total(rest) >= 1);
        assert(n / 10 == digits_total(rest) && n % 10 == digits[0]);
        assert(spelled(digits) =~= spelled(rest).push(digit(digits[0] as int)));
    }
}

/// The number times a power of two, as text.
fn write_scaled(n: u64, k: u32) -> (r: String)
    ensures
        r@ == decimal((n * pow2(k as nat)) as nat),
{
    proof {
        vstd::arithmetic::power2::lemma2_to64();
        assert(n * pow2(0) == n) by (nonlinear_arith)
            requires
                pow2(0) == 1,
        ;
    }
    let mut digits: Vec<u8> = digits_of(n);
    let mut i: u32 = 0;
    while i < k
        invariant
            i <= k,
            are_digits(digits@),
            no_leading_zero(digits@),
            digits_total(digits@) == n * pow2(i as nat),
        decreases k - i,
    {
        proof {
            vstd::arithmetic::power2::lemma_pow2_unfold((i + 1) as nat);
            let p: int = pow2(i as nat) as int;
            assert(n * (2 * p) == 2 * (n * p)) by (nonlinear_arith);
        }
        digits = multiplied(&digits, 2);
        i = i + 1;
    }
    proof {
        lemma_spelled_is_decimal(digits@);
    }
    let mut out: String = String::new();
    let mut j: usize = digits.len();
    while j > 0
        invariant
            j <= digits@.len(),
            are_digits(digits@),
            out@ == spelled(digits@).take(digits@.len() - j),
        decreases j,
    {
        assert(digits@[j - 1] < 10);
        out.push((48 + digits[j - 1]) as char);
        assert(spelled(digits@).take(digits@.len() - j + 1) =~= spelled(digits@).take(
            digits@.len() - j,
        ).push(digit(digits@[j - 1] as int)));
        j = j - 1;
    }
    assert(spelled(digits@).take(digits@.len() as int) =~= spelled(digits@));
    out
}

// ---- rounding to a number of decimals ----------------------------------

proof fn lemma_even_quotient_scales(n: int, d: int, k: int)
    requires
        n >= 0,
        d > 0,
        k > 0,
    ensures
        even_quotient(n * k, d * k) == even_quotient(n, d),
{
    let (q, r) = (n / d, n % d);
    vstd::arithmetic::div_mod::lemma_fundamental_div_mod(n, d);
    assert(n * k == (d * k) * q + r * k) by (nonlinear_arith)
        requires
            n == d * q + r,
    ;
    assert(0 <= r * k < d * k) by (nonlinear_arith)
        requires
            0 <= r < d,
            k > 0,
    ;
    vstd::arithmetic::mul::lemma_mul_is_commutative(d * k, q);
    vstd::arithmetic::div_mod::lemma_fundamental_div_mod_converse(n * k, d * k, q, r * k);
    assert((2 * r < d ==> 2 * (r * k) < d * k) && (2 * r > d ==> 2 * (r * k) > d * k) && (2 * r
        == d ==> 2 * (r * k) == d * k)) by (nonlinear_arith)
        requires
            k > 0,
    ;
}

proof fn lemma_even_quotient_of_multiple(n: int, d: int)
    requires
        d > 0,
    ensures
        even_quotient(n * d, d) == n,
{
    vstd::arithmetic::div_mod::lemma_fundamental_div_mod_converse(n * d, d, n, 0);
}

/// `n` over 2^`places`, rounded to a whole number.
fn halve_to_even(n: u64, places: u32) -> (r: u64)
    requires
        n < 0x1000_0000_0000_0000,
        places > 0,
    ensures
        r == even_quotient(n as int, pow2(places as nat) as int),
        r < 0x1000_0000_0000_0000,
{
    proof {
        vstd::arithmetic::power2::lemma2_to64();
        vstd::arithmetic::power2::lemma2_to64_rest();
        lemma_pow2_pos(places as nat);
    }
    if places > 61 {
        proof {
            lemma_pow2_strictly_increases(61, places as nat);
            let d: int = pow2(places as nat) as int;
            vstd::arithmetic::div_mod::lemma_fundamental_div_mod_converse(n as int, d, 0, n as int);
        }
        0
    } else {
        let unit: u128 = power_of_two(places);
        let whole: u128 = n as u128 / unit;
        let rest: u128 = n as u128 % unit;
        proof {
            vstd::arithmetic::power2::lemma_pow2_unfold(places as nat);
            lemma_pow2_pos((places - 1) as nat);
            lemma_pow2_strictly_increases(places as nat, 64);
            assert(2 * whole <= n) by (nonlinear_arith)
                requires
                    whole == n as u128 / unit,
                    unit >= 2,
            ;
        }
        if 2 * rest < unit {
            whole as u64
        } else if 2 * rest > unit {
            (whole + 1) as u64
        } else {
            (whole + whole % 2) as u64
        }
    }
}

fn start(a: Amount) -> (r: String)
    ensures
        r@ == sign_text(a),
{
    let mut out: String = String::new();
    if a.is_negative() {
        out.push('-');
    }
    assert(out@ =~= sign_text(a));
    out
}

fn write_special(a: Amount) -> (r: String)
    requires
        !a.finite(),
    ensures
        r@ == no_decimals(a),
        r@ == two_decimals(a),
{
    if a.is_nan() {
        let mut out: String = String::new();
        out.push('N');
        out.push('a');
        out.push('N');
        assert(out@ =~= seq!['N', 'a', 'N']);
        out
    } else {
        let mut out: String = start(a);
        out.push('i');
        out.push('n');
        out.push('f');
        assert(out@ =~= sign_text(a) + seq!['i', 'n', 'f']);
        out
    }
}

/// Writes a number without decimals.
pub fn write_whole(a: Amount) -> (r: String)
    ensures
        r@ == no_decimals(a),
{
    if !a.is_finite() {
        return write_special(a);
    }
    let mut out: String = start(a);
    let parts: Parts = parts_of(a.size());
    let (significand, scale): (u64, u32) = (parts.significand, parts.scale);
    let ghost units: int = magnitude_units(a.magnitude());
    let text: String;
    if scale >= 1074 {
        proof {
            lemma_pow2_pos(1074);
            lemma_pow2_adds((scale - 1074) as nat, 1074);
            let k: int = pow2((scale - 1074) as nat) as int;
            assert(units == (significand * k) * one()) by (nonlinear_arith)
                requires
                    units == significand * pow2(scale as nat),
                    pow2(scale as nat) == k * one(),
            ;
            lemma_even_quotient_of_multiple(significand * k, one());
        }
        text = write_scaled(significand, scale - 1074);
    } else {
        proof {
            lemma_pow2_pos(scale as nat);
            lemma_pow2_pos((1074 - scale) as nat);
            lemma_pow2_adds((1074 - scale) as nat, scale as nat);
            lemma_even_quotient_scales(
                significand as int,
                pow2((1074 - scale) as nat) as int,
                pow2(scale as nat) as int,
            );
        }
        text = write_decimal(halve_to_even(significand, 1074 - scale));
    }
    out.append(text.as_str());
    out
}

/// Writes a number with two decimals.
pub fn write_cents(a: Amount) -> (r: String)
    ensures
        r@ == two_decimals(a),
{
    if !a.is_finite() {
        return write_special(a);
    }
    let mut out: String = start(a);
    let parts: Parts = parts_of(a.size());
    let (significand, scale): (u64, u32) = (parts.significand, parts.scale);
    let ghost units: int = magnitude_units(a.magnitude());
    let ghost hundredths: int = even_quotient(units * 100, one());
    let mut text: String;
    let tens: u8;
    let ones: u8;
    if scale >= 1074 {
        proof {
            lemma_pow2_pos(1074);
            lemma_pow2_adds((scale - 1074) as nat, 1074);
            let k: int = pow2((scale - 1074) as nat) as int;
            assert(units * 100 == (significand * k * 100) * one()) by (nonlinear_arith)
                requires
                    units == significand * pow2(scale as nat),
                    pow2(scale as nat) == k * one(),
            ;
            lemma_even_quotient_of_multiple(significand * k * 100, one());
            assert(hundredths == (significand * k) * 100);
            assert(hundredths / 100 == significand * k);
            assert((hundredths / 10) % 10 == 0 && hundredths % 10 == 0);
        }
        text = write_scaled(significand, scale - 1074);
        tens = 0;
        ones = 0;
    } else {
        proof {
            lemma_pow2_pos(scale as nat);
            lemma_pow2_pos((1074 - scale) as nat);
            lemma_pow2_adds((1074 - scale) as nat, scale as nat);
            lemma_even_quotient_scales(
                significand * 100,
                pow2((1074 - scale) as nat) as int,
                pow2(scale as nat) as int,
            );
            assert((significand * 100) * pow2(scale as nat) == units * 100) by (nonlinear_arith)
                requires
                    units == significand * pow2(scale as nat),
            ;
        }
        let count: u64 = halve_to_even(significand * 100, 1074 - scale);
        assert(count == hundredths);
        text = write_decimal(count / 100);
        tens = ((count / 10) % 10) as u8;
        ones = (count % 10) as u8;
    }
    text.push('.');
    text.push((48 + tens) as char);
    text.push((48 + ones) as char);
    out.append(text.as_str());
    out
}

// ---- what holds of numbers as text -------------------------------------

/// The whole number to which a fraction is rounded is the nearest one, and of
/// two that are equally near the even one.
pub proof fn lemma_even_quotient_is_nearest(n: int, d: int)
    requires
        n >= 0,
        d > 0,
    ensures
        even_quotient(n, d) >= 0,
        2 * n - d <= 2 * (even_quotient(n, d) * d) <= 2 * n + d,
        2 * n - d == 2 * (even_quotient(n, d) * d) ==> even_quotient(n, d) % 2 == 0,
        2 * (even_quotient(n, d) * d) == 2 * n + d ==> even_quotient(n, d) % 2 == 0,
{
    let (q, r) = (n / d, n % d);
    vstd::arithmetic::div_mod::lemma_fundamental_div_mod(n, d);
    vstd::arithmetic::mul::lemma_mul_is_commutative(d, q);
    assert((q + 1) * d == q * d + d) by (nonlinear_arith);
    assert(q >= 0) by (nonlinear_arith)
        requires
            q * d + r == n,
            n >= 0,
            r < d,
            d > 0,
    ;
}

/// A finite number is shown with exactly two decimals: as its nearest number of
/// hundredths, the even one where two are equally near, behind its sign.
pub proof fn lemma_two_decimals(a: Amount) -> (hundredths: nat)
    requires
        a.finite(),
    ensures
        ({
            let exact: int = 100 * magnitude_units(a.magnitude());
            let shown: int = hundredths * one();
            let digits = decimal((hundredths / 100) as nat) + seq![
                '.',
                digit((hundredths / 10) as int % 10),
                digit((hundredths % 10) as int),
            ];
            &&& 2 * exact - one() <= 2 * shown <= 2 * exact + one()
            &&& 2 * exact - one() == 2 * shown || 2 * shown == 2 * exact + one() ==> hundredths % 2
                == 0
            &&& a.negative() ==> two_decimals(a) == seq!['-'] + digits
            &&& !a.negative() ==> two_decimals(a) == digits
        }),
{
    let units: int = magnitude_units(a.magnitude());
    assert(magnitude_units(0) == 0);
    if a.magnitude() > 0 {
        super::lemma_magnitudes_grow(0, a.magnitude());
    }
    lemma_pow2_pos(1074);
    lemma_even_quotient_is_nearest(units * 100, one());
    let hundredths: nat = even_quotient(units * 100, one()) as nat;
    let digits = decimal((hundredths / 100) as nat) + seq![
        '.',
        digit((hundredths / 10) as int % 10),
        digit((hundredths % 10) as int),
    ];
    assert(decimal((hundredths / 100) as nat).push('.').push(
        digit((hundredths / 10) as int % 10),
    ).push(digit((hundredths % 10) as int)) =~= digits);
    assert(Seq::<char>::empty() + digits =~= digits);
    hundredths
}

/// A finite number is shown without decimals as the nearest whole number, the
/// even one where two are equally near, behind its sign.
pub proof fn lemma_no_decimals(a: Amount) -> (n: nat)
    requires
        a.finite(),
    ensures
        ({
            let exact: int = magnitude_units(a.magnitude());
            let shown: int = n * one();
            &&& 2 * exact - one() <= 2 * shown <= 2 * exact + one()
            &&& 2 * exact - one() == 2 * shown || 2 * shown == 2 * exact + one() ==> n % 2 == 0
            &&& a.negative() ==> no_decimals(a) == seq!['-'] + decimal(n)
            &&& !a.negative() ==> no_decimals(a) == decimal(n)
        }),
{
    let units: int = magnitude_units(a.magnitude());
    assert(magnitude_units(0) == 0);
    if a.magnitude() > 0 {
        super::lemma_magnitudes_grow(0, a.magnitude());
    }
    lemma_pow2_pos(1074);
    lemma_even_quotient_is_nearest(units, one());
    let n: nat = even_quotient(units, one()) as nat;
    assert(Seq::<char>::empty() + decimal(n) =~= decimal(n));
    n
}

/// What is not finite is shown in letters.
pub proof fn lemma_no_figures(a: Amount)
    requires
        !a.finite(),
    ensures
        two_decimals(a) == no_decimals(a),
        a.not_a_number() ==> two_decimals(a) == seq!['N', 'a', 'N'],
        a.infinite() && !a.negative() ==> two_decimals(a) == seq!['i', 'n', 'f'],
        a.infinite() && a.negative() ==> two_decimals(a) == seq!['-', 'i', 'n', 'f'],
{
    let word = seq!['i', 'n', 'f'];
    assert(Seq::<char>::empty() + word =~= word);
    assert(seq!['-'] + word =~= seq!['-', 'i', 'n', 'f']);
}

} // verus!
