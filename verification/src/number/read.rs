//! Reading a number that is written in decimal notation.

use super::arithmetic::{encoded, lemma_round_zero, one, NOT_A_NUMBER};
use super::digits::{
    are_digits, digits_total, lemma_digits_bound, lemma_digits_reach, lemma_digits_total_push,
    lemma_digits_total_split, multiplied, no_leading_zero,
};
use super::rounding::{
    lemma_cancel, lemma_encoding, lemma_nearest_beyond, lemma_nearest_is_unique,
    lemma_smallest_magnitudes, nearest, reaches, round_to_magnitude, rounded,
};
use super::{magnitude_units, Amount, EXPONENT_STEP, INFINITE, SIGN};
use crate::text::{all_digits, characters, digits_value, is_digit};
use vstd::arithmetic::power::{lemma_pow0, lemma_pow_adds, lemma_pow_positive, pow};
use vstd::arithmetic::power2::{lemma_pow2_adds, lemma_pow2_pos, lemma_pow2_strictly_increases, pow2};
use vstd::prelude::*;

verus! {

// ---- what a number may look like ---------------------------------------

/// How many characters stand before the first that is one of the two.
pub open spec fn count_until(s: Seq<char>, a: char, b: char) -> int
    decreases s.len(),
{
    if s.len() == 0 || s[0] == a || s[0] == b {
        0
    } else {
        1 + count_until(s.drop_first(), a, b)
    }
}

pub open spec fn has_minus(s: Seq<char>) -> bool {
    s.len() > 0 && s[0] == '-'
}

/// What follows the sign, where there is one.
pub open spec fn without_sign(s: Seq<char>) -> Seq<char> {
    if s.len() > 0 && (s[0] == '-' || s[0] == '+') {
        s.drop_first()
    } else {
        s
    }
}

pub open spec fn lower(c: char) -> char {
    if 'A' <= c <= 'Z' {
        (c as u32 + 32) as char
    } else {
        c
    }
}

/// Whether the text is the word, in whatever case of letters.
pub open spec fn spells(s: Seq<char>, word: Seq<char>) -> bool {
    s.len() == word.len() && forall|i: int| 0 <= i < s.len() ==> lower(#[trigger] s[i]) == word[i]
}

/// The exponent that stands behind the letter, with its sign; none where it
/// is not made of digits.
pub open spec fn read_exponent(s: Seq<char>) -> Option<int> {
    let digits = without_sign(s);
    if digits.len() == 0 || !all_digits(digits) {
        None
    } else if has_minus(s) {
        Some(-(digits_value(digits) as int))
    } else {
        Some(digits_value(digits) as int)
    }
}

/// The digits of a number without its exponent, before and behind the point,
/// and how many stand behind it; none where something else is among them, or
/// where there is no digit at all.
pub open spec fn read_figures(s: Seq<char>) -> Option<(Seq<char>, nat)> {
    let at = count_until(s, '.', '.');
    let figures = if at < s.len() {
        s.take(at) + s.skip(at + 1)
    } else {
        s
    };
    if figures.len() == 0 || !all_digits(figures) {
        None
    } else {
        Some((figures, (figures.len() - at) as nat))
    }
}

/// The magnitude to which a whole number times a power of ten is rounded.
pub open spec fn scaled_magnitude(n: nat, scale: int) -> int {
    if scale >= 0 {
        rounded(n * pow(10, scale as nat) * one(), pow(10, 0))
    } else {
        rounded(n * one(), pow(10, (-scale) as nat))
    }
}

/// The magnitude of a number without a sign.
pub open spec fn read_magnitude(s: Seq<char>) -> Option<int> {
    if spells(s, "inf"@) || spells(s, "infinity"@) {
        Some(INFINITE as int)
    } else if spells(s, "nan"@) {
        Some(NOT_A_NUMBER as int)
    } else {
        let at = count_until(s, 'e', 'E');
        let exponent = if at < s.len() {
            read_exponent(s.skip(at + 1))
        } else {
            Some(0)
        };
        match (read_figures(s.take(at)), exponent) {
            (Some((figures, behind)), Some(e)) => Some(
                scaled_magnitude(digits_value(figures), e - behind),
            ),
            _ => None,
        }
    }
}

/// The number that a text stands for: digits with a point among them or none,
/// with an exponent or none, or one of the words `inf`, `infinity` and `nan`,
/// after a sign or none. The nearest number is taken.
pub open spec fn read_number(s: Seq<char>) -> Option<Amount> {
    match read_magnitude(without_sign(s)) {
        Some(magnitude) => Some(encoded(has_minus(s), magnitude)),
        None => None,
    }
}

// ---- rounding decimal digits -------------------------------------------

proof fn lemma_tens_and_twos(k: nat)
    ensures
        pow2(3 * k) <= pow(10, k) <= pow2(4 * k),
    decreases k,
{
    lemma_pow0(10);
    vstd::arithmetic::power2::lemma2_to64();
    if k > 0 {
        let j: nat = (k - 1) as nat;
        lemma_tens_and_twos(j);
        lemma_pow2_adds(3, 3 * j);
        lemma_pow2_adds(4, 4 * j);
        reveal(pow);
        assert(pow(10, k) == 10 * pow(10, j));
    }
}

proof fn lemma_too_large(total: int, fraction: nat, over: nat)
    requires
        over >= 400,
        total >= pow(10, fraction + over),
    ensures
        rounded(total * one(), pow(10, fraction)) == INFINITE,
        nearest(INFINITE as int, total * one(), pow(10, fraction)),
{
    let d: int = pow(10, fraction);
    let t: int = pow(10, over);
    lemma_pow_positive(10, fraction);
    lemma_pow_adds(10, fraction, over);
    lemma_tens_and_twos(over);
    lemma_pow2_strictly_increases(1024, 3 * over);
    lemma_pow2_adds(1024, 1074);
    lemma_encoding(2046, EXPONENT_STEP as int);
    vstd::arithmetic::power2::lemma2_to64_rest();
    lemma_pow2_adds(52, 2046);
    lemma_pow2_pos(1074);
    let two: int = pow2(1024) as int;
    assert(magnitude_units(INFINITE as int) == two * one());
    assert(total * one() >= (two * one()) * d) by (nonlinear_arith)
        requires
            total >= d * t,
            t >= two,
            d > 0,
            one() > 0,
    ;
    lemma_nearest_beyond(total * one(), d);
    lemma_nearest_is_unique(
        INFINITE as int,
        rounded(total * one(), d),
        total * one(),
        d,
    );
}

proof fn lemma_too_small(total: int, length: nat, under: nat)
    requires
        under >= 400,
        0 <= total < pow(10, length),
    ensures
        rounded(total * one(), pow(10, length + under)) == 0,
        nearest(0, total * one(), pow(10, length + under)),
{
    let d: int = pow(10, length + under);
    let (p, t) = (pow(10, length), pow(10, under));
    lemma_pow_positive(10, length);
    lemma_pow_positive(10, length + under);
    lemma_pow_adds(10, length, under);
    lemma_tens_and_twos(under);
    vstd::arithmetic::power2::lemma_pow2_unfold(1075);
    lemma_pow2_strictly_increases(1075, 3 * under);
    lemma_pow2_pos(1074);
    assert(2 * (total * one()) < d && total * one() >= 0) by (nonlinear_arith)
        requires
            0 <= total < p,
            d == p * t,
            t > 2 * one(),
            p > 0,
            one() > 0,
    ;
    lemma_smallest_magnitudes();
    assert((magnitude_units(0) + magnitude_units(1)) * d == d) by (nonlinear_arith)
        requires
            magnitude_units(0) + magnitude_units(1) == 1,
    ;
    assert(nearest(0, total * one(), d));
    lemma_nearest_is_unique(0, rounded(total * one(), d), total * one(), d);
}

/// The digits from `from` on, as a number.
fn leading(digits: &Vec<u8>, from: usize) -> (r: u128)
    requires
        are_digits(digits@),
        from <= digits@.len() <= from + 36,
    ensures
        r == digits_total(digits@.skip(from as int)),
        r < 1_000_000_000_000_000_000_000_000_000_000_000_000,
{
    let mut total: u128 = 0;
    let mut i: usize = digits.len();
    proof {
        lemma_pow0(10);
        assert(digits@.skip(digits@.len() as int) =~= Seq::<u8>::empty());
        lemma_ten_to_36();
    }
    while i > from
        invariant
            from <= i <= digits@.len() <= from + 36,
            are_digits(digits@),
            total == digits_total(digits@.skip(i as int)),
            total < pow(10, (digits@.len() - i) as nat),
            pow(10, 36) == 1_000_000_000_000_000_000_000_000_000_000_000_000,
        decreases i,
    {
        assert(digits@[i - 1] < 10);
        assert(digits@.skip(i - 1).drop_first() =~= digits@.skip(i as int));
        assert(digits@.skip(i - 1)[0] == digits@[i - 1]);
        proof {
            reveal(pow);
            let k: nat = (digits@.len() - i) as nat;
            assert(pow(10, k + 1) == 10 * pow(10, k));
            vstd::arithmetic::power::lemma_pow_increases(10, k + 1, 36);
        }
        total = total * 10 + digits[i - 1] as u128;
        i = i - 1;
    }
    proof {
        vstd::arithmetic::power::lemma_pow_increases(10, (digits@.len() - i) as nat, 36);
    }
    total
}

proof fn lemma_ten_to_36()
    ensures
        pow(10, 36) == 1_000_000_000_000_000_000_000_000_000_000_000_000,
        pow(10, 19) == 10_000_000_000_000_000_000,
{
    reveal(pow);
    assert(pow(10, 9) == 1_000_000_000) by {
        reveal_with_fuel(pow, 10);
    }
    lemma_pow_adds(10, 9, 9);
    lemma_pow_adds(10, 18, 18);
    lemma_pow_adds(10, 18, 1);
    assert(pow(10, 18) == 1_000_000_000_000_000_000);
    assert(pow(10, 36) == 1_000_000_000_000_000_000_000_000_000_000_000_000) by (nonlinear_arith)
        requires
            pow(10, 18) == 1_000_000_000_000_000_000,
            pow(10, 36) == pow(10, 18) * pow(10, 18),
    ;
    assert(pow(10, 1) == 10) by {
        reveal_with_fuel(pow, 2);
    }
}

/// Whether some digit before `to` is not zero.
fn any_before(digits: &Vec<u8>, to: usize) -> (r: bool)
    requires
        to <= digits@.len(),
    ensures
        r == (digits_total(digits@.take(to as int)) != 0),
{
    let mut i: usize = 0;
    let mut found: bool = false;
    assert(digits_total(digits@.take(0)) == 0);
    while i < to
        invariant
            i <= to <= digits@.len(),
            found == (digits_total(digits@.take(i as int)) != 0),
        decreases to - i,
    {
        proof {
            assert(digits@.take(i + 1) =~= digits@.take(i as int).push(digits@[i as int]));
            lemma_digits_total_push(digits@.take(i as int), digits@[i as int]);
            lemma_pow_positive(10, i as nat);
            let (x, p) = (digits@[i as int] as int, pow(10, i as nat));
            assert((x * p == 0) == (x == 0) && x * p >= 0) by (nonlinear_arith)
                requires
                    x >= 0,
                    p > 0,
            ;
        }
        if digits[i] != 0 {
            found = true;
        }
        i = i + 1;
    }
    found
}

/// Splits the digits into the whole part and what is left over.
proof fn lemma_whole_part(digits: Seq<u8>, at: int)
    requires
        are_digits(digits),
        0 <= at <= digits.len(),
    ensures
        ({
            let whole: int = digits_total(digits.skip(at)) as int;
            let p: int = pow(10, at as nat);
            &&& whole * p <= digits_total(digits) < (whole + 1) * p
            &&& (digits_total(digits.take(at)) != 0) == (whole * p < digits_total(digits))
        }),
{
    lemma_digits_total_split(digits, at);
    assert forall|i: int| 0 <= i < digits.take(at).len() implies #[trigger] digits.take(at)[i]
        < 10 by {
        assert(digits[i] < 10);
    }
    lemma_digits_bound(digits.take(at));
    let whole: int = digits_total(digits.skip(at)) as int;
    let p: int = pow(10, at as nat);
    assert(p * whole == whole * p && (whole + 1) * p == whole * p + p) by (nonlinear_arith);
}

/// Rounds a decimal fraction: a number by its digits, of which so many stand
/// behind the point.
fn round_decimal(digits: Vec<u8>, fraction: u128) -> (r: u64)
    requires
        are_digits(digits@),
        digits@.len() > 0,
        digits@.last() != 0,
        fraction < 0x1_0000_0000_0000_0000_0000_0000,
    ensures
        r == rounded(digits_total(digits@) * one(), pow(10, fraction as nat)),
        r <= INFINITE,
{
    let length: u128 = digits.len() as u128;
    let ghost total: int = digits_total(digits@) as int;
    let ghost d: int = pow(10, fraction as nat);
    proof {
        lemma_digits_bound(digits@);
        lemma_digits_reach(digits@);
        lemma_pow_positive(10, fraction as nat);
    }
    if length > fraction + 400 {
        proof {
            lemma_too_large(total, fraction as nat, (length - 1 - fraction) as nat);
        }
        return INFINITE;
    }
    if fraction > length + 400 {
        proof {
            lemma_too_small(total, length as nat, (fraction - length) as nat);
        }
        return 0;
    }
    if length <= fraction + 36 {
        round_by_doubling(digits, fraction)
    } else {
        round_by_halving(digits, fraction)
    }
}

/// Doubles a number until its whole part has twenty digits.
fn round_by_doubling(digits: Vec<u8>, fraction: u128) -> (r: u64)
    requires
        are_digits(digits@),
        digits@.len() > 0,
        digits@.last() != 0,
        fraction < 0x1_0000_0000_0000_0000_0000_0000,
        fraction <= digits@.len() + 400,
        digits@.len() <= fraction + 36,
    ensures
        r == rounded(digits_total(digits@) * one(), pow(10, fraction as nat)),
        r <= INFINITE,
{
    let ghost total: int = digits_total(digits@) as int;
    let ghost d: int = pow(10, fraction as nat);
    let ghost n: int = total * one();
    let ghost first: int = digits@.len() as int;
    let mut current: Vec<u8> = digits;
    let mut doublings: i64 = 0;
    proof {
        vstd::arithmetic::power2::lemma2_to64();
        lemma_pow_positive(10, fraction as nat);
        lemma_digits_reach(current@);
        assert(total * pow2(0) == total) by (nonlinear_arith)
            requires
                pow2(0) == 1,
        ;
    }
    while (current.len() as u128) < fraction + 20
        invariant
            are_digits(current@),
            no_leading_zero(current@),
            current@.last() != 0,
            fraction < 0x1_0000_0000_0000_0000_0000_0000,
            current@.len() <= fraction + 36,
            0 <= doublings <= 1700,
            digits_total(current@) == total * pow2(doublings as nat),
            total >= pow(10, (first - 1) as nat),
            first > 0,
            fraction <= first + 400,
        decreases 1700 - doublings,
    {
        proof {
            lemma_digits_bound(current@);
            vstd::arithmetic::power::lemma_pow_increases(
                10,
                current@.len(),
                (fraction + 19) as nat,
            );
            vstd::arithmetic::power::lemma_pow_strictly_increases(
                10,
                (fraction + 19) as nat,
                (fraction + 20) as nat,
            );
            // So many doublings at most: the number starts above 10^-401.
            let c: nat = doublings as nat;
            let p: int = pow2(c) as int;
            let low: int = pow(10, (first - 1) as nat);
            lemma_pow_positive(10, (first - 1) as nat);
            lemma_pow2_pos(c);
            assert(p * low <= total * p) by (nonlinear_arith)
                requires
                    total >= low,
                    p > 0,
            ;
            let gap: nat = if fraction + 19 >= first - 1 {
                (fraction + 19 - (first - 1)) as nat
            } else {
                0
            };
            if fraction + 19 < first - 1 {
                vstd::arithmetic::power::lemma_pow_increases(
                    10,
                    (fraction + 19) as nat,
                    (first - 1) as nat,
                );
                assert(p * low >= low) by (nonlinear_arith)
                    requires
                        p >= 1,
                        low > 0,
                ;
                assert(false);
            }
            lemma_pow_adds(10, (first - 1) as nat, gap);
            assert(p * low < low * pow(10, gap));
            vstd::arithmetic::mul::lemma_mul_is_commutative(low, pow(10, gap));
            lemma_cancel(p, pow(10, gap), low);
            lemma_tens_and_twos(gap);
            assert(gap <= 420);
            if c >= 1700 {
                lemma_pow2_strictly_increases(4 * gap, c);
            }
            vstd::arithmetic::power2::lemma_pow2_unfold(c + 1);
            assert(total * (2 * p) == 2 * (total * p)) by (nonlinear_arith);
            assert(total * p >= 1) by (nonlinear_arith)
                requires
                    total >= low,
                    low > 0,
                    p > 0,
            ;
        }
        current = multiplied(&current, 2);
        proof {
            lemma_last_is_not_zero(current@);
        }
        doublings = doublings + 1;
    }
    let at: usize = fraction as usize;
    let m: u128 = leading(&current, at);
    let left_over: bool = any_before(&current, at);
    let scale: i64 = 1074 - doublings;
    proof {
        lemma_whole_part(current@, at as int);
        lemma_ten_to_36();
        assert(current@.skip(at as int).last() == current@.last());
        lemma_digits_reach(current@.skip(at as int));
        vstd::arithmetic::power::lemma_pow_increases(
            10,
            19,
            (current@.len() - at - 1) as nat,
        );
        let times: nat = if scale > 0 {
            scale as nat
        } else {
            0
        };
        let per: nat = if scale < 0 {
            (-scale) as nat
        } else {
            0
        };
        lemma_pow2_pos(times);
        lemma_pow2_pos(per);
        lemma_pow2_adds(times, doublings as nat);
        lemma_pow2_adds(1074, per);
        let (f, g, c) = (pow2(times) as int, pow2(per) as int, pow2(doublings as nat) as int);
        let (q, t) = (m as int, digits_total(current@) as int);
        assert(f * c == one() * g);
        assert(n * g == t * f) by (nonlinear_arith)
            requires
                n == total * one(),
                t == total * c,
                f * c == one() * g,
        ;
        assert(q * (f * d) <= n * g < (q + 1) * (f * d) && left_over == (q * (f * d) < n * g))
            by (nonlinear_arith)
            requires
                q * d <= t < (q + 1) * d,
                left_over == (q * d < t),
                n * g == t * f,
                f > 0,
        ;
    }
    assert(reaches(m as int, scale as int, n, d, left_over));
    round_to_magnitude(m, scale, left_over, Ghost(n), Ghost(d))
}

proof fn lemma_last_is_not_zero(digits: Seq<u8>)
    requires
        no_leading_zero(digits),
        digits_total(digits) > 0,
    ensures
        digits.last() != 0,
{
    if digits.len() == 1 {
        assert(digits.drop_first() =~= Seq::<u8>::empty());
        assert(digits_total(digits.drop_first()) == 0);
    }
}

/// Halves a number until its whole part has no more than 36 digits.
fn round_by_halving(digits: Vec<u8>, fraction: u128) -> (r: u64)
    requires
        are_digits(digits@),
        digits@.len() > 0,
        digits@.last() != 0,
        fraction < 0x1_0000_0000_0000_0000_0000_0000,
        fraction + 36 < digits@.len() <= fraction + 400,
    ensures
        r == rounded(digits_total(digits@) * one(), pow(10, fraction as nat)),
        r <= INFINITE,
{
    let ghost total: int = digits_total(digits@) as int;
    let ghost d: int = pow(10, fraction as nat);
    let ghost n: int = total * one();
    let ghost first: int = digits@.len() as int;
    let mut current: Vec<u8> = digits;
    let mut behind: u128 = fraction;
    let mut halvings: i64 = 0;
    proof {
        lemma_pow_positive(10, fraction as nat);
        lemma_pow0(5);
        lemma_digits_bound(current@);
        lemma_digits_reach(current@);
        lemma_pow_positive(10, (first - 1) as nat);
        assert(total * pow(5, 0) == total) by (nonlinear_arith)
            requires
                pow(5, 0) == 1,
        ;
    }
    while (current.len() as u128) > behind + 36
        invariant
            are_digits(current@),
            no_leading_zero(current@),
            current@.last() != 0,
            fraction < 0x1_0000_0000_0000_0000_0000_0000,
            0 <= halvings <= 1600,
            behind == fraction + halvings,
            behind + 36 <= current@.len(),
            digits_total(current@) == total * pow(5, halvings as nat),
            0 < total < pow(10, first as nat),
            36 < first - fraction <= 400,
        decreases 1600 - halvings,
    {
        proof {
            // So many halvings at most: the number starts below 10^400.
            let h: nat = halvings as nat;
            lemma_digits_reach(current@);
            vstd::arithmetic::power::lemma_pow_increases(
                10,
                (behind + 36) as nat,
                (current@.len() - 1) as nat,
            );
            let high: int = pow(10, first as nat);
            let five: int = pow(5, h);
            let two: int = pow(2, h);
            lemma_pow_positive(5, h);
            lemma_pow_positive(2, h);
            lemma_pow_positive(10, (fraction + 36) as nat);
            vstd::arithmetic::power::lemma_pow_distributes(2, 5, h);
            lemma_pow_adds(10, h, (fraction + 36) as nat);
            let base: int = pow(10, (fraction + 36) as nat);
            let gap: nat = (first - (fraction + 36)) as nat;
            lemma_pow_adds(10, (fraction + 36) as nat, gap);
            assert(pow(10, h) == two * five);
            assert((two * base) * five <= total * five) by (nonlinear_arith)
                requires
                    (two * five) * base <= total * five,
            ;
            lemma_cancel(two * base, total, five);
            assert(two * base < pow(10, gap) * base) by (nonlinear_arith)
                requires
                    two * base <= total,
                    total < high,
                    high == base * pow(10, gap),
            ;
            lemma_cancel(two, pow(10, gap), base);
            lemma_tens_and_twos(gap);
            vstd::arithmetic::power2::lemma_pow2(h);
            if h >= 1600 {
                lemma_pow2_strictly_increases(4 * gap, h);
            }
            reveal(pow);
            assert(pow(5, h + 1) == 5 * five);
            assert(total * (5 * five) == 5 * (total * five)) by (nonlinear_arith);
            assert(total * five > 0) by (nonlinear_arith)
                requires
                    total > 0,
                    five > 0,
            ;
        }
        current = multiplied(&current, 5);
        proof {
            lemma_last_is_not_zero(current@);
        }
        halvings = halvings + 1;
        behind = behind + 1;
    }
    let at: usize = behind as usize;
    let m: u128 = leading(&current, at);
    let left_over: bool = any_before(&current, at);
    let scale: i64 = 1074 + halvings;
    proof {
        let h: nat = halvings as nat;
        lemma_whole_part(current@, at as int);
        lemma_ten_to_36();
        assert(current@.skip(at as int).last() == current@.last());
        lemma_digits_reach(current@.skip(at as int));
        vstd::arithmetic::power::lemma_pow_increases(
            10,
            19,
            (current@.len() - at - 1) as nat,
        );
        vstd::arithmetic::power2::lemma2_to64();
        lemma_pow_positive(5, h);
        vstd::arithmetic::power::lemma_pow_distributes(2, 5, h);
        vstd::arithmetic::power2::lemma_pow2(h);
        lemma_pow_adds(10, fraction as nat, h);
        lemma_pow2_adds(1074, h);
        lemma_pow2_pos(1074);
        let (five, two) = (pow(5, h), pow2(h) as int);
        let (q, p) = (m as int, pow(10, at as nat));
        let times: int = pow2(scale as nat) as int;
        assert(p == d * (two * five));
        assert(times == one() * two);
        assert((q * (two * d)) * five == q * p && ((q + 1) * (two * d)) * five == (q + 1) * p)
            by (nonlinear_arith)
            requires
                p == d * (two * five),
        ;
        lemma_cancel(q * (two * d), total, five);
        lemma_cancel(total, (q + 1) * (two * d), five);
        assert(q * (times * d) <= n < (q + 1) * (times * d) && left_over == (q * (times * d) < n))
            by (nonlinear_arith)
            requires
                q * (two * d) <= total < (q + 1) * (two * d),
                left_over == (q * (two * d) < total),
                n == total * one(),
                times == one() * two,
                one() > 0,
        ;
        assert(n * 1 == n);
    }
    assert(reaches(m as int, scale as int, n, d, left_over));
    round_to_magnitude(m, scale, left_over, Ghost(n), Ghost(d))
}

// ---- reading -----------------------------------------------------------

/// An exponent from which on only its sign matters.
const EXPONENT_CAP: u128 = 100_000_000_000_000_000_000;

proof fn lemma_large_scale(n: nat, scale: int)
    requires
        n > 0,
        scale > 400,
    ensures
        scaled_magnitude(n, scale) == INFINITE,
{
    let p: int = pow(10, scale as nat);
    lemma_pow_positive(10, scale as nat);
    assert(n * p >= p) by (nonlinear_arith)
        requires
            n >= 1,
            p > 0,
    ;
    lemma_too_large(n * p, 0, scale as nat);
}

proof fn lemma_small_scale(n: nat, length: nat, scale: int)
    requires
        n < pow(10, length),
        -scale > length + 400,
    ensures
        scaled_magnitude(n, scale) == 0,
{
    lemma_too_small(n as int, length, (-scale - length) as nat);
}

/// The magnitude of a whole number, by its digits, times a power of ten.
fn scaled(digits: Vec<u8>, scale: i128) -> (r: u64)
    requires
        are_digits(digits@),
        digits@.len() > 0 ==> digits@.last() != 0,
        -0x1000_0000_0000_0000_0000_0000 < scale < 0x1000_0000_0000_0000_0000_0000,
    ensures
        r == scaled_magnitude(digits_total(digits@), scale as int),
        r <= INFINITE,
{
    let ghost n: nat = digits_total(digits@);
    proof {
        lemma_pow_positive(10, 0);
        if scale < 0 {
            lemma_pow_positive(10, (-scale) as nat);
        }
    }
    if digits.len() == 0 {
        proof {
            lemma_zero_scaled(scale as int);
        }
        return 0;
    }
    if scale > 400 {
        proof {
            lemma_digits_reach(digits@);
            lemma_pow_positive(10, (digits@.len() - 1) as nat);
            lemma_large_scale(n, scale as int);
        }
        return INFINITE;
    }
    if scale < 0 {
        return round_decimal(digits, (-scale) as u128);
    }
    let mut padded: Vec<u8> = Vec::new();
    let zeros: usize = scale as usize;
    let mut i: usize = 0;
    while i < zeros
        invariant
            i <= zeros,
            padded@ == Seq::new(i as nat, |k: int| 0u8),
        decreases zeros - i,
    {
        padded.push(0);
        assert(padded@ =~= Seq::new((i + 1) as nat, |k: int| 0u8));
        i = i + 1;
    }
    let ghost head = padded@;
    i = 0;
    assert(head + digits@.take(0) =~= head);
    while i < digits.len()
        invariant
            i <= digits@.len(),
            padded@ == head + digits@.take(i as int),
        decreases digits@.len() - i,
    {
        padded.push(digits[i]);
        assert(head + digits@.take(i + 1) =~= (head + digits@.take(i as int)).push(
            digits@[i as int],
        ));
        i = i + 1;
    }
    proof {
        assert(padded@ =~= head + digits@);
        assert(padded@.take(zeros as int) =~= head);
        assert(padded@.skip(zeros as int) =~= digits@);
        lemma_digits_total_split(padded@, zeros as int);
        lemma_zeros_total(zeros as nat);
        assert(are_digits(padded@)) by {
            assert forall|k: int| 0 <= k < padded@.len() implies #[trigger] padded@[k] < 10 by {
                if k >= zeros {
                    assert(padded@[k] == digits@[k - zeros]);
                }
            }
        }
        let p: int = pow(10, scale as nat);
        assert(p * n == n * p) by (nonlinear_arith);
    }
    round_decimal(padded, 0)
}

proof fn lemma_zeros_total(count: nat)
    ensures
        digits_total(Seq::new(count, |k: int| 0u8)) == 0,
    decreases count,
{
    if count > 0 {
        lemma_zeros_total((count - 1) as nat);
        assert(Seq::new(count, |k: int| 0u8).drop_first() =~= Seq::new(
            (count - 1) as nat,
            |k: int| 0u8,
        ));
    }
}

/// Digits as values, the last one first.
spec fn backwards(s: Seq<char>) -> Seq<u8> {
    Seq::new(s.len(), |i: int| (s[s.len() - 1 - i] as int - 48) as u8)
}

proof fn lemma_backwards(s: Seq<char>)
    requires
        all_digits(s),
    ensures
        are_digits(backwards(s)),
        digits_total(backwards(s)) == digits_value(s),
    decreases s.len(),
{
    assert forall|i: int| 0 <= i < s.len() implies #[trigger] backwards(s)[i] < 10 by {
        assert(is_digit(s[s.len() - 1 - i]));
    }
    if s.len() > 0 {
        let t = s.drop_last();
        assert(all_digits(t)) by {
            assert forall|i: int| 0 <= i < t.len() implies is_digit(#[trigger] t[i]) by {
                assert(t[i] == s[i]);
            }
        }
        lemma_backwards(t);
        assert(backwards(s).drop_first() =~= backwards(t)) by {
            assert forall|i: int| 0 <= i < t.len() implies #[trigger] backwards(s).drop_first()[i]
                == backwards(t)[i] by {
                assert(s[s.len() - 1 - (i + 1)] == t[t.len() - 1 - i]);
            }
        }
        assert(is_digit(s[s.len() - 1]));
    }
}

proof fn lemma_leading_zero(s: Seq<char>)
    requires
        s.len() > 0,
        s[0] == '0',
    ensures
        digits_value(s) == digits_value(s.drop_first()),
    decreases s.len(),
{
    if s.len() == 1 {
        assert(s.drop_last() =~= Seq::<char>::empty());
        assert(s.drop_first() =~= Seq::<char>::empty());
        assert(digits_value(s.drop_last()) == 0);
    } else {
        lemma_leading_zero(s.drop_last());
        assert(s.drop_last().drop_first() =~= s.drop_first().drop_last());
    }
}

/// The digits without leading zeros, as values, the last one first.
fn figures_backwards(figures: &Vec<char>) -> (r: Vec<u8>)
    requires
        all_digits(figures@),
    ensures
        are_digits(r@),
        r@.len() <= figures@.len(),
        r@.len() > 0 ==> r@.last() != 0,
        digits_total(r@) == digits_value(figures@),
{
    let mut start: usize = 0;
    assert(figures@.skip(0) =~= figures@);
    while start < figures.len() && figures[start] == '0'
        invariant
            start <= figures@.len(),
            digits_value(figures@) == digits_value(figures@.skip(start as int)),
        decreases figures@.len() - start,
    {
        proof {
            let rest = figures@.skip(start as int);
            lemma_leading_zero(rest);
            assert(rest.drop_first() =~= figures@.skip(start + 1));
        }
        start = start + 1;
    }
    let ghost rest = figures@.skip(start as int);
    assert(all_digits(rest)) by {
        assert forall|i: int| 0 <= i < rest.len() implies is_digit(#[trigger] rest[i]) by {
            assert(rest[i] == figures@[start + i]);
        }
    }
    let mut out: Vec<u8> = Vec::new();
    let mut i: usize = figures.len();
    while i > start
        invariant
            start <= i <= figures@.len(),
            rest == figures@.skip(start as int),
            all_digits(rest),
            out@ == backwards(rest).take(figures@.len() - i),
        decreases i,
    {
        i = i - 1;
        assert(rest[i - start] == figures@[i as int]);
        assert(is_digit(rest[i - start]));
        out.push((figures[i] as u32 - 48) as u8);
        assert(out@ =~= backwards(rest).take(figures@.len() - i));
    }
    proof {
        assert(out@ =~= backwards(rest));
        lemma_backwards(rest);
        if rest.len() > 0 {
            assert(rest[0] == figures@[start as int]);
            assert(is_digit(rest[0]));
        }
    }
    out
}

/// How many characters stand before the first that is one of the two.
fn find(chars: &Vec<char>, a: char, b: char) -> (r: usize)
    ensures
        r <= chars@.len(),
        r == count_until(chars@, a, b),
{
    let mut i: usize = 0;
    assert(chars@.skip(0) =~= chars@);
    while i < chars.len() && chars[i] != a && chars[i] != b
        invariant
            i <= chars@.len(),
            count_until(chars@, a, b) == i + count_until(chars@.skip(i as int), a, b),
        decreases chars@.len() - i,
    {
        assert(chars@.skip(i as int).drop_first() =~= chars@.skip(i + 1));
        i = i + 1;
    }
    i
}

/// The characters from `from` up to `to`.
fn part(chars: &Vec<char>, from: usize, to: usize) -> (r: Vec<char>)
    requires
        from <= to <= chars@.len(),
    ensures
        r@ == chars@.subrange(from as int, to as int),
{
    let mut out: Vec<char> = Vec::new();
    let mut i: usize = from;
    while i < to
        invariant
            from <= i <= to <= chars@.len(),
            out@ == chars@.subrange(from as int, i as int),
        decreases to - i,
    {
        out.push(chars[i]);
        assert(chars@.subrange(from as int, i as int).push(chars@[i as int]) =~= chars@.subrange(
            from as int,
            i + 1,
        ));
        i = i + 1;
    }
    out
}

fn are_all_digits(chars: &Vec<char>) -> (r: bool)
    ensures
        r == all_digits(chars@),
{
    let mut i: usize = 0;
    while i < chars.len()
        invariant
            i <= chars@.len(),
            forall|k: int| 0 <= k < i ==> is_digit(#[trigger] chars@[k]),
        decreases chars@.len() - i,
    {
        if chars[i] < '0' || chars[i] > '9' {
            assert(!is_digit(chars@[i as int]));
            return false;
        }
        i = i + 1;
    }
    true
}

/// The value of digits, or the cap where it is larger.
fn capped_value(digits: &Vec<char>) -> (r: u128)
    requires
        all_digits(digits@),
    ensures
        r == (if digits_value(digits@) < EXPONENT_CAP {
            digits_value(digits@)
        } else {
            EXPONENT_CAP as nat
        }),
{
    let mut total: u128 = 0;
    let mut i: usize = 0;
    assert(digits_value(digits@.take(0)) == 0);
    while i < digits.len()
        invariant
            all_digits(digits@),
            i <= digits@.len(),
            total == (if digits_value(digits@.take(i as int)) < EXPONENT_CAP {
                digits_value(digits@.take(i as int))
            } else {
                EXPONENT_CAP as nat
            }),
        decreases digits@.len() - i,
    {
        assert(is_digit(digits@[i as int]));
        assert(digits@.take(i + 1).drop_last() =~= digits@.take(i as int));
        total = total * 10 + (digits[i] as u32 - 48) as u128;
        if total > EXPONENT_CAP {
            total = EXPONENT_CAP;
        }
        i = i + 1;
    }
    assert(digits@.take(digits@.len() as int) =~= digits@);
    total
}

/// Leaves out the sign.
fn after_sign(chars: &Vec<char>) -> (r: Vec<char>)
    ensures
        r@ == without_sign(chars@),
{
    let from: usize = if chars.len() > 0 && (chars[0] == '-' || chars[0] == '+') {
        1
    } else {
        0
    };
    let out: Vec<char> = part(chars, from, chars.len());
    assert(out@ =~= without_sign(chars@));
    out
}

fn is_spelled(chars: &Vec<char>, word: &str) -> (r: bool)
    ensures
        r == spells(chars@, word@),
{
    let letters: Vec<char> = characters(word);
    if letters.len() != chars.len() {
        return false;
    }
    let mut i: usize = 0;
    while i < chars.len()
        invariant
            i <= chars@.len(),
            letters@ == word@,
            letters@.len() == chars@.len(),
            forall|k: int| 0 <= k < i ==> lower(#[trigger] chars@[k]) == word@[k],
        decreases chars@.len() - i,
    {
        let c: char = chars[i];
        let small: char = if 'A' <= c && c <= 'Z' {
            (c as u8 + 32) as char
        } else {
            c
        };
        assert(small == lower(chars@[i as int]));
        if small != letters[i] {
            return false;
        }
        i = i + 1;
    }
    true
}

/// Takes the point out.
fn parse_figures(chars: &Vec<char>) -> (r: Option<(Vec<char>, usize)>)
    ensures
        match r {
            Some((figures, behind)) => read_figures(chars@) == Some((figures@, behind as nat))
                && behind <= figures@.len() && all_digits(figures@),
            None => read_figures(chars@) is None,
        },
{
    let at: usize = find(chars, '.', '.');
    let mut figures: Vec<char> = part(chars, 0, at);
    if at < chars.len() {
        let ghost head = figures@;
        let mut i: usize = at + 1;
        assert(head + chars@.subrange(at + 1, at + 1) =~= head);
        while i < chars.len()
            invariant
                at < i <= chars@.len(),
                figures@ == head + chars@.subrange(at + 1, i as int),
            decreases chars@.len() - i,
        {
            figures.push(chars[i]);
            assert(head + chars@.subrange(at + 1, i + 1) =~= (head + chars@.subrange(
                at + 1,
                i as int,
            )).push(chars@[i as int]));
            i = i + 1;
        }
        assert(figures@ =~= chars@.take(at as int) + chars@.skip(at + 1));
    } else {
        assert(figures@ =~= chars@);
    }
    if figures.len() == 0 || !are_all_digits(&figures) {
        return None;
    }
    let behind: usize = figures.len() - at;
    Some((figures, behind))
}

/// Reads the figures of a number and scales them.
fn parse_decimal(chars: &Vec<char>) -> (r: Option<u64>)
    requires
        !spells(chars@, "inf"@),
        !spells(chars@, "infinity"@),
        !spells(chars@, "nan"@),
    ensures
        match r {
            Some(m) => read_magnitude(chars@) == Some(m as int) && m <= INFINITE,
            None => read_magnitude(chars@) is None,
        },
{
    let at: usize = find(chars, 'e', 'E');
    let significand: Vec<char> = part(chars, 0, at);
    assert(significand@ =~= chars@.take(at as int));
    let (figures, behind): (Vec<char>, usize) = match parse_figures(&significand) {
        Some(found) => found,
        None => {
            return None;
        },
    };
    let ghost n: nat = digits_value(figures@);
    let digits: Vec<u8> = figures_backwards(&figures);
    let mut exponent: i128 = 0;
    let ghost mut e: int = 0;
    if at < chars.len() {
        let tail: Vec<char> = part(chars, at + 1, chars.len());
        assert(tail@ =~= chars@.skip(at + 1));
        let power: Vec<char> = after_sign(&tail);
        if power.len() == 0 || !are_all_digits(&power) {
            return None;
        }
        let size: i128 = capped_value(&power) as i128;
        proof {
            e = read_exponent(tail@)->0;
        }
        if tail.len() > 0 && tail[0] == '-' {
            exponent = -size;
        } else {
            exponent = size;
        }
    }
    let scale: i128 = exponent - behind as i128;
    proof {
        lemma_digits_bound(digits@);
        if e > exponent {
            assert(exponent == EXPONENT_CAP);
            if n > 0 {
                lemma_large_scale(n, scale as int);
                lemma_large_scale(n, e - behind);
            } else {
                lemma_zero_scaled(scale as int);
                lemma_zero_scaled(e - behind);
            }
        } else if e < exponent {
            assert(exponent == -EXPONENT_CAP);
            lemma_small_scale(n, digits@.len(), scale as int);
            lemma_small_scale(n, digits@.len(), e - behind);
        }
    }
    Some(scaled(digits, scale))
}

proof fn lemma_zero_scaled(scale: int)
    ensures
        scaled_magnitude(0, scale) == 0,
{
    if scale >= 0 {
        let p: int = pow(10, scale as nat);
        assert(0 * p * one() == 0) by (nonlinear_arith);
        lemma_pow_positive(10, 0);
        lemma_round_zero(pow(10, 0));
    } else {
        lemma_pow_positive(10, (-scale) as nat);
        lemma_round_zero(pow(10, (-scale) as nat));
    }
}

/// Reads a number.
pub fn parse_number(s: &str) -> (r: Option<Amount>)
    ensures
        r == read_number(s@),
{
    let chars: Vec<char> = characters(s);
    let rest: Vec<char> = after_sign(&chars);
    let magnitude: u64 = if is_spelled(&rest, "inf") || is_spelled(&rest, "infinity") {
        INFINITE
    } else if is_spelled(&rest, "nan") {
        NOT_A_NUMBER
    } else {
        match parse_decimal(&rest) {
            Some(m) => m,
            None => {
                return None;
            },
        }
    };
    if chars.len() > 0 && chars[0] == '-' {
        Some(Amount { bits: magnitude + SIGN })
    } else {
        Some(Amount { bits: magnitude })
    }
}

// ---- what holds of numbers that are read -------------------------------

proof fn lemma_count_until(s: Seq<char>, at: int, a: char, b: char)
    requires
        0 <= at <= s.len(),
        forall|i: int| 0 <= i < at ==> #[trigger] s[i] != a && s[i] != b,
        at < s.len() ==> s[at] == a || s[at] == b,
    ensures
        count_until(s, a, b) == at,
    decreases at,
{
    if at > 0 {
        assert(s[0] != a && s[0] != b);
        let rest = s.drop_first();
        assert forall|i: int| 0 <= i < at - 1 implies #[trigger] rest[i] != a && rest[i] != b by {
            assert(rest[i] == s[i + 1]);
        }
        lemma_count_until(rest, at - 1, a, b);
    }
}

/// Digits with a point among them, or without one, are read as the nearest
/// number to what they stand for.
pub proof fn lemma_plain_numbers_are_read(whole: Seq<char>, fraction: Seq<char>)
    requires
        all_digits(whole),
        all_digits(fraction),
        whole.len() + fraction.len() > 0,
    ensures
        read_number(whole + seq!['.'] + fraction) == Some(
            encoded(
                false,
                rounded(digits_value(whole + fraction) * one(), pow(10, fraction.len())),
            ),
        ),
        whole.len() > 0 ==> read_number(whole) == Some(
            encoded(false, rounded(digits_value(whole) * one(), 1)),
        ),
{
    lemma_pow0(10);
    let s = whole + seq!['.'] + fraction;
    assert forall|i: int| 0 <= i < s.len() implies #[trigger] s[i] == '.' || is_digit(s[i]) by {
        if i < whole.len() {
            assert(is_digit(whole[i]));
        } else if i > whole.len() {
            assert(is_digit(fraction[i - whole.len() - 1]));
        }
    }
    lemma_no_word(s);
    lemma_count_until(s, s.len() as int, 'e', 'E');
    assert(s.take(s.len() as int) =~= s);
    assert forall|i: int| 0 <= i < whole.len() implies #[trigger] s[i] != '.' by {
        assert(is_digit(whole[i]));
    }
    lemma_count_until(s, whole.len() as int, '.', '.');
    let figures = whole + fraction;
    assert(s.take(whole.len() as int) + s.skip(whole.len() as int + 1) =~= figures);
    assert(all_digits(figures)) by {
        assert forall|i: int| 0 <= i < figures.len() implies is_digit(#[trigger] figures[i]) by {
            if i < whole.len() {
                assert(is_digit(whole[i]));
            } else {
                assert(is_digit(fraction[i - whole.len()]));
            }
        }
    }
    let n: nat = digits_value(figures);
    assert(n * 1 * one() == n * one());
    if whole.len() > 0 {
        assert forall|i: int| 0 <= i < whole.len() implies #[trigger] whole[i] == '.' || is_digit(
            whole[i],
        ) by {
            assert(is_digit(whole[i]));
        }
        lemma_no_word(whole);
        assert forall|i: int| 0 <= i < whole.len() implies #[trigger] whole[i] != '.' && whole[i]
            != 'e' && whole[i] != 'E' by {
            assert(is_digit(whole[i]));
        }
        lemma_count_until(whole, whole.len() as int, 'e', 'E');
        lemma_count_until(whole, whole.len() as int, '.', '.');
        assert(whole.take(whole.len() as int) =~= whole);
        let m: nat = digits_value(whole);
        assert(m * 1 * one() == m * one());
    }
}

proof fn lemma_no_word(s: Seq<char>)
    requires
        s.len() > 0,
        forall|i: int| 0 <= i < s.len() ==> #[trigger] s[i] == '.' || is_digit(s[i]),
    ensures
        without_sign(s) == s,
        !has_minus(s),
        !spells(s, "inf"@),
        !spells(s, "infinity"@),
        !spells(s, "nan"@),
{
    reveal_strlit("inf");
    reveal_strlit("infinity");
    reveal_strlit("nan");
    assert(s[0] == '.' || is_digit(s[0]));
    assert(lower(s[0]) == s[0]);
    assert("inf"@[0] == 'i' && "infinity"@[0] == 'i' && "nan"@[0] == 'n');
}

/// A minus sign before a number makes it the opposite, and a plus sign changes
/// nothing.
pub proof fn lemma_signs_are_read(s: Seq<char>)
    requires
        s.len() > 0,
        s[0] != '-',
        s[0] != '+',
    ensures
        read_number(seq!['+'] + s) == read_number(s),
        read_number(seq!['-'] + s) is Some <==> read_number(s) is Some,
        read_number(s) matches Some(a) ==> read_number(seq!['-'] + s) == Some(
            encoded(true, read_magnitude(s)->Some_0),
        ) && a == encoded(false, read_magnitude(s)->Some_0),
{
    assert((seq!['+'] + s).drop_first() =~= s);
    assert((seq!['-'] + s).drop_first() =~= s);
}

proof fn lemma_count_is_within(s: Seq<char>, a: char, b: char)
    ensures
        0 <= count_until(s, a, b) <= s.len(),
        count_until(s, a, b) < s.len() ==> s[count_until(s, a, b)] == a || s[count_until(s, a, b)]
            == b,
    decreases s.len(),
{
    if s.len() > 0 && s[0] != a && s[0] != b {
        lemma_count_is_within(s.drop_first(), a, b);
    }
}

/// What holds anything but digits, signs, points and letters is not a number:
/// no blanks, no commas, no currency signs.
pub proof fn lemma_what_is_no_number(s: Seq<char>, k: int)
    requires
        0 <= k < s.len(),
        !is_digit(s[k]),
        s[k] != '+',
        s[k] != '-',
        s[k] != '.',
        !('a' <= s[k] <= 'z'),
        !('A' <= s[k] <= 'Z'),
    ensures
        read_number(s) is None,
{
    reveal_strlit("inf");
    reveal_strlit("infinity");
    reveal_strlit("nan");
    let c = s[k];
    let t = without_sign(s);
    let j: int = k - (s.len() - t.len());
    assert(t[j] == c);
    assert(lower(c) == c);
    if spells(t, "inf"@) {
        assert(lower(t[j]) == "inf"@[j]);
    }
    if spells(t, "infinity"@) {
        assert(lower(t[j]) == "infinity"@[j]);
    }
    if spells(t, "nan"@) {
        assert(lower(t[j]) == "nan"@[j]);
    }
    let at = count_until(t, 'e', 'E');
    lemma_count_is_within(t, 'e', 'E');
    if j < at {
        let f = t.take(at);
        assert(f[j] == c);
        let point = count_until(f, '.', '.');
        lemma_count_is_within(f, '.', '.');
        if point < f.len() {
            let figures = f.take(point) + f.skip(point + 1);
            let i: int = if j < point {
                j
            } else {
                j - 1
            };
            assert(figures[i] == c);
        }
        assert(read_figures(f) is None);
    } else {
        let e = t.skip(at + 1);
        let i: int = j - at - 1;
        assert(e[i] == c);
        let digits = without_sign(e);
        let d: int = i - (e.len() - digits.len());
        assert(digits[d] == c);
        assert(read_exponent(e) is None);
    }
}

/// An exponent moves the point: behind digits, with a point among them or none,
/// it says by how many places, to the right or, behind a minus sign, to the
/// left.
pub proof fn lemma_exponents_are_read(
    whole: Seq<char>,
    fraction: Seq<char>,
    letter: char,
    places: Seq<char>,
)
    requires
        all_digits(whole),
        all_digits(fraction),
        whole.len() + fraction.len() > 0,
        letter == 'e' || letter == 'E',
        places.len() > 0,
        all_digits(places),
    ensures
        ({
            let n = digits_value(whole + fraction);
            let (up, down) = (digits_value(places), fraction.len());
            let mantissa = whole + seq!['.'] + fraction;
            &&& up >= down ==> read_number(mantissa + seq![letter] + places) == Some(
                encoded(false, rounded(n * pow(10, (up - down) as nat) * one(), 1)),
            )
            &&& up < down ==> read_number(mantissa + seq![letter] + places) == Some(
                encoded(false, rounded(n * one(), pow(10, (down - up) as nat))),
            )
            &&& up + down > 0 ==> read_number(mantissa + seq![letter, '-'] + places) == Some(
                encoded(false, rounded(n * one(), pow(10, up + down))),
            )
        }),
{
    lemma_pow0(10);
    let mantissa = whole + seq!['.'] + fraction;
    let figures = whole + fraction;
    let at: int = mantissa.len() as int;
    assert forall|i: int| 0 <= i < mantissa.len() implies #[trigger] mantissa[i] == '.' || is_digit(
        mantissa[i],
    ) by {
        if i < whole.len() {
            assert(is_digit(whole[i]));
        } else if i > whole.len() {
            assert(is_digit(fraction[i - whole.len() - 1]));
        }
    }
    assert forall|i: int| 0 <= i < whole.len() implies #[trigger] mantissa[i] != '.' by {
        assert(is_digit(whole[i]));
    }
    lemma_count_until(mantissa, whole.len() as int, '.', '.');
    assert(mantissa.take(whole.len() as int) + mantissa.skip(whole.len() as int + 1) =~= figures);
    assert(all_digits(figures)) by {
        assert forall|i: int| 0 <= i < figures.len() implies is_digit(#[trigger] figures[i]) by {
            if i < whole.len() {
                assert(is_digit(whole[i]));
            } else {
                assert(is_digit(fraction[i - whole.len()]));
            }
        }
    }
    assert(read_figures(mantissa) == Some((figures, fraction.len())));
    assert(is_digit(places[0]));
    assert(read_exponent(places) == Some(digits_value(places) as int));
    let minus = seq!['-'] + places;
    assert(minus.drop_first() =~= places);
    assert(read_exponent(minus) == Some(-(digits_value(places) as int)));
    let s = mantissa + seq![letter] + places;
    let t = mantissa + seq![letter, '-'] + places;
    lemma_no_word_before_an_exponent(s, at);
    lemma_no_word_before_an_exponent(t, at);
    assert forall|i: int| 0 <= i < at implies #[trigger] s[i] != 'e' && s[i] != 'E' by {
        assert(mantissa[i] == s[i]);
    }
    assert forall|i: int| 0 <= i < at implies #[trigger] t[i] != 'e' && t[i] != 'E' by {
        assert(mantissa[i] == t[i]);
    }
    lemma_count_until(s, at, 'e', 'E');
    lemma_count_until(t, at, 'e', 'E');
    assert(s.take(at) =~= mantissa);
    assert(t.take(at) =~= mantissa);
    assert(s.skip(at + 1) =~= places);
    assert(t.skip(at + 1) =~= minus);
}

proof fn lemma_no_word_before_an_exponent(s: Seq<char>, at: int)
    requires
        0 < at < s.len(),
        s[0] == '.' || is_digit(s[0]),
    ensures
        without_sign(s) == s,
        !has_minus(s),
        !spells(s, "inf"@),
        !spells(s, "infinity"@),
        !spells(s, "nan"@),
{
    reveal_strlit("inf");
    reveal_strlit("infinity");
    reveal_strlit("nan");
    assert(lower(s[0]) == s[0]);
    assert("inf"@[0] == 'i' && "infinity"@[0] == 'i' && "nan"@[0] == 'n');
}

} // verus!
