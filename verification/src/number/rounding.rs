//! Rounding to the nearest number that has an encoding, ties to even.

use super::{magnitude_units, lemma_magnitudes_grow, EXPONENT_STEP, INFINITE};
use vstd::arithmetic::power2::{lemma_pow2_adds, lemma_pow2_pos, lemma_pow2_strictly_increases, pow2};
use vstd::prelude::*;

verus! {

/// Whether the magnitude is the one to which the fraction `n / d` is rounded:
/// the fraction lies above the middle between it and the magnitude before it,
/// and below the middle between it and the one after it. On a middle itself
/// the even magnitude is taken. Infinity stands for the first number that is
/// too large, and for all that lies beyond.
pub open spec fn nearest(magnitude: int, n: int, d: int) -> bool {
    &&& 0 <= magnitude <= INFINITE
    &&& magnitude > 0 ==> {
        let middle: int = (magnitude_units(magnitude - 1) + magnitude_units(magnitude)) * d;
        2 * n > middle || (2 * n == middle && magnitude % 2 == 0)
    }
    &&& magnitude < INFINITE ==> {
        let middle: int = (magnitude_units(magnitude) + magnitude_units(magnitude + 1)) * d;
        2 * n < middle || (2 * n == middle && magnitude % 2 == 0)
    }
}

/// The magnitude to which the fraction `n / d` is rounded, where both are
/// counted in multiples of 2^-1074.
pub open spec fn rounded(n: int, d: int) -> int {
    choose|magnitude: int| nearest(magnitude, n, d)
}

/// A fraction is rounded to one magnitude only.
pub proof fn lemma_nearest_is_unique(a: int, b: int, n: int, d: int)
    requires
        d > 0,
        nearest(a, n, d),
        nearest(b, n, d),
    ensures
        a == b,
{
    if a <= b {
        lemma_nearest_in_order(a, b, n, d);
    } else {
        lemma_nearest_in_order(b, a, n, d);
    }
}

proof fn lemma_nearest_in_order(a: int, b: int, n: int, d: int)
    requires
        d > 0,
        a <= b,
        nearest(a, n, d),
        nearest(b, n, d),
    ensures
        a == b,
{
    let above: int = magnitude_units(a) + magnitude_units(a + 1);
    let under: int = magnitude_units(b - 1) + magnitude_units(b);
    if a < b - 1 {
        lemma_magnitudes_grow(a, b - 1);
        lemma_magnitudes_grow(a + 1, b);
        assert(above < under);
        assert(above * d < under * d) by (nonlinear_arith)
            requires
                above < under,
                d > 0,
        ;
    }
}

/// The number that is nearest, from the last one that is not above.
pub proof fn lemma_nearest_from_below(low: int, n: int, d: int, up: bool)
    requires
        d > 0,
        0 <= low < INFINITE,
        magnitude_units(low) * d <= n < magnitude_units(low + 1) * d,
        up ==> 2 * n > (magnitude_units(low) + magnitude_units(low + 1)) * d || (2 * n == (
        magnitude_units(low) + magnitude_units(low + 1)) * d && low % 2 == 1),
        !up ==> 2 * n < (magnitude_units(low) + magnitude_units(low + 1)) * d || (2 * n == (
        magnitude_units(low) + magnitude_units(low + 1)) * d && low % 2 == 0),
    ensures
        nearest(if up { low + 1 } else { low }, n, d),
{
    if up {
        if low + 1 < INFINITE {
            lemma_magnitudes_grow(low + 1, low + 2);
            let (u, v) = (magnitude_units(low + 1), magnitude_units(low + 2));
            assert(2 * n < (u + v) * d) by (nonlinear_arith)
                requires
                    n < u * d,
                    u < v,
                    d > 0,
            ;
        }
    } else if low > 0 {
        lemma_magnitudes_grow(low - 1, low);
        let (u, v) = (magnitude_units(low - 1), magnitude_units(low));
        assert(2 * n > (u + v) * d) by (nonlinear_arith)
            requires
                n >= v * d,
                u < v,
                d > 0,
        ;
    }
}

/// What is too large is rounded to infinity.
pub proof fn lemma_nearest_beyond(n: int, d: int)
    requires
        d > 0,
        n >= magnitude_units(INFINITE as int) * d,
    ensures
        nearest(INFINITE as int, n, d),
{
    let m: int = INFINITE as int;
    lemma_magnitudes_grow(m - 1, m);
    let (u, v) = (magnitude_units(m - 1), magnitude_units(m));
    assert(2 * n > (u + v) * d) by (nonlinear_arith)
        requires
            n >= v * d,
            u < v,
            d > 0,
    ;
}

/// What a significand and the power of two that scales it are encoded as.
pub proof fn lemma_encoding(scale: int, significand: int)
    requires
        scale >= 0,
        0 <= significand <= 2 * EXPONENT_STEP,
        scale == 0 || significand >= EXPONENT_STEP,
    ensures
        magnitude_units(scale * EXPONENT_STEP + significand) == significand * pow2(scale as nat),
{
    let step: int = EXPONENT_STEP as int;
    let magnitude: int = scale * step + significand;
    vstd::arithmetic::power2::lemma2_to64();
    if significand < step {
        assert(magnitude / step == 0 && magnitude % step == significand);
    } else if significand < 2 * step {
        assert(magnitude / step == scale + 1 && magnitude % step == significand - step);
    } else {
        assert(magnitude / step == scale + 2 && magnitude % step == 0);
        lemma_pow2_adds(1, scale as nat);
        let p: int = pow2(scale as nat) as int;
        assert(pow2((scale + 1) as nat) == 2 * p);
        assert(step * (2 * p) == significand * p) by (nonlinear_arith)
            requires
                significand == 2 * step,
        ;
    }
}

/// Whether `m` times 2^`e` is the last such multiple that is not above the
/// fraction `n / d`, and whether something is left over.
pub open spec fn reaches(m: int, e: int, n: int, d: int, left_over: bool) -> bool {
    let times: int = pow2(if e > 0 { e as nat } else { 0 }) as int;
    let per: int = pow2(if e < 0 { (-e) as nat } else { 0 }) as int;
    &&& m * (times * d) <= n * per < (m + 1) * (times * d)
    &&& left_over == (m * (times * d) < n * per)
}

/// 2^`k`, where it fits.
pub(crate) fn power_of_two(k: u32) -> (r: u128)
    requires
        k < 128,
    ensures
        r == pow2(k as nat),
{
    proof {
        vstd::arithmetic::power2::lemma2_to64();
    }
    let mut r: u128 = 1;
    let mut i: u32 = 0;
    while i < k
        invariant
            i <= k < 128,
            r == pow2(i as nat),
        decreases k - i,
    {
        proof {
            vstd::arithmetic::power2::lemma_pow2_unfold((i + 1) as nat);
            lemma_below_128((i + 1) as nat);
        }
        r = r * 2;
        i = i + 1;
    }
    r
}

proof fn lemma_below_128(k: nat)
    requires
        k < 128,
    ensures
        0 < pow2(k) <= 0x8000_0000_0000_0000_0000_0000_0000_0000,
{
    vstd::arithmetic::power2::lemma2_to64();
    vstd::arithmetic::power2::lemma2_to64_rest();
    lemma_pow2_adds(64, 63);
    lemma_pow2_pos(k);
    if k < 127 {
        lemma_pow2_strictly_increases(k, 127);
    }
}

/// How many binary digits the number has.
fn binary_length(m: u128) -> (r: u32)
    requires
        m > 0,
    ensures
        1 <= r <= 128,
        pow2((r - 1) as nat) <= m < pow2(r as nat),
{
    proof {
        vstd::arithmetic::power2::lemma2_to64();
        lemma_pow2_adds(64, 64);
    }
    let mut rest: u128 = m;
    let mut r: u32 = 0;
    let ghost mut scale: int = 1;
    while rest > 0
        invariant
            m > 0,
            r <= 128,
            scale == pow2(r as nat),
            scale > 0,
            rest * scale <= m < (rest + 1) * scale,
            r == 0 ==> rest == m,
            r > 0 ==> pow2((r - 1) as nat) <= m,
            pow2(128) == 0x1_0000_0000_0000_0000_0000_0000_0000_0000,
        decreases rest,
    {
        proof {
            vstd::arithmetic::power2::lemma_pow2_unfold((r + 1) as nat);
            let half: int = (rest / 2) as int;
            assert(half * (2 * scale) <= m < (half + 1) * (2 * scale)) by (nonlinear_arith)
                requires
                    rest * scale <= m < (rest + 1) * scale,
                    half * 2 <= rest < half * 2 + 2,
                    scale > 0,
            ;
            assert(scale <= m) by (nonlinear_arith)
                requires
                    rest * scale <= m,
                    rest >= 1,
                    scale > 0,
            ;
            if r == 128 {
                assert(false);
            }
            scale = 2 * scale;
        }
        rest = rest / 2;
        r = r + 1;
    }
    assert((rest + 1) * scale == scale) by (nonlinear_arith)
        requires
            rest == 0,
    ;
    r
}

/// Where a fraction lies between two neighbouring multiples of `y`, read off
/// the digits that are dropped.
proof fn lemma_dropped_digits(
    m: int,
    s: int,
    rest: int,
    half: int,
    x: int,
    y: int,
    n: int,
    per: int,
    left_over: bool,
)
    requires
        x > 0,
        y > 0,
        per > 0,
        half > 0,
        m == s * (2 * half) + rest,
        0 <= rest < 2 * half,
        (2 * half) * x == y * per,
        m * x <= n * per < (m + 1) * x,
        left_over == (m * x < n * per),
    ensures
        s * y <= n < (s + 1) * y,
        rest < half ==> 2 * n < (2 * s + 1) * y,
        rest > half ==> 2 * n > (2 * s + 1) * y,
        rest == half && left_over ==> 2 * n > (2 * s + 1) * y,
        rest == half && !left_over ==> 2 * n == (2 * s + 1) * y,
{
    let whole: int = s * (2 * half);
    assert(whole * x == s * y * per) by (nonlinear_arith)
        requires
            whole == s * (2 * half),
            (2 * half) * x == y * per,
    ;
    assert((whole + 2 * half) * x == (s + 1) * y * per) by (nonlinear_arith)
        requires
            whole * x == s * y * per,
            (2 * half) * x == y * per,
    ;
    assert(2 * ((whole + half) * x) == (2 * s + 1) * y * per) by (nonlinear_arith)
        requires
            whole * x == s * y * per,
            (2 * half) * x == y * per,
    ;
    assert(whole * x <= m * x && (m + 1) * x <= (whole + 2 * half) * x) by (nonlinear_arith)
        requires
            whole <= m,
            m + 1 <= whole + 2 * half,
            x > 0,
    ;
    lemma_cancel(s * y, n, per);
    lemma_cancel(n, (s + 1) * y, per);
    let middle: int = (2 * s + 1) * y;
    assert(2 * (n * per) == (2 * n) * per) by (nonlinear_arith);
    if rest < half {
        assert((m + 1) * x <= (whole + half) * x) by (nonlinear_arith)
            requires
                m + 1 <= whole + half,
                x > 0,
        ;
    } else if rest > half {
        assert(m * x > (whole + half) * x) by (nonlinear_arith)
            requires
                m > whole + half,
                x > 0,
        ;
    }
    lemma_cancel(2 * n, middle, per);
    lemma_cancel(middle, 2 * n, per);
}

pub(crate) proof fn lemma_cancel(a: int, b: int, k: int)
    requires
        k > 0,
    ensures
        (a * k < b * k) == (a < b),
        (a * k <= b * k) == (a <= b),
        (a * k == b * k) == (a == b),
{
    assert(a < b ==> a * k < b * k) by (nonlinear_arith)
        requires
            k > 0,
    ;
    assert(a > b ==> a * k > b * k) by (nonlinear_arith)
        requires
            k > 0,
    ;
}

/// The first two numbers.
pub proof fn lemma_smallest_magnitudes()
    ensures
        magnitude_units(0) == 0,
        magnitude_units(1) == 1,
{
}

/// Rounds the fraction `n / d`, given the number that reaches up to it.
pub(crate) fn round_to_magnitude(
    m: u128,
    e: i64,
    left_over: bool,
    Ghost(n): Ghost<int>,
    Ghost(d): Ghost<int>,
) -> (r: u64)
    requires
        d > 0,
        -5000 <= e <= 5000,
        m < 0x4000_0000_0000_0000_0000_0000_0000_0000,
        left_over ==> m >= 0x40_0000_0000_0000,
        reaches(m as int, e as int, n, d, left_over),
    ensures
        r == rounded(n, d),
        nearest(r as int, n, d),
{
    let r: u64 = round_up_or_down(m, e, left_over, Ghost(n), Ghost(d));
    proof {
        lemma_nearest_is_unique(r as int, rounded(n, d), n, d);
    }
    r
}

#[verifier::rlimit(40)]
fn round_up_or_down(
    m: u128,
    e: i64,
    left_over: bool,
    Ghost(n): Ghost<int>,
    Ghost(d): Ghost<int>,
) -> (r: u64)
    requires
        d > 0,
        -5000 <= e <= 5000,
        m < 0x4000_0000_0000_0000_0000_0000_0000_0000,
        left_over ==> m >= 0x40_0000_0000_0000,
        reaches(m as int, e as int, n, d, left_over),
    ensures
        nearest(r as int, n, d),
{
    let ghost times: int = pow2(if e > 0 { e as nat } else { 0 }) as int;
    let ghost per: int = pow2(if e < 0 { (-e) as nat } else { 0 }) as int;
    proof {
        lemma_pow2_pos(if e > 0 { e as nat } else { 0 });
        lemma_pow2_pos(if e < 0 { (-e) as nat } else { 0 });
        vstd::arithmetic::power2::lemma2_to64();
        vstd::arithmetic::power2::lemma2_to64_rest();
        lemma_smallest_magnitudes();
    }
    if m == 0 {
        proof {
            assert(n == 0) by (nonlinear_arith)
                requires
                    m * (times * d) == n * per,
                    m == 0,
                    per > 0,
            ;
        }
        return 0;
    }
    let length: u32 = binary_length(m);
    proof {
        if length < 55 {
            vstd::arithmetic::power2::lemma_pow2_strictly_increases(length as nat, 55);
        }
        if length > 126 {
            lemma_below_128(126);
            lemma_pow2_adds(64, 62);
            if length > 127 {
                lemma_pow2_strictly_increases(126, (length - 1) as nat);
            }
        }
    }
    let top: i64 = length as i64 + e;
    let scale: i64 = if top > 53 {
        top - 53
    } else {
        0
    };
    let drop: i64 = scale - e;
    if drop <= 0 {
        round_exact(m, e, length, scale, Ghost(n), Ghost(d))
    } else if drop >= 128 {
        proof {
            assert(scale == 0);
            let k: nat = drop as nat;
            lemma_pow2_adds(127, (k - 127) as nat);
            lemma_pow2_adds(64, 63);
            lemma_pow2_pos((k - 127) as nat);
            let big: int = pow2(127) as int;
            let more: int = pow2((k - 127) as nat) as int;
            assert(times == 1);
            assert(per == big * more);
            assert(2 * n < d) by (nonlinear_arith)
                requires
                    n * per < (m + 1) * (times * d),
                    times == 1,
                    per == big * more,
                    more >= 1,
                    2 * (m + 1) <= big,
                    big > 0,
                    d > 0,
                    m >= 0,
            ;
            assert(n >= 0) by (nonlinear_arith)
                requires
                    m * (times * d) <= n * per,
                    m >= 0,
                    times == 1,
                    d > 0,
                    per > 0,
            ;
        }
        0
    } else {
        let unit: u128 = power_of_two(drop as u32);
        proof {
            lemma_pow2_pos(drop as nat);
        }
        let half: u128 = power_of_two((drop - 1) as u32);
        let significand: u128 = m / unit;
        let rest: u128 = m % unit;
        let up: bool = rest > half || (rest == half && (left_over || significand % 2 == 1));
        let ghost y: int = pow2(scale as nat) * d;
        proof {
            lemma_pow2_pos(scale as nat);
            vstd::arithmetic::power2::lemma_pow2_unfold(drop as nat);
            assert(unit == 2 * half);
            assert(m == significand * (2 * half) + rest) by {
                vstd::arithmetic::div_mod::lemma_fundamental_div_mod(m as int, unit as int);
                vstd::arithmetic::mul::lemma_mul_is_commutative(unit as int, significand as int);
            }
            let (te, pe) = (
                if e > 0 {
                    e as nat
                } else {
                    0
                },
                if e < 0 {
                    (-e) as nat
                } else {
                    0
                },
            );
            lemma_pow2_adds(drop as nat, te);
            lemma_pow2_adds(scale as nat, pe);
            assert(drop + te == scale + pe);
            assert(unit * times == pow2(scale as nat) * per);
            assert(unit * (times * d) == y * per) by (nonlinear_arith)
                requires
                    unit * times == pow2(scale as nat) * per,
                    y == pow2(scale as nat) * d,
            ;
            assert(times * d > 0 && y > 0) by (nonlinear_arith)
                requires
                    times > 0,
                    d > 0,
                    pow2(scale as nat) > 0,
                    y == pow2(scale as nat) * d,
            ;
            lemma_dropped_digits(
                m as int,
                significand as int,
                rest as int,
                half as int,
                times * d,
                y,
                n,
                per,
                left_over,
            );
            // The significand has at most 53 binary digits, and 53 where a scale is set.
            if scale > 0 {
                assert(drop == length - 53);
                lemma_pow2_adds(drop as nat, 53);
                lemma_pow2_adds(drop as nat, 52);
            } else {
                if length > drop + 53 {
                    assert(false);
                }
                lemma_pow2_adds(drop as nat, 53);
                if length < drop + 53 {
                    lemma_pow2_strictly_increases(length as nat, (drop + 53) as nat);
                }
            }
            assert(significand * unit <= m < (significand + 1) * unit) by (nonlinear_arith)
                requires
                    m == significand * unit + rest,
                    0 <= rest < unit,
            ;
            assert(significand < 2 * EXPONENT_STEP) by (nonlinear_arith)
                requires
                    significand * unit <= m,
                    m < unit * (2 * EXPONENT_STEP),
                    unit > 0,
            ;
            if scale > 0 {
                assert(significand >= EXPONENT_STEP) by (nonlinear_arith)
                    requires
                        m < (significand + 1) * unit,
                        m >= unit * EXPONENT_STEP,
                        unit > 0,
                ;
            }
            lemma_encoding(scale as int, significand as int);
            lemma_encoding(scale as int, significand + 1);
            let p: int = pow2(scale as nat) as int;
            let (s, d2) = (significand as int, d);
            assert(s * p * d2 == s * y && (s + 1) * p * d2 == (s + 1) * y && (s * p + (s + 1) * p)
                * d2 == (2 * s + 1) * y) by (nonlinear_arith)
                requires
                    y == p * d2,
            ;
        }
        if scale >= 2046 {
            proof {
                let low: int = scale * EXPONENT_STEP + significand;
                if low > INFINITE {
                    lemma_magnitudes_grow(INFINITE as int, low);
                }
                assert(n >= magnitude_units(INFINITE as int) * d) by (nonlinear_arith)
                    requires
                        n >= magnitude_units(low) * d,
                        magnitude_units(low) >= magnitude_units(INFINITE as int),
                        d > 0,
                ;
                lemma_nearest_beyond(n, d);
            }
            INFINITE
        } else {
            let low: u64 = scale as u64 * EXPONENT_STEP + significand as u64;
            proof {
                assert(low % 2 == significand % 2);
                lemma_nearest_from_below(low as int, n, d, up);
            }
            if up {
                low + 1
            } else {
                low
            }
        }
    }
}

/// The number has no more digits than a significand.
fn round_exact(
    m: u128,
    e: i64,
    length: u32,
    scale: i64,
    Ghost(n): Ghost<int>,
    Ghost(d): Ghost<int>,
) -> (r: u64)
    requires
        d > 0,
        0 < m,
        1 <= length <= 128,
        pow2((length - 1) as nat) <= m < pow2(length as nat),
        reaches(m as int, e as int, n, d, false),
        scale == if length + e > 53 {
            length + e - 53
        } else {
            0
        },
        scale <= e <= 5000,
    ensures
        nearest(r as int, n, d),
{
    let factor: u128 = power_of_two((e - scale) as u32);
    proof {
        vstd::arithmetic::power2::lemma2_to64();
        vstd::arithmetic::power2::lemma2_to64_rest();
        let k: nat = (e - scale) as nat;
        lemma_pow2_adds(length as nat, k);
        lemma_pow2_adds((length - 1) as nat, k);
        lemma_pow2_pos(k);
        lemma_pow2_pos(scale as nat);
        lemma_pow2_adds(k, scale as nat);
        if length + k < 53 {
            lemma_pow2_strictly_increases((length + k) as nat, 53);
        }
        assert(m * factor < 2 * EXPONENT_STEP) by (nonlinear_arith)
            requires
                m < pow2(length as nat),
                pow2(length as nat) * factor <= 2 * EXPONENT_STEP,
                factor > 0,
        ;
        if scale > 0 {
            assert(m * factor >= EXPONENT_STEP) by (nonlinear_arith)
                requires
                    m >= pow2((length - 1) as nat),
                    pow2((length - 1) as nat) * factor == EXPONENT_STEP,
                    factor > 0,
            ;
        }
    }
    let significand: u128 = m * factor;
    proof {
        let p: int = pow2(scale as nat) as int;
        let times: int = pow2(e as nat) as int;
        lemma_encoding(scale as int, significand as int);
        let low: int = scale * EXPONENT_STEP + significand;
        assert(times == factor * p);
        assert(m * (times * d) == n) by {
            assert(n * 1 == n);
        }
        assert(n == magnitude_units(low) * d) by (nonlinear_arith)
            requires
                m * (times * d) == n,
                times == factor * p,
                significand == m * factor,
                magnitude_units(low) == significand * p,
        ;
        if low >= INFINITE {
            if low > INFINITE {
                lemma_magnitudes_grow(INFINITE as int, low);
            }
            assert(n >= magnitude_units(INFINITE as int) * d) by (nonlinear_arith)
                requires
                    n == magnitude_units(low) * d,
                    magnitude_units(low) >= magnitude_units(INFINITE as int),
                    d > 0,
            ;
            lemma_nearest_beyond(n, d);
        } else {
            lemma_magnitudes_grow(low, low + 1);
            let (u, v) = (magnitude_units(low), magnitude_units(low + 1));
            assert(n < v * d && 2 * n < (u + v) * d) by (nonlinear_arith)
                requires
                    n == u * d,
                    u < v,
                    d > 0,
            ;
            lemma_nearest_from_below(low, n, d, false);
        }
    }
    if scale >= 2046 {
        INFINITE
    } else {
        scale as u64 * EXPONENT_STEP + significand as u64
    }
}

} // verus!
