use stackalert::number::arithmetic::amount_of;
use stackalert::number::print::{write_cents, write_whole};
use stackalert::number::read::parse_number;
use stackalert::number::sums::{mean_of, total_of};
use stackalert::number::{cent, hundred, ten_cents, unbounded, zero, Amount};

fn amount(x: f64) -> Amount {
    Amount { bits: x.to_bits() }
}

fn float(a: Amount) -> f64 {
    f64::from_bits(a.bits)
}

/// A sequence of bit patterns that visits all kinds of numbers.
fn next(state: &mut u64) -> u64 {
    *state = state.wrapping_mul(6364136223846793005).wrapping_add(1442695040888963407);
    let x = *state;
    (x >> 33) ^ x.rotate_left(29)
}

fn samples(count: usize) -> Vec<f64> {
    let mut state: u64 = 2026;
    let mut out: Vec<f64> = vec![
        0.0,
        -0.0,
        1.0,
        -1.0,
        0.5,
        1.5,
        2.5,
        0.005,
        0.015,
        1.005,
        2.675,
        18.4,
        75.2,
        0.01,
        0.1,
        1e-320,
        5e-324,
        f64::MAX,
        f64::MIN,
        f64::MIN_POSITIVE,
        f64::INFINITY,
        f64::NEG_INFINITY,
        4503599627370496.5,
        9007199254740993.0,
    ];
    while out.len() < count {
        let bits = next(&mut state);
        let kind = next(&mut state) % 4;
        out.push(match kind {
            0 => f64::from_bits(bits),
            1 => (bits % 10_000_000) as f64 / 100.0,
            2 => -((bits % 1_000_000) as f64) / 1000.0,
            _ => {
                // Exponents near one another.
                let exponent: u64 = 1000 + bits % 60;
                f64::from_bits((bits & 0x800F_FFFF_FFFF_FFFF) | (exponent << 52))
            }
        });
    }
    out
}

fn agrees(a: Amount, b: f64) -> bool {
    (a.is_nan() && b.is_nan()) || a.bits == b.to_bits()
}

#[test]
fn arithmetic_is_binary64_arithmetic() {
    let values = samples(400);
    for &x in &values {
        for &y in &values {
            let (a, b) = (amount(x), amount(y));
            assert!(agrees(a.plus(b), x + y), "{x:e} + {y:e}");
            assert!(agrees(a.minus(b), x - y), "{x:e} - {y:e}");
            assert!(agrees(a.times(b), x * y), "{x:e} * {y:e}");
            assert!(agrees(a.over(b), x / y), "{x:e} / {y:e}");
            assert_eq!(a.is_below(b), x < y, "{x:e} < {y:e}");
            assert_eq!(a.is_at_most(b), x <= y, "{x:e} <= {y:e}");
            assert_eq!(a.sort_place() < b.sort_place(), x.total_cmp(&y).is_lt());
        }
    }
}

#[test]
fn whole_numbers_are_rounded_away_from_zero() {
    for &x in &samples(20000) {
        assert!(agrees(amount(x).to_whole(), x.round()), "{x:e}");
        assert_eq!(amount(x).is_finite(), x.is_finite());
        assert_eq!(amount(x).is_infinite(), x.is_infinite());
        assert!(agrees(amount(x).opposite_of(), -x));
    }
    assert_eq!(float(amount(2.5).to_whole()), 3.0);
    assert_eq!(float(amount(-2.5).to_whole()), -3.0);
    assert_eq!(float(amount(0.49999999999999994).to_whole()), 0.0);
}

#[test]
fn counts_become_numbers() {
    let mut state: u64 = 7;
    for n in [0u64, 1, 2, 3, 7, 10, 1 << 53, (1 << 53) + 1, u64::MAX] {
        assert_eq!(amount_of(n).bits, (n as f64).to_bits());
    }
    for _ in 0..2000 {
        let n = next(&mut state);
        assert_eq!(amount_of(n).bits, (n as f64).to_bits());
    }
}

#[test]
fn amounts_print_with_two_decimals() {
    for &x in &samples(3000) {
        assert_eq!(write_cents(amount(x)), format!("{x:.2}"), "{x:e}");
        assert_eq!(write_whole(amount(x)), format!("{x:.0}"), "{x:e}");
    }
    assert_eq!(write_cents(amount(0.125)), "0.12");
    assert_eq!(write_cents(amount(0.375)), "0.38");
    assert_eq!(write_cents(amount(-0.001)), "-0.00");
    assert_eq!(write_whole(amount(316.67)), "317");
    assert_eq!(write_whole(amount(2.5)), "2");
    assert_eq!(write_cents(unbounded()), "inf");
}

#[test]
fn numbers_are_read_as_they_are_written() {
    for &x in &samples(1500) {
        for text in [format!("{x}"), format!("{x:e}"), format!("{x:.3}"), format!("{x:.25e}")] {
            let expected: f64 = text.parse().unwrap();
            let read = parse_number(&text).unwrap();
            assert!(agrees(read, expected), "{text}");
        }
    }
}

#[test]
fn numbers_are_read_to_the_nearest() {
    for text in [
        "0", "-0", "+0.0", "50", "50.", ".5", "+.5e1", "1e5", "1E-5", "1e+5", "0.1", "18.4012345",
        "9007199254740993", "9007199254740992.999999999999999999999999",
        "9007199254740993.0000000000000000000000000000000000000001",
        "1.7976931348623157e308", "1.7976931348623158e308", "1.7976931348623159e308", "1e400",
        "4.9e-324", "2.4703282292062327e-324", "2.4703282292062328e-324", "1e-400", "-1e-400",
        "2.2250738585072011e-308", "0.000000000000000000000000000000000000000000000000000001e60",
        "100000000000000000000000000000000000000000000000000000000e-50",
        "1e99999999999999999999999999", "1e-99999999999999999999999999", "0e99999999999999999999",
        "inf", "-inf", "INFINITY", "Infinity", "+infinity", "nan", "NaN", "000001.5000",
        "123456789012345678901234567890123456789012345678901234567890.5",
    ] {
        let expected: f64 = text.parse().unwrap();
        let read = parse_number(text).unwrap();
        assert!(agrees(read, expected), "{text}: {} instead of {expected:e}", float(read));
    }
}

#[test]
fn what_is_no_number_is_not_read() {
    for text in [
        "", "+", "-", ".", "e5", "1e", "1e+", "--1", "+-1", "1.2.3", " 1", "1 ", "0x10", "1_000",
        "abc", "infin", "nano", "1,5", "1e5.0", "\u{661}", ".e1", "i", "infinityy",
    ] {
        assert!(text.parse::<f64>().is_err());
        assert_eq!(parse_number(text), None, "{text}");
    }
}

#[test]
fn totals_are_added_up_in_order() {
    let values = vec![0.1, 0.2, 0.3, 1e16, -1e16, 18.4];
    let amounts: Vec<Amount> = values.iter().map(|&x| amount(x)).collect();
    let sum: f64 = values.iter().sum();
    assert_eq!(total_of(&amounts).bits, sum.to_bits());
    assert_eq!(mean_of(&amounts).bits, (sum / 6.0).to_bits());
    let none: Vec<f64> = Vec::new();
    assert_eq!(total_of(&Vec::new()).bits, none.iter().sum::<f64>().to_bits());
}

#[test]
fn named_amounts_are_what_they_say() {
    assert_eq!(float(zero()), 0.0);
    assert_eq!(float(cent()), 0.01);
    assert_eq!(float(ten_cents()), 0.10);
    assert_eq!(float(hundred()), 100.0);
    assert_eq!(float(unbounded()), f64::INFINITY);
}
