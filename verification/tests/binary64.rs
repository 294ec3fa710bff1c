use guardian::binary64::{average, divide, divide_percent};
use guardian::Binary64;

fn next(state: &mut u64) -> u64 {
    *state ^= *state << 13;
    *state ^= *state >> 7;
    *state ^= *state << 17;
    *state
}

/// Numbers of all sizes.
fn any(state: &mut u64) -> u64 {
    let shift = next(state) % 64;
    next(state) >> shift
}

fn number(x: Binary64) -> f64 {
    f64::from_bits(x.bits)
}

#[test]
fn quotients_are_those_of_the_hardware() {
    let mut s = 0x1234_5678_9ABC_DEF1u64;
    for _ in 0..100_000 {
        let a = any(&mut s);
        let b = any(&mut s).max(1);
        assert_eq!(number(divide(a, b).to_binary64()), a as f64 / b as f64, "{} / {}", a, b);
    }
}

#[test]
fn quotients_at_the_edges() {
    let edges: [u64; 12] = [
        0,
        1,
        2,
        3,
        (1 << 53) - 1,
        1 << 53,
        (1 << 53) + 1,
        (1 << 54) + 2,
        (1 << 54) + 6,
        u64::MAX - 1024,
        u64::MAX - 1,
        u64::MAX,
    ];
    for a in edges {
        for b in edges {
            if b > 0 {
                assert_eq!(number(divide(a, b).to_binary64()), a as f64 / b as f64);
            }
        }
    }
}

#[test]
fn quotients_with_one_decimal() {
    let mut s = 0xFEDC_BA98_7654_3211u64;
    for _ in 0..20_000 {
        let a = any(&mut s);
        let b = any(&mut s).max(1);
        let mut text = String::new();
        divide(a, b).push_tenths(&mut text);
        assert_eq!(text, format!("{:.1}", a as f64 / b as f64));
    }
    for a in 0..2_000u64 {
        for b in [1u64, 2, 3, 4, 5, 8, 16, 20, 40, 80, 1_048_576] {
            let mut text = String::new();
            divide(a, b).push_tenths(&mut text);
            assert_eq!(text, format!("{:.1}", a as f64 / b as f64));
        }
    }
}

#[test]
fn percentages_without_decimals() {
    for b in 1..401u32 {
        for a in 0..401u32 {
            let mut text = String::new();
            divide_percent(a, b).push_whole(&mut text);
            assert_eq!(text, format!("{:.0}", a as f64 / b as f64 * 100.0));
        }
    }
    let mut s = 0x0F0F_1234_5678_4321u64;
    for _ in 0..20_000 {
        let a = (any(&mut s) >> 32) as u32;
        let b = ((any(&mut s) >> 32) as u32).max(1);
        let mut text = String::new();
        divide_percent(a, b).push_whole(&mut text);
        assert_eq!(text, format!("{:.0}", a as f64 / b as f64 * 100.0));
    }
}

#[test]
fn a_rounded_product_decides_the_printed_percentage() {
    // 23/40 is 57.5%, but its binary64 product with 100 lies below.
    let mut text = String::new();
    divide_percent(23, 40).push_whole(&mut text);
    assert_eq!(text, "57");
}

#[test]
fn averages_are_those_of_the_hardware() {
    let mut s = 0x9E37_79B9_7F4A_7C15u64;
    for n in 1..200usize {
        let xs: Vec<u64> = (0..n).map(|_| any(&mut s)).collect();
        let expected = xs.iter().map(|x| *x as f64).sum::<f64>() / n as f64;
        let found = average(&xs);
        assert_eq!(number(found.to_binary64()), expected);
        let mut text = String::new();
        found.push_tenths(&mut text);
        assert_eq!(text, format!("{:.1}", expected));
    }
}

#[test]
fn average_of_nothing_is_zero() {
    assert_eq!(average(&Vec::new()).to_binary64().bits, 0);
}

#[test]
fn comparison_is_that_of_the_hardware() {
    let numbers: [f64; 16] = [
        0.0,
        -0.0,
        1.0,
        -1.0,
        0.1,
        0.10000000000000002,
        -0.1,
        f64::MIN_POSITIVE,
        5e-324,
        -5e-324,
        f64::MAX,
        f64::MIN,
        f64::INFINITY,
        f64::NEG_INFINITY,
        f64::NAN,
        -f64::NAN,
    ];
    for a in numbers {
        for b in numbers {
            let found = Binary64 { bits: a.to_bits() }.is_less(Binary64 { bits: b.to_bits() });
            assert_eq!(found, a < b, "{} < {}", a, b);
        }
    }
}
