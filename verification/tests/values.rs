use calculator::value::{compare, encode, is_truthy, negate, INFINITY, ONE, SIGN, ZERO};
use calculator::Operator;

const SAMPLES: [f64; 16] = [
    0.0,
    -0.0,
    1.0,
    -1.0,
    2.5e10,
    -2.5e10,
    5e-324,
    -5e-324,
    f64::MIN_POSITIVE,
    f64::MAX,
    f64::MIN,
    f64::INFINITY,
    f64::NEG_INFINITY,
    f64::NAN,
    0.1,
    -7.25,
];

#[test]
fn truth_encoding_is_one_and_zero() {
    assert_eq!(f64::from_bits(ONE), 1.0);
    assert_eq!(f64::from_bits(ZERO), 0.0);
    assert_eq!(encode(true), 1.0f64.to_bits());
    assert_eq!(encode(false), 0.0f64.to_bits());
}

#[test]
fn truthiness_agrees_with_comparison_to_zero() {
    for x in SAMPLES {
        assert_eq!(is_truthy(x.to_bits()), x != 0.0, "{x}");
    }
    assert!(!is_truthy((-0.0f64).to_bits()));
    assert!(is_truthy(f64::NAN.to_bits()));
}

#[test]
fn negation_agrees_with_the_hardware() {
    for x in SAMPLES {
        assert_eq!(negate(x.to_bits()), (-x).to_bits(), "{x}");
    }
}

#[test]
fn comparisons_agree_with_the_hardware() {
    for a in SAMPLES {
        for b in SAMPLES {
            let (x, y) = (a.to_bits(), b.to_bits());
            assert_eq!(compare(Operator::EQ, x, y), a == b, "{a} == {b}");
            assert_eq!(compare(Operator::NEQ, x, y), a != b, "{a} != {b}");
            assert_eq!(compare(Operator::LT, x, y), a < b, "{a} < {b}");
            assert_eq!(compare(Operator::GT, x, y), a > b, "{a} > {b}");
            assert_eq!(compare(Operator::LE, x, y), a <= b, "{a} <= {b}");
            assert_eq!(compare(Operator::GE, x, y), a >= b, "{a} >= {b}");
        }
    }
}

#[test]
fn compare_is_false_for_other_operators() {
    assert!(!compare(Operator::ADD, ONE, ONE));
    assert!(!compare(Operator::AND, ONE, ONE));
    assert!(!compare(Operator::NOT, ZERO, ZERO));
}

#[test]
fn the_constants_are_the_encodings_they_name() {
    assert_eq!(SIGN, (-0.0f64).to_bits());
    assert_eq!(INFINITY, f64::INFINITY.to_bits());
    assert_eq!(INFINITY | SIGN, f64::NEG_INFINITY.to_bits());
    assert_eq!(ZERO, 0.0f64.to_bits());
    assert_eq!(ONE, 1.0f64.to_bits());
}

#[test]
fn what_is_not_a_number_is_only_unequal() {
    let nan = f64::NAN.to_bits();
    let ops = [
        Operator::EQ,
        Operator::NEQ,
        Operator::LT,
        Operator::GT,
        Operator::LE,
        Operator::GE,
    ];
    for x in SAMPLES {
        for op in ops {
            assert_eq!(compare(op, nan, x.to_bits()), op == Operator::NEQ);
            assert_eq!(compare(op, x.to_bits(), nan), op == Operator::NEQ);
        }
    }
    // Every pattern above infinity is not a number, with either sign.
    for bits in [INFINITY + 1, u64::MAX, SIGN | (INFINITY + 1), u64::MAX >> 1] {
        assert!(f64::from_bits(bits).is_nan());
        assert!(!compare(Operator::EQ, bits, bits));
        assert!(compare(Operator::NEQ, bits, bits));
        assert!(is_truthy(bits));
    }
}

#[test]
fn negating_twice_gives_the_value_back() {
    for x in SAMPLES {
        assert_eq!(negate(negate(x.to_bits())), x.to_bits());
    }
    for a in SAMPLES {
        for b in SAMPLES {
            assert_eq!(
                compare(Operator::LT, negate(a.to_bits()), negate(b.to_bits())),
                compare(Operator::LT, b.to_bits(), a.to_bits())
            );
        }
    }
}

/// Bit patterns of every class: a fixed sequence that mixes random patterns
/// with patterns near zero, near infinity and beyond it.
fn patterns() -> Vec<u64> {
    let mut state: u64 = 0x9E37_79B9_7F4A_7C15;
    let mut all = Vec::new();
    for i in 0..4000u64 {
        state = state
            .wrapping_mul(6364136223846793005)
            .wrapping_add(1442695040888963407);
        let random = state ^ (state >> 29);
        all.push(match i % 8 {
            0 => random,
            1 => random >> 12,
            2 => (random >> 12) | SIGN,
            3 => INFINITY | (random >> 60),
            4 => SIGN | INFINITY | (random >> 60),
            5 => random % 4,
            6 => SIGN | (random % 4),
            _ => random | INFINITY,
        });
    }
    all
}

#[test]
fn comparisons_agree_with_the_hardware_on_every_class_of_pattern() {
    let all = patterns();
    let ops = [
        Operator::EQ,
        Operator::NEQ,
        Operator::LT,
        Operator::GT,
        Operator::LE,
        Operator::GE,
    ];
    let mut seen_nan = 0;
    let mut seen_equal = 0;
    for (i, x) in all.iter().enumerate() {
        let a = f64::from_bits(*x);
        if a.is_nan() {
            seen_nan += 1;
        }
        assert_eq!(is_truthy(*x), a != 0.0);
        assert_eq!(negate(*x), (-a).to_bits());
        for y in all.iter().skip(i % 97).step_by(97) {
            let b = f64::from_bits(*y);
            if a == b {
                seen_equal += 1;
            }
            let expected = [a == b, a != b, a < b, a > b, a <= b, a >= b];
            for (op, holds) in ops.iter().zip(expected) {
                assert_eq!(compare(*op, *x, *y), holds, "{a:?} {op:?} {b:?}");
            }
        }
    }
    assert!(seen_nan > 100);
    assert!(seen_equal > 100);
}
