use script_core::number::{magnitude, with_sign, Number, SCALE};

fn n(raw: i128) -> Number {
    Number { raw }
}

fn text(raw: i128) -> String {
    String::from_utf8(n(raw).to_text()).unwrap()
}

#[test]
fn whole_numbers_carry_the_scale() {
    assert_eq!(Number::from_whole(7), n(7 * SCALE));
    assert_eq!(Number::from_whole(-3), n(-3_000_000_000));
    assert_eq!(Number::zero(), n(0));
    assert_eq!(Number::one(), n(1_000_000_000));
}

#[test]
fn sum_and_difference_are_exact() {
    assert_eq!(n(100_000_000).plus(&n(200_000_000)), Some(n(300_000_000)));
    assert_eq!(n(5).minus(&n(7)), Some(n(-2)));
    assert_eq!(n(i128::MAX).plus(&n(1)), None);
    assert_eq!(n(i128::MIN).minus(&n(1)), None);
}

#[test]
fn negation() {
    assert_eq!(n(5).negated(), Some(n(-5)));
    assert_eq!(n(i128::MIN).negated(), None);
}

#[test]
fn product_is_rounded_toward_zero() {
    assert_eq!(n(2_000_000_000).times(&n(3_000_000_000)), Some(n(6_000_000_000)));
    assert_eq!(n(1).times(&n(1)), Some(n(0)));
    assert_eq!(n(1_500_000_000).times(&n(-1_500_000_000)), Some(n(-2_250_000_000)));
    assert_eq!(n(-333_333_333).times(&n(3_000_000_000)), Some(n(-999_999_999)));
    assert_eq!(n(i128::MAX).times(&n(i128::MAX)), None);
}

#[test]
fn quotient_is_rounded_toward_zero() {
    assert_eq!(n(7_000_000_000).over(&n(2_000_000_000)), Some(n(3_500_000_000)));
    assert_eq!(n(1_000_000_000).over(&n(3_000_000_000)), Some(n(333_333_333)));
    assert_eq!(n(-1_000_000_000).over(&n(3_000_000_000)), Some(n(-333_333_333)));
    assert_eq!(n(1).over(&n(0)), None);
    assert_eq!(n(i128::MAX).over(&n(1)), None);
}

#[test]
fn remainder_takes_the_sign_of_the_dividend() {
    assert_eq!(n(10_000_000_000).modulo(&n(4_000_000_000)), Some(n(2_000_000_000)));
    assert_eq!(n(-10_000_000_000).modulo(&n(4_000_000_000)), Some(n(-2_000_000_000)));
    assert_eq!(n(5_500_000_000).modulo(&n(-2_000_000_000)), Some(n(1_500_000_000)));
    assert_eq!(n(1).modulo(&n(0)), None);
}

#[test]
fn order_and_zero() {
    assert!(n(1).less_than(&n(2)));
    assert!(!n(2).less_than(&n(2)));
    assert!(n(-1).less_than(&n(0)));
    assert!(n(0).is_zero());
    assert!(!n(1).is_zero());
}

#[test]
fn count_is_the_whole_part_or_zero() {
    assert_eq!(n(3_999_999_999).to_count(), 3);
    assert_eq!(n(-3_000_000_000).to_count(), 0);
    assert_eq!(n(0).to_count(), 0);
    assert_eq!(n(i128::MAX).to_count(), usize::MAX);
}

#[test]
fn numbers_as_text() {
    assert_eq!(text(0), "0");
    assert_eq!(text(7_000_000_000), "7");
    assert_eq!(text(-7_000_000_000), "-7");
    assert_eq!(text(3_500_000_000), "3.5");
    assert_eq!(text(1), "0.000000001");
    assert_eq!(text(-1), "-0.000000001");
    assert_eq!(text(10_050_000_000), "10.05");
    assert_eq!(text(123_456_789_123_456_789), "123456789.123456789");
    assert_eq!(text(100_000_000_000), "100");
    assert_eq!(text(i128::MAX), "170141183460469231731687303715.884105727");
    assert_eq!(text(i128::MIN), "-170141183460469231731687303715.884105728");
}

#[test]
fn magnitude_and_sign() {
    assert_eq!(magnitude(-5), 5);
    assert_eq!(magnitude(5), 5);
    assert_eq!(magnitude(i128::MIN), 1u128 << 127);
    assert_eq!(with_sign(true, 5), Some(-5));
    assert_eq!(with_sign(false, 5), Some(5));
    assert_eq!(with_sign(true, 1u128 << 127), Some(i128::MIN));
    assert_eq!(with_sign(false, 1u128 << 127), None);
}

#[test]
fn whole_numbers_and_short_fractions_are_written_as_doubles_are() {
    let cases: [(i128, f64); 9] = [
        (0, 0.0),
        (7_000_000_000, 7.0),
        (-2_500_000_000, -2.5),
        (125_000_000, 0.125),
        (3_500_000_000, 3.5),
        (1_000_000_000_000_000_000, 1e9),
        (100_000_000, 0.1),
        (-999_000_000_000, -999.0),
        (9_007_199_254_740_992_000_000_000, 9007199254740992.0),
    ];
    for (raw, double) in cases {
        assert_eq!(text(raw), format!("{}", double));
    }
}

/// A double as it is written, zero without its sign.
fn plain(x: f64) -> String {
    format!("{}", x + 0.0)
}

#[test]
fn arithmetic_on_whole_numbers_agrees_with_doubles() {
    for a in -12i64..=12 {
        for b in -12i64..=12 {
            let x = Number::from_whole(a);
            let y = Number::from_whole(b);
            let shown = |n: Option<Number>| String::from_utf8(n.unwrap().to_text()).unwrap();
            assert_eq!(shown(x.plus(&y)), plain(a as f64 + b as f64));
            assert_eq!(shown(x.minus(&y)), plain(a as f64 - b as f64));
            assert_eq!(shown(x.times(&y)), plain(a as f64 * b as f64));
            if b != 0 && a % b == 0 {
                assert_eq!(shown(x.over(&y)), plain(a as f64 / b as f64));
            }
            if b != 0 && a >= 0 {
                assert_eq!(shown(x.modulo(&y)), plain(a as f64 % b as f64));
            }
        }
    }
}
