use libunits_converter::{Decimal, Dimension};

#[test]
fn parse_plain_integers() {
    assert_eq!(Decimal::parse("1"), Some(Decimal::new(1, 0)));
    assert_eq!(Decimal::parse("-5"), Some(Decimal::new(-5, 0)));
    assert_eq!(Decimal::parse("+42"), Some(Decimal::new(42, 0)));
    assert_eq!(Decimal::parse("007"), Some(Decimal::new(7, 0)));
}

#[test]
fn parse_keeps_the_digits_as_written() {
    assert_eq!(Decimal::parse("1.50"), Some(Decimal::new(150, -2)));
    assert_eq!(Decimal::parse("0.5"), Some(Decimal::new(5, -1)));
    assert_eq!(Decimal::parse(".5"), Some(Decimal::new(5, -1)));
    assert_eq!(Decimal::parse("5."), Some(Decimal::new(5, 0)));
    assert_eq!(Decimal::parse("-0.25"), Some(Decimal::new(-25, -2)));
}

#[test]
fn parse_powers_of_ten() {
    assert_eq!(Decimal::parse("1e-3"), Some(Decimal::new(1, -3)));
    assert_eq!(Decimal::parse("1E3"), Some(Decimal::new(1, 3)));
    assert_eq!(Decimal::parse("1.98847e30"), Some(Decimal::new(198847, 25)));
    assert_eq!(Decimal::parse("-2.5e+2"), Some(Decimal::new(-25, 1)));
}

#[test]
fn parse_refuses_what_is_no_number() {
    for text in ["", "+", "-", ".", "e5", "1e", "1e+", "1.2.3", "1 ", " 1", "abc", "1x", "--1", "inf", "NaN", "1e5x"] {
        assert_eq!(Decimal::parse(text), None, "{:?}", text);
    }
}

#[test]
fn parse_holds_what_fits_and_no_more() {
    assert_eq!(
        Decimal::parse("9223372036854775807"),
        Some(Decimal::new(i64::MAX, 0))
    );
    assert_eq!(
        Decimal::parse("-9223372036854775807"),
        Some(Decimal::new(-i64::MAX, 0))
    );
    assert_eq!(Decimal::parse("9223372036854775808"), None);
    assert_eq!(Decimal::parse("+9223372036854775808"), None);
    assert_eq!(
        Decimal::parse("-9223372036854775808"),
        Some(Decimal::new(i64::MIN, 0))
    );
    assert_eq!(
        Decimal::parse("-922337203685477580.8e-3"),
        Some(Decimal::new(i64::MIN, -4))
    );
    assert_eq!(Decimal::parse("-9223372036854775809"), None);
    assert_eq!(Decimal::parse("12345678901234567891"), None);
    assert_eq!(Decimal::parse("9223372036854775807.1"), None);
    assert_eq!(Decimal::parse("1e19"), Some(Decimal::new(1, 19)));
    assert_eq!(Decimal::parse("000000000000000000000000012"), Some(Decimal::new(12, 0)));
    assert_eq!(Decimal::parse("1e2147483647"), Some(Decimal::new(1, i32::MAX)));
    assert_eq!(Decimal::parse("1e2147483648"), None);
    assert_eq!(Decimal::parse("1e-2147483648"), Some(Decimal::new(1, i32::MIN)));
    assert_eq!(Decimal::parse("1e-2147483649"), None);
    assert_eq!(Decimal::parse("1e99999999999999999999999999999999999999999"), None);
}

#[test]
fn scale_by_an_integer_multiplies() {
    assert_eq!(Decimal::from_int(3).checked_scale(7), Some(21));
    assert_eq!(Decimal::from_int(-1).checked_scale(1), Some(-1));
    assert_eq!(Decimal::from_int(0).checked_scale(i32::MIN), Some(0));
    assert_eq!(Decimal::new(30, -1).checked_scale(-7), Some(-21));
    assert_eq!(Decimal::new(2, 2).checked_scale(5), Some(1000));
}

#[test]
fn scale_rounds_toward_zero() {
    assert_eq!(Decimal::new(5, -1).checked_scale(3), Some(1));
    assert_eq!(Decimal::new(5, -1).checked_scale(-3), Some(-1));
    assert_eq!(Decimal::new(-5, -1).checked_scale(3), Some(-1));
    assert_eq!(Decimal::new(29, -2).checked_scale(100), Some(29));
    assert_eq!(Decimal::new(999, -3).checked_scale(1), Some(0));
    assert_eq!(Decimal::new(1, i32::MIN).checked_scale(i32::MAX), Some(0));
}

#[test]
fn scale_stops_at_its_limit() {
    assert_eq!(Decimal::new(1, 9).checked_scale(4), Some(4_000_000_000));
    assert_eq!(Decimal::new(4294967296, 0).checked_scale(1), Some(4294967296));
    assert_eq!(Decimal::new(4294967296, 0).checked_scale(-1), Some(-4294967296));
    assert_eq!(Decimal::new(4294967297, 0).checked_scale(1), None);
    assert_eq!(Decimal::new(1, 10).checked_scale(1), None);
    assert_eq!(Decimal::new(1, i32::MAX).checked_scale(1), None);
    assert_eq!(Decimal::new(i64::MIN, 0).checked_scale(i32::MIN), None);
}

#[test]
fn dot_adds_the_scaled_vector() {
    let acc = Dimension([1, 0, 0, 0, 0, 0, 0]);
    let dim = Dimension([0, 1, 2, 0, 0, 0, -3]);
    assert_eq!(acc.dot(&dim, Decimal::from_int(-2)).0, [1, -2, -4, 0, 0, 0, 6]);
    assert_eq!(acc.dot(&dim, Decimal::new(5, -1)).0, [1, 0, 1, 0, 0, 0, -1]);
    assert_eq!(
        acc.checked_dot(&dim, Decimal::from_int(-2)).map(|d| d.0),
        Some([1, -2, -4, 0, 0, 0, 6])
    );
}

#[test]
fn dot_is_linear_in_an_integer_exponent() {
    let zero = Dimension::default();
    let dim = Dimension([1, -2, 3, 0, 5, -7, 11]);
    let once = zero.dot(&dim, Decimal::from_int(1));
    for k in -6i64..7 {
        let scaled = zero.dot(&dim, Decimal::from_int(k));
        for i in 0..7 {
            assert_eq!(scaled.0[i] as i64, k * once.0[i] as i64);
        }
    }
    let ten = zero.dot(&dim, Decimal::new(100, -1));
    assert_eq!(ten.0, [10, -20, 30, 0, 50, -70, 110]);
}

#[test]
fn checked_dot_refuses_what_an_axis_cannot_hold() {
    let acc = Dimension([i32::MAX, 0, 0, 0, 0, 0, 0]);
    let dim = Dimension([1, 0, 0, 0, 0, 0, 0]);
    assert!(acc.checked_dot(&dim, Decimal::from_int(1)).is_none());
    assert_eq!(
        acc.checked_dot(&dim, Decimal::from_int(-1)).map(|d| d.0),
        Some([i32::MAX - 1, 0, 0, 0, 0, 0, 0])
    );
    let low = Dimension([-10, 0, 0, 0, 0, 0, 0]);
    let big = Dimension([i32::MAX, 0, 0, 0, 0, 0, 0]);
    assert_eq!(
        low.checked_dot(&big, Decimal::from_int(1)).map(|d| d.0),
        Some([i32::MAX - 10, 0, 0, 0, 0, 0, 0])
    );
    assert!(Dimension::default().checked_dot(&big, Decimal::new(1, 3)).is_none());
    let min = Dimension([i32::MIN, 0, 0, 0, 0, 0, 0]);
    assert_eq!(
        Dimension::default().checked_dot(&min, Decimal::from_int(1)).map(|d| d.0),
        Some([i32::MIN, 0, 0, 0, 0, 0, 0])
    );
    assert!(Dimension::default().checked_dot(&min, Decimal::from_int(-1)).is_none());
}

#[test]
fn dimensions_are_equal_axis_by_axis() {
    assert!(Dimension::default() == Dimension([0; 7]));
    assert!(Dimension([1, 0, 0, 0, 0, 0, 0]) != Dimension([0, 1, 0, 0, 0, 0, 0]));
    assert!(Dimension([1, 2, 3, 4, 5, 6, 7]) == Dimension([1, 2, 3, 4, 5, 6, 7]));
    assert!(Dimension([1, 2, 3, 4, 5, 6, 7]) != Dimension([1, 2, 3, 4, 5, 6, 8]));
}

#[test]
fn a_number_is_written_as_digits_and_a_power() {
    assert_eq!(Decimal::new(150, -2).to_text(), "150e-2");
    assert_eq!(Decimal::new(0, 0).to_text(), "0e0");
    assert_eq!(Decimal::new(-7, 3).to_text(), "-7e3");
    assert_eq!(Decimal::new(i64::MAX, i32::MAX).to_text(), "9223372036854775807e2147483647");
    assert_eq!(Decimal::new(i64::MIN, i32::MIN).to_text(), "-9223372036854775808e-2147483648");
    assert_eq!(Decimal::from_int(10).to_text(), "10e0");
}

#[test]
fn a_number_written_and_read_again_is_the_number() {
    for digits in [0, 1, -1, 9, 10, -10, 99, 100, 12345, -3600, i64::MAX, -i64::MAX, i64::MIN] {
        for power in [0, 1, -1, 9, -10, 308, -324, i32::MAX, i32::MIN] {
            let d = Decimal::new(digits, power);
            assert_eq!(Decimal::parse(&d.to_text()), Some(d));
        }
    }
}

#[test]
fn zeros_at_the_end_are_moved_into_the_power_where_the_digits_do_not_fit() {
    let e18 = 1_000_000_000_000_000_000i64;
    assert_eq!(Decimal::parse("10000000000000000000"), Some(Decimal::new(e18, 1)));
    assert_eq!(Decimal::parse("1.0000000000000000000"), Some(Decimal::new(e18, -18)));
    assert_eq!(Decimal::parse("1000000000000000000"), Some(Decimal::new(e18, 0)));
    assert_eq!(Decimal::parse("1000000000000000000000000"), Some(Decimal::new(e18, 6)));
    assert_eq!(Decimal::parse("-1000000000000000000000000e-6"), Some(Decimal::new(-e18, 0)));
    assert_eq!(Decimal::parse("92233720368547758070"), Some(Decimal::new(i64::MAX, 1)));
    assert_eq!(Decimal::parse("92233720368547758080"), None);
    assert_eq!(Decimal::parse("-92233720368547758080"), Some(Decimal::new(i64::MIN, 1)));
    assert_eq!(Decimal::parse("-9.2233720368547758080"), Some(Decimal::new(i64::MIN, -18)));
    assert_eq!(Decimal::parse("12345678901234567890"), Some(Decimal::new(1234567890123456789, 1)));
    assert_eq!(Decimal::parse("1234567890123456789000"), Some(Decimal::new(1234567890123456789, 3)));
    assert_eq!(Decimal::parse("12345678901234567890001"), None);
    assert_eq!(Decimal::parse("100000000000000000000000000000000000000001"), None);
    assert_eq!(Decimal::parse("0000000000000000000000000000"), Some(Decimal::new(0, 0)));
    assert_eq!(Decimal::parse("0.000000000000000000000000000"), Some(Decimal::new(0, -27)));
    assert_eq!(Decimal::parse("10000000000000000000e2147483646"), Some(Decimal::new(e18, i32::MAX)));
    assert_eq!(Decimal::parse("10000000000000000000e2147483647"), None);
    let long = format!("5{}", "0".repeat(300));
    assert_eq!(Decimal::parse(&long), Some(Decimal::new(5 * e18, 282)));
    assert_eq!(Decimal::parse(&long).unwrap().to_text().parse::<f64>().unwrap(), 5e300);
}
