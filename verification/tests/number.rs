use stock_tracker::number::{percent_change, Decimal};

#[test]
fn decimal_reads_price_text() {
    assert_eq!(Decimal::parse("49.310"), Some(Decimal::new(49310, 3)));
    assert_eq!(Decimal::parse("113002687.0127"), Some(Decimal::new(1130026870127, 4)));
    assert_eq!(Decimal::parse("2237250"), Some(Decimal::new(2237250, 0)));
}

#[test]
fn decimal_reads_signs_and_bare_points() {
    assert_eq!(Decimal::parse("-0.5"), Some(Decimal::new(-5, 1)));
    assert_eq!(Decimal::parse("+7"), Some(Decimal::new(7, 0)));
    assert_eq!(Decimal::parse("5."), Some(Decimal::new(5, 0)));
    assert_eq!(Decimal::parse(".5"), Some(Decimal::new(5, 1)));
    assert_eq!(Decimal::parse("-0"), Some(Decimal::new(0, 0)));
}

#[test]
fn decimal_refuses_what_is_no_number() {
    assert_eq!(Decimal::parse(""), None);
    assert_eq!(Decimal::parse("."), None);
    assert_eq!(Decimal::parse("-"), None);
    assert_eq!(Decimal::parse("abc"), None);
    assert_eq!(Decimal::parse("1.2.3"), None);
    assert_eq!(Decimal::parse("1,5"), None);
    assert_eq!(Decimal::parse(" 1"), None);
    assert_eq!(Decimal::parse("1e3"), None);
    assert_eq!(Decimal::parse("--1"), None);
}

#[test]
fn decimal_bounds_scale_and_magnitude() {
    assert_eq!(Decimal::parse("0.123456789"), Some(Decimal::new(123456789, 9)));
    assert_eq!(Decimal::parse("0.1234567890"), None);
    assert_eq!(
        Decimal::parse("9223372036854775807"),
        Some(Decimal::new(i64::MAX, 0))
    );
    assert_eq!(Decimal::parse("9223372036854775808"), None);
    assert_eq!(
        Decimal::parse("-9223372036854775807"),
        Some(Decimal::new(-i64::MAX, 0))
    );
    assert_eq!(Decimal::parse("-9223372036854775808"), None);
}

#[test]
fn decimal_writes_its_text() {
    assert_eq!(Decimal::new(49310, 3).to_text(), "49.310");
    assert_eq!(Decimal::new(5, 3).to_text(), "0.005");
    assert_eq!(Decimal::new(-5, 1).to_text(), "-0.5");
    assert_eq!(Decimal::new(0, 0).to_text(), "0");
    assert_eq!(Decimal::new(0, 2).to_text(), "0.00");
    assert_eq!(Decimal::new(1200, 0).to_text(), "1200");
    assert_eq!(Decimal::new(-i64::MAX, 9).to_text(), "-9223372036.854775807");
}

#[test]
fn decimal_text_reads_back() {
    for &(m, s) in &[(0i64, 0u8), (1, 9), (-1, 9), (105, 2), (i64::MAX, 4), (-i64::MAX, 0)] {
        let d = Decimal::new(m, s);
        assert_eq!(Decimal::parse(&d.to_text()), Some(d));
    }
}

#[test]
fn percent_change_of_five_percent_rise() {
    let last = Decimal::parse("105.00").unwrap();
    let prev = Decimal::parse("100.00").unwrap();
    assert_eq!(percent_change(last, prev), Some(Decimal::new(500, 2)));
}

#[test]
fn percent_change_rounds_halves_away_from_zero() {
    // 0.125 % and -0.125 %
    assert_eq!(
        percent_change(Decimal::new(801000, 2), Decimal::new(8000, 0)),
        Some(Decimal::new(13, 2))
    );
    assert_eq!(
        percent_change(Decimal::new(799000, 2), Decimal::new(8000, 0)),
        Some(Decimal::new(-13, 2))
    );
    // 0.2994 %
    assert_eq!(
        percent_change(Decimal::new(10050, 3), Decimal::new(10020, 3)),
        Some(Decimal::new(30, 2))
    );
    // scales that differ
    assert_eq!(
        percent_change(Decimal::new(11, 0), Decimal::new(1000, 2)),
        Some(Decimal::new(1000, 2))
    );
    // a fall to nothing
    assert_eq!(
        percent_change(Decimal::new(0, 3), Decimal::new(10020, 3)),
        Some(Decimal::new(-10000, 2))
    );
}

#[test]
fn percent_change_of_zero_base_is_none() {
    assert_eq!(percent_change(Decimal::new(105, 0), Decimal::new(0, 2)), None);
}

#[test]
fn percent_change_out_of_range_is_none() {
    assert_eq!(
        percent_change(Decimal::new(i64::MAX, 0), Decimal::new(1, 9)),
        None
    );
}
