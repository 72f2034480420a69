use catalytic::annotation::{AnnotationError, Timeout, Timestamp, Ttl};
use catalytic::decimal::{format_int, parse_int};

#[test]
fn placeholder_is_parameterized_for_all_kinds() {
    assert_eq!(Ttl::parse("?"), Ok(Ttl::Parameterized));
    assert_eq!(Timestamp::parse("?"), Ok(Timestamp::Parameterized));
    assert_eq!(Timeout::parse("?"), Timeout::Parameterized);
}

#[test]
fn ttl_scenario() {
    assert_eq!("?".parse::<Ttl>(), Ok(Ttl::Parameterized));
    assert_eq!("86400".parse::<Ttl>(), Ok(Ttl::Fixed(86400)));
    assert_eq!("abc".parse::<Ttl>(), Err(AnnotationError::InvalidLiteral));
    assert_eq!("5ms".parse::<Timeout>(), Ok(Timeout::Fixed("5ms".to_string())));
}

#[test]
fn well_formed_integers_are_fixed() {
    assert_eq!(Ttl::parse("0"), Ok(Ttl::Fixed(0)));
    assert_eq!(Ttl::parse("-17"), Ok(Ttl::Fixed(-17)));
    assert_eq!(Ttl::parse("+42"), Ok(Ttl::Fixed(42)));
    assert_eq!(Ttl::parse("007"), Ok(Ttl::Fixed(7)));
    assert_eq!(Ttl::parse("2147483647"), Ok(Ttl::Fixed(i32::MAX)));
    assert_eq!(Ttl::parse("-2147483648"), Ok(Ttl::Fixed(i32::MIN)));
    assert_eq!(Timestamp::parse("1700000000000"), Ok(Timestamp::Fixed(1_700_000_000_000)));
    assert_eq!(Timestamp::parse("9223372036854775807"), Ok(Timestamp::Fixed(i64::MAX)));
    assert_eq!(Timestamp::parse("-9223372036854775808"), Ok(Timestamp::Fixed(i64::MIN)));
}

#[test]
fn malformed_integers_are_refused() {
    for s in ["abc", "", "12.5", "-", "+", " 5", "5 ", "1e3", "--1", "??"] {
        assert_eq!(Ttl::parse(s), Err(AnnotationError::InvalidLiteral), "ttl {:?}", s);
        assert_eq!(Timestamp::parse(s), Err(AnnotationError::InvalidLiteral), "timestamp {:?}", s);
        assert_eq!(Timeout::parse(s), Timeout::Fixed(s.to_string()), "timeout {:?}", s);
    }
}

#[test]
fn out_of_range_integers_are_refused() {
    assert_eq!(Ttl::parse("2147483648"), Err(AnnotationError::InvalidLiteral));
    assert_eq!(Ttl::parse("-2147483649"), Err(AnnotationError::InvalidLiteral));
    assert_eq!(Timestamp::parse("2147483648"), Ok(Timestamp::Fixed(2_147_483_648)));
    assert_eq!(Timestamp::parse("9223372036854775808"), Err(AnnotationError::InvalidLiteral));
    assert_eq!(Timestamp::parse("-9223372036854775809"), Err(AnnotationError::InvalidLiteral));
    assert_eq!(Timestamp::parse("123456789012345678901234567890"), Err(AnnotationError::InvalidLiteral));
}

#[test]
fn ttl_round_trip() {
    assert_eq!(Ttl::Fixed(5).to_literal(), "5");
    assert_eq!(Ttl::parse(&Ttl::Fixed(5).to_literal()), Ok(Ttl::Fixed(5)));
    for t in [Ttl::Parameterized, Ttl::Fixed(0), Ttl::Fixed(-1), Ttl::Fixed(i32::MIN), Ttl::Fixed(i32::MAX)] {
        assert_eq!(Ttl::parse(&t.to_literal()), Ok(t));
    }
}

#[test]
fn timestamp_round_trip() {
    for t in [
        Timestamp::Parameterized,
        Timestamp::Fixed(0),
        Timestamp::Fixed(1_700_000_000_000),
        Timestamp::Fixed(i64::MIN),
        Timestamp::Fixed(i64::MAX),
    ] {
        assert_eq!(Timestamp::parse(&t.to_literal()), Ok(t));
    }
    assert_eq!(Timestamp::Fixed(-90).to_literal(), "-90");
}

#[test]
fn timeout_round_trip() {
    for t in [Timeout::Parameterized, Timeout::Fixed("5ms".to_string()), Timeout::Fixed("1h".to_string())] {
        assert_eq!(Timeout::parse(&t.to_literal()), t);
    }
    assert_eq!(Timeout::Parameterized.to_literal(), "?");
}

#[test]
fn decimal_text_of_integers() {
    assert_eq!(format_int(0), "0");
    assert_eq!(format_int(10), "10");
    assert_eq!(format_int(-305), "-305");
    assert_eq!(format_int(i64::MIN), "-9223372036854775808");
    assert_eq!(format_int(i64::MAX), "9223372036854775807");
}

#[test]
fn integer_in_given_range() {
    assert_eq!(parse_int("100", -100, 100), Some(100));
    assert_eq!(parse_int("-100", -100, 100), Some(-100));
    assert_eq!(parse_int("101", -100, 100), None);
    assert_eq!(parse_int("-101", -100, 100), None);
    assert_eq!(parse_int("5", 0, 0), None);
}
