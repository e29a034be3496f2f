use transit_feed::date_format::Date;
use transit_feed::decimal;
use transit_feed::decimal::Decimal;
use transit_feed::digits::{append_fixed_digits, append_number, append_two_digits, parse_number};
use transit_feed::error::FieldFormat;
use transit_feed::field::{
    read_field, read_optional_u32, read_u32, read_direction, write_field, write_u32, FieldKind, Value,
};
use transit_feed::time_format::ServiceTime;

#[test]
fn number_of_digits_only() {
    assert_eq!(parse_number("0", u64::MAX), Some(0));
    assert_eq!(parse_number("42", u64::MAX), Some(42));
    assert_eq!(parse_number("007", u64::MAX), Some(7));
    assert_eq!(parse_number("18446744073709551615", u64::MAX), Some(u64::MAX));
    assert_eq!(parse_number("18446744073709551616", u64::MAX), None);
    assert_eq!(parse_number("000000000000000000000000000000000001", u64::MAX), Some(1));
    assert_eq!(parse_number("99999999999999999999999", u64::MAX), None);
}

#[test]
fn number_respects_the_limit() {
    assert_eq!(parse_number("255", 255), Some(255));
    assert_eq!(parse_number("256", 255), None);
    assert_eq!(parse_number("0", 0), Some(0));
    assert_eq!(parse_number("1", 0), None);
    assert_eq!(parse_number("5", 4), None);
    assert_eq!(parse_number("10", 9), None);
    assert_eq!(parse_number("09", 9), Some(9));
}

#[test]
fn number_rejects_everything_but_digits() {
    for text in ["", "+1", "-1", " 1", "1 ", "1.0", "0x10", "1e3", "١٢", "1_000", "12a"] {
        assert_eq!(parse_number(text, u64::MAX), None, "{text:?}");
    }
}

#[test]
fn integer_fields() {
    assert_eq!(read_u32("4294967295"), Ok(u32::MAX));
    assert_eq!(read_u32("4294967296"), Err(FieldFormat::Integer));
    assert_eq!(read_u32("0012"), Ok(12));
    assert_eq!(read_u32(""), Err(FieldFormat::Integer));
    assert_eq!(read_u32("-3"), Err(FieldFormat::Integer));
}

#[test]
fn direction_fields() {
    assert_eq!(read_direction("0"), Ok(0));
    assert_eq!(read_direction("1"), Ok(1));
    assert_eq!(read_direction("01"), Ok(1));
    assert_eq!(read_direction("2"), Err(FieldFormat::Integer));
    assert_eq!(read_direction("10"), Err(FieldFormat::Integer));
    assert_eq!(read_direction("255"), Err(FieldFormat::Integer));
    assert_eq!(read_direction(""), Err(FieldFormat::Integer));
    assert_eq!(read_direction("x"), Err(FieldFormat::Integer));
}

#[test]
fn optional_integer_fields() {
    assert_eq!(read_optional_u32(""), Ok(None));
    assert_eq!(read_optional_u32("0"), Ok(Some(0)));
    assert_eq!(read_optional_u32("72"), Ok(Some(72)));
    assert_eq!(read_optional_u32(" "), Err(FieldFormat::Integer));
    assert_eq!(read_optional_u32("MAX"), Err(FieldFormat::Integer));
    assert_eq!(read_optional_u32("4294967296"), Err(FieldFormat::Integer));
}

#[test]
fn numbers_are_written_in_the_fewest_digits() {
    assert_eq!(write_u32(0), "0");
    assert_eq!(write_u32(7), "7");
    assert_eq!(write_u32(10), "10");
    assert_eq!(write_u32(4_294_967_295), "4294967295");
    let mut out = String::from("x");
    append_number(&mut out, 18_446_744_073_709_551_615);
    assert_eq!(out, "x18446744073709551615");
}

#[test]
fn numbers_are_written_in_a_fixed_width() {
    let mut out = String::new();
    append_two_digits(&mut out, 0);
    append_two_digits(&mut out, 7);
    append_two_digits(&mut out, 99);
    assert_eq!(out, "000799");
    let mut out = String::new();
    append_fixed_digits(&mut out, 42, 5);
    append_fixed_digits(&mut out, 0, 0);
    append_fixed_digits(&mut out, 123, 3);
    assert_eq!(out, "00042123");
}

#[test]
fn decimal_values() {
    let d = decimal::deserialize("45.522879").unwrap();
    assert_eq!((d.is_negative(), d.mantissa(), d.scale()), (false, 45_522_879, 6));
    let d = decimal::deserialize("-122.6754").unwrap();
    assert_eq!((d.is_negative(), d.mantissa(), d.scale()), (true, 1_226_754, 4));
    let d = decimal::deserialize("17").unwrap();
    assert_eq!((d.is_negative(), d.mantissa(), d.scale()), (false, 17, 0));
    let d = decimal::deserialize("0.005").unwrap();
    assert_eq!((d.is_negative(), d.mantissa(), d.scale()), (false, 5, 3));
    let d = decimal::deserialize("-0.0").unwrap();
    assert_eq!((d.is_negative(), d.mantissa(), d.scale()), (true, 0, 1));
    let d = decimal::deserialize("007.50").unwrap();
    assert_eq!((d.is_negative(), d.mantissa(), d.scale()), (false, 750, 2));
}

#[test]
fn decimal_digit_limit() {
    let d = decimal::deserialize("9999999999999999999").unwrap();
    assert_eq!((d.mantissa(), d.scale()), (9_999_999_999_999_999_999, 0));
    let d = decimal::deserialize("9.999999999999999999").unwrap();
    assert_eq!((d.mantissa(), d.scale()), (9_999_999_999_999_999_999, 18));
    assert_eq!(decimal::deserialize("10000000000000000000"), Err(FieldFormat::Decimal));
    assert_eq!(decimal::deserialize("1.0000000000000000000"), Err(FieldFormat::Decimal));
    assert_eq!(decimal::deserialize("00000000000000000001"), Err(FieldFormat::Decimal));
    assert_eq!(decimal::deserialize("0.0000000000000000001"), Err(FieldFormat::Decimal));
    assert!(decimal::deserialize("0.000000000000000001").is_ok());
}

#[test]
fn decimal_rejects_malformed_text() {
    for text in [
        "", "-", ".", "-.", ".5", "5.", "-.5", "+1.0", "1e5", "1.2.3", "1,5", " 1.5", "1.5 ",
        "--1", "1-", "NaN", "inf", "1.5f", "٣.٥", "1..5", "-1.-5",
    ] {
        assert_eq!(decimal::deserialize(text), Err(FieldFormat::Decimal), "{text:?}");
    }
}

#[test]
fn decimal_round_trip() {
    for text in [
        "0", "-0", "0.0", "-0.0", "1", "10", "45.522879", "-122.675400", "0.005", "100.000",
        "9999999999999999999", "9.999999999999999999", "0.000000000000000001", "12345.6789",
    ] {
        let d = decimal::deserialize(text).unwrap();
        assert_eq!(decimal::serialize(&d), text);
    }
    for (negative, mantissa, scale) in [
        (false, 0u64, 0u8),
        (true, 0, 3),
        (false, 5, 3),
        (false, 1205, 2),
        (true, 45_522_879, 6),
        (false, 9_999_999_999_999_999_999, 18),
        (false, 1, 18),
    ] {
        let d = Decimal::new(negative, mantissa, scale).unwrap();
        assert_eq!(decimal::deserialize(&decimal::serialize(&d)), Ok(d));
    }
}

#[test]
fn decimal_text_of_chosen_values() {
    assert_eq!(decimal::serialize(&Decimal::new(false, 5, 3).unwrap()), "0.005");
    assert_eq!(decimal::serialize(&Decimal::new(true, 1205, 2).unwrap()), "-12.05");
    assert_eq!(decimal::serialize(&Decimal::new(false, 1200, 0).unwrap()), "1200");
    assert_eq!(decimal::serialize(&Decimal::new(false, 1200, 4).unwrap()), "0.1200");
}

#[test]
fn decimal_leading_zeros_are_not_written_back() {
    let d = decimal::deserialize("007.50").unwrap();
    assert_eq!(decimal::serialize(&d), "7.50");
}

#[test]
fn decimal_new_limits() {
    assert!(Decimal::new(false, 9_999_999_999_999_999_999, 18).is_some());
    assert!(Decimal::new(false, 10_000_000_000_000_000_000, 0).is_none());
    assert!(Decimal::new(false, 0, 19).is_none());
    assert!(Decimal::new(true, u64::MAX, 0).is_none());
}

#[test]
fn fields_of_every_kind() {
    assert_eq!(read_field(FieldKind::Integer, "12"), Some(Value::Integer(12)));
    assert_eq!(read_field(FieldKind::Integer, ""), None);
    assert_eq!(read_field(FieldKind::Direction, "1"), Some(Value::Direction(1)));
    assert_eq!(read_field(FieldKind::Direction, "2"), None);
    assert_eq!(read_field(FieldKind::OptionalInteger, ""), Some(Value::OptionalInteger(None)));
    assert_eq!(read_field(FieldKind::OptionalInteger, "9"), Some(Value::OptionalInteger(Some(9))));
    assert_eq!(read_field(FieldKind::OptionalInteger, "nine"), None);
    assert_eq!(read_field(FieldKind::Text, ""), Some(Value::Text(String::new())));
    assert_eq!(
        read_field(FieldKind::Text, "Red Line, \"express\" ü"),
        Some(Value::Text("Red Line, \"express\" ü".to_string()))
    );
    assert_eq!(
        read_field(FieldKind::ClockTime, "25:10:00"),
        Some(Value::ClockTime(ServiceTime::from_seconds(90_600).unwrap()))
    );
    assert_eq!(read_field(FieldKind::ClockTime, "3:4:5"), None);
    assert_eq!(
        read_field(FieldKind::Date, "230615"),
        Some(Value::Date(Date::from_ymd(2023, 6, 15).unwrap()))
    );
    assert_eq!(read_field(FieldKind::Date, "230631"), None);
    assert_eq!(
        read_field(FieldKind::Decimal, "-1.5"),
        Some(Value::Decimal(Decimal::new(true, 15, 1).unwrap()))
    );
    assert_eq!(read_field(FieldKind::Decimal, "1.5e3"), None);
}

#[test]
fn field_round_trip_of_every_kind() {
    let plain = [
        (FieldKind::Integer, "0"),
        (FieldKind::Integer, "4294967295"),
        (FieldKind::Direction, "1"),
        (FieldKind::OptionalInteger, ""),
        (FieldKind::OptionalInteger, "17"),
        (FieldKind::Text, ""),
        (FieldKind::Text, "  SW 5th & Main  "),
        (FieldKind::ClockTime, "24:00:00"),
        (FieldKind::Date, "991231"),
        (FieldKind::Decimal, "-122.675400"),
    ];
    for (kind, text) in plain {
        let value = read_field(kind, text).unwrap();
        assert_eq!(write_field(&value), text, "{kind:?}");
        assert_eq!(read_field(kind, &write_field(&value)), Some(value));
    }
}

#[test]
fn field_with_leading_zeros_is_read_but_not_written_back_so() {
    let value = read_field(FieldKind::Integer, "0042").unwrap();
    assert_eq!(value, Value::Integer(42));
    assert_eq!(write_field(&value), "42");
}
