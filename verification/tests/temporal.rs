use transit_feed::date_format;
use transit_feed::date_format::Date;
use transit_feed::error::FieldFormat;
use transit_feed::time_format;
use transit_feed::time_format::ServiceTime;

#[test]
fn clock_time_past_midnight() {
    let t = time_format::deserialize("25:10:00").unwrap();
    assert_eq!(t.total_seconds(), 25 * 3600 + 10 * 60);
    assert_eq!(t.total_seconds() - 86_400, 3600 + 600);
    assert!(t.is_past_midnight());
    assert_eq!((t.hours(), t.minutes(), t.seconds()), (25, 10, 0));
}

#[test]
fn clock_time_exactly_midnight_next_day() {
    let t = time_format::deserialize("24:00:00").unwrap();
    assert_eq!(t.total_seconds(), 86_400);
    assert!(t.is_past_midnight());
}

#[test]
fn clock_time_ordinary() {
    let t = time_format::deserialize("07:05:09").unwrap();
    assert_eq!(t.total_seconds(), 7 * 3600 + 5 * 60 + 9);
    assert!(!t.is_past_midnight());
    assert_eq!(time_format::deserialize("00:00:00").unwrap().total_seconds(), 0);
    assert_eq!(time_format::deserialize("99:59:59").unwrap().total_seconds(), 359_999);
}

#[test]
fn clock_time_rejects_unpadded_text() {
    assert_eq!(time_format::deserialize("3:4:5"), Err(FieldFormat::ClockTime));
    assert_eq!(time_format::deserialize("3:04:05"), Err(FieldFormat::ClockTime));
    assert_eq!(time_format::deserialize("03:4:05"), Err(FieldFormat::ClockTime));
}

#[test]
fn clock_time_rejects_malformed_text() {
    for text in [
        "", "12:00", "12:00:60", "12:60:00", "12-00-00", "12:00:00 ", " 12:00:00", "1a:00:00",
        "100:00:00", "12:00:0x", "١٢:٠٠:٠٠", "12:00:00:00", "+1:00:00",
    ] {
        assert_eq!(time_format::deserialize(text), Err(FieldFormat::ClockTime), "{text:?}");
    }
}

#[test]
fn clock_time_round_trip() {
    for text in ["00:00:00", "05:06:07", "23:59:59", "24:00:00", "25:10:00", "47:59:59", "99:59:59"] {
        let t = time_format::deserialize(text).unwrap();
        assert_eq!(time_format::serialize(&t), text);
    }
    for seconds in [0u32, 1, 59, 60, 3599, 3600, 86_399, 86_400, 90_600, 359_999] {
        let t = ServiceTime::from_seconds(seconds).unwrap();
        assert_eq!(time_format::deserialize(&time_format::serialize(&t)), Ok(t));
    }
}

#[test]
fn service_time_from_seconds_limit() {
    assert!(ServiceTime::from_seconds(359_999).is_some());
    assert!(ServiceTime::from_seconds(360_000).is_none());
    assert!(ServiceTime::from_seconds(u32::MAX).is_none());
}

#[test]
fn date_two_digit_year() {
    let d = date_format::deserialize("230615").unwrap();
    assert_eq!((d.year(), d.month(), d.day()), (2023, 6, 15));
}

#[test]
fn date_century_rule_is_uniform() {
    for yy in 0u16..100 {
        let text = format!("{:02}0101", yy);
        let d = date_format::deserialize(&text).unwrap();
        let expected = if yy < 70 { 2000 + yy } else { 1900 + yy };
        assert_eq!(d.year(), expected, "{text}");
        assert_eq!((d.month(), d.day()), (1, 1));
    }
    assert_eq!(date_format::deserialize("691231").unwrap().year(), 2069);
    assert_eq!(date_format::deserialize("700101").unwrap().year(), 1970);
}

#[test]
fn date_leap_years() {
    assert!(date_format::deserialize("240229").is_ok());
    assert_eq!(date_format::deserialize("230229"), Err(FieldFormat::Date));
    assert!(date_format::deserialize("000229").is_ok());
    assert!(date_format::deserialize("960229").is_ok());
    assert_eq!(date_format::deserialize("990229"), Err(FieldFormat::Date));
}

#[test]
fn date_rejects_malformed_text() {
    for text in [
        "", "23615", "2306150", "23 615", " 230615", "230615 ", "23-06-15", "230015", "231315",
        "230600", "230631", "230432", "2a0615", "+30615", "２３０６１５",
    ] {
        assert_eq!(date_format::deserialize(text), Err(FieldFormat::Date), "{text:?}");
    }
}

#[test]
fn date_round_trip() {
    for text in ["700101", "991231", "000101", "000229", "230615", "691231", "240229"] {
        let d = date_format::deserialize(text).unwrap();
        assert_eq!(date_format::serialize(&d), text);
    }
    for (y, m, d) in [(1970u16, 1u8, 1u8), (1999, 12, 31), (2000, 2, 29), (2023, 6, 15), (2069, 12, 31)] {
        let date = Date::from_ymd(y, m, d).unwrap();
        assert_eq!(date_format::deserialize(&date_format::serialize(&date)), Ok(date));
    }
}

#[test]
fn date_from_ymd_agrees_with_the_calendar() {
    for year in [1970u16, 1999, 2000, 2023, 2024, 2069] {
        for month in 0u8..=13 {
            for day in 0u8..=32 {
                let ours = Date::from_ymd(year, month, day).is_some();
                let theirs =
                    chrono::NaiveDate::from_ymd_opt(year as i32, month as u32, day as u32).is_some();
                assert_eq!(ours, theirs, "{year}-{month}-{day}");
            }
        }
    }
    assert!(Date::from_ymd(1969, 12, 31).is_none());
    assert!(Date::from_ymd(2070, 1, 1).is_none());
}

#[test]
fn date_agrees_with_chrono_on_every_day_of_a_year() {
    for month in 1u32..=12 {
        for day in 1u32..=31 {
            let text = format!("24{:02}{:02}", month, day);
            let ours = date_format::deserialize(&text).ok().map(|d| (d.year(), d.month(), d.day()));
            let theirs = Date::from_ymd(2024, month as u8, day as u8).map(|d| (d.year(), d.month(), d.day()));
            assert_eq!(ours, theirs, "{text}");
        }
    }
}
