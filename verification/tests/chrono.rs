use http_date::chrono::{dayname_from_weekday, posix_year, ChronoReason, UtcDateTime};
use http_date::{decode, encode, DayName, HttpDate};

fn to_chrono(input: &str) -> UtcDateTime {
    decode(input).unwrap().to_utc().unwrap()
}

fn utc(year: i32, month: u32, day: u32, hour: u32, minute: u32, second: u32) -> UtcDateTime {
    UtcDateTime::from_ymd_hms(year, month, day, hour, minute, second).unwrap()
}

#[test]
fn imf_fixdate_to_chrono() {
    let c = to_chrono("Sun, 06 Nov 1994 08:49:37 GMT");
    assert_eq!(c, utc(1994, 11, 6, 8, 49, 37));
}

#[test]
fn asctime_to_chrono() {
    let c = to_chrono("Sun Nov  6 08:49:37 1994");
    assert_eq!(c, utc(1994, 11, 6, 8, 49, 37));
}

#[test]
fn rfc850_two_digit_year_uses_posix_window() {
    assert_eq!(to_chrono("Sunday, 06-Nov-94 08:49:37 GMT").year(), 1994);
    assert_eq!(to_chrono("Sunday, 06-Nov-69 08:49:37 GMT").year(), 1969);
    assert_eq!(to_chrono("Sunday, 06-Nov-68 08:49:37 GMT").year(), 2068);
    assert_eq!(to_chrono("Sunday, 06-Nov-00 08:49:37 GMT").year(), 2000);
}

#[test]
fn impossible_calendar_date_is_rejected() {
    let date = decode("Sun, 31 Feb 1994 08:49:37 GMT").unwrap();
    assert!(date.to_utc().is_err());
}

#[test]
fn chrono_to_http_date_is_imf_fixdate() {
    let c = utc(1994, 11, 6, 8, 49, 37);
    let date = HttpDate::from_utc(&c).unwrap();
    assert!(date.is_imf_fixdate());
    assert_eq!(encode(&date), "Sun, 06 Nov 1994 08:49:37 GMT");
}

#[test]
fn chrono_year_outside_0_9999_is_rejected() {
    let c = utc(10_000, 1, 1, 0, 0, 0);
    assert!(HttpDate::from_utc(&c).is_err());
}

#[test]
fn round_trip_via_chrono() {
    let expected = HttpDate::from_utc(&utc(1994, 11, 6, 8, 49, 37)).unwrap();
    for input in [
        "Sun, 06 Nov 1994 08:49:37 GMT",
        "Sunday, 06-Nov-94 08:49:37 GMT",
        "Sun Nov  6 08:49:37 1994",
    ] {
        let decoded = decode(input).unwrap();
        let c = decoded.to_utc().unwrap();
        let back = HttpDate::from_utc(&c).unwrap();
        // RFC 850's 94 maps to 1994, so all three inputs produce the same
        // IMF-fixdate value.
        assert_eq!(back, expected, "round-trip of {input:?}");
    }
}

#[test]
fn calendar_rules_of_utc_date_times() {
    assert!(UtcDateTime::from_ymd_hms(2000, 2, 29, 0, 0, 0).is_some());
    assert!(UtcDateTime::from_ymd_hms(1900, 2, 29, 0, 0, 0).is_none());
    assert!(UtcDateTime::from_ymd_hms(2024, 4, 31, 0, 0, 0).is_none());
    assert!(UtcDateTime::from_ymd_hms(2024, 4, 30, 24, 0, 0).is_none());
    assert!(UtcDateTime::from_ymd_hms(2024, 4, 30, 23, 59, 60).is_none());
    assert!(UtcDateTime::from_ymd_hms(-4, 2, 29, 0, 0, 0).is_some());
    assert!(UtcDateTime::from_ymd_hms(400_000, 1, 1, 0, 0, 0).is_none());
}

#[test]
fn weekday_comes_from_the_calendar() {
    assert_eq!(utc(1994, 11, 6, 0, 0, 0).weekday(), DayName::Sun);
    assert_eq!(utc(2000, 1, 1, 0, 0, 0).weekday(), DayName::Sat);
    assert_eq!(utc(2024, 2, 29, 0, 0, 0).weekday(), DayName::Thu);
}

#[test]
fn chrono_error_messages() {
    let date = decode("Sun, 31 Feb 1994 08:49:37 GMT").unwrap();
    let err = date.to_utc().unwrap_err();
    assert_eq!(err.reason(), ChronoReason::InvalidCalendarDate { year: 1994, month: 2, day: 31 });
    assert_eq!(err.message(), "1994-02-31 is not a valid calendar date");
    assert_eq!(err.to_string(), "ChronoError: 1994-02-31 is not a valid calendar date");

    let rfc = decode("Sunday, 30-Feb-05 08:49:37 GMT").unwrap();
    assert_eq!(rfc.to_utc().unwrap_err().message(), "2005-02-30 is not a valid calendar date");

    let err = HttpDate::from_utc(&utc(10_000, 1, 1, 0, 0, 0)).unwrap_err();
    assert_eq!(err.message(), "year 10000 is outside 0-9999");
    let err = HttpDate::from_utc(&utc(-12, 1, 1, 0, 0, 0)).unwrap_err();
    assert_eq!(err.to_string(), "ChronoError: year -12 is outside 0-9999");
}

#[test]
fn posix_window_boundaries() {
    assert_eq!(posix_year(0), 2000);
    assert_eq!(posix_year(68), 2068);
    assert_eq!(posix_year(69), 1969);
    assert_eq!(posix_year(99), 1999);
}

#[test]
fn chrono_conversion_is_a_fixed_point() {
    for input in [
        "Sunday, 06-Nov-94 08:49:37 GMT",
        "Tue, 29 Feb 2000 23:59:59 GMT",
        "Fri Dec 31 23:59:59 9999",
        "Saturday, 01-Jan-00 00:00:00 GMT",
    ] {
        let c = decode(input).unwrap().to_utc().unwrap();
        let back = HttpDate::from_utc(&c).unwrap();
        assert!(back.is_imf_fixdate());
        assert_eq!(back.to_utc().unwrap(), c, "{input:?}");
    }
}

#[test]
fn weekday_numbers_start_on_monday() {
    assert_eq!(dayname_from_weekday(0), DayName::Mon);
    assert_eq!(dayname_from_weekday(3), DayName::Thu);
    assert_eq!(dayname_from_weekday(6), DayName::Sun);
}
