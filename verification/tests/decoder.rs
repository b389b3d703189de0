use http_date::{
    decode, encode, Date, DateTime, DayName, DayNameTok, DecodeError, Decoder, ErrorKind,
    HttpDate, PunctuationTok, Time,
};

fn assert_error(err: &DecodeError, msg: &str, pos: Option<usize>) {
    assert_eq!(err.message(), msg);
    assert_eq!(err.position(), pos);
}

#[test]
fn expect_matching_byte_advances_position() {
    let mut d = Decoder::new("abc");
    assert_eq!(d.expect(b'a'), Ok(()));
    assert_eq!(d.pos(), 1);
}

#[test]
fn expect_mismatched_byte_returns_error() {
    let mut d = Decoder::new("abc");
    let result = d.expect(b'b');
    assert!(result.is_err());
    assert_eq!(d.pos(), 0); // Position should not advance on error
}

#[test]
fn expect_at_end_of_input_returns_error() {
    let mut d = Decoder::new("ab");
    d.advance(2);
    let err = d.expect(b'a').unwrap_err();
    assert_error(&err, "Unexpected end of input", Some(2));
}

#[test]
fn parsing_punctuated_sequence_advances_through_input() {
    let mut d = Decoder::new("Sun, 06");
    // weekday(Sun)
    d.expect(b'S').unwrap();
    d.expect(b'u').unwrap();
    d.expect(b'n').unwrap();
    d.comma().unwrap();
    d.space().unwrap();
    // day-of-month(06)
    d.expect(b'0').unwrap();
    d.expect(b'6').unwrap();
    assert_eq!(d.pos(), 7); // consumed "Sun, 06"
}

#[test]
fn parsing_date_sequence_with_month_advances_through_input() {
    let mut d = Decoder::new("Sun, 06 Nov 1994");
    // weekday(Sun)
    d.expect(b'S').unwrap();
    d.expect(b'u').unwrap();
    d.expect(b'n').unwrap();
    d.comma().unwrap();
    d.space().unwrap();
    // day-of-month(06)
    assert_eq!(d.day().unwrap(), 6);
    d.space().unwrap();
    // month(Nov)
    let month = d.month().unwrap();
    assert_eq!(month, 11);
    d.space().unwrap();
    // year(1994)
    assert_eq!(d.year().unwrap(), 1994);
    assert_eq!(d.pos(), 16); // consumed "Sun, 06 Nov 1994"
}

#[test]
fn string_reads_alphabetic_run_and_advances() {
    let mut d = Decoder::new("Sun, 06");
    assert_eq!(d.string(), "Sun");
    assert_eq!(d.pos(), 3); // consumed "Sun"
}

#[test]
fn string_reads_to_end_of_input() {
    let mut d = Decoder::new("GMT");
    assert_eq!(d.string(), "GMT");
    assert_eq!(d.pos(), 3); // consumed "GMT"
}

#[test]
fn string_returns_empty_when_current_byte_is_not_alphabetic() {
    let mut d = Decoder::new("123");
    assert_eq!(d.string(), "");
    assert_eq!(d.pos(), 0); // position should not advance
}

#[test]
fn string_returns_empty_at_end_of_input() {
    let mut d = Decoder::new("Sun,");
    d.advance(4); // position at end of input
    assert_eq!(d.string(), "");
    assert_eq!(d.pos(), 4); // position should not advance
}

#[test]
fn dayname_tok() {
    let ok = |s: &str, tok: DayNameTok, pos: usize| {
        let mut d = Decoder::new(s);
        assert_eq!(d.dayname_tok(), Ok(tok), "{s:?}");
        assert_eq!(d.pos(), pos, "{s:?}");
    };
    let err = |s: &str, pos: usize| {
        let mut d = Decoder::new(s);
        let e = d.dayname_tok().unwrap_err();
        assert_error(&e, "Invalid day name", Some(0));
        assert_eq!(d.pos(), pos, "{s:?}");
    };
    ok("Mon", DayNameTok::Short(DayName::Mon), 3);
    ok("Sunday", DayNameTok::Long(DayName::Sun), 6);
    err("Funday", 6);
    err("mon", 3);
    err("Wednes", 6);
    err("", 0);
}

#[test]
fn punctuation_tok_parses_comma() {
    let mut d = Decoder::new(",06 Nov");
    assert_eq!(d.punctuation_tok(), Ok(PunctuationTok::Comma));
    assert_eq!(d.pos(), 1);
}

#[test]
fn punctuation_tok_parses_space() {
    let mut d = Decoder::new(" 06 Nov");
    assert_eq!(d.punctuation_tok(), Ok(PunctuationTok::Space));
    assert_eq!(d.pos(), 1);
}

#[test]
fn punctuation_tok_rejects_non_punctuation() {
    let mut d = Decoder::new("06 Nov");
    let err = d.punctuation_tok().unwrap_err();
    assert_error(&err, "Expected ',' or ' ' after day name", Some(0));
}

#[test]
fn punctuation_tok_at_end_of_input_returns_error() {
    let mut d = Decoder::new("06");
    d.advance(2); // at end of input
    let err = d.punctuation_tok().unwrap_err();
    assert_error(&err, "Unexpected end of input", Some(2));
}

#[test]
fn date1_parses_valid_date() {
    let mut d = Decoder::new("06 Nov 1994");
    assert_eq!(d.date1(), Date::new(1994, 11, 6));
    assert_eq!(d.pos(), 11); // consumed "06 Nov 1994"
}

#[test]
fn date1_parses_leading_zero_day() {
    let mut d = Decoder::new("01 Jan 2000");
    assert_eq!(d.date1(), Date::new(2000, 1, 1));
    assert_eq!(d.pos(), 11);
}

#[test]
fn date1_rejects_non_digit_day() {
    assert_error(&Decoder::new("0x Nov 1994").date1().unwrap_err(), "Expected digit", Some(1));
}

#[test]
fn date1_rejects_missing_space_after_day() {
    assert_error(
        &Decoder::new("06Nov 1994").date1().unwrap_err(),
        "Unexpected character",
        Some(2),
    );
}

#[test]
fn date1_rejects_invalid_month() {
    assert_error(
        &Decoder::new("06 Xyz 1994").date1().unwrap_err(),
        "Invalid month value",
        Some(3),
    );
}

#[test]
fn date1_rejects_truncated_year() {
    assert_error(
        &Decoder::new("06 Nov 19").date1().unwrap_err(),
        "Unexpected end of input",
        Some(9),
    );
}

#[test]
fn time_parses_valid_time() {
    let mut d = Decoder::new("08:49:37 GMT");
    assert_eq!(d.time(), Time::new(8, 49, 37));
    assert_eq!(d.pos(), 8); // consumed "08:49:37"
}

#[test]
fn time_rejects_missing_colon() {
    assert_error(&Decoder::new("0849:37").time().unwrap_err(), "Unexpected character", Some(2));
}

#[test]
fn time_rejects_non_digit_minute() {
    assert_error(&Decoder::new("08:x9:37").time().unwrap_err(), "Expected digit", Some(3));
}

#[test]
fn time_rejects_truncated_seconds() {
    assert_error(
        &Decoder::new("08:49:3").time().unwrap_err(),
        "Unexpected end of input",
        Some(7),
    );
}

fn expect_imf_fixdate(decoded: &HttpDate) -> DateTime {
    assert!(decoded.is_imf_fixdate(), "expected ImfFixdate");
    *decoded.datetime()
}

fn expect_rfc850(decoded: &HttpDate) -> DateTime {
    assert!(decoded.is_rfc850(), "expected Rfc850");
    *decoded.datetime()
}

fn expect_asctime(decoded: &HttpDate) -> DateTime {
    assert!(decoded.is_asctime(), "expected Asctime");
    *decoded.datetime()
}

fn decode_all(inputs: &[&str]) -> String {
    let mut out = String::new();
    for input in inputs {
        match decode(input) {
            Ok(date) => out.push_str(&format!("{input:?} => {}\n", date.to_string())),
            Err(err) => out.push_str(&format!("{input:?} => {}\n", err.to_string())),
        }
    }
    out
}

#[test]
fn decode_out_of_range_and_boundaries() {
    let actual = decode_all(&[
        "Sun, 00 Nov 1994 08:49:37 GMT",
        "Sun, 32 Nov 1994 08:49:37 GMT",
        "Sunday, 32-Nov-94 08:49:37 GMT",
        "Sun Nov 32 08:49:37 1994",
        "Sun Nov  0 08:49:37 1994",
        "Sun, 06 Nov 1994 24:49:37 GMT",
        "Sun, 06 Nov 1994 08:60:37 GMT",
        "Sun, 06 Nov 1994 08:49:60 GMT",
        "Sun, 31 Nov 1994 08:49:37 GMT",
        "Sun, 06 Nov 1994 23:59:59 GMT",
    ]);
    let expected = [
        "\"Sun, 00 Nov 1994 08:49:37 GMT\" => DecodeError: Date out of range at position 5\n",
        "\"Sun, 32 Nov 1994 08:49:37 GMT\" => DecodeError: Date out of range at position 5\n",
        "\"Sunday, 32-Nov-94 08:49:37 GMT\" => DecodeError: Date out of range at position 8\n",
        "\"Sun Nov 32 08:49:37 1994\" => DecodeError: Date out of range at position 4\n",
        "\"Sun Nov  0 08:49:37 1994\" => DecodeError: Date out of range at position 4\n",
        "\"Sun, 06 Nov 1994 24:49:37 GMT\" => DecodeError: Time out of range at position 17\n",
        "\"Sun, 06 Nov 1994 08:60:37 GMT\" => DecodeError: Time out of range at position 17\n",
        "\"Sun, 06 Nov 1994 08:49:60 GMT\" => DecodeError: Time out of range at position 17\n",
        "\"Sun, 31 Nov 1994 08:49:37 GMT\" => Sun, 31 Nov 1994 08:49:37 GMT\n",
        "\"Sun, 06 Nov 1994 23:59:59 GMT\" => Sun, 06 Nov 1994 23:59:59 GMT\n",
    ]
    .concat();
    assert_eq!(actual, expected);
}

#[test]
fn decode_parses_imf_fixdate() {
    let date = decode("Sun, 06 Nov 1994 08:49:37 GMT").unwrap();
    let dt = expect_imf_fixdate(&date);
    assert_eq!(dt.dayname, DayName::Sun);
    assert_eq!(dt.date.year(), 1994);
    assert_eq!(dt.date.month(), 11);
    assert_eq!(dt.date.day(), 6);
    assert_eq!(dt.time.hour(), 8);
    assert_eq!(dt.time.minute(), 49);
    assert_eq!(dt.time.second(), 37);
}

#[test]
fn decode_parses_rfc850_date() {
    let dt = expect_rfc850(&decode("Sunday, 06-Nov-94 08:49:37 GMT").unwrap());
    assert_eq!(dt.dayname, DayName::Sun);
    assert_eq!(dt.date, Date::new(94, 11, 6).unwrap());
    assert_eq!(dt.time, Time::new(8, 49, 37).unwrap());
}

#[test]
fn decode_parses_asctime() {
    let dt = expect_asctime(&decode("Sun Nov  6 08:49:37 1994").unwrap());
    assert_eq!(dt.dayname, DayName::Sun);
    assert_eq!(dt.date, Date::new(1994, 11, 6).unwrap());
    assert_eq!(dt.time, Time::new(8, 49, 37).unwrap());
}

#[test]
fn decode_parses_all_imf_fixdate_weekdays() {
    let cases = [
        ("Mon", DayName::Mon),
        ("Tue", DayName::Tue),
        ("Wed", DayName::Wed),
        ("Thu", DayName::Thu),
        ("Fri", DayName::Fri),
        ("Sat", DayName::Sat),
        ("Sun", DayName::Sun),
    ];
    for (name, dayname) in cases {
        let input = format!("{name}, 06 Nov 1994 08:49:37 GMT");
        let dt = expect_imf_fixdate(&decode(&input).unwrap());
        assert_eq!(dt.dayname, dayname, "weekday {name}");
    }
}

#[test]
fn decode_rejects_invalid_dayname() {
    let err = decode("Funday, 06 Nov 1994 08:49:37 GMT").expect_err("expected decode to fail");
    assert_error(&err, "Invalid day name", Some(0));
}

#[test]
fn decode_rejects_missing_punctuation() {
    // "Sun 06 Nov..." is neither ", " (IMF) nor " " after a short name
    // followed by a valid asctime; "Sun 06" fails because a month is
    // expected next.
    let err = decode("Sun 06 Nov 1994").expect_err("expected decode to fail");
    assert_error(&err, "Invalid month value", Some(4));
}

#[test]
fn decode_rejects_imf_fixdate_missing_gmt() {
    let err = decode("Sun, 06 Nov 1994 08:49:37 ").expect_err("expected decode to fail");
    assert_error(&err, "Expected 'GMT'", Some(26));
}

#[test]
fn decode_rejects_truncated_input() {
    let err = decode("Sun, 06 Nov").expect_err("expected decode to fail");
    assert_error(&err, "Unexpected end of input", Some(11));
}

#[test]
fn decode_rejects_empty_input() {
    let err = decode("").expect_err("expected decode to fail");
    assert_error(&err, "Invalid day name", Some(0));
}

#[test]
fn decode_rejects_trailing_data() {
    let actual = decode_all(&[
        "Sun, 06 Nov 1994 08:49:37 GMT ",
        "Sun, 06 Nov 1994 08:49:37 GMT 123",
        "Sun, 06 Nov 1994 08:49:37 GMT.",
        "Sunday, 06-Nov-94 08:49:37 GMT extra",
        "Sun Nov  6 08:49:37 1994!",
    ]);
    let expected = [
        "\"Sun, 06 Nov 1994 08:49:37 GMT \" => DecodeError: Trailing data after HTTP date at position 29\n",
        "\"Sun, 06 Nov 1994 08:49:37 GMT 123\" => DecodeError: Trailing data after HTTP date at position 29\n",
        "\"Sun, 06 Nov 1994 08:49:37 GMT.\" => DecodeError: Trailing data after HTTP date at position 29\n",
        "\"Sunday, 06-Nov-94 08:49:37 GMT extra\" => DecodeError: Trailing data after HTTP date at position 30\n",
        "\"Sun Nov  6 08:49:37 1994!\" => DecodeError: Trailing data after HTTP date at position 24\n",
    ]
    .concat();
    assert_eq!(actual, expected);
}

// A fixed valid `DateTime` used by the constructor tests below.
fn sun_nov_6(year: i32) -> DateTime {
    DateTime {
        dayname: DayName::Sun,
        date: Date::new(year, 11, 6).unwrap(),
        time: Time::new(8, 49, 37).unwrap(),
    }
}

#[test]
fn date_new_rejects_out_of_range() {
    assert!(Date::new(1994, 11, 6).is_ok());
    assert!(Date::new(-1, 11, 6).is_err());
    assert!(Date::new(10_000, 11, 6).is_err());
    assert!(Date::new(1994, 0, 6).is_err());
    assert!(Date::new(1994, 13, 6).is_err());
    assert!(Date::new(1994, 11, 0).is_err());
    assert!(Date::new(1994, 11, 32).is_err());
}

#[test]
fn time_new_rejects_out_of_range() {
    assert!(Time::new(8, 49, 37).is_ok());
    assert!(Time::new(24, 0, 0).is_err());
    assert!(Time::new(0, 60, 0).is_err());
    assert!(Time::new(0, 0, 60).is_err());
    assert!(Time::new(-1, 0, 0).is_err());
}

#[test]
fn rfc850_constructor_rejects_year_above_99() {
    assert!(HttpDate::rfc850(sun_nov_6(99)).is_ok());
    assert!(HttpDate::rfc850(sun_nov_6(100)).is_err());
    assert!(HttpDate::rfc850(sun_nov_6(1994)).is_err());
}

#[test]
fn encode_round_trips_constructed_values() {
    let cases = [
        HttpDate::imf_fixdate(sun_nov_6(1994)),
        HttpDate::rfc850(sun_nov_6(94)).unwrap(),
        HttpDate::asctime(sun_nov_6(1994)),
    ];
    for date in cases {
        let s = encode(&date);
        assert_eq!(decode(&s).unwrap(), date, "encode produced {s:?}");
    }
}

#[test]
fn error_kinds_and_constructor_errors() {
    let e = Date::new(1994, 13, 1).unwrap_err();
    assert_eq!(e.kind(), ErrorKind::DateOutOfRange);
    assert_eq!(e.position(), None);
    assert_eq!(e.to_string(), "DecodeError: Date out of range");
    let e = Time::new(24, 0, 0).unwrap_err();
    assert_eq!(e.kind(), ErrorKind::TimeOutOfRange);
    let e = HttpDate::rfc850(sun_nov_6(100)).unwrap_err();
    assert_eq!(e.kind(), ErrorKind::Rfc850YearOutOfRange);
    assert_eq!(e.to_string(), "DecodeError: RFC 850 year out of range (0-99)");
}
