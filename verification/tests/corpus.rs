use http_date::{decode, encode, Date, DateTime, DayName, ErrorKind, HttpDate, Time};

/// Builds a [`DateTime`] from raw components, panicking if out of range.
fn dt(
    dayname: DayName,
    year: i32,
    month: i32,
    day: i32,
    hour: i32,
    minute: i32,
    second: i32,
) -> DateTime {
    DateTime {
        dayname,
        date: Date::new(year, month, day).expect("valid date"),
        time: Time::new(hour, minute, second).expect("valid time"),
    }
}

/// Corpus of known-good examples that must decode to the expected value and
/// round-trip.
#[test]
fn corpus_decodes_and_round_trips() {
    let cases: &[(&str, HttpDate)] = &[
        (
            "Sun, 06 Nov 1994 08:49:37 GMT",
            HttpDate::imf_fixdate(dt(DayName::Sun, 1994, 11, 6, 8, 49, 37)),
        ),
        (
            "Sunday, 06-Nov-94 08:49:37 GMT",
            HttpDate::rfc850(dt(DayName::Sun, 94, 11, 6, 8, 49, 37)).unwrap(),
        ),
        (
            "Sun Nov  6 08:49:37 1994",
            HttpDate::asctime(dt(DayName::Sun, 1994, 11, 6, 8, 49, 37)),
        ),
        (
            "Sun Nov 16 08:49:37 1994",
            HttpDate::asctime(dt(DayName::Sun, 1994, 11, 16, 8, 49, 37)),
        ),
        (
            "Mon, 01 Jan 2000 00:00:00 GMT",
            HttpDate::imf_fixdate(dt(DayName::Mon, 2000, 1, 1, 0, 0, 0)),
        ),
        (
            "Saturday, 01-Jan-00 00:00:00 GMT",
            HttpDate::rfc850(dt(DayName::Sat, 0, 1, 1, 0, 0, 0)).unwrap(),
        ),
        (
            "Fri Dec 31 23:59:59 9999",
            HttpDate::asctime(dt(DayName::Fri, 9999, 12, 31, 23, 59, 59)),
        ),
        (
            "Tue, 15 Mar 2022 12:30:00 GMT",
            HttpDate::imf_fixdate(dt(DayName::Tue, 2022, 3, 15, 12, 30, 0)),
        ),
        (
            "Wednesday, 25-Dec-99 18:00:00 GMT",
            HttpDate::rfc850(dt(DayName::Wed, 99, 12, 25, 18, 0, 0)).unwrap(),
        ),
        (
            "Thu Jan 10 06:15:45 2008",
            HttpDate::asctime(dt(DayName::Thu, 2008, 1, 10, 6, 15, 45)),
        ),
    ];

    for (input, expected) in cases {
        assert_eq!(&decode(input).unwrap(), expected, "decode({input:?})");
        let s = encode(expected);
        assert_eq!(&decode(&s).unwrap(), expected, "round-trip of {input:?}");
    }
}

/// Single-digit asctime days are space-padded to width 2.
#[test]
fn asctime_single_digit_day_padding() {
    let cases = [
        "Sun Nov  1 00:00:00 2000",
        "Sun Nov  9 00:00:00 2000",
        "Sun Nov 10 00:00:00 2000",
        "Sun Nov 28 00:00:00 2000",
    ];
    for input in cases {
        let date = decode(input).unwrap();
        assert_eq!(decode(&encode(&date)).unwrap(), date, "round-trip of {input:?}");
    }
}

/// Malformed inputs must be rejected.
#[test]
fn malformed_inputs_are_rejected() {
    let cases = [
        "",
        "XXX, 06 Nov 1994 08:49:37 GMT",
        "Sun, 06 Xxx 1994 08:49:37 GMT",
        "Sun, 06 Nov 1994 08:49:37 PST",
        "Sun, 6 Nov 1994 08:49:37 GMT",
        "Sunday, 06-Nov-1994 08:49:37 GMT",
        "Sun, 06 Nov 1994",
        "not a date",
        "Sun Nov  6 08:49:37",
        "Sunday, 06-Nov-94",
        "Sun, 32 Nov 1994 08:49:37 GMT",
        "Sun, 06 Nov 1994 24:00:00 GMT",
        "Sun, 06 Nov 1994 08:60:00 GMT",
    ];
    for input in cases {
        assert!(decode(input).is_err(), "expected {input:?} to be rejected");
    }
}

const DAYS: [DayName; 7] = [
    DayName::Mon,
    DayName::Tue,
    DayName::Wed,
    DayName::Thu,
    DayName::Fri,
    DayName::Sat,
    DayName::Sun,
];

/// Every format round-trips through its text over a sweep of components.
#[test]
fn every_format_round_trips_over_a_sweep() {
    let mut n = 0u32;
    for year in [0, 1, 9, 10, 68, 69, 99, 100, 1994, 2000, 9999] {
        for month in 1..=12 {
            for day in [1, 9, 10, 28, 29, 30, 31] {
                let d = DAYS[(n % 7) as usize];
                let (h, m, s) = ((n * 7) % 24, (n * 13) % 60, (n * 31) % 60);
                n += 1;
                let v = dt(d, year, month, day, h as i32, m as i32, s as i32);
                let mut dates = vec![HttpDate::imf_fixdate(v), HttpDate::asctime(v)];
                if year <= 99 {
                    dates.push(HttpDate::rfc850(v).unwrap());
                }
                for date in dates {
                    let text = encode(&date);
                    assert_eq!(decode(&text), Ok(date), "{text:?}");
                }
            }
        }
    }
}

/// Decoding what was decoded and re-encoded gives the same value, also for
/// the asctime form with a zero-padded day.
#[test]
fn decode_encode_decode_is_stable() {
    for input in [
        "Sun Nov 06 08:49:37 1994",
        "Mon, 01 Jan 0000 00:00:00 GMT",
        "Sunday, 31-Feb-00 23:59:59 GMT",
        "Sat Jan 31 00:00:00 0042",
    ] {
        let date = decode(input).unwrap();
        let s = encode(&date);
        assert_eq!(decode(&s), Ok(date), "{input:?} -> {s:?}");
    }
    assert_eq!(encode(&decode("Sun Nov 06 08:49:37 1994").unwrap()), "Sun Nov  6 08:49:37 1994");
}

/// Non-ASCII text is rejected with an error, never a panic, and a month
/// name cut in the middle of a character counts as the end of the input.
#[test]
fn non_ascii_input_is_rejected() {
    assert_eq!(decode("Sünday, 06-Nov-94 08:49:37 GMT").unwrap_err().kind(), ErrorKind::InvalidDayName);
    let err = decode("Sun, 06 Noé 1994 08:49:37 GMT").unwrap_err();
    assert_eq!(err.kind(), ErrorKind::UnexpectedEnd);
    assert_eq!(err.position(), Some(8));
    let err = decode("Sun, 06 Néo 1994 08:49:37 GMT").unwrap_err();
    assert_eq!(err.kind(), ErrorKind::InvalidMonth);
    assert_eq!(err.position(), Some(8));
}

/// Each kind of error, with the input and offset that produce it.
#[test]
fn each_error_kind_has_an_input() {
    let cases: &[(&str, ErrorKind, usize)] = &[
        ("Sun, 06 No", ErrorKind::UnexpectedEnd, 8),
        ("Sun, 06-Nov 1994 08:49:37 GMT", ErrorKind::UnexpectedCharacter, 7),
        ("Sun, 06 Nox 1994 08:49:37 GMT", ErrorKind::InvalidMonth, 8),
        ("Sun, 0a Nov 1994 08:49:37 GMT", ErrorKind::ExpectedDigit, 6),
        ("Sonday, 06-Nov-94 08:49:37 GMT", ErrorKind::InvalidDayName, 0),
        ("Sun; 06 Nov 1994 08:49:37 GMT", ErrorKind::ExpectedPunctuation, 3),
        ("Sun, 06 Nov 1994 08:49:37 UTC", ErrorKind::ExpectedGmt, 26),
        ("Sun, 06 Nov 1994 08:49:37 GMTX", ErrorKind::ExpectedGmt, 26),
        ("Sun, 06 Nov 1994 08:49:37 GMT!", ErrorKind::TrailingData, 29),
        ("Sun, 06 Dec 1994 08:49:61 GMT", ErrorKind::TimeOutOfRange, 17),
        ("Sun Nov 00 08:49:37 1994", ErrorKind::DateOutOfRange, 4),
        ("Sun Nov 06 08:49:37 19x4", ErrorKind::ExpectedDigit, 22),
    ];
    for (input, kind, pos) in cases {
        let err = decode(input).unwrap_err();
        assert_eq!(err.kind(), *kind, "{input:?}");
        assert_eq!(err.position(), Some(*pos), "{input:?}");
    }
}
