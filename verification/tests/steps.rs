use http_date::{decode, encode, DayName, Decoder, ErrorKind};

#[test]
fn every_decode_error_offset_lies_in_the_text() {
    let full = "Sun, 06 Nov 1994 08:49:37 GMT";
    for end in 0..full.len() {
        let text = &full[..end];
        let err = decode(text).unwrap_err();
        let pos = err.position().expect("a decode error carries an offset");
        assert!(pos <= text.len(), "{:?} at {} in {:?}", err.kind(), pos, text);
    }
    for text in [
        "Sunday, 06-Nov-94 08:49:37 GMTX",
        "Sun Nov  6 08:49:37 19",
        "Xyz, 06 Nov 1994 08:49:37 GMT",
        "Sun; 06 Nov 1994 08:49:37 GMT",
    ] {
        let err = decode(text).unwrap_err();
        let pos = err.position().expect("a decode error carries an offset");
        assert!(pos <= text.len());
    }
}

#[test]
fn digits_read_their_decimal_value() {
    let mut d = Decoder::new("0042");
    assert_eq!(d.digits(4), Ok(42));
    assert_eq!(d.pos(), 4);

    let mut d = Decoder::new("1994x");
    assert_eq!(d.digits(4), Ok(1994));
    assert_eq!(d.pos(), 4);

    let mut d = Decoder::new("7");
    assert_eq!(d.digits(1), Ok(7));
}

#[test]
fn digits_report_the_first_bad_offset_and_stay() {
    let mut d = Decoder::new("12a4");
    let err = d.digits(4).unwrap_err();
    assert_eq!(err.kind(), ErrorKind::ExpectedDigit);
    assert_eq!(err.position(), Some(2));
    assert_eq!(d.pos(), 0);

    let mut d = Decoder::new("12");
    let err = d.digits(4).unwrap_err();
    assert_eq!(err.kind(), ErrorKind::UnexpectedEnd);
    assert_eq!(err.position(), Some(2));
    assert_eq!(d.pos(), 0);
}

#[test]
fn imf_fixdate_step_reads_the_encoded_rest() {
    let rest = " 06 Nov 1994 08:49:37 GMT";
    let mut d = Decoder::new(rest);
    let h = d.imf_fixdate(DayName::Sun).unwrap();
    assert_eq!(d.pos(), 25);
    assert!(h.is_imf_fixdate());
    assert_eq!(h.datetime().dayname, DayName::Sun);
    assert_eq!(&encode(&h)[4..], rest);
}

#[test]
fn imf_fixdate_step_error_offsets() {
    let cases = [
        (" 32 Feb 1994 08:49:37 GMT", ErrorKind::DateOutOfRange, 1),
        (" 06 Nov 1994 24:49:37 GMT", ErrorKind::TimeOutOfRange, 13),
        (" 06 Nov 1994 08:49:37 UTC", ErrorKind::ExpectedGmt, 22),
    ];
    for (text, kind, pos) in cases {
        let err = Decoder::new(text).imf_fixdate(DayName::Sun).unwrap_err();
        assert_eq!(err.kind(), kind);
        assert_eq!(err.position(), Some(pos));
    }
    let err = decode("Sun, 06 Nov 1994 08:49:37 UTC").unwrap_err();
    assert_eq!(err.kind(), ErrorKind::ExpectedGmt);
    assert_eq!(err.position(), Some(4 + 22));
}

#[test]
fn rfc850_step_reads_the_encoded_rest() {
    let rest = ", 06-Nov-94 08:49:37 GMT";
    let mut d = Decoder::new(rest);
    let h = d.rfc850_date(DayName::Sun).unwrap();
    assert_eq!(d.pos(), 24);
    assert!(h.is_rfc850());
    assert_eq!(h.datetime().date.year(), 94);
    assert_eq!(&encode(&h)["Sunday".len()..], rest);
}

#[test]
fn rfc850_step_error_offsets() {
    let cases = [
        (", 32-Feb-94 08:49:37 GMT", ErrorKind::DateOutOfRange, 2),
        (", 06-Nov-94 08:60:37 GMT", ErrorKind::TimeOutOfRange, 12),
        (", 06-Nov-94 08:49:37 GMX", ErrorKind::ExpectedGmt, 21),
    ];
    for (text, kind, pos) in cases {
        let err = Decoder::new(text).rfc850_date(DayName::Sun).unwrap_err();
        assert_eq!(err.kind(), kind);
        assert_eq!(err.position(), Some(pos));
    }
}

#[test]
fn asctime_step_reads_the_encoded_rest() {
    let rest = "Nov  6 08:49:37 1994";
    let mut d = Decoder::new(rest);
    let h = d.asctime_date(DayName::Sun).unwrap();
    assert_eq!(d.pos(), 20);
    assert!(h.is_asctime());
    assert_eq!(&encode(&h)[4..], rest);

    let mut d = Decoder::new("Nov 06 08:49:37 1994");
    let z = d.asctime_date(DayName::Sun).unwrap();
    assert_eq!(d.pos(), 20);
    assert_eq!(z, h);
    assert_eq!(&encode(&z)[4..], rest);
}

#[test]
fn asctime_step_error_offsets() {
    let cases = [
        ("Feb 32 08:49:37 1994", ErrorKind::DateOutOfRange, 0),
        ("Nov  6 08:49:61 1994", ErrorKind::TimeOutOfRange, 7),
    ];
    for (text, kind, pos) in cases {
        let err = Decoder::new(text).asctime_date(DayName::Sun).unwrap_err();
        assert_eq!(err.kind(), kind);
        assert_eq!(err.position(), Some(pos));
    }
}
