//! The value types of an HTTP date, their mathematical models, and the
//! constructors that guarantee every value is well-formed.
use vstd::prelude::*;
use vstd::string::StringExecFns;

use crate::text::{ascii_chars, ascii_string, decimal_text, lemma_decimal_ascii, push_decimal};

verus! {

/// The day of the week as used in HTTP date values.
#[derive(Debug, PartialEq, Eq, Clone, Copy, Structural)]
pub enum DayName {
    /// Monday.
    Mon,
    /// Tuesday.
    Tue,
    /// Wednesday.
    Wed,
    /// Thursday.
    Thu,
    /// Friday.
    Fri,
    /// Saturday.
    Sat,
    /// Sunday.
    Sun,
}

/// The textual format of an [`HttpDate`].
#[derive(Debug, PartialEq, Eq, Clone, Copy, Structural)]
pub enum Format {
    /// `Sun, 06 Nov 1994 08:49:37 GMT`
    ImfFixdate,
    /// `Sunday, 06-Nov-94 08:49:37 GMT`
    Rfc850,
    /// `Sun Nov  6 08:49:37 1994`
    Asctime,
}

/// A day name as read from the input: the three-letter abbreviation or the
/// full name.
#[derive(Debug, PartialEq, Eq, Clone, Copy, Structural)]
pub enum DayNameTok {
    Short(DayName),
    Long(DayName),
}

/// The separator that follows a three-letter day name.
#[derive(Debug, PartialEq, Eq, Clone, Copy, Structural)]
pub enum PunctuationTok {
    Comma,
    Space,
}

/// Why decoding failed.
#[derive(Debug, PartialEq, Eq, Clone, Copy, Structural)]
pub enum ErrorKind {
    UnexpectedEnd,
    UnexpectedCharacter,
    InvalidMonth,
    ExpectedDigit,
    InvalidDayName,
    ExpectedPunctuation,
    ExpectedGmt,
    DateOutOfRange,
    TimeOutOfRange,
    Rfc850YearOutOfRange,
    TrailingData,
}

/* ------------------- models ------------------- */

/// The mathematical value of a [`Date`].
pub struct DateModel {
    pub year: int,
    pub month: int,
    pub day: int,
}

impl DateModel {
    /// The ranges that [`Date::new`] accepts: year 0–9999, month 1–12, day 1–31.
    pub open spec fn wf(self) -> bool {
        &&& 0 <= self.year <= 9999
        &&& 1 <= self.month <= 12
        &&& 1 <= self.day <= 31
    }
}

/// The mathematical value of a [`Time`].
pub struct TimeModel {
    pub hour: int,
    pub minute: int,
    pub second: int,
}

impl TimeModel {
    /// The ranges that [`Time::new`] accepts: hour 0–23, minute and second 0–59.
    pub open spec fn wf(self) -> bool {
        &&& 0 <= self.hour <= 23
        &&& 0 <= self.minute <= 59
        &&& 0 <= self.second <= 59
    }
}

/// The mathematical value of a [`DateTime`].
pub struct DateTimeModel {
    pub dayname: DayName,
    pub date: DateModel,
    pub time: TimeModel,
}

impl DateTimeModel {
    pub open spec fn wf(self) -> bool {
        self.date.wf() && self.time.wf()
    }
}

/// The mathematical value of an [`HttpDate`].
pub struct HttpDateModel {
    pub format: Format,
    pub dt: DateTimeModel,
}

impl HttpDateModel {
    /// Every `HttpDate` satisfies this: its components are in range, and an
    /// RFC 850 date has a two-digit year.
    pub open spec fn wf(self) -> bool {
        &&& self.dt.wf()
        &&& (self.format == Format::Rfc850 ==> 0 <= self.dt.date.year <= 99)
    }
}

/// The mathematical value of a [`DecodeError`].
pub struct DecodeErrorModel {
    pub kind: ErrorKind,
    pub pos: Option<int>,
}

/* ------------------- Date ------------------- */

/// The calendar date portion of an HTTP date.
#[derive(Debug, PartialEq, Eq, Clone, Copy, Structural)]
pub struct Date {
    year: i32,
    month: i32,
    day: i32,
}

impl View for Date {
    type V = DateModel;

    closed spec fn view(&self) -> DateModel {
        DateModel { year: self.year as int, month: self.month as int, day: self.day as int }
    }
}

impl Date {
    #[verifier::type_invariant]
    pub(crate) open spec fn inv(self) -> bool {
        self@.wf()
    }

    /// Constructs a date.
    ///
    /// Fails with `DateOutOfRange` if a component is out of range: year
    /// 0–9999, month 1–12, day 1–31.
    pub fn new(year: i32, month: i32, day: i32) -> (r: Result<Date, DecodeError>)
        ensures
            (DateModel { year: year as int, month: month as int, day: day as int }).wf() <==> r is Ok,
            r matches Ok(d) ==> d@ == (DateModel {
                year: year as int,
                month: month as int,
                day: day as int,
            }),
            r matches Err(e) ==> e@ == (DecodeErrorModel { kind: ErrorKind::DateOutOfRange, pos: None }),
    {
        if !(0 <= year && year <= 9999) || !(1 <= month && month <= 12) || !(1 <= day && day <= 31) {
            return Err(DecodeError::new(ErrorKind::DateOutOfRange));
        }
        Ok(Date { year, month, day })
    }

    pub fn year(&self) -> (r: i32)
        ensures
            r == self@.year,
            0 <= r <= 9999,
    {
        proof {
            use_type_invariant(self);
        }
        self.year
    }

    pub fn month(&self) -> (r: i32)
        ensures
            r == self@.month,
            1 <= r <= 12,
    {
        proof {
            use_type_invariant(self);
        }
        self.month
    }

    pub fn day(&self) -> (r: i32)
        ensures
            r == self@.day,
            1 <= r <= 31,
    {
        proof {
            use_type_invariant(self);
        }
        self.day
    }
}

/* ------------------- Time ------------------- */

/// The time-of-day portion of an HTTP date: hour 0–23, minute/second 0–59.
#[derive(Debug, PartialEq, Eq, Clone, Copy, Structural)]
pub struct Time {
    hour: i32,
    minute: i32,
    second: i32,
}

impl View for Time {
    type V = TimeModel;

    closed spec fn view(&self) -> TimeModel {
        TimeModel {
            hour: self.hour as int,
            minute: self.minute as int,
            second: self.second as int,
        }
    }
}

impl Time {
    #[verifier::type_invariant]
    pub(crate) open spec fn inv(self) -> bool {
        self@.wf()
    }

    /// Constructs a time.
    ///
    /// Fails with `TimeOutOfRange` if a component is out of range: hour 0–23,
    /// minute 0–59, second 0–59.
    pub fn new(hour: i32, minute: i32, second: i32) -> (r: Result<Time, DecodeError>)
        ensures
            (TimeModel { hour: hour as int, minute: minute as int, second: second as int }).wf()
                <==> r is Ok,
            r matches Ok(t) ==> t@ == (TimeModel {
                hour: hour as int,
                minute: minute as int,
                second: second as int,
            }),
            r matches Err(e) ==> e@ == (DecodeErrorModel { kind: ErrorKind::TimeOutOfRange, pos: None }),
    {
        if !(0 <= hour && hour <= 23) || !(0 <= minute && minute <= 59) || !(0 <= second && second
            <= 59) {
            return Err(DecodeError::new(ErrorKind::TimeOutOfRange));
        }
        Ok(Time { hour, minute, second })
    }

    pub fn hour(&self) -> (r: i32)
        ensures
            r == self@.hour,
            0 <= r <= 23,
    {
        proof {
            use_type_invariant(self);
        }
        self.hour
    }

    pub fn minute(&self) -> (r: i32)
        ensures
            r == self@.minute,
            0 <= r <= 59,
    {
        proof {
            use_type_invariant(self);
        }
        self.minute
    }

    pub fn second(&self) -> (r: i32)
        ensures
            r == self@.second,
            0 <= r <= 59,
    {
        proof {
            use_type_invariant(self);
        }
        self.second
    }
}

/* ------------------- DateTime ------------------- */

/// A fully decoded HTTP date: weekday, calendar date, and time of day.
#[derive(Debug, PartialEq, Eq, Clone, Copy, Structural)]
pub struct DateTime {
    /// The day of the week.
    pub dayname: DayName,
    /// The calendar date.
    pub date: Date,
    /// The time of day.
    pub time: Time,
}

impl View for DateTime {
    type V = DateTimeModel;

    open spec fn view(&self) -> DateTimeModel {
        DateTimeModel { dayname: self.dayname, date: self.date@, time: self.time@ }
    }
}

/* ------------------- HttpDate ------------------- */

/// An HTTP date in one of the three formats of RFC 9110 § 5.6.7.
///
/// Values are created with [`HttpDate::imf_fixdate`], [`HttpDate::rfc850`]
/// and [`HttpDate::asctime`], or parsed with `decode`; each of them keeps the
/// components in range, so encoding never fails.
#[derive(Debug, PartialEq, Eq, Clone, Copy, Structural)]
pub struct HttpDate {
    format: Format,
    dt: DateTime,
}

impl View for HttpDate {
    type V = HttpDateModel;

    closed spec fn view(&self) -> HttpDateModel {
        HttpDateModel { format: self.format, dt: self.dt@ }
    }
}

impl HttpDate {
    #[verifier::type_invariant]
    pub(crate) open spec fn inv(self) -> bool {
        self@.wf()
    }

    /// Constructs an IMF-fixdate, e.g. `Sun, 06 Nov 1994 08:49:37 GMT`.
    pub fn imf_fixdate(dt: DateTime) -> (r: HttpDate)
        ensures
            r@ == (HttpDateModel { format: Format::ImfFixdate, dt: dt@ }),
    {
        proof {
            use_type_invariant(&dt.date);
            use_type_invariant(&dt.time);
        }
        HttpDate { format: Format::ImfFixdate, dt }
    }

    /// Constructs an RFC 850 date, e.g. `Sunday, 06-Nov-94 08:49:37 GMT`.
    ///
    /// Fails with `Rfc850YearOutOfRange` unless the year is in 0–99, the only
    /// years a two-digit year can represent.
    pub fn rfc850(dt: DateTime) -> (r: Result<HttpDate, DecodeError>)
        ensures
            r is Ok <==> 0 <= dt@.date.year <= 99,
            r matches Ok(d) ==> d@ == (HttpDateModel { format: Format::Rfc850, dt: dt@ }),
            r matches Err(e) ==> e@ == (DecodeErrorModel {
                kind: ErrorKind::Rfc850YearOutOfRange,
                pos: None,
            }),
    {
        proof {
            use_type_invariant(&dt.date);
            use_type_invariant(&dt.time);
        }
        let year = dt.date.year();
        if !(0 <= year && year <= 99) {
            return Err(DecodeError::new(ErrorKind::Rfc850YearOutOfRange));
        }
        Ok(HttpDate { format: Format::Rfc850, dt })
    }

    /// Constructs an asctime date, e.g. `Sun Nov  6 08:49:37 1994`.
    pub fn asctime(dt: DateTime) -> (r: HttpDate)
        ensures
            r@ == (HttpDateModel { format: Format::Asctime, dt: dt@ }),
    {
        proof {
            use_type_invariant(&dt.date);
            use_type_invariant(&dt.time);
        }
        HttpDate { format: Format::Asctime, dt }
    }

    /// Returns the [`DateTime`] components of this HTTP date.
    pub fn datetime(&self) -> (r: &DateTime)
        ensures
            r@ == self@.dt,
    {
        &self.dt
    }

    /// Returns the format this date was constructed or parsed in.
    pub fn format(&self) -> (r: Format)
        ensures
            r == self@.format,
    {
        self.format
    }

    pub fn is_imf_fixdate(&self) -> (r: bool)
        ensures
            r == (self@.format == Format::ImfFixdate),
    {
        match self.format {
            Format::ImfFixdate => true,
            _ => false,
        }
    }

    pub fn is_rfc850(&self) -> (r: bool)
        ensures
            r == (self@.format == Format::Rfc850),
    {
        match self.format {
            Format::Rfc850 => true,
            _ => false,
        }
    }

    pub fn is_asctime(&self) -> (r: bool)
        ensures
            r == (self@.format == Format::Asctime),
    {
        match self.format {
            Format::Asctime => true,
            _ => false,
        }
    }
}

/* ------------------- DecodeError ------------------- */

/// An error returned when an HTTP date cannot be parsed or constructed.
#[derive(Debug, Clone, Copy, PartialEq, Eq, Structural)]
pub struct DecodeError {
    kind: ErrorKind,
    pos: Option<usize>,
}

impl View for DecodeError {
    type V = DecodeErrorModel;

    closed spec fn view(&self) -> DecodeErrorModel {
        DecodeErrorModel {
            kind: self.kind,
            pos: match self.pos {
                Some(p) => Some(p as int),
                None => None,
            },
        }
    }
}

impl DecodeError {
    /// Constructs an error of the given kind, with no position.
    pub(crate) fn new(kind: ErrorKind) -> (r: DecodeError)
        ensures
            r@ == (DecodeErrorModel { kind, pos: None }),
    {
        DecodeError { kind, pos: None }
    }

    /// Sets the position in the input where decoding failed.
    pub(crate) fn at(self, pos: usize) -> (r: DecodeError)
        ensures
            r@ == (DecodeErrorModel { kind: self@.kind, pos: Some(pos as int) }),
    {
        DecodeError { kind: self.kind, pos: Some(pos) }
    }

    /// The byte offset in the input where decoding failed, if there is one.
    pub fn position(&self) -> (r: Option<usize>)
        ensures
            r matches Some(p) ==> self@.pos == Some(p as int),
            r is None ==> self@.pos is None,
    {
        self.pos
    }

    /// The kind of failure.
    pub fn kind(&self) -> (r: ErrorKind)
        ensures
            r == self@.kind,
    {
        self.kind
    }

    /// The message that describes this kind of failure.
    pub fn message(&self) -> (r: &'static str)
        ensures
            r@ == error_message(self@.kind),
    {
        match self.kind {
            ErrorKind::UnexpectedEnd => "Unexpected end of input",
            ErrorKind::UnexpectedCharacter => "Unexpected character",
            ErrorKind::InvalidMonth => "Invalid month value",
            ErrorKind::ExpectedDigit => "Expected digit",
            ErrorKind::InvalidDayName => "Invalid day name",
            ErrorKind::ExpectedPunctuation => "Expected ',' or ' ' after day name",
            ErrorKind::ExpectedGmt => "Expected 'GMT'",
            ErrorKind::DateOutOfRange => "Date out of range",
            ErrorKind::TimeOutOfRange => "Time out of range",
            ErrorKind::Rfc850YearOutOfRange => "RFC 850 year out of range (0-99)",
            ErrorKind::TrailingData => "Trailing data after HTTP date",
        }
    }

    /// The error as text: `DecodeError: <message>`, followed by
    /// ` at position <offset>` when the error has a position.
    pub fn to_string(&self) -> (r: String)
        ensures
            r@ == error_text(self@),
    {
        let mut s = String::from_str("DecodeError: ");
        s.append(self.message());
        match self.pos {
            Some(p) => {
                s.append(" at position ");
                let mut digits: Vec<u8> = Vec::new();
                push_decimal(&mut digits, p as u64);
                proof {
                    lemma_decimal_ascii(p as nat);
                }
                let d = ascii_string(digits);
                s.append(d.as_str());
            },
            None => {},
        }
        s
    }
}

/// The message of each kind of error.
pub open spec fn error_message(kind: ErrorKind) -> Seq<char> {
    match kind {
        ErrorKind::UnexpectedEnd => "Unexpected end of input"@,
        ErrorKind::UnexpectedCharacter => "Unexpected character"@,
        ErrorKind::InvalidMonth => "Invalid month value"@,
        ErrorKind::ExpectedDigit => "Expected digit"@,
        ErrorKind::InvalidDayName => "Invalid day name"@,
        ErrorKind::ExpectedPunctuation => "Expected ',' or ' ' after day name"@,
        ErrorKind::ExpectedGmt => "Expected 'GMT'"@,
        ErrorKind::DateOutOfRange => "Date out of range"@,
        ErrorKind::TimeOutOfRange => "Time out of range"@,
        ErrorKind::Rfc850YearOutOfRange => "RFC 850 year out of range (0-99)"@,
        ErrorKind::TrailingData => "Trailing data after HTTP date"@,
    }
}

/// The text of an error: `DecodeError: <message>`, followed by
/// ` at position <offset>` when it has a position.
pub open spec fn error_text(e: DecodeErrorModel) -> Seq<char> {
    "DecodeError: "@ + error_message(e.kind) + match e.pos {
        Some(p) => " at position "@ + ascii_chars(decimal_text(p as nat)),
        None => Seq::<char>::empty(),
    }
}

} // verus!
