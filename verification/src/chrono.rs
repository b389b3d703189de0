//! Conversions between [`HttpDate`] and UTC date-times of the proleptic
//! Gregorian calendar, whose calendar rules are chrono's.
//!
//! HTTP dates are always in GMT (UTC).  An RFC 850 two-digit year is read
//! with the POSIX century window (69–99 → 1900s, 0–68 → 2000s); a date-time
//! converts back to an IMF-fixdate.
use vstd::prelude::*;
use vstd::string::StringExecFns;

use ::chrono::{Datelike, NaiveDate, NaiveTime};

use crate::encoder::{push_byte, push_dec2, push_dec4};
use crate::grammar::{dec2, dec4};
use crate::names::day_at;
use crate::text::{
    ascii_chars, ascii_string, is_ascii_bytes, lemma_decimal_ascii, push_signed, signed_text,
};
use crate::types::{
    Date, DateModel, DateTime, DateTimeModel, DayName, Format, HttpDate, HttpDateModel, Time,
    TimeModel,
};

verus! {

/* ------------------- the calendar ------------------- */

/// A leap year of the proleptic Gregorian calendar.
pub open spec fn is_leap_year(year: int) -> bool {
    year % 4 == 0 && (year % 100 != 0 || year % 400 == 0)
}

/// The number of days of month 1–12 of `year`.
pub open spec fn days_in_month(year: int, month: int) -> int {
    if month == 2 {
        if is_leap_year(year) {
            29
        } else {
            28
        }
    } else if month == 4 || month == 6 || month == 9 || month == 11 {
        30
    } else {
        31
    }
}

/// The first year chrono's dates can represent.
pub open spec fn min_year() -> int {
    -262143
}

/// The last year chrono's dates can represent.
pub open spec fn max_year() -> int {
    262142
}

/// The day exists in the proleptic Gregorian calendar, in chrono's range of
/// years.
pub open spec fn is_calendar_date(year: int, month: int, day: int) -> bool {
    &&& min_year() <= year <= max_year()
    &&& 1 <= month <= 12
    &&& 1 <= day <= days_in_month(year, month)
}

/// A time of day to the second: hour 0–23, minute and second 0–59.
pub open spec fn is_time_of_day(hour: int, minute: int, second: int) -> bool {
    0 <= hour < 24 && 0 <= minute < 60 && 0 <= second < 60
}

/// The day of the week of a calendar date, as chrono numbers it:
/// Monday = 0, …, Sunday = 6.
pub uninterp spec fn weekday_number(year: int, month: int, day: int) -> int;

/// Calls `chrono::NaiveDate::from_ymd_opt`, which documents that it returns
/// `None` exactly when the calendar day does not exist, the month or day is
/// invalid, or the year is out of its range (`MIN_YEAR`–`MAX_YEAR` in its
/// source, −262143–262142); its calendar is the proleptic Gregorian one.
/// Of an existing day it returns `Weekday::num_days_from_monday` of the
/// day's weekday (`Datelike::weekday`), 0–6 by its documentation; which day
/// of the week that is, is left to [`weekday_number`].
#[verifier::external_body]
fn calendar_day(year: i32, month: u32, day: u32) -> (r: Option<u32>)
    ensures
        r is Some <==> is_calendar_date(year as int, month as int, day as int),
        r matches Some(w) ==> w < 7 && w == weekday_number(year as int, month as int, day as int),
{
    match NaiveDate::from_ymd_opt(year, month, day) {
        Some(date) => Some(date.weekday().num_days_from_monday()),
        None => None,
    }
}

/// Calls `chrono::NaiveTime::from_hms_opt`, which returns `None` exactly on
/// an hour from 24, or a minute or second from 60 (its documentation and
/// source).
#[verifier::external_body]
fn time_exists(hour: u32, minute: u32, second: u32) -> (r: bool)
    ensures
        r == is_time_of_day(hour as int, minute as int, second as int),
{
    NaiveTime::from_hms_opt(hour, minute, second).is_some()
}

/* ------------------- UTC date-times ------------------- */

/// The mathematical value of a [`UtcDateTime`].
pub struct UtcDateTimeModel {
    pub year: int,
    pub month: int,
    pub day: int,
    pub hour: int,
    pub minute: int,
    pub second: int,
}

impl UtcDateTimeModel {
    pub open spec fn wf(self) -> bool {
        is_calendar_date(self.year, self.month, self.day) && is_time_of_day(
            self.hour,
            self.minute,
            self.second,
        )
    }
}

/// A UTC date-time to the second, on a day that exists in chrono's
/// calendar.
#[derive(Debug, PartialEq, Eq, Clone, Copy, Structural)]
pub struct UtcDateTime {
    year: i32,
    month: u32,
    day: u32,
    hour: u32,
    minute: u32,
    second: u32,
}

impl View for UtcDateTime {
    type V = UtcDateTimeModel;

    closed spec fn view(&self) -> UtcDateTimeModel {
        UtcDateTimeModel {
            year: self.year as int,
            month: self.month as int,
            day: self.day as int,
            hour: self.hour as int,
            minute: self.minute as int,
            second: self.second as int,
        }
    }
}

impl UtcDateTime {
    #[verifier::type_invariant]
    pub(crate) open spec fn inv(self) -> bool {
        self@.wf()
    }

    /// The date-time of the given components, if that day exists and the
    /// time is a time of day.
    pub fn from_ymd_hms(year: i32, month: u32, day: u32, hour: u32, minute: u32, second: u32) -> (r:
        Option<UtcDateTime>)
        ensures
            r is Some <==> is_calendar_date(year as int, month as int, day as int)
                && is_time_of_day(hour as int, minute as int, second as int),
            r matches Some(t) ==> t@ == (UtcDateTimeModel {
                year: year as int,
                month: month as int,
                day: day as int,
                hour: hour as int,
                minute: minute as int,
                second: second as int,
            }),
    {
        if calendar_day(year, month, day).is_some() && time_exists(hour, minute, second) {
            Some(UtcDateTime { year, month, day, hour, minute, second })
        } else {
            None
        }
    }

    pub fn year(&self) -> (r: i32)
        ensures
            r == self@.year,
            min_year() <= r <= max_year(),
    {
        proof {
            use_type_invariant(self);
        }
        self.year
    }

    pub fn month(&self) -> (r: u32)
        ensures
            r == self@.month,
            1 <= r <= 12,
    {
        proof {
            use_type_invariant(self);
        }
        self.month
    }

    pub fn day(&self) -> (r: u32)
        ensures
            r == self@.day,
            1 <= r <= 31,
    {
        proof {
            use_type_invariant(self);
        }
        self.day
    }

    pub fn hour(&self) -> (r: u32)
        ensures
            r == self@.hour,
            r < 24,
    {
        proof {
            use_type_invariant(self);
        }
        self.hour
    }

    pub fn minute(&self) -> (r: u32)
        ensures
            r == self@.minute,
            r < 60,
    {
        proof {
            use_type_invariant(self);
        }
        self.minute
    }

    pub fn second(&self) -> (r: u32)
        ensures
            r == self@.second,
            r < 60,
    {
        proof {
            use_type_invariant(self);
        }
        self.second
    }

    /// The day of the week of this date-time.
    pub fn weekday(&self) -> (r: DayName)
        ensures
            r == day_at(weekday_number(self@.year, self@.month, self@.day)),
    {
        proof {
            use_type_invariant(self);
        }
        let w = match calendar_day(self.year, self.month, self.day) {
            Some(w) => w,
            None => 0,
        };
        dayname_from_weekday(w)
    }
}

/* ------------------- errors ------------------- */

/// Why a conversion failed.
#[derive(Debug, PartialEq, Eq, Clone, Copy, Structural)]
pub enum ChronoReason {
    /// The date of an `HttpDate` does not exist in the calendar, e.g. 31
    /// February.
    InvalidCalendarDate { year: i32, month: i32, day: i32 },
    /// The year of a date-time is outside 0–9999.
    YearOutOfRange { year: i32 },
    /// The time is not a time of day.
    TimeOutOfRange,
}

/// An error returned when an [`HttpDate`] and a [`UtcDateTime`] cannot be
/// converted into each other.
#[derive(Debug, PartialEq, Eq, Clone, Copy, Structural)]
pub struct ChronoError {
    reason: ChronoReason,
}

impl View for ChronoError {
    type V = ChronoReason;

    closed spec fn view(&self) -> ChronoReason {
        self.reason
    }
}

/// The message of a conversion error.
pub open spec fn chrono_message(r: ChronoReason) -> Seq<char> {
    match r {
        ChronoReason::InvalidCalendarDate { year, month, day } => ascii_chars(
            dec4(year as int) + seq!['-' as u8] + dec2(month as int) + seq!['-' as u8] + dec2(
                day as int,
            ),
        ) + " is not a valid calendar date"@,
        ChronoReason::YearOutOfRange { year } => "year "@ + ascii_chars(signed_text(year as int))
            + " is outside 0-9999"@,
        ChronoReason::TimeOutOfRange => "time out of range"@,
    }
}

/// The dates a conversion error can name are those of HTTP dates.
pub open spec fn reason_wf(r: ChronoReason) -> bool {
    r matches ChronoReason::InvalidCalendarDate { year, month, day } ==> {
        &&& 0 <= year <= 9999
        &&& 1 <= month <= 12
        &&& 1 <= day <= 31
    }
}

impl ChronoError {
    #[verifier::type_invariant]
    pub(crate) open spec fn inv(self) -> bool {
        reason_wf(self@)
    }

    fn new(reason: ChronoReason) -> (r: ChronoError)
        requires
            reason_wf(reason),
        ensures
            r@ == reason,
    {
        ChronoError { reason }
    }

    /// Why the conversion failed.
    pub fn reason(&self) -> (r: ChronoReason)
        ensures
            r == self@,
    {
        self.reason
    }

    /// The message of this error.
    pub fn message(&self) -> (r: String)
        ensures
            r@ == chrono_message(self@),
    {
        proof {
            use_type_invariant(self);
        }
        match self.reason {
            ChronoReason::InvalidCalendarDate { year, month, day } => {
                let mut out: Vec<u8> = Vec::new();
                push_dec4(&mut out, year);
                push_byte(&mut out, '-' as u8);
                push_dec2(&mut out, month);
                push_byte(&mut out, '-' as u8);
                push_dec2(&mut out, day);
                let mut s = ascii_string(out);
                s.append(" is not a valid calendar date");
                s
            },
            ChronoReason::YearOutOfRange { year } => {
                let mut out: Vec<u8> = Vec::new();
                push_signed(&mut out, year);
                proof {
                    if year < 0 {
                        lemma_decimal_ascii((-year) as nat);
                        assert(is_ascii_bytes(seq!['-' as u8]));
                        crate::encoder::lemma_ascii_concat(
                            seq!['-' as u8],
                            crate::text::decimal_text((-year) as nat),
                        );
                    } else {
                        lemma_decimal_ascii(year as nat);
                    }
                }
                let digits = ascii_string(out);
                let mut s = String::from_str("year ");
                s.append(digits.as_str());
                s.append(" is outside 0-9999");
                s
            },
            ChronoReason::TimeOutOfRange => String::from_str("time out of range"),
        }
    }

    /// The error as text: `ChronoError: <message>`.
    pub fn to_string(&self) -> (r: String)
        ensures
            r@ == "ChronoError: "@ + chrono_message(self@),
    {
        let mut s = String::from_str("ChronoError: ");
        let m = self.message();
        s.append(m.as_str());
        s
    }
}

/* ------------------- conversions ------------------- */

/// The POSIX century window for a two-digit year: 69–99 → 1900s, else 2000s.
pub open spec fn posix_window(two_digit_year: int) -> int {
    if 69 <= two_digit_year <= 99 {
        1900 + two_digit_year
    } else {
        2000 + two_digit_year
    }
}

/// Maps an RFC 850 two-digit year to a full year with the POSIX century
/// window.
pub fn posix_year(two_digit_year: i32) -> (r: i32)
    requires
        two_digit_year <= i32::MAX - 2000,
    ensures
        r == posix_window(two_digit_year as int),
        0 <= two_digit_year <= 68 ==> r == 2000 + two_digit_year,
        69 <= two_digit_year <= 99 ==> r == 1900 + two_digit_year,
{
    if 69 <= two_digit_year && two_digit_year <= 99 {
        1900 + two_digit_year
    } else {
        2000 + two_digit_year
    }
}

/// The day of the week that chrono numbers `weekday` (Monday = 0).
pub fn dayname_from_weekday(weekday: u32) -> (r: DayName)
    requires
        weekday < 7,
    ensures
        r == day_at(weekday as int),
        r == seq![
            DayName::Mon,
            DayName::Tue,
            DayName::Wed,
            DayName::Thu,
            DayName::Fri,
            DayName::Sat,
            DayName::Sun,
        ][weekday as int],
{
    if weekday == 0 {
        DayName::Mon
    } else if weekday == 1 {
        DayName::Tue
    } else if weekday == 2 {
        DayName::Wed
    } else if weekday == 3 {
        DayName::Thu
    } else if weekday == 4 {
        DayName::Fri
    } else if weekday == 5 {
        DayName::Sat
    } else {
        DayName::Sun
    }
}

/// The full year an HTTP date stands for: an RFC 850 year through the
/// POSIX window, any other year as written.
pub open spec fn calendar_year(h: HttpDateModel) -> int {
    if h.format == Format::Rfc850 {
        posix_window(h.dt.date.year)
    } else {
        h.dt.date.year
    }
}

/// The UTC date-time an HTTP date stands for, or why there is none.
pub open spec fn utc_of(h: HttpDateModel) -> Result<UtcDateTimeModel, ChronoReason> {
    let year = calendar_year(h);
    let d = h.dt.date;
    let t = h.dt.time;
    if is_calendar_date(year, d.month, d.day) {
        Ok(
            UtcDateTimeModel {
                year,
                month: d.month,
                day: d.day,
                hour: t.hour,
                minute: t.minute,
                second: t.second,
            },
        )
    } else {
        Err(
            ChronoReason::InvalidCalendarDate {
                year: year as i32,
                month: d.month as i32,
                day: d.day as i32,
            },
        )
    }
}

/// The IMF-fixdate of a UTC date-time, or why there is none.
pub open spec fn http_date_of(u: UtcDateTimeModel) -> Result<HttpDateModel, ChronoReason> {
    let date = DateModel { year: u.year, month: u.month, day: u.day };
    if date.wf() {
        Ok(
            HttpDateModel {
                format: Format::ImfFixdate,
                dt: DateTimeModel {
                    dayname: day_at(weekday_number(u.year, u.month, u.day)),
                    date,
                    time: TimeModel { hour: u.hour, minute: u.minute, second: u.second },
                },
            },
        )
    } else {
        Err(ChronoReason::YearOutOfRange { year: u.year as i32 })
    }
}

/// A result read as its model.
pub open spec fn utc_result(r: Result<UtcDateTime, ChronoError>) -> Result<
    UtcDateTimeModel,
    ChronoReason,
> {
    match r {
        Ok(u) => Ok(u@),
        Err(e) => Err(e@),
    }
}

/// A result read as its model.
pub open spec fn http_result(r: Result<HttpDate, ChronoError>) -> Result<
    HttpDateModel,
    ChronoReason,
> {
    match r {
        Ok(h) => Ok(h@),
        Err(e) => Err(e@),
    }
}

impl HttpDate {
    /// The UTC date-time this date stands for.  Fails on a day that does
    /// not exist in the calendar (e.g. 31 February), which `decode` accepts.
    pub fn to_utc(&self) -> (r: Result<UtcDateTime, ChronoError>)
        ensures
            utc_result(r) == utc_of(self@),
    {
        proof {
            use_type_invariant(self);
        }
        let dt = self.datetime();
        let year = if self.is_rfc850() {
            posix_year(dt.date.year())
        } else {
            dt.date.year()
        };
        let month = dt.date.month();
        let day = dt.date.day();
        if calendar_day(year, month as u32, day as u32).is_none() {
            return Err(
                ChronoError::new(ChronoReason::InvalidCalendarDate { year, month, day }),
            );
        }
        let hour = dt.time.hour() as u32;
        let minute = dt.time.minute() as u32;
        let second = dt.time.second() as u32;
        if !time_exists(hour, minute, second) {
            return Err(ChronoError::new(ChronoReason::TimeOutOfRange));
        }
        Ok(UtcDateTime { year, month: month as u32, day: day as u32, hour, minute, second })
    }

    /// The IMF-fixdate of a UTC date-time.  Fails on a year outside
    /// 0–9999, which a four-digit year cannot write.
    pub fn from_utc(dt: &UtcDateTime) -> (r: Result<HttpDate, ChronoError>)
        ensures
            http_result(r) == http_date_of(dt@),
    {
        let year = dt.year();
        let date = match Date::new(year, dt.month() as i32, dt.day() as i32) {
            Ok(d) => d,
            Err(_) => return Err(ChronoError::new(ChronoReason::YearOutOfRange { year })),
        };
        let time = match Time::new(dt.hour() as i32, dt.minute() as i32, dt.second() as i32) {
            Ok(t) => t,
            Err(_) => return Err(ChronoError::new(ChronoReason::TimeOutOfRange)),
        };
        Ok(HttpDate::imf_fixdate(DateTime { dayname: dt.weekday(), date, time }))
    }
}

/// Converting an HTTP date to a UTC date-time and back gives an IMF-fixdate
/// that converts to the same date-time: the conversions reach a fixed point
/// after one round.
pub proof fn lemma_utc_round_trip(h: HttpDateModel)
    requires
        h.wf(),
    ensures
        utc_of(h) matches Ok(u) ==> {
            &&& http_date_of(u) matches Ok(h2)
            &&& h2.format == Format::ImfFixdate
            &&& utc_of(h2) == Ok::<UtcDateTimeModel, ChronoReason>(u)
        },
{
}

/// An IMF-fixdate or asctime date on an existing day converts to a UTC
/// date-time and back to the same date and time, as an IMF-fixdate whose
/// day name is the calendar's.
pub proof fn lemma_http_date_round_trip(h: HttpDateModel)
    requires
        h.wf(),
        h.format != Format::Rfc850,
        is_calendar_date(h.dt.date.year, h.dt.date.month, h.dt.date.day),
    ensures
        utc_of(h) matches Ok(u) && http_date_of(u) == Ok::<HttpDateModel, ChronoReason>(
            HttpDateModel {
                format: Format::ImfFixdate,
                dt: DateTimeModel {
                    dayname: day_at(weekday_number(h.dt.date.year, h.dt.date.month, h.dt.date.day)),
                    date: h.dt.date,
                    time: h.dt.time,
                },
            },
        ),
{
}

/// Converting an HTTP date to UTC keeps its month, day and time of day as
/// they are; only the year of an RFC 850 date is widened, to 1900 + y for a
/// two-digit year y of 69–99 and to 2000 + y for one of 0–68.  The
/// conversion succeeds exactly when that day exists in the calendar.
pub proof fn lemma_to_utc_fields(h: HttpDateModel)
    requires
        h.wf(),
    ensures
        ({
            let y = h.dt.date.year;
            let year = if h.format != Format::Rfc850 {
                y
            } else if y <= 68 {
                2000 + y
            } else {
                1900 + y
            };
            &&& h.format == Format::Rfc850 ==> 0 <= y <= 99
            &&& utc_of(h) is Ok <==> is_calendar_date(year, h.dt.date.month, h.dt.date.day)
            &&& utc_of(h) matches Ok(u) ==> {
                &&& u.year == year
                &&& u.month == h.dt.date.month
                &&& u.day == h.dt.date.day
                &&& u.hour == h.dt.time.hour
                &&& u.minute == h.dt.time.minute
                &&& u.second == h.dt.time.second
            }
        }),
{
}

/// Converting a UTC date-time to an HTTP date gives an IMF-fixdate with the
/// same date and time of day, named by the calendar's day of the week
/// (chrono's number, Monday = 0 … Sunday = 6); it succeeds exactly when the
/// year is 0–9999.
pub proof fn lemma_from_utc_fields(u: UtcDateTimeModel)
    requires
        u.wf(),
    ensures
        http_date_of(u) is Ok <==> 0 <= u.year <= 9999,
        http_date_of(u) matches Ok(h) ==> {
            &&& h.format == Format::ImfFixdate
            &&& h.dt.date.year == u.year
            &&& h.dt.date.month == u.month
            &&& h.dt.date.day == u.day
            &&& h.dt.time.hour == u.hour
            &&& h.dt.time.minute == u.minute
            &&& h.dt.time.second == u.second
            &&& 0 <= weekday_number(u.year, u.month, u.day) < 7 ==> h.dt.dayname == seq![
                DayName::Mon,
                DayName::Tue,
                DayName::Wed,
                DayName::Thu,
                DayName::Fri,
                DayName::Sat,
                DayName::Sun,
            ][weekday_number(u.year, u.month, u.day)]
        },
{
    let w = weekday_number(u.year, u.month, u.day);
    if 0 <= w < 7 {
        crate::names::lemma_weekday_numbering(w);
    }
}

} // verus!
