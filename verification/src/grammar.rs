//! The HTTP-date grammar of RFC 9110 § 5.6.7 as the library reads and
//! writes it, stated over bytes.
//!
//! Each reading step starts at a byte offset and yields its result together
//! with the offset where it stopped; on failure the result is the error, and
//! the offset is where the reader was left.
use vstd::prelude::*;

use crate::text::digit_byte;
use crate::names::{dayname_token, long_name, month_text, month_number, short_name};
use crate::types::{
    DateModel, DateTimeModel, DayName, DayNameTok, DecodeErrorModel, ErrorKind, Format,
    HttpDateModel, PunctuationTok, TimeModel,
};

verus! {

/// The outcome of a reading step and the offset where it stopped.
pub type Step<T> = (Result<T, DecodeErrorModel>, int);

/// An error of the given kind at byte offset `pos`.
pub open spec fn fail(kind: ErrorKind, pos: int) -> DecodeErrorModel {
    DecodeErrorModel { kind, pos: Some(pos) }
}

pub open spec fn is_digit(b: u8) -> bool {
    '0' as u8 <= b <= '9' as u8
}

/// An ASCII letter.
pub open spec fn is_alpha(b: u8) -> bool {
    ('A' as u8 <= b <= 'Z' as u8) || ('a' as u8 <= b <= 'z' as u8)
}

/// Offset `i` of the UTF-8 text `s` starts a character or ends the text.
pub open spec fn on_boundary(s: Seq<u8>, i: int) -> bool {
    i == s.len() || (0 <= i < s.len() && !(0x80 <= s[i] < 0xc0))
}

/// The byte at offset `i`, or "unexpected end of input" at `i`.
pub open spec fn byte_at(s: Seq<u8>, i: int) -> Result<u8, DecodeErrorModel> {
    if 0 <= i < s.len() {
        Ok(s[i])
    } else {
        Err(fail(ErrorKind::UnexpectedEnd, i))
    }
}

/// Reads the byte `c`.
pub open spec fn expect_byte(s: Seq<u8>, p: int, c: u8) -> Step<()> {
    match byte_at(s, p) {
        Err(e) => (Err(e), p),
        Ok(b) => if b == c {
            (Ok(()), p + 1)
        } else {
            (Err(fail(ErrorKind::UnexpectedCharacter, p)), p)
        },
    }
}

/// The decimal value of the `n` digits at `p`, or the error at the first
/// offset among them that is missing or holds no digit.
pub open spec fn digit_scan(s: Seq<u8>, p: int, n: nat) -> Result<int, DecodeErrorModel>
    decreases n,
{
    if n == 0 {
        Ok(0)
    } else {
        match digit_scan(s, p, (n - 1) as nat) {
            Err(e) => Err(e),
            Ok(v) => {
                let i = p + n - 1;
                if !(0 <= i < s.len()) {
                    Err(fail(ErrorKind::UnexpectedEnd, i))
                } else if !is_digit(s[i]) {
                    Err(fail(ErrorKind::ExpectedDigit, i))
                } else {
                    Ok(v * 10 + (s[i] - '0' as u8))
                }
            },
        }
    }
}

/// Once the scan of the first `k` digits fails, the scan of more fails
/// with the same error.
pub proof fn lemma_digit_scan_err(s: Seq<u8>, p: int, k: nat, n: nat)
    requires
        k <= n,
        digit_scan(s, p, k) is Err,
    ensures
        digit_scan(s, p, n) == digit_scan(s, p, k),
    decreases n - k,
{
    if k < n {
        lemma_digit_scan_err(s, p, k, (n - 1) as nat);
    }
}

/// Reads exactly `n` digits; the reader moves only on success.
pub open spec fn digits(s: Seq<u8>, p: int, n: nat) -> Step<int> {
    match digit_scan(s, p, n) {
        Ok(v) => (Ok(v), p + n),
        Err(e) => (Err(e), p),
    }
}

/// Reads a three-letter month name.  The three bytes must be whole
/// characters of the text, else the input counts as ended.
pub open spec fn month_step(s: Seq<u8>, p: int) -> Step<int> {
    if !(p + 3 <= s.len() && on_boundary(s, p) && on_boundary(s, p + 3)) {
        (Err(fail(ErrorKind::UnexpectedEnd, p)), p)
    } else {
        match month_number(s.subrange(p, p + 3)) {
            Some(m) => (Ok(m), p + 3),
            None => (Err(fail(ErrorKind::InvalidMonth, p)), p),
        }
    }
}

/// The end of the run of ASCII letters that starts at `p`.
pub open spec fn alpha_end(s: Seq<u8>, p: int) -> int
    decreases s.len() - p,
{
    if 0 <= p < s.len() && is_alpha(s[p]) {
        alpha_end(s, p + 1)
    } else {
        p
    }
}

/// The run of letters from `p` ends at the first offset that is not a
/// letter, or at the end of the text.
pub proof fn lemma_alpha_end(s: Seq<u8>, p: int)
    requires
        0 <= p <= s.len(),
    ensures
        p <= alpha_end(s, p) <= s.len(),
        forall|i: int| p <= i < alpha_end(s, p) ==> is_alpha(#[trigger] s[i]),
        alpha_end(s, p) == s.len() || !is_alpha(s[alpha_end(s, p)]),
    decreases s.len() - p,
{
    if p < s.len() && is_alpha(s[p]) {
        lemma_alpha_end(s, p + 1);
    }
}

/// Reads a run of letters that must name a day; the reader moves past the
/// run either way.
pub open spec fn dayname_step(s: Seq<u8>, p: int) -> Step<DayNameTok> {
    let q = alpha_end(s, p);
    match dayname_token(s.subrange(p, q)) {
        Some(t) => (Ok(t), q),
        None => (Err(fail(ErrorKind::InvalidDayName, p)), q),
    }
}

/// Reads the `,` or ` ` after a three-letter day name.
pub open spec fn punctuation_step(s: Seq<u8>, p: int) -> Step<PunctuationTok> {
    match byte_at(s, p) {
        Err(e) => (Err(e), p),
        Ok(b) => if b == ',' as u8 {
            (Ok(PunctuationTok::Comma), p + 1)
        } else if b == ' ' as u8 {
            (Ok(PunctuationTok::Space), p + 1)
        } else {
            (Err(fail(ErrorKind::ExpectedPunctuation, p)), p)
        },
    }
}

/// Checks a date read from offset `start`; the reader stays at `end`.
pub open spec fn checked_date(year: int, month: int, day: int, start: int, end: int) -> Step<
    DateModel,
> {
    let d = DateModel { year, month, day };
    if d.wf() {
        (Ok(d), end)
    } else {
        (Err(fail(ErrorKind::DateOutOfRange, start)), end)
    }
}

/// `date1 = day SP month SP year`, e.g. `06 Nov 1994`.
pub open spec fn date1_step(s: Seq<u8>, p: int) -> Step<DateModel> {
    let (rd, p1) = digits(s, p, 2);
    match rd {
        Err(e) => (Err(e), p1),
        Ok(day) => {
            let (r1, p2) = expect_byte(s, p1, ' ' as u8);
            match r1 {
                Err(e) => (Err(e), p2),
                Ok(_) => {
                    let (rm, p3) = month_step(s, p2);
                    match rm {
                        Err(e) => (Err(e), p3),
                        Ok(month) => {
                            let (r2, p4) = expect_byte(s, p3, ' ' as u8);
                            match r2 {
                                Err(e) => (Err(e), p4),
                                Ok(_) => {
                                    let (ry, p5) = digits(s, p4, 4);
                                    match ry {
                                        Err(e) => (Err(e), p5),
                                        Ok(year) => checked_date(year, month, day, p, p5),
                                    }
                                },
                            }
                        },
                    }
                },
            }
        },
    }
}

/// `time-of-day = hour ":" minute ":" second`, e.g. `08:49:37`.
pub open spec fn time_step(s: Seq<u8>, p: int) -> Step<TimeModel> {
    let (rh, p1) = digits(s, p, 2);
    match rh {
        Err(e) => (Err(e), p1),
        Ok(hour) => {
            let (r1, p2) = expect_byte(s, p1, ':' as u8);
            match r1 {
                Err(e) => (Err(e), p2),
                Ok(_) => {
                    let (rm, p3) = digits(s, p2, 2);
                    match rm {
                        Err(e) => (Err(e), p3),
                        Ok(minute) => {
                            let (r2, p4) = expect_byte(s, p3, ':' as u8);
                            match r2 {
                                Err(e) => (Err(e), p4),
                                Ok(_) => {
                                    let (rs, p5) = digits(s, p4, 2);
                                    match rs {
                                        Err(e) => (Err(e), p5),
                                        Ok(second) => {
                                            let t = TimeModel { hour, minute, second };
                                            if t.wf() {
                                                (Ok(t), p5)
                                            } else {
                                                (Err(fail(ErrorKind::TimeOutOfRange, p)), p5)
                                            }
                                        },
                                    }
                                },
                            }
                        },
                    }
                },
            }
        },
    }
}

/// The bytes of `GMT`.
pub open spec fn gmt_text() -> Seq<u8> {
    seq!['G' as u8, 'M' as u8, 'T' as u8]
}

/// Reads a run of letters that must be `GMT`; the reader moves past the run
/// either way.
pub open spec fn gmt_step(s: Seq<u8>, p: int) -> Step<()> {
    let q = alpha_end(s, p);
    if s.subrange(p, q) == gmt_text() {
        (Ok(()), q)
    } else {
        (Err(fail(ErrorKind::ExpectedGmt, p)), q)
    }
}

/// The rest of an IMF-fixdate after `day-name ","`: `SP date1 SP time SP GMT`.
pub open spec fn imf_fixdate_step(s: Seq<u8>, p: int, dayname: DayName) -> Step<HttpDateModel> {
    let (r1, p1) = expect_byte(s, p, ' ' as u8);
    match r1 {
        Err(e) => (Err(e), p1),
        Ok(_) => {
            let (rd, p2) = date1_step(s, p1);
            match rd {
                Err(e) => (Err(e), p2),
                Ok(date) => {
                    let (r2, p3) = expect_byte(s, p2, ' ' as u8);
                    match r2 {
                        Err(e) => (Err(e), p3),
                        Ok(_) => {
                            let (rt, p4) = time_step(s, p3);
                            match rt {
                                Err(e) => (Err(e), p4),
                                Ok(time) => {
                                    let (r3, p5) = expect_byte(s, p4, ' ' as u8);
                                    match r3 {
                                        Err(e) => (Err(e), p5),
                                        Ok(_) => {
                                            let (rg, p6) = gmt_step(s, p5);
                                            match rg {
                                                Err(e) => (Err(e), p6),
                                                Ok(_) => (
                                                    Ok(
                                                        HttpDateModel {
                                                            format: Format::ImfFixdate,
                                                            dt: DateTimeModel { dayname, date, time },
                                                        },
                                                    ),
                                                    p6,
                                                ),
                                            }
                                        },
                                    }
                                },
                            }
                        },
                    }
                },
            }
        },
    }
}

/// `date2 = day "-" month "-" 2DIGIT`, e.g. `06-Nov-94`.
pub open spec fn date2_step(s: Seq<u8>, p: int) -> Step<DateModel> {
    let (rd, p1) = digits(s, p, 2);
    match rd {
        Err(e) => (Err(e), p1),
        Ok(day) => {
            let (r1, p2) = expect_byte(s, p1, '-' as u8);
            match r1 {
                Err(e) => (Err(e), p2),
                Ok(_) => {
                    let (rm, p3) = month_step(s, p2);
                    match rm {
                        Err(e) => (Err(e), p3),
                        Ok(month) => {
                            let (r2, p4) = expect_byte(s, p3, '-' as u8);
                            match r2 {
                                Err(e) => (Err(e), p4),
                                Ok(_) => {
                                    let (ry, p5) = digits(s, p4, 2);
                                    match ry {
                                        Err(e) => (Err(e), p5),
                                        Ok(year) => checked_date(year, month, day, p, p5),
                                    }
                                },
                            }
                        },
                    }
                },
            }
        },
    }
}

/// The rest of an RFC 850 date after the full day name:
/// `"," SP date2 SP time SP GMT`.
pub open spec fn rfc850_step(s: Seq<u8>, p: int, dayname: DayName) -> Step<HttpDateModel> {
    let (r0, p0) = expect_byte(s, p, ',' as u8);
    match r0 {
        Err(e) => (Err(e), p0),
        Ok(_) => {
            let (r1, p1) = expect_byte(s, p0, ' ' as u8);
            match r1 {
                Err(e) => (Err(e), p1),
                Ok(_) => {
                    let (rd, p2) = date2_step(s, p1);
                    match rd {
                        Err(e) => (Err(e), p2),
                        Ok(date) => {
                            let (r2, p3) = expect_byte(s, p2, ' ' as u8);
                            match r2 {
                                Err(e) => (Err(e), p3),
                                Ok(_) => {
                                    let (rt, p4) = time_step(s, p3);
                                    match rt {
                                        Err(e) => (Err(e), p4),
                                        Ok(time) => {
                                            let (r3, p5) = expect_byte(s, p4, ' ' as u8);
                                            match r3 {
                                                Err(e) => (Err(e), p5),
                                                Ok(_) => {
                                                    let (rg, p6) = gmt_step(s, p5);
                                                    match rg {
                                                        Err(e) => (Err(e), p6),
                                                        Ok(_) => if 0 <= date.year <= 99 {
                                                            (
                                                                Ok(
                                                                    HttpDateModel {
                                                                        format: Format::Rfc850,
                                                                        dt: DateTimeModel {
                                                                            dayname,
                                                                            date,
                                                                            time,
                                                                        },
                                                                    },
                                                                ),
                                                                p6,
                                                            )
                                                        } else {
                                                            (
                                                                Err(
                                                                    fail(
                                                                        ErrorKind::Rfc850YearOutOfRange,
                                                                        p6,
                                                                    ),
                                                                ),
                                                                p6,
                                                            )
                                                        },
                                                    }
                                                },
                                            }
                                        },
                                    }
                                },
                            }
                        },
                    }
                },
            }
        },
    }
}

/// `date3 = month SP ( 2DIGIT / ( SP DIGIT ) )`, e.g. `Nov  6`; yields
/// (month, day).
pub open spec fn date3_step(s: Seq<u8>, p: int) -> Step<(int, int)> {
    let (rm, p1) = month_step(s, p);
    match rm {
        Err(e) => (Err(e), p1),
        Ok(month) => {
            let (r1, p2) = expect_byte(s, p1, ' ' as u8);
            match r1 {
                Err(e) => (Err(e), p2),
                Ok(_) => match byte_at(s, p2) {
                    Err(e) => (Err(e), p2),
                    Ok(b) => if b == ' ' as u8 {
                        let (rd, p3) = digits(s, p2 + 1, 1);
                        match rd {
                            Err(e) => (Err(e), p3),
                            Ok(day) => (Ok((month, day)), p3),
                        }
                    } else {
                        let (rd, p3) = digits(s, p2, 2);
                        match rd {
                            Err(e) => (Err(e), p3),
                            Ok(day) => (Ok((month, day)), p3),
                        }
                    },
                },
            }
        },
    }
}

/// The rest of an asctime date after `day-name SP`:
/// `date3 SP time SP year`.
pub open spec fn asctime_step(s: Seq<u8>, p: int, dayname: DayName) -> Step<HttpDateModel> {
    let (rmd, p1) = date3_step(s, p);
    match rmd {
        Err(e) => (Err(e), p1),
        Ok(md) => {
            let (r1, p2) = expect_byte(s, p1, ' ' as u8);
            match r1 {
                Err(e) => (Err(e), p2),
                Ok(_) => {
                    let (rt, p3) = time_step(s, p2);
                    match rt {
                        Err(e) => (Err(e), p3),
                        Ok(time) => {
                            let (r2, p4) = expect_byte(s, p3, ' ' as u8);
                            match r2 {
                                Err(e) => (Err(e), p4),
                                Ok(_) => {
                                    let (ry, p5) = digits(s, p4, 4);
                                    match ry {
                                        Err(e) => (Err(e), p5),
                                        Ok(year) => {
                                            let (rd, p6) = checked_date(year, md.0, md.1, p, p5);
                                            match rd {
                                                Err(e) => (Err(e), p6),
                                                Ok(date) => (
                                                    Ok(
                                                        HttpDateModel {
                                                            format: Format::Asctime,
                                                            dt: DateTimeModel { dayname, date, time },
                                                        },
                                                    ),
                                                    p6,
                                                ),
                                            }
                                        },
                                    }
                                },
                            }
                        },
                    }
                },
            }
        },
    }
}

/// Reads an HTTP date from offset 0, in the format its day name and the
/// separator after it select, without checking what follows it.
pub open spec fn http_date_step(s: Seq<u8>) -> Step<HttpDateModel> {
    let (rt, p1) = dayname_step(s, 0);
    match rt {
        Err(e) => (Err(e), p1),
        Ok(DayNameTok::Long(d)) => rfc850_step(s, p1, d),
        Ok(DayNameTok::Short(d)) => {
            let (rp, p2) = punctuation_step(s, p1);
            match rp {
                Err(e) => (Err(e), p2),
                Ok(PunctuationTok::Comma) => imf_fixdate_step(s, p2, d),
                Ok(PunctuationTok::Space) => asctime_step(s, p2, d),
            }
        },
    }
}

/// The result of decoding the bytes `s`: the date they spell, which must
/// span all of `s`.
pub open spec fn decode_bytes(s: Seq<u8>) -> Result<HttpDateModel, DecodeErrorModel> {
    let (r, p) = http_date_step(s);
    match r {
        Err(e) => Err(e),
        Ok(date) => if p != s.len() {
            Err(fail(ErrorKind::TrailingData, p))
        } else {
            Ok(date)
        },
    }
}

/* ------------------- writing ------------------- */

/// `v` as two digits, zero-padded (`{:02}`).
pub open spec fn dec2(v: int) -> Seq<u8> {
    seq![digit_byte(v / 10 % 10), digit_byte(v % 10)]
}

/// `v` as four digits, zero-padded (`{:04}`).
pub open spec fn dec4(v: int) -> Seq<u8> {
    seq![digit_byte(v / 1000 % 10), digit_byte(v / 100 % 10), digit_byte(v / 10 % 10), digit_byte(v % 10)]
}

/// `v` right-aligned in two columns, space-padded (`{:2}`).
pub open spec fn pad2(v: int) -> Seq<u8> {
    if v < 10 {
        seq![' ' as u8, digit_byte(v)]
    } else {
        dec2(v)
    }
}

/// `HH:MM:SS`.
pub open spec fn time_text(t: TimeModel) -> Seq<u8> {
    dec2(t.hour) + seq![':' as u8] + dec2(t.minute) + seq![':' as u8] + dec2(t.second)
}

/// `date1` text, e.g. `06 Nov 1994`.
pub open spec fn date1_text(d: DateModel) -> Seq<u8> {
    dec2(d.day) + seq![' ' as u8] + month_text(d.month) + seq![' ' as u8] + dec4(d.year)
}

/// `date2` text, e.g. `06-Nov-94`.
pub open spec fn date2_text(d: DateModel) -> Seq<u8> {
    dec2(d.day) + seq!['-' as u8] + month_text(d.month) + seq!['-' as u8] + dec2(d.year)
}

/// `date3` text, e.g. `Nov  6`.
pub open spec fn date3_text(d: DateModel) -> Seq<u8> {
    month_text(d.month) + seq![' ' as u8] + pad2(d.day)
}

/// ` GMT`.
pub open spec fn gmt_suffix() -> Seq<u8> {
    seq![' ' as u8] + gmt_text()
}

/// The text of an HTTP date in its own format:
/// `Sun, 06 Nov 1994 08:49:37 GMT`, `Sunday, 06-Nov-94 08:49:37 GMT` or
/// `Sun Nov  6 08:49:37 1994`.
pub open spec fn encode_model(h: HttpDateModel) -> Seq<u8> {
    let dt = h.dt;
    match h.format {
        Format::ImfFixdate => short_name(dt.dayname) + seq![',' as u8, ' ' as u8] + date1_text(
            dt.date,
        ) + seq![' ' as u8] + time_text(dt.time) + gmt_suffix(),
        Format::Rfc850 => long_name(dt.dayname) + seq![',' as u8, ' ' as u8] + date2_text(dt.date)
            + seq![' ' as u8] + time_text(dt.time) + gmt_suffix(),
        Format::Asctime => short_name(dt.dayname) + seq![' ' as u8] + date3_text(dt.date) + seq![
            ' ' as u8,
        ] + time_text(dt.time) + seq![' ' as u8] + dec4(dt.date.year),
    }
}

} // verus!
