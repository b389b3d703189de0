//! The streaming reader of HTTP date values, and [`decode`].
use vstd::prelude::*;
use vstd::string::StringSliceAdditionalSpecFns;

use crate::grammar::{
    alpha_end, asctime_step, byte_at, date1_step, date2_step, date3_step, dayname_step,
    decode_bytes, digit_scan, digits, expect_byte, gmt_step, gmt_text, imf_fixdate_step, is_alpha,
    is_digit, lemma_alpha_end, lemma_digit_scan_err, month_step, on_boundary, punctuation_step,
    rfc850_step, time_step,
};
use crate::names::{lookup_dayname, lookup_month};
use crate::steps::{decimal_value, lemma_digits_value};
use crate::text::{ascii_chars, ascii_string, is_ascii_bytes, lemma_pow10_le_9, pow10, push_range};
use crate::types::{
    Date, DateTime, DayName, DayNameTok, DecodeError, DecodeErrorModel, ErrorKind, HttpDate,
    PunctuationTok, Time,
};

verus! {

/// A result whose value is its own model.
pub open spec fn plain_result<T>(r: Result<T, DecodeError>) -> Result<T, DecodeErrorModel> {
    match r {
        Ok(v) => Ok(v),
        Err(e) => Err(e@),
    }
}

/// A result read as its model.
pub open spec fn model_result<T: View>(r: Result<T, DecodeError>) -> Result<T::V, DecodeErrorModel> {
    match r {
        Ok(v) => Ok(v@),
        Err(e) => Err(e@),
    }
}

/// A numeric result read as an integer.
pub open spec fn int_result(r: Result<i32, DecodeError>) -> Result<int, DecodeErrorModel> {
    match r {
        Ok(v) => Ok(v as int),
        Err(e) => Err(e@),
    }
}

/// A (month, day) result read as integers.
pub open spec fn pair_result(r: Result<(i32, i32), DecodeError>) -> Result<
    (int, int),
    DecodeErrorModel,
> {
    match r {
        Ok(v) => Ok((v.0 as int, v.1 as int)),
        Err(e) => Err(e@),
    }
}

fn is_digit_byte(b: u8) -> (r: bool)
    ensures
        r == is_digit(b),
{
    '0' as u8 <= b && b <= '9' as u8
}

fn is_alpha_byte(b: u8) -> (r: bool)
    ensures
        r == is_alpha(b),
{
    ('A' as u8 <= b && b <= 'Z' as u8) || ('a' as u8 <= b && b <= 'z' as u8)
}

fn boundary_at(buf: &[u8], i: usize) -> (r: bool)
    requires
        i <= buf@.len(),
    ensures
        r == on_boundary(buf@, i as int),
{
    i == buf.len() || !(0x80 <= buf[i] && buf[i] < 0xc0)
}

/// A reader of an HTTP date: the bytes of the text and the offset reached.
pub struct Decoder<'a> {
    buf: &'a [u8],
    pos: usize,
}

impl<'a> Decoder<'a> {
    #[verifier::type_invariant]
    spec fn inv(self) -> bool {
        self.pos <= self.buf@.len()
    }

    /// The bytes being read.
    pub closed spec fn input(&self) -> Seq<u8> {
        self.buf@
    }

    /// The offset reached.
    pub closed spec fn cursor(&self) -> int {
        self.pos as int
    }

    /// A reader at the start of `buf`.
    pub fn new(buf: &'a str) -> (d: Decoder<'a>)
        ensures
            d.input() == buf.spec_bytes(),
            d.cursor() == 0,
    {
        Decoder { buf: buf.as_bytes(), pos: 0 }
    }

    /// The offset reached.
    pub fn pos(&self) -> (r: usize)
        ensures
            r == self.cursor(),
            r <= self.input().len(),
    {
        proof {
            use_type_invariant(self);
        }
        self.pos
    }

    /// Moves `n` bytes on.
    pub fn advance(&mut self, n: usize)
        requires
            old(self).cursor() + n <= old(self).input().len(),
        ensures
            final(self).input() == old(self).input(),
            final(self).cursor() == old(self).cursor() + n,
    {
        let len = self.buf.len();
        assert(self.pos + n <= len);
        self.pos = self.pos + n;
    }

    /// The byte at offset `idx`.
    pub fn byte_at(&self, idx: usize) -> (r: Result<u8, DecodeError>)
        ensures
            plain_result(r) == byte_at(self.input(), idx as int),
    {
        if idx < self.buf.len() {
            Ok(self.buf[idx])
        } else {
            Err(DecodeError::new(ErrorKind::UnexpectedEnd).at(idx))
        }
    }

    /// Reads the byte `expected`.
    pub fn expect(&mut self, expected: u8) -> (r: Result<(), DecodeError>)
        ensures
            final(self).input() == old(self).input(),
            (plain_result(r), final(self).cursor()) == expect_byte(
                old(self).input(),
                old(self).cursor(),
                expected,
            ),
    {
        proof {
            use_type_invariant(&*self);
        }
        let actual = match self.byte_at(self.pos) {
            Ok(b) => b,
            Err(e) => return Err(e),
        };
        let len = self.buf.len();
        if actual == expected {
            self.pos = self.pos + 1;
            Ok(())
        } else {
            Err(DecodeError::new(ErrorKind::UnexpectedCharacter).at(self.pos))
        }
    }

    /// Reads a space.
    pub fn space(&mut self) -> (r: Result<(), DecodeError>)
        ensures
            final(self).input() == old(self).input(),
            (plain_result(r), final(self).cursor()) == expect_byte(
                old(self).input(),
                old(self).cursor(),
                ' ' as u8,
            ),
    {
        self.expect(' ' as u8)
    }

    /// Reads a comma.
    pub fn comma(&mut self) -> (r: Result<(), DecodeError>)
        ensures
            final(self).input() == old(self).input(),
            (plain_result(r), final(self).cursor()) == expect_byte(
                old(self).input(),
                old(self).cursor(),
                ',' as u8,
            ),
    {
        self.expect(',' as u8)
    }

    /// Reads a colon.
    pub fn colon(&mut self) -> (r: Result<(), DecodeError>)
        ensures
            final(self).input() == old(self).input(),
            (plain_result(r), final(self).cursor()) == expect_byte(
                old(self).input(),
                old(self).cursor(),
                ':' as u8,
            ),
    {
        self.expect(':' as u8)
    }

    /// Reads a three-letter month name and returns its number, 1–12.
    pub fn month(&mut self) -> (r: Result<i32, DecodeError>)
        ensures
            final(self).input() == old(self).input(),
            (int_result(r), final(self).cursor()) == month_step(
                old(self).input(),
                old(self).cursor(),
            ),
    {
        proof {
            use_type_invariant(&*self);
        }
        let buf = self.buf;
        let p = self.pos;
        if !(buf.len() - p >= 3 && boundary_at(buf, p) && boundary_at(buf, p + 3)) {
            return Err(DecodeError::new(ErrorKind::UnexpectedEnd).at(p));
        }
        match lookup_month(buf, p) {
            Some(m) => {
                self.pos = p + 3;
                Ok(m)
            },
            None => Err(DecodeError::new(ErrorKind::InvalidMonth).at(p)),
        }
    }

    /// Reads exactly `n` digits and returns their decimal value; the reader
    /// moves only on success.
    pub fn digits(&mut self, n: usize) -> (r: Result<i32, DecodeError>)
        requires
            n <= 9,
        ensures
            final(self).input() == old(self).input(),
            (int_result(r), final(self).cursor()) == digits(
                old(self).input(),
                old(self).cursor(),
                n as nat,
            ),
            r matches Ok(v) ==> 0 <= v < pow10(n as nat),
            r matches Ok(v) ==> v == decimal_value(
                old(self).input().subrange(old(self).cursor(), old(self).cursor() + n),
            ),
    {
        proof {
            use_type_invariant(&*self);
        }
        let buf = self.buf;
        let p = self.pos;
        let len = buf.len();
        let mut value: i32 = 0;
        let mut i: usize = 0;
        while i < n
            invariant
                i <= n <= 9,
                self.pos == p,
                self.buf@ == buf@,
                old(self).input() == buf@,
                old(self).cursor() == p,
                p <= len,
                len == buf@.len(),
                i <= len - p,
                digit_scan(buf@, p as int, i as nat) == Ok::<int, DecodeErrorModel>(value as int),
                0 <= value < pow10(i as nat),
            decreases n - i,
        {
            if i == len - p {
                proof {
                    lemma_digit_scan_err(buf@, p as int, (i + 1) as nat, n as nat);
                }
                return Err(DecodeError::new(ErrorKind::UnexpectedEnd).at(len));
            }
            let c = buf[p + i];
            if !is_digit_byte(c) {
                proof {
                    lemma_digit_scan_err(buf@, p as int, (i + 1) as nat, n as nat);
                }
                return Err(DecodeError::new(ErrorKind::ExpectedDigit).at(p + i));
            }
            proof {
                lemma_pow10_le_9((i + 1) as nat);
            }
            value = value * 10 + (c - '0' as u8) as i32;
            i = i + 1;
        }
        proof {
            lemma_digits_value(buf@, p as int, n as nat);
        }
        self.pos = p + n;
        Ok(value)
    }

    /// Reads a four-digit year.
    pub fn year(&mut self) -> (r: Result<i32, DecodeError>)
        ensures
            final(self).input() == old(self).input(),
            (int_result(r), final(self).cursor()) == digits(
                old(self).input(),
                old(self).cursor(),
                4,
            ),
    {
        self.digits(4)
    }

    /// Reads a two-digit day of the month.
    pub fn day(&mut self) -> (r: Result<i32, DecodeError>)
        ensures
            final(self).input() == old(self).input(),
            (int_result(r), final(self).cursor()) == digits(
                old(self).input(),
                old(self).cursor(),
                2,
            ),
    {
        self.digits(2)
    }

    /// Moves past the run of ASCII letters at the reader and returns where
    /// the run started.
    fn skip_letters(&mut self) -> (start: usize)
        ensures
            final(self).input() == old(self).input(),
            start == old(self).cursor(),
            final(self).cursor() == alpha_end(old(self).input(), old(self).cursor()),
            start <= final(self).cursor() <= final(self).input().len(),
    {
        proof {
            use_type_invariant(&*self);
        }
        let ghost s = self.buf@;
        let start = self.pos;
        proof {
            lemma_alpha_end(s, start as int);
        }
        while self.pos < self.buf.len() && is_alpha_byte(self.buf[self.pos])
            invariant
                s == self.buf@,
                start <= self.pos <= s.len(),
                alpha_end(s, start as int) == alpha_end(s, self.pos as int),
            decreases s.len() - self.pos,
        {
            self.pos = self.pos + 1;
        }
        start
    }

    /// Consumes a run of ASCII letters and returns it.
    pub fn string(&mut self) -> (r: String)
        ensures
            final(self).input() == old(self).input(),
            final(self).cursor() == alpha_end(old(self).input(), old(self).cursor()),
            r@ == ascii_chars(
                old(self).input().subrange(
                    old(self).cursor(),
                    alpha_end(old(self).input(), old(self).cursor()),
                ),
            ),
    {
        let start = self.skip_letters();
        let mut out: Vec<u8> = Vec::new();
        push_range(&mut out, self.buf, start, self.pos);
        proof {
            lemma_alpha_end(self.buf@, start as int);
            assert(out@ =~= self.buf@.subrange(start as int, self.pos as int));
            assert forall|i: int| 0 <= i < out@.len() implies #[trigger] out@[i] < 128 by {
                assert(is_alpha(self.buf@[start + i]));
            }
            assert(is_ascii_bytes(out@));
        }
        ascii_string(out)
    }

    /// Reads a run of letters that must be a day name, abbreviated or full.
    pub fn dayname_tok(&mut self) -> (r: Result<DayNameTok, DecodeError>)
        ensures
            final(self).input() == old(self).input(),
            (plain_result(r), final(self).cursor()) == dayname_step(
                old(self).input(),
                old(self).cursor(),
            ),
    {
        let start = self.skip_letters();
        match lookup_dayname(self.buf, start, self.pos) {
            Some(t) => Ok(t),
            None => Err(DecodeError::new(ErrorKind::InvalidDayName).at(start)),
        }
    }

    /// Reads the `,` or ` ` after a three-letter day name.
    pub fn punctuation_tok(&mut self) -> (r: Result<PunctuationTok, DecodeError>)
        ensures
            final(self).input() == old(self).input(),
            (plain_result(r), final(self).cursor()) == punctuation_step(
                old(self).input(),
                old(self).cursor(),
            ),
    {
        proof {
            use_type_invariant(&*self);
        }
        let c = match self.byte_at(self.pos) {
            Ok(c) => c,
            Err(e) => return Err(e),
        };
        let tok = if c == ',' as u8 {
            PunctuationTok::Comma
        } else if c == ' ' as u8 {
            PunctuationTok::Space
        } else {
            return Err(DecodeError::new(ErrorKind::ExpectedPunctuation).at(self.pos));
        };
        let len = self.buf.len();
        self.pos = self.pos + 1;
        Ok(tok)
    }

    /// Reads `date1`, e.g. `06 Nov 1994`.
    pub fn date1(&mut self) -> (r: Result<Date, DecodeError>)
        ensures
            final(self).input() == old(self).input(),
            (model_result(r), final(self).cursor()) == date1_step(
                old(self).input(),
                old(self).cursor(),
            ),
    {
        proof {
            use_type_invariant(&*self);
        }
        let start = self.pos;
        let day = match self.day() {
            Ok(v) => v,
            Err(e) => return Err(e),
        };
        match self.space() {
            Ok(_) => {},
            Err(e) => return Err(e),
        }
        let month = match self.month() {
            Ok(v) => v,
            Err(e) => return Err(e),
        };
        match self.space() {
            Ok(_) => {},
            Err(e) => return Err(e),
        }
        let year = match self.year() {
            Ok(v) => v,
            Err(e) => return Err(e),
        };
        match Date::new(year, month, day) {
            Ok(d) => Ok(d),
            Err(e) => Err(e.at(start)),
        }
    }

    /// Reads a time of day, e.g. `08:49:37`.
    pub fn time(&mut self) -> (r: Result<Time, DecodeError>)
        ensures
            final(self).input() == old(self).input(),
            (model_result(r), final(self).cursor()) == time_step(
                old(self).input(),
                old(self).cursor(),
            ),
    {
        proof {
            use_type_invariant(&*self);
        }
        let start = self.pos;
        let hour = match self.digits(2) {
            Ok(v) => v,
            Err(e) => return Err(e),
        };
        match self.colon() {
            Ok(_) => {},
            Err(e) => return Err(e),
        }
        let minute = match self.digits(2) {
            Ok(v) => v,
            Err(e) => return Err(e),
        };
        match self.colon() {
            Ok(_) => {},
            Err(e) => return Err(e),
        }
        let second = match self.digits(2) {
            Ok(v) => v,
            Err(e) => return Err(e),
        };
        match Time::new(hour, minute, second) {
            Ok(t) => Ok(t),
            Err(e) => Err(e.at(start)),
        }
    }

    /// Reads a run of letters that must be `GMT`.
    pub fn gmt(&mut self) -> (r: Result<(), DecodeError>)
        ensures
            final(self).input() == old(self).input(),
            (plain_result(r), final(self).cursor()) == gmt_step(
                old(self).input(),
                old(self).cursor(),
            ),
    {
        let start = self.skip_letters();
        let gmt: &[u8] = &['G' as u8, 'M' as u8, 'T' as u8];
        assert(gmt@ =~= gmt_text());
        if !crate::names::range_eq(self.buf, start, self.pos, gmt) {
            return Err(DecodeError::new(ErrorKind::ExpectedGmt).at(start));
        }
        Ok(())
    }

    /// Reads the rest of an IMF-fixdate after `day-name ","`.
    pub fn imf_fixdate(&mut self, dayname: DayName) -> (r: Result<HttpDate, DecodeError>)
        ensures
            final(self).input() == old(self).input(),
            (model_result(r), final(self).cursor()) == imf_fixdate_step(
                old(self).input(),
                old(self).cursor(),
                dayname,
            ),
    {
        match self.space() {
            Ok(_) => {},
            Err(e) => return Err(e),
        }
        let date = match self.date1() {
            Ok(v) => v,
            Err(e) => return Err(e),
        };
        match self.space() {
            Ok(_) => {},
            Err(e) => return Err(e),
        }
        let time = match self.time() {
            Ok(v) => v,
            Err(e) => return Err(e),
        };
        match self.space() {
            Ok(_) => {},
            Err(e) => return Err(e),
        }
        match self.gmt() {
            Ok(_) => {},
            Err(e) => return Err(e),
        }
        Ok(HttpDate::imf_fixdate(DateTime { dayname, date, time }))
    }

    /// Reads `date2`, e.g. `06-Nov-94`.
    pub fn date2(&mut self) -> (r: Result<Date, DecodeError>)
        ensures
            final(self).input() == old(self).input(),
            (model_result(r), final(self).cursor()) == date2_step(
                old(self).input(),
                old(self).cursor(),
            ),
    {
        proof {
            use_type_invariant(&*self);
        }
        let start = self.pos;
        let day = match self.day() {
            Ok(v) => v,
            Err(e) => return Err(e),
        };
        match self.expect('-' as u8) {
            Ok(_) => {},
            Err(e) => return Err(e),
        }
        let month = match self.month() {
            Ok(v) => v,
            Err(e) => return Err(e),
        };
        match self.expect('-' as u8) {
            Ok(_) => {},
            Err(e) => return Err(e),
        }
        let year = match self.digits(2) {
            Ok(v) => v,
            Err(e) => return Err(e),
        };
        match Date::new(year, month, day) {
            Ok(d) => Ok(d),
            Err(e) => Err(e.at(start)),
        }
    }

    /// Reads the rest of an RFC 850 date after the full day name.
    pub fn rfc850_date(&mut self, dayname: DayName) -> (r: Result<HttpDate, DecodeError>)
        ensures
            final(self).input() == old(self).input(),
            (model_result(r), final(self).cursor()) == rfc850_step(
                old(self).input(),
                old(self).cursor(),
                dayname,
            ),
    {
        match self.comma() {
            Ok(_) => {},
            Err(e) => return Err(e),
        }
        match self.space() {
            Ok(_) => {},
            Err(e) => return Err(e),
        }
        let date = match self.date2() {
            Ok(v) => v,
            Err(e) => return Err(e),
        };
        match self.space() {
            Ok(_) => {},
            Err(e) => return Err(e),
        }
        let time = match self.time() {
            Ok(v) => v,
            Err(e) => return Err(e),
        };
        match self.space() {
            Ok(_) => {},
            Err(e) => return Err(e),
        }
        match self.gmt() {
            Ok(_) => {},
            Err(e) => return Err(e),
        }
        proof {
            use_type_invariant(&*self);
        }
        match HttpDate::rfc850(DateTime { dayname, date, time }) {
            Ok(d) => Ok(d),
            Err(e) => Err(e.at(self.pos)),
        }
    }

    /// Reads `date3`, e.g. `Nov  6`, and returns (month, day).
    pub fn date3(&mut self) -> (r: Result<(i32, i32), DecodeError>)
        ensures
            final(self).input() == old(self).input(),
            (pair_result(r), final(self).cursor()) == date3_step(
                old(self).input(),
                old(self).cursor(),
            ),
    {
        let m = match self.month() {
            Ok(v) => v,
            Err(e) => return Err(e),
        };
        match self.space() {
            Ok(_) => {},
            Err(e) => return Err(e),
        }
        proof {
            use_type_invariant(&*self);
        }
        let c = match self.byte_at(self.pos) {
            Ok(c) => c,
            Err(e) => return Err(e),
        };
        let d = if c == ' ' as u8 {
            match self.space() {
                Ok(_) => {},
                Err(e) => return Err(e),
            }
            match self.digits(1) {
                Ok(v) => v,
                Err(e) => return Err(e),
            }
        } else {
            match self.digits(2) {
                Ok(v) => v,
                Err(e) => return Err(e),
            }
        };
        Ok((m, d))
    }

    /// Reads the rest of an asctime date after `day-name SP`.
    pub fn asctime_date(&mut self, dayname: DayName) -> (r: Result<HttpDate, DecodeError>)
        ensures
            final(self).input() == old(self).input(),
            (model_result(r), final(self).cursor()) == asctime_step(
                old(self).input(),
                old(self).cursor(),
                dayname,
            ),
    {
        proof {
            use_type_invariant(&*self);
        }
        let start = self.pos;
        let (month, day) = match self.date3() {
            Ok(v) => v,
            Err(e) => return Err(e),
        };
        match self.space() {
            Ok(_) => {},
            Err(e) => return Err(e),
        }
        let time = match self.time() {
            Ok(v) => v,
            Err(e) => return Err(e),
        };
        match self.space() {
            Ok(_) => {},
            Err(e) => return Err(e),
        }
        let year = match self.year() {
            Ok(v) => v,
            Err(e) => return Err(e),
        };
        let date = match Date::new(year, month, day) {
            Ok(d) => d,
            Err(e) => return Err(e.at(start)),
        };
        Ok(HttpDate::asctime(DateTime { dayname, date, time }))
    }
}

/// Parses an HTTP date from its text, in any of the three formats of
/// RFC 9110 § 5.6.7.  The date must span the whole text.
///
/// The result is what [`decode_bytes`] says of the text's UTF-8 bytes: the
/// date and its format on success, else the first error and where it was
/// met.
pub fn decode(buf: &str) -> (r: Result<HttpDate, DecodeError>)
    ensures
        model_result(r) == decode_bytes(buf.spec_bytes()),
{
    let mut decoder = Decoder::new(buf);
    let tok = match decoder.dayname_tok() {
        Ok(t) => t,
        Err(e) => return Err(e),
    };
    let date = match tok {
        DayNameTok::Long(dayname) => decoder.rfc850_date(dayname),
        DayNameTok::Short(dayname) => {
            let punct = match decoder.punctuation_tok() {
                Ok(p) => p,
                Err(e) => return Err(e),
            };
            match punct {
                PunctuationTok::Comma => decoder.imf_fixdate(dayname),
                PunctuationTok::Space => decoder.asctime_date(dayname),
            }
        },
    };
    let date = match date {
        Ok(d) => d,
        Err(e) => return Err(e),
    };
    let pos = decoder.pos();
    if pos != buf.as_bytes().len() {
        return Err(DecodeError::new(ErrorKind::TrailingData).at(pos));
    }
    Ok(date)
}

} // verus!
