//! What each reading step does, stated directly: where errors are reported,
//! what value digits have, and what text each format's rest must be.
use vstd::prelude::*;

use crate::grammar::{
    asctime_step, date1_step, date2_step, date3_step, date3_text, dayname_step, dec2, dec4,
    decode_bytes, digit_scan, digits, encode_model, expect_byte, fail, gmt_step, imf_fixdate_step,
    is_digit, lemma_alpha_end, month_step, pad2, punctuation_step, rfc850_step, time_step,
    time_text, Step,
};
use crate::laws::{lemma_asctime_layout, lemma_imf_fixdate_layout, lemma_rfc850_layout};
use crate::names::long_name;
use crate::strictness::{
    asctime_zero_day_text, lemma_asctime_zero_day_layout, lemma_date1_text, lemma_date2_text,
    lemma_date3_text, lemma_digits4_text, lemma_expect_text, lemma_gmt_text, lemma_time_text,
};
use crate::text::pow10;
use crate::types::{
    DayName, DayNameTok, DecodeErrorModel, ErrorKind, Format, HttpDateModel, PunctuationTok,
};

verus! {

/// A step read from `p` stops between `p` and the end of the text, and an
/// error it reports carries an offset in the text (at most its length).
pub open spec fn within<T>(r: Step<T>, p: int, len: int) -> bool {
    &&& p <= r.1 <= len
    &&& (r.0 matches Err(e) ==> (e.pos matches Some(q) && 0 <= q <= len))
}

proof fn lemma_digit_scan_within(s: Seq<u8>, p: int, n: nat)
    requires
        0 <= p <= s.len(),
    ensures
        digit_scan(s, p, n) matches Err(e) ==> (e.pos matches Some(q) && p <= q <= s.len()),
        digit_scan(s, p, n) is Ok ==> p + n <= s.len(),
    decreases n,
{
    if n > 0 {
        lemma_digit_scan_within(s, p, (n - 1) as nat);
    }
}

proof fn lemma_digits_within(s: Seq<u8>, p: int, n: nat)
    requires
        0 <= p <= s.len(),
    ensures
        within(digits(s, p, n), p, s.len() as int),
{
    lemma_digit_scan_within(s, p, n);
}

proof fn lemma_expect_within(s: Seq<u8>, p: int, c: u8)
    requires
        0 <= p <= s.len(),
    ensures
        within(expect_byte(s, p, c), p, s.len() as int),
{
}

proof fn lemma_words_within(s: Seq<u8>, p: int)
    requires
        0 <= p <= s.len(),
    ensures
        within(month_step(s, p), p, s.len() as int),
        within(dayname_step(s, p), p, s.len() as int),
        within(punctuation_step(s, p), p, s.len() as int),
        within(gmt_step(s, p), p, s.len() as int),
{
    lemma_alpha_end(s, p);
}

proof fn lemma_date1_within(s: Seq<u8>, p: int)
    requires
        0 <= p <= s.len(),
    ensures
        within(date1_step(s, p), p, s.len() as int),
{
    lemma_digits_within(s, p, 2);
    let p1 = digits(s, p, 2).1;
    lemma_expect_within(s, p1, ' ' as u8);
    let p2 = expect_byte(s, p1, ' ' as u8).1;
    lemma_words_within(s, p2);
    let p3 = month_step(s, p2).1;
    lemma_expect_within(s, p3, ' ' as u8);
    let p4 = expect_byte(s, p3, ' ' as u8).1;
    lemma_digits_within(s, p4, 4);
}

proof fn lemma_date2_within(s: Seq<u8>, p: int)
    requires
        0 <= p <= s.len(),
    ensures
        within(date2_step(s, p), p, s.len() as int),
{
    lemma_digits_within(s, p, 2);
    let p1 = digits(s, p, 2).1;
    lemma_expect_within(s, p1, '-' as u8);
    let p2 = expect_byte(s, p1, '-' as u8).1;
    lemma_words_within(s, p2);
    let p3 = month_step(s, p2).1;
    lemma_expect_within(s, p3, '-' as u8);
    let p4 = expect_byte(s, p3, '-' as u8).1;
    lemma_digits_within(s, p4, 2);
}

proof fn lemma_date3_within(s: Seq<u8>, p: int)
    requires
        0 <= p <= s.len(),
    ensures
        within(date3_step(s, p), p, s.len() as int),
{
    lemma_words_within(s, p);
    let p1 = month_step(s, p).1;
    lemma_expect_within(s, p1, ' ' as u8);
    let p2 = expect_byte(s, p1, ' ' as u8).1;
    lemma_digits_within(s, p2, 2);
    if p2 < s.len() {
        lemma_digits_within(s, p2 + 1, 1);
    }
}

proof fn lemma_time_within(s: Seq<u8>, p: int)
    requires
        0 <= p <= s.len(),
    ensures
        within(time_step(s, p), p, s.len() as int),
{
    lemma_digits_within(s, p, 2);
    let p1 = digits(s, p, 2).1;
    lemma_expect_within(s, p1, ':' as u8);
    let p2 = expect_byte(s, p1, ':' as u8).1;
    lemma_digits_within(s, p2, 2);
    let p3 = digits(s, p2, 2).1;
    lemma_expect_within(s, p3, ':' as u8);
    let p4 = expect_byte(s, p3, ':' as u8).1;
    lemma_digits_within(s, p4, 2);
}

proof fn lemma_imf_fixdate_within(s: Seq<u8>, p: int, d: DayName)
    requires
        0 <= p <= s.len(),
    ensures
        within(imf_fixdate_step(s, p, d), p, s.len() as int),
{
    lemma_expect_within(s, p, ' ' as u8);
    let a1 = expect_byte(s, p, ' ' as u8).1;
    lemma_date1_within(s, a1);
    let a2 = date1_step(s, a1).1;
    lemma_expect_within(s, a2, ' ' as u8);
    let a3 = expect_byte(s, a2, ' ' as u8).1;
    lemma_time_within(s, a3);
    let a4 = time_step(s, a3).1;
    lemma_expect_within(s, a4, ' ' as u8);
    let a5 = expect_byte(s, a4, ' ' as u8).1;
    lemma_words_within(s, a5);
}

proof fn lemma_rfc850_within(s: Seq<u8>, p: int, d: DayName)
    requires
        0 <= p <= s.len(),
    ensures
        within(rfc850_step(s, p, d), p, s.len() as int),
{
    lemma_expect_within(s, p, ',' as u8);
    let b0 = expect_byte(s, p, ',' as u8).1;
    lemma_expect_within(s, b0, ' ' as u8);
    let b1 = expect_byte(s, b0, ' ' as u8).1;
    lemma_date2_within(s, b1);
    let b2 = date2_step(s, b1).1;
    lemma_expect_within(s, b2, ' ' as u8);
    let b3 = expect_byte(s, b2, ' ' as u8).1;
    lemma_time_within(s, b3);
    let b4 = time_step(s, b3).1;
    lemma_expect_within(s, b4, ' ' as u8);
    let b5 = expect_byte(s, b4, ' ' as u8).1;
    lemma_words_within(s, b5);
}

proof fn lemma_asctime_within(s: Seq<u8>, p: int, d: DayName)
    requires
        0 <= p <= s.len(),
    ensures
        within(asctime_step(s, p, d), p, s.len() as int),
{
    lemma_date3_within(s, p);
    let c1 = date3_step(s, p).1;
    lemma_expect_within(s, c1, ' ' as u8);
    let c2 = expect_byte(s, c1, ' ' as u8).1;
    lemma_time_within(s, c2);
    let c3 = time_step(s, c2).1;
    lemma_expect_within(s, c3, ' ' as u8);
    let c4 = expect_byte(s, c3, ' ' as u8).1;
    lemma_digits_within(s, c4, 4);
}

/// Every error that `decode` reports carries the offset where decoding
/// failed, which is at most the length of the text.
pub proof fn lemma_decode_error_position(s: Seq<u8>)
    ensures
        decode_bytes(s) matches Err(e) ==> (e.pos matches Some(q) && 0 <= q <= s.len()),
{
    lemma_words_within(s, 0);
    let p1 = dayname_step(s, 0).1;
    lemma_words_within(s, p1);
    match dayname_step(s, 0).0 {
        Ok(DayNameTok::Long(d)) => lemma_rfc850_within(s, p1, d),
        Ok(DayNameTok::Short(d)) => {
            let p2 = punctuation_step(s, p1).1;
            match punctuation_step(s, p1).0 {
                Ok(PunctuationTok::Comma) => lemma_imf_fixdate_within(s, p2, d),
                Ok(PunctuationTok::Space) => lemma_asctime_within(s, p2, d),
                Err(_) => {},
            }
        },
        Err(_) => {},
    }
}

/// The decimal value of a run of ASCII digits, most significant first
/// (leading zeros allowed).
pub open spec fn decimal_value(t: Seq<u8>) -> int
    decreases t.len(),
{
    if t.len() == 0 {
        0
    } else {
        (t[0] - '0' as u8) * pow10((t.len() - 1) as nat) + decimal_value(t.drop_first())
    }
}

/// The `n` bytes at `p` are all in the text and all ASCII digits.
pub open spec fn all_digits(s: Seq<u8>, p: int, n: nat) -> bool {
    &&& p + n <= s.len()
    &&& forall|i: int| p <= i < p + n ==> is_digit(#[trigger] s[i])
}

proof fn lemma_decimal_push(t: Seq<u8>, b: u8)
    ensures
        decimal_value(t.push(b)) == decimal_value(t) * 10 + (b - '0' as u8),
    decreases t.len(),
{
    if t.len() == 0 {
        assert(t.push(b).drop_first() =~= Seq::<u8>::empty());
        assert(pow10(0) == 1);
        assert(t.push(b)[0] == b);
        assert(decimal_value(Seq::<u8>::empty()) == 0);
        assert(decimal_value(t) == 0);
        assert(decimal_value(t.push(b)) == (b - '0' as u8) * pow10(0) + decimal_value(
            t.push(b).drop_first(),
        ));
    } else {
        let k = t.len();
        assert(t.push(b).drop_first() =~= t.drop_first().push(b));
        lemma_decimal_push(t.drop_first(), b);
        assert(pow10(k as nat) == 10 * pow10((k - 1) as nat));
        let d0 = t[0] - '0' as u8;
        let x = pow10((k - 1) as nat);
        let v = decimal_value(t.drop_first());
        assert(t.push(b)[0] == t[0]);
        assert(t.push(b).len() == k + 1);
        assert(decimal_value(t.push(b)) == d0 * pow10(k as nat) + decimal_value(t.drop_first().push(b)));
        assert(decimal_value(t) == d0 * x + v);
        assert(d0 * pow10(k as nat) == (d0 * x) * 10) by (nonlinear_arith)
            requires
                pow10(k as nat) == 10 * x,
        ;
        assert(decimal_value(t.drop_first().push(b)) == v * 10 + (b - '0' as u8));
    }
}

/// `digits` reads the decimal value of `n` digits and moves past them;
/// otherwise it stays and reports the first offset among them that is past
/// the end of the text ("unexpected end") or holds no digit ("expected
/// digit").
pub proof fn lemma_digits_value(s: Seq<u8>, p: int, n: nat)
    requires
        0 <= p <= s.len(),
    ensures
        digits(s, p, n).0 is Ok <==> all_digits(s, p, n),
        all_digits(s, p, n) ==> digits(s, p, n) == (Ok::<int, DecodeErrorModel>(
            decimal_value(s.subrange(p, p + n)),
        ), p + n),
        digits(s, p, n).0 matches Err(e) ==> {
            &&& digits(s, p, n).1 == p
            &&& e.pos matches Some(q) && {
                &&& p <= q < p + n
                &&& q <= s.len()
                &&& forall|i: int| p <= i < q ==> is_digit(#[trigger] s[i])
                &&& (q < s.len() ==> !is_digit(s[q]) && e.kind == ErrorKind::ExpectedDigit)
                &&& (q >= s.len() ==> e.kind == ErrorKind::UnexpectedEnd)
            }
        },
    decreases n,
{
    if n == 0 {
        assert(s.subrange(p, p) =~= Seq::<u8>::empty());
    } else {
        let m = (n - 1) as nat;
        lemma_digits_value(s, p, m);
        let i = p + m;
        match digit_scan(s, p, m) {
            Err(e) => {
                assert(!all_digits(s, p, m));
                assert(digit_scan(s, p, n) == digit_scan(s, p, m));
            },
            Ok(v) => {
                assert(all_digits(s, p, m));
                if 0 <= i < s.len() && is_digit(s[i]) {
                    assert(s.subrange(p, p + n) =~= s.subrange(p, p + m).push(s[i]));
                    lemma_decimal_push(s.subrange(p, p + m), s[i]);
                    assert(all_digits(s, p, n));
                } else {
                    assert(!all_digits(s, p, n)) by {
                        if i < s.len() {
                            assert(!is_digit(s[i]));
                        }
                    }
                    assert(forall|j: int| p <= j < i ==> is_digit(#[trigger] s[j]));
                    if i < s.len() {
                        assert(digit_scan(s, p, n) == Err::<int, DecodeErrorModel>(
                            fail(ErrorKind::ExpectedDigit, i),
                        ));
                    } else {
                        assert(digit_scan(s, p, n) == Err::<int, DecodeErrorModel>(
                            fail(ErrorKind::UnexpectedEnd, i),
                        ));
                    }
                }
            },
        }
    }
}

/// The errors of reading single tokens: a missing byte, a wrong byte, an
/// unknown month, a missing digit.
pub open spec fn is_lexical(kind: ErrorKind) -> bool {
    ||| kind == ErrorKind::UnexpectedEnd
    ||| kind == ErrorKind::UnexpectedCharacter
    ||| kind == ErrorKind::InvalidMonth
    ||| kind == ErrorKind::ExpectedDigit
}

proof fn lemma_digit_scan_kinds(s: Seq<u8>, p: int, n: nat)
    ensures
        digit_scan(s, p, n) matches Err(e) ==> is_lexical(e.kind),
    decreases n,
{
    if n > 0 {
        lemma_digit_scan_kinds(s, p, (n - 1) as nat);
    }
}

/// Which errors the token steps report, and where.
proof fn lemma_date_kinds(s: Seq<u8>, p: int)
    ensures
        digits(s, p, 1).0 matches Err(e) ==> is_lexical(e.kind),
        digits(s, p, 2).0 matches Err(e) ==> is_lexical(e.kind),
        digits(s, p, 4).0 matches Err(e) ==> is_lexical(e.kind),
        month_step(s, p).0 matches Err(e) ==> is_lexical(e.kind),
        gmt_step(s, p).0 matches Err(e) ==> e.kind == ErrorKind::ExpectedGmt && e.pos == Some(p),
{
    lemma_digit_scan_kinds(s, p, 1);
    lemma_digit_scan_kinds(s, p, 2);
    lemma_digit_scan_kinds(s, p, 4);
}

/// Which errors the date and time steps report, and where.
proof fn lemma_date1_kinds(s: Seq<u8>, p: int)
    ensures
        date1_step(s, p).0 matches Err(e) ==> is_lexical(e.kind) || (e.kind
            == ErrorKind::DateOutOfRange && e.pos == Some(p)),
        date2_step(s, p).0 matches Err(e) ==> is_lexical(e.kind) || (e.kind
            == ErrorKind::DateOutOfRange && e.pos == Some(p)),
        date3_step(s, p).0 matches Err(e) ==> is_lexical(e.kind),
        time_step(s, p).0 matches Err(e) ==> is_lexical(e.kind) || (e.kind
            == ErrorKind::TimeOutOfRange && e.pos == Some(p)),
{
    lemma_date_kinds(s, p);
    let p1 = digits(s, p, 2).1;
    lemma_date_kinds(s, p1);
    let p2 = expect_byte(s, p1, ' ' as u8).1;
    let q2 = expect_byte(s, p1, '-' as u8).1;
    let t2 = expect_byte(s, p1, ':' as u8).1;
    lemma_date_kinds(s, p2);
    lemma_date_kinds(s, q2);
    lemma_date_kinds(s, t2);
    let p3 = month_step(s, p2).1;
    let q3 = month_step(s, q2).1;
    let t3 = digits(s, t2, 2).1;
    lemma_date_kinds(s, p3);
    lemma_date_kinds(s, q3);
    lemma_date_kinds(s, t3);
    let p4 = expect_byte(s, p3, ' ' as u8).1;
    let q4 = expect_byte(s, q3, '-' as u8).1;
    let t4 = expect_byte(s, t3, ':' as u8).1;
    lemma_date_kinds(s, p4);
    lemma_date_kinds(s, q4);
    lemma_date_kinds(s, t4);
    let m1 = month_step(s, p).1;
    lemma_date_kinds(s, m1);
    let m2 = expect_byte(s, m1, ' ' as u8).1;
    lemma_date_kinds(s, m2);
    lemma_date_kinds(s, m2 + 1);
}

/// The rest of an IMF-fixdate, read from `p` (after `day-name ","`):
/// on success it is ` DD Mon YYYY HH:MM:SS GMT`, the text that `encode`
/// writes after the day name and comma, and the reader ends 25 bytes on; a
/// date out of range is reported at `p + 1`, a time out of range at
/// `p + 13`, a missing `GMT` at `p + 22`.
pub proof fn lemma_imf_fixdate_step(s: Seq<u8>, p: int, d: DayName)
    requires
        0 <= p,
    ensures
        imf_fixdate_step(s, p, d).0 matches Ok(h) ==> {
            &&& h.format == Format::ImfFixdate
            &&& h.dt.dayname == d
            &&& h.wf()
            &&& p + 25 <= s.len()
            &&& imf_fixdate_step(s, p, d).1 == p + 25
            &&& s.subrange(p, p + 25) == encode_model(h).subrange(4, 29)
        },
        imf_fixdate_step(s, p, d).0 matches Err(e) ==> {
            &&& is_lexical(e.kind) || e.kind == ErrorKind::DateOutOfRange || e.kind
                == ErrorKind::TimeOutOfRange || e.kind == ErrorKind::ExpectedGmt
            &&& e.kind == ErrorKind::DateOutOfRange ==> e.pos == Some(p + 1)
            &&& e.kind == ErrorKind::TimeOutOfRange ==> e.pos == Some(p + 13)
            &&& e.kind == ErrorKind::ExpectedGmt ==> e.pos == Some(p + 22)
        },
{
    lemma_expect_text(s, p, ' ' as u8);
    lemma_date1_text(s, p + 1);
    lemma_expect_text(s, p + 12, ' ' as u8);
    lemma_time_text(s, p + 13);
    lemma_expect_text(s, p + 21, ' ' as u8);
    if p + 22 <= s.len() {
        lemma_gmt_text(s, p + 22);
    }
    lemma_date1_kinds(s, p + 1);
    lemma_date1_kinds(s, p + 13);
    lemma_date_kinds(s, p + 22);
    crate::laws::lemma_format_steps_wf(s, p, d);
    if let Ok(h) = imf_fixdate_step(s, p, d).0 {
        let e = encode_model(h);
        lemma_imf_fixdate_layout(h);
        assert forall|i: int| 0 <= i < 25 implies s.subrange(p, p + 25)[i] == #[trigger] e.subrange(
            4,
            29,
        )[i] by {
            assert(s.subrange(p, p + 25)[i] == s[p + i]);
            assert(e.subrange(4, 29)[i] == e[4 + i]);
            if 1 <= i < 12 {
                assert(s[p + i] == s.subrange(p + 1, p + 12)[i - 1]);
                assert(e[4 + i] == e.subrange(5, 16)[i - 1]);
            } else if 13 <= i < 21 {
                assert(s[p + i] == s.subrange(p + 13, p + 21)[i - 13]);
                assert(e[4 + i] == e.subrange(17, 25)[i - 13]);
            } else if 22 <= i {
                assert(s[p + i] == s.subrange(p + 22, p + 25)[i - 22]);
                assert(e[4 + i] == e.subrange(26, 29)[i - 22]);
            }
        }
        assert(s.subrange(p, p + 25) =~= e.subrange(4, 29));
    }
}

/// The rest of an RFC 850 date, read from `p` (after the full day name):
/// on success it is `, DD-Mon-YY HH:MM:SS GMT`, the text that `encode`
/// writes after the day name, the year is 0–99, and the reader ends 24
/// bytes on; a date out of range is reported at `p + 2`, a time out of
/// range at `p + 12`, a missing `GMT` at `p + 21`.  The two-digit year can
/// never be out of the RFC 850 range.
pub proof fn lemma_rfc850_step(s: Seq<u8>, p: int, d: DayName)
    requires
        0 <= p,
    ensures
        rfc850_step(s, p, d).0 matches Ok(h) ==> {
            &&& h.format == Format::Rfc850
            &&& h.dt.dayname == d
            &&& h.wf()
            &&& 0 <= h.dt.date.year <= 99
            &&& p + 24 <= s.len()
            &&& rfc850_step(s, p, d).1 == p + 24
            &&& s.subrange(p, p + 24) == encode_model(h).subrange(
                long_name(d).len() as int,
                long_name(d).len() + 24int,
            )
        },
        rfc850_step(s, p, d).0 matches Err(e) ==> {
            &&& is_lexical(e.kind) || e.kind == ErrorKind::DateOutOfRange || e.kind
                == ErrorKind::TimeOutOfRange || e.kind == ErrorKind::ExpectedGmt
            &&& e.kind == ErrorKind::DateOutOfRange ==> e.pos == Some(p + 2)
            &&& e.kind == ErrorKind::TimeOutOfRange ==> e.pos == Some(p + 12)
            &&& e.kind == ErrorKind::ExpectedGmt ==> e.pos == Some(p + 21)
        },
{
    lemma_expect_text(s, p, ',' as u8);
    lemma_expect_text(s, p + 1, ' ' as u8);
    lemma_date2_text(s, p + 2);
    crate::strictness::lemma_digits2_text(s, p + 9);
    lemma_expect_text(s, p + 11, ' ' as u8);
    lemma_time_text(s, p + 12);
    lemma_expect_text(s, p + 20, ' ' as u8);
    if p + 21 <= s.len() {
        lemma_gmt_text(s, p + 21);
    }
    lemma_date1_kinds(s, p + 2);
    lemma_date1_kinds(s, p + 12);
    lemma_date_kinds(s, p + 21);
    crate::laws::lemma_format_steps_wf(s, p, d);
    if let Ok(h) = rfc850_step(s, p, d).0 {
        let e = encode_model(h);
        let n = long_name(d).len() as int;
        lemma_rfc850_layout(h);
        assert forall|i: int| 0 <= i < 24 implies s.subrange(p, p + 24)[i] == #[trigger] e.subrange(
            n,
            n + 24,
        )[i] by {
            assert(s.subrange(p, p + 24)[i] == s[p + i]);
            assert(e.subrange(n, n + 24)[i] == e[n + i]);
            if 2 <= i < 11 {
                assert(s[p + i] == s.subrange(p + 2, p + 11)[i - 2]);
                assert(e[n + i] == e.subrange(n + 2, n + 11)[i - 2]);
            } else if 12 <= i < 20 {
                assert(s[p + i] == s.subrange(p + 12, p + 20)[i - 12]);
                assert(e[n + i] == e.subrange(n + 12, n + 20)[i - 12]);
            } else if 21 <= i {
                assert(s[p + i] == s.subrange(p + 21, p + 24)[i - 21]);
                assert(e[n + i] == e.subrange(n + 21, n + 24)[i - 21]);
            }
        }
        assert(s.subrange(p, p + 24) =~= e.subrange(n, n + 24));
    }
}

/// The rest of an asctime date, read from `p` (after `day-name SP`): on
/// success it is `Mon DD HH:MM:SS YYYY`, the text that `encode` writes
/// after the day name and space, except that a one-digit day may be
/// written `0D` instead of ` D`, and the reader ends 20 bytes on; a date
/// out of range is reported at `p`, a time out of range at `p + 7`.
pub proof fn lemma_asctime_step(s: Seq<u8>, p: int, d: DayName)
    requires
        0 <= p,
    ensures
        asctime_step(s, p, d).0 matches Ok(h) ==> {
            &&& h.format == Format::Asctime
            &&& h.dt.dayname == d
            &&& h.wf()
            &&& p + 20 <= s.len()
            &&& asctime_step(s, p, d).1 == p + 20
            &&& (s.subrange(p, p + 20) == encode_model(h).subrange(4, 24) || (h.dt.date.day < 10
                && s.subrange(p, p + 20) == asctime_zero_day_text(h).subrange(4, 24)))
        },
        asctime_step(s, p, d).0 matches Err(e) ==> {
            &&& is_lexical(e.kind) || e.kind == ErrorKind::DateOutOfRange || e.kind
                == ErrorKind::TimeOutOfRange
            &&& e.kind == ErrorKind::DateOutOfRange ==> e.pos == Some(p)
            &&& e.kind == ErrorKind::TimeOutOfRange ==> e.pos == Some(p + 7)
        },
{
    lemma_date3_text(s, p);
    lemma_expect_text(s, p + 6, ' ' as u8);
    lemma_time_text(s, p + 7);
    lemma_expect_text(s, p + 15, ' ' as u8);
    lemma_digits4_text(s, p + 16);
    lemma_date1_kinds(s, p);
    lemma_date1_kinds(s, p + 7);
    lemma_date_kinds(s, p + 16);
    crate::laws::lemma_format_steps_wf(s, p, d);
    if let Ok(h) = asctime_step(s, p, d).0 {
        lemma_asctime_text_eq(s, p, h);
    }
}

/// A text with the parts of an asctime date after its day name is the text
/// `encode` writes there, or that text with a zero-padded day.
proof fn lemma_asctime_text_eq(s: Seq<u8>, p: int, h: HttpDateModel)
    requires
        0 <= p,
        p + 20 <= s.len(),
        h.format == Format::Asctime,
        s.subrange(p, p + 3) == crate::names::month_text(h.dt.date.month),
        s[p + 3] == ' ' as u8,
        s.subrange(p + 4, p + 6) == pad2(h.dt.date.day) || s.subrange(p + 4, p + 6) == dec2(
            h.dt.date.day,
        ),
        s[p + 6] == ' ' as u8,
        s.subrange(p + 7, p + 15) == time_text(h.dt.time),
        s[p + 15] == ' ' as u8,
        s.subrange(p + 16, p + 20) == dec4(h.dt.date.year),
    ensures
        s.subrange(p, p + 20) == encode_model(h).subrange(4, 24) || (h.dt.date.day < 10
            && s.subrange(p, p + 20) == asctime_zero_day_text(h).subrange(4, 24)),
{
    let e = encode_model(h);
    let z = asctime_zero_day_text(h);
    lemma_asctime_layout(h);
    lemma_asctime_zero_day_layout(h);
    let date3 = date3_text(h.dt.date);
    assert(date3 =~= crate::names::month_text(h.dt.date.month) + seq![' ' as u8] + pad2(
        h.dt.date.day,
    ));
    assert(e.subrange(4, 7) =~= date3.subrange(0, 3));
    assert(e.subrange(8, 10) =~= date3.subrange(4, 6));
    assert(e[7] == date3[3]);
    let sp = s.subrange(p, p + 20);
    let ep = e.subrange(4, 24);
    let zp = z.subrange(4, 24);
    assert forall|i: int| 0 <= i < 20 && i != 4 && i != 5 implies #[trigger] sp[i] == ep[i]
        && sp[i] == zp[i] by {
        assert(sp[i] == s[p + i] && ep[i] == e[4 + i] && zp[i] == z[4 + i]);
        if i < 3 {
            assert(s[p + i] == s.subrange(p, p + 3)[i] && e[4 + i] == e.subrange(4, 7)[i]
                && z[4 + i] == z.subrange(4, 7)[i]);
        } else if 7 <= i < 15 {
            assert(s[p + i] == s.subrange(p + 7, p + 15)[i - 7] && e[4 + i] == e.subrange(
                11,
                19,
            )[i - 7] && z[4 + i] == z.subrange(11, 19)[i - 7]);
        } else if 16 <= i {
            assert(s[p + i] == s.subrange(p + 16, p + 20)[i - 16] && e[4 + i] == e.subrange(
                20,
                24,
            )[i - 16] && z[4 + i] == z.subrange(20, 24)[i - 16]);
        }
    }
    assert(s[p + 4] == s.subrange(p + 4, p + 6)[0] && s[p + 5] == s.subrange(p + 4, p + 6)[1]);
    assert(e[8] == e.subrange(8, 10)[0] && e[9] == e.subrange(8, 10)[1]);
    assert(z[8] == z.subrange(8, 10)[0] && z[9] == z.subrange(8, 10)[1]);
    assert(sp[4] == s[p + 4] && sp[5] == s[p + 5] && ep[4] == e[8] && ep[5] == e[9] && zp[4]
        == z[8] && zp[5] == z[9]);
    if s.subrange(p + 4, p + 6) == pad2(h.dt.date.day) || h.dt.date.day >= 10 {
        assert(sp =~= ep);
    } else {
        assert(sp =~= zp);
    }
}

} // verus!
