//! Decoding is strict: the only texts it accepts are the ones `encode`
//! writes, and, for asctime, the same with a zero-padded day.
use vstd::prelude::*;

use crate::grammar::{
    alpha_end, asctime_step, date1_step, date1_text, date2_step, date2_text, date3_step,
    date3_text, dayname_step, dec2, dec4, decode_bytes, digit_scan, digits, encode_model,
    expect_byte, gmt_step, gmt_text, imf_fixdate_step, month_step, pad2, punctuation_step,
    rfc850_step, time_step, time_text,
};
use crate::grammar::is_alpha;
use crate::laws::{
    lemma_alpha_end_at, lemma_asctime_layout, lemma_dayname_token, lemma_decode_encode,
    lemma_decode_wf, lemma_digits2, lemma_digits4, lemma_imf_fixdate_layout, lemma_month_at,
    lemma_names_alpha, lemma_rfc850_layout, lemma_time_at,
};
use crate::names::{day_search, dayname_token, long_name, month_text, month_search, short_name};
use crate::text::digit_byte;
use crate::types::{DayName, DayNameTok, DecodeErrorModel, Format, HttpDateModel, PunctuationTok};

verus! {

/// Two digits read as `v` are the two-digit text of `v`.
pub(crate) proof fn lemma_digits2_text(s: Seq<u8>, p: int)
    requires
        0 <= p,
    ensures
        digits(s, p, 2).0 matches Ok(v) ==> {
            &&& 0 <= v <= 99
            &&& p + 2 <= s.len()
            &&& digits(s, p, 2).1 == p + 2
            &&& s.subrange(p, p + 2) == dec2(v)
        },
{
    reveal_with_fuel(digit_scan, 3);
    if let Ok(v) = digits(s, p, 2).0 {
        assert(s.subrange(p, p + 2) =~= dec2(v));
    }
}

/// Four digits read as `v` are the four-digit text of `v`.
pub(crate) proof fn lemma_digits4_text(s: Seq<u8>, p: int)
    requires
        0 <= p,
    ensures
        digits(s, p, 4).0 matches Ok(v) ==> {
            &&& 0 <= v <= 9999
            &&& p + 4 <= s.len()
            &&& digits(s, p, 4).1 == p + 4
            &&& s.subrange(p, p + 4) == dec4(v)
        },
{
    reveal_with_fuel(digit_scan, 5);
    if let Ok(v) = digits(s, p, 4).0 {
        let a = s[p] - '0' as u8;
        let b = s[p + 1] - '0' as u8;
        let c = s[p + 2] - '0' as u8;
        let d = s[p + 3] - '0' as u8;
        assert(v == ((a * 10 + b) * 10 + c) * 10 + d);
        assert(v / 1000 % 10 == a && v / 100 % 10 == b && v / 10 % 10 == c && v % 10 == d) by (
        nonlinear_arith)
            requires
                v == ((a * 10 + b) * 10 + c) * 10 + d,
                0 <= a <= 9,
                0 <= b <= 9,
                0 <= c <= 9,
                0 <= d <= 9,
        ;
        assert(s.subrange(p, p + 4) =~= dec4(v));
    }
}

/// One digit read as `v` is that digit.
pub(crate) proof fn lemma_digits1_text(s: Seq<u8>, p: int)
    requires
        0 <= p,
    ensures
        digits(s, p, 1).0 matches Ok(v) ==> {
            &&& 0 <= v <= 9
            &&& p + 1 <= s.len()
            &&& digits(s, p, 1).1 == p + 1
            &&& s[p] == digit_byte(v)
        },
{
    reveal_with_fuel(digit_scan, 2);
}

/// A month read as `m` is the name of `m`.
pub(crate) proof fn lemma_month_text(s: Seq<u8>, p: int)
    requires
        0 <= p,
    ensures
        month_step(s, p).0 matches Ok(m) ==> {
            &&& 1 <= m <= 12
            &&& p + 3 <= s.len()
            &&& month_step(s, p).1 == p + 3
            &&& s.subrange(p, p + 3) == month_text(m)
        },
{
    reveal_with_fuel(month_search, 13);
}

/// A token read as a day name is that name.
pub proof fn lemma_dayname_token_text(t: Seq<u8>)
    ensures
        dayname_token(t) matches Some(DayNameTok::Short(d)) ==> t == short_name(d),
        dayname_token(t) matches Some(DayNameTok::Long(d)) ==> t == long_name(d),
{
    reveal_with_fuel(day_search, 8);
}

/// A byte that is read as expected is that byte.
pub(crate) proof fn lemma_expect_text(s: Seq<u8>, p: int, c: u8)
    ensures
        expect_byte(s, p, c).0 is Ok ==> 0 <= p < s.len() && s[p] == c && expect_byte(s, p, c).1
            == p + 1,
{
}

/// A `date1` read as `d` is the `date1` text of `d`.
pub(crate) proof fn lemma_date1_text(s: Seq<u8>, p: int)
    requires
        0 <= p,
    ensures
        date1_step(s, p).0 matches Ok(d) ==> {
            &&& p + 11 <= s.len()
            &&& date1_step(s, p).1 == p + 11
            &&& s.subrange(p, p + 11) == date1_text(d)
        },
{
    lemma_digits2_text(s, p);
    lemma_expect_text(s, p + 2, ' ' as u8);
    lemma_month_text(s, p + 3);
    lemma_expect_text(s, p + 6, ' ' as u8);
    lemma_digits4_text(s, p + 7);
    if let Ok(d) = date1_step(s, p).0 {
        let t = date1_text(d);
        let a = dec2(d.day);
        let mn = month_text(d.month);
        let y = dec4(d.year);
        assert(t =~= seq![a[0], a[1], ' ' as u8, mn[0], mn[1], mn[2], ' ' as u8, y[0], y[1], y[2], y[3]]);
        assert(s[p] == s.subrange(p, p + 2)[0] && s[p + 1] == s.subrange(p, p + 2)[1]);
        assert(s[p + 3] == s.subrange(p + 3, p + 6)[0] && s[p + 4] == s.subrange(p + 3, p + 6)[1]
            && s[p + 5] == s.subrange(p + 3, p + 6)[2]);
        assert(s[p + 7] == s.subrange(p + 7, p + 11)[0] && s[p + 8] == s.subrange(p + 7, p + 11)[1]
            && s[p + 9] == s.subrange(p + 7, p + 11)[2] && s[p + 10] == s.subrange(p + 7, p + 11)[3]);
        assert(s.subrange(p, p + 11) =~= t);
    }
}

/// A `date2` read as `d` is the `date2` text of `d`.
pub(crate) proof fn lemma_date2_text(s: Seq<u8>, p: int)
    requires
        0 <= p,
    ensures
        date2_step(s, p).0 matches Ok(d) ==> {
            &&& p + 9 <= s.len()
            &&& date2_step(s, p).1 == p + 9
            &&& s.subrange(p, p + 9) == date2_text(d)
        },
{
    lemma_digits2_text(s, p);
    lemma_expect_text(s, p + 2, '-' as u8);
    lemma_month_text(s, p + 3);
    lemma_expect_text(s, p + 6, '-' as u8);
    lemma_digits2_text(s, p + 7);
    if let Ok(d) = date2_step(s, p).0 {
        let t = date2_text(d);
        let a = dec2(d.day);
        let mn = month_text(d.month);
        let y = dec2(d.year);
        assert(t =~= seq![a[0], a[1], '-' as u8, mn[0], mn[1], mn[2], '-' as u8, y[0], y[1]]);
        assert(s[p] == s.subrange(p, p + 2)[0] && s[p + 1] == s.subrange(p, p + 2)[1]);
        assert(s[p + 3] == s.subrange(p + 3, p + 6)[0] && s[p + 4] == s.subrange(p + 3, p + 6)[1]
            && s[p + 5] == s.subrange(p + 3, p + 6)[2]);
        assert(s[p + 7] == s.subrange(p + 7, p + 9)[0] && s[p + 8] == s.subrange(p + 7, p + 9)[1]);
        assert(s.subrange(p, p + 9) =~= t);
    }
}

/// A time read as `tm` is the time text of `tm`.
pub(crate) proof fn lemma_time_text(s: Seq<u8>, p: int)
    requires
        0 <= p,
    ensures
        time_step(s, p).0 matches Ok(tm) ==> {
            &&& p + 8 <= s.len()
            &&& time_step(s, p).1 == p + 8
            &&& s.subrange(p, p + 8) == time_text(tm)
        },
{
    lemma_digits2_text(s, p);
    lemma_expect_text(s, p + 2, ':' as u8);
    lemma_digits2_text(s, p + 3);
    lemma_expect_text(s, p + 5, ':' as u8);
    lemma_digits2_text(s, p + 6);
    if let Ok(tm) = time_step(s, p).0 {
        let t = time_text(tm);
        let h = dec2(tm.hour);
        let mi = dec2(tm.minute);
        let se = dec2(tm.second);
        assert(t =~= seq![h[0], h[1], ':' as u8, mi[0], mi[1], ':' as u8, se[0], se[1]]);
        assert(s[p] == s.subrange(p, p + 2)[0] && s[p + 1] == s.subrange(p, p + 2)[1]);
        assert(s[p + 3] == s.subrange(p + 3, p + 5)[0] && s[p + 4] == s.subrange(p + 3, p + 5)[1]);
        assert(s[p + 6] == s.subrange(p + 6, p + 8)[0] && s[p + 7] == s.subrange(p + 6, p + 8)[1]);
        assert(s.subrange(p, p + 8) =~= t);
    }
}

/// `GMT` that is read is the three letters `GMT`.
pub(crate) proof fn lemma_gmt_text(s: Seq<u8>, p: int)
    requires
        0 <= p <= s.len(),
    ensures
        gmt_step(s, p).0 is Ok ==> {
            &&& p + 3 <= s.len()
            &&& gmt_step(s, p).1 == p + 3
            &&& s.subrange(p, p + 3) == gmt_text()
        },
{
    crate::grammar::lemma_alpha_end(s, p);
    let q = alpha_end(s, p);
    if gmt_step(s, p).0 is Ok {
        assert(s.subrange(p, q).len() == q - p);
        assert(gmt_text().len() == 3);
    }
}

/// A `date3` read as (month, day) is the month name, a space, and the day
/// either space-padded or as two digits.
pub(crate) proof fn lemma_date3_text(s: Seq<u8>, p: int)
    requires
        0 <= p,
    ensures
        date3_step(s, p).0 matches Ok(md) ==> {
            &&& p + 6 <= s.len()
            &&& date3_step(s, p).1 == p + 6
            &&& 1 <= md.0 <= 12
            &&& 0 <= md.1 <= 99
            &&& s.subrange(p, p + 3) == month_text(md.0)
            &&& s[p + 3] == ' ' as u8
            &&& (s.subrange(p + 4, p + 6) == pad2(md.1) || s.subrange(p + 4, p + 6) == dec2(md.1))
        },
{
    lemma_month_text(s, p);
    lemma_expect_text(s, p + 3, ' ' as u8);
    lemma_digits1_text(s, p + 5);
    lemma_digits2_text(s, p + 4);
    if let Ok(md) = date3_step(s, p).0 {
        if s[p + 4] == ' ' as u8 {
            assert(s.subrange(p + 4, p + 6) =~= pad2(md.1));
        }
    }
}

/// The text of an asctime date with its day written as two digits, e.g.
/// `Sun Nov 06 08:49:37 1994`, which decoding also accepts.
pub open spec fn asctime_zero_day_text(h: HttpDateModel) -> Seq<u8> {
    let dt = h.dt;
    short_name(dt.dayname) + seq![' ' as u8] + month_text(dt.date.month) + seq![' ' as u8] + dec2(
        dt.date.day,
    ) + seq![' ' as u8] + time_text(dt.time) + seq![' ' as u8] + dec4(dt.date.year)
}

/// The texts that decode to `h`: the one `encode` writes, and for an
/// asctime date with a one-digit day, the same with the day zero-padded.
pub open spec fn is_text_of(s: Seq<u8>, h: HttpDateModel) -> bool {
    ||| s == encode_model(h)
    ||| (h.format == Format::Asctime && h.dt.date.day < 10 && s == asctime_zero_day_text(h))
}

proof fn lemma_imf_fixdate_strict(s: Seq<u8>, d: DayName)
    requires
        s.subrange(0, 3) == short_name(d),
        3 < s.len(),
        s[3] == ',' as u8,
    ensures
        imf_fixdate_step(s, 4, d).1 == s.len() ==> (imf_fixdate_step(s, 4, d).0 matches Ok(h)
            ==> s == encode_model(h)),
{
    lemma_expect_text(s, 4, ' ' as u8);
    lemma_date1_text(s, 5);
    lemma_expect_text(s, 16, ' ' as u8);
    lemma_time_text(s, 17);
    lemma_expect_text(s, 25, ' ' as u8);
    if 26 <= s.len() {
        lemma_gmt_text(s, 26);
    }
    if let Ok(h) = imf_fixdate_step(s, 4, d).0 {
        if imf_fixdate_step(s, 4, d).1 == s.len() {
            let e = encode_model(h);
            lemma_imf_fixdate_layout(h);
            assert forall|i: int| 0 <= i < 29 implies s[i] == e[i] by {
                if i < 3 {
                    assert(s[i] == s.subrange(0, 3)[i] && e[i] == e.subrange(0, 3)[i]);
                } else if 5 <= i < 16 {
                    assert(s[i] == s.subrange(5, 16)[i - 5] && e[i] == e.subrange(5, 16)[i - 5]);
                } else if 17 <= i < 25 {
                    assert(s[i] == s.subrange(17, 25)[i - 17] && e[i] == e.subrange(17, 25)[i - 17]);
                } else if 26 <= i {
                    assert(s[i] == s.subrange(26, 29)[i - 26] && e[i] == e.subrange(26, 29)[i - 26]);
                }
            }
            assert(s =~= e);
        }
    }
}

/// What an RFC 850 date that is read to the end of the text says of the
/// text after the day name, which ends at `n`.
proof fn lemma_rfc850_parts(s: Seq<u8>, n: int, d: DayName)
    requires
        0 <= n,
    ensures
        rfc850_step(s, n, d).1 == s.len() ==> (rfc850_step(s, n, d).0 matches Ok(h) ==> {
            &&& s.len() == n + 24
            &&& s[n] == ',' as u8
            &&& s[n + 1] == ' ' as u8
            &&& s.subrange(n + 2, n + 11) == date2_text(h.dt.date)
            &&& s[n + 11] == ' ' as u8
            &&& s.subrange(n + 12, n + 20) == time_text(h.dt.time)
            &&& s[n + 20] == ' ' as u8
            &&& s.subrange(n + 21, n + 24) == gmt_text()
        }),
{
    lemma_expect_text(s, n, ',' as u8);
    lemma_expect_text(s, n + 1, ' ' as u8);
    lemma_date2_text(s, n + 2);
    lemma_expect_text(s, n + 11, ' ' as u8);
    lemma_time_text(s, n + 12);
    lemma_expect_text(s, n + 20, ' ' as u8);
    if n + 21 <= s.len() {
        lemma_gmt_text(s, n + 21);
    }
}

proof fn lemma_rfc850_strict(s: Seq<u8>, d: DayName)
    requires
        s.subrange(0, long_name(d).len() as int) == long_name(d),
        long_name(d).len() <= s.len(),
    ensures
        ({
            let n = long_name(d).len() as int;
            rfc850_step(s, n, d).1 == s.len() ==> (rfc850_step(s, n, d).0 matches Ok(h) ==> s
                == encode_model(h))
        }),
{
    let n = long_name(d).len() as int;
    lemma_rfc850_parts(s, n, d);
    if let Ok(h) = rfc850_step(s, n, d).0 {
        if rfc850_step(s, n, d).1 == s.len() {
            assert(h.format == Format::Rfc850 && h.dt.dayname == d);
            lemma_rfc850_equal(s, h);
        }
    }
}

/// A text with the parts of an RFC 850 text is that text.
proof fn lemma_rfc850_equal(s: Seq<u8>, h: HttpDateModel)
    requires
        h.format == Format::Rfc850,
        ({
            let n = long_name(h.dt.dayname).len() as int;
            &&& s.len() == n + 24
            &&& s.subrange(0, n) == long_name(h.dt.dayname)
            &&& s[n] == ',' as u8
            &&& s[n + 1] == ' ' as u8
            &&& s.subrange(n + 2, n + 11) == date2_text(h.dt.date)
            &&& s[n + 11] == ' ' as u8
            &&& s.subrange(n + 12, n + 20) == time_text(h.dt.time)
            &&& s[n + 20] == ' ' as u8
            &&& s.subrange(n + 21, n + 24) == gmt_text()
        }),
    ensures
        s == encode_model(h),
{
    let n = long_name(h.dt.dayname).len() as int;
    let e = encode_model(h);
    lemma_rfc850_layout(h);
    assert forall|i: int| 0 <= i < n + 24 implies s[i] == e[i] by {
        if i < n {
            assert(s[i] == s.subrange(0, n)[i] && e[i] == e.subrange(0, n)[i]);
        } else if n + 2 <= i < n + 11 {
            assert(s[i] == s.subrange(n + 2, n + 11)[i - n - 2] && e[i] == e.subrange(n + 2, n + 11)[i
                - n - 2]);
        } else if n + 12 <= i < n + 20 {
            assert(s[i] == s.subrange(n + 12, n + 20)[i - n - 12] && e[i] == e.subrange(
                n + 12,
                n + 20,
            )[i - n - 12]);
        } else if n + 21 <= i {
            assert(s[i] == s.subrange(n + 21, n + 24)[i - n - 21] && e[i] == e.subrange(
                n + 21,
                n + 24,
            )[i - n - 21]);
        }
    }
    assert(s =~= e);
}

/// Where the parts of an asctime text with a zero-padded day stand.
pub(crate) proof fn lemma_asctime_zero_day_layout(h: HttpDateModel)
    ensures
        ({
            let z = asctime_zero_day_text(h);
            &&& z.len() == 24
            &&& z.subrange(0, 3) == short_name(h.dt.dayname)
            &&& z[3] == ' ' as u8
            &&& z.subrange(4, 7) == month_text(h.dt.date.month)
            &&& z[7] == ' ' as u8
            &&& z.subrange(8, 10) == dec2(h.dt.date.day)
            &&& z[10] == ' ' as u8
            &&& z.subrange(11, 19) == time_text(h.dt.time)
            &&& z[19] == ' ' as u8
            &&& z.subrange(20, 24) == dec4(h.dt.date.year)
        }),
{
    let dt = h.dt;
    let z = asctime_zero_day_text(h);
    let p1 = short_name(dt.dayname) + seq![' ' as u8];
    let p2 = p1 + month_text(dt.date.month);
    let p3 = p2 + seq![' ' as u8];
    let p4 = p3 + dec2(dt.date.day);
    let p5 = p4 + seq![' ' as u8];
    let p6 = p5 + time_text(dt.time);
    let p7 = p6 + seq![' ' as u8];
    assert(short_name(dt.dayname).len() == 3 && month_text(dt.date.month).len() == 3);
    assert(z == p7 + dec4(dt.date.year));
    assert(z.subrange(0, 20) =~= p7);
    assert(p7.subrange(0, 19) =~= p6);
    assert(p6.subrange(0, 11) =~= p5);
    assert(p5.subrange(0, 10) =~= p4);
    assert(p4.subrange(0, 8) =~= p3);
    assert(p3.subrange(0, 7) =~= p2);
    assert(p2.subrange(0, 4) =~= p1);
    assert(z.subrange(0, 3) =~= p1.subrange(0, 3));
    assert(p1.subrange(0, 3) =~= short_name(dt.dayname));
    assert(z.subrange(4, 7) =~= p2.subrange(4, 7));
    assert(p2.subrange(4, 7) =~= month_text(dt.date.month));
    assert(z.subrange(8, 10) =~= p4.subrange(8, 10));
    assert(p4.subrange(8, 10) =~= dec2(dt.date.day));
    assert(z.subrange(11, 19) =~= p6.subrange(11, 19));
    assert(p6.subrange(11, 19) =~= time_text(dt.time));
    assert(z.subrange(20, 24) =~= dec4(dt.date.year));
    assert(z[3] == p1[3]);
    assert(z[7] == p3[7]);
    assert(z[10] == p5[10]);
    assert(z[19] == p7[19]);
}

proof fn lemma_asctime_strict(s: Seq<u8>, d: DayName)
    requires
        s.subrange(0, 3) == short_name(d),
        3 < s.len(),
        s[3] == ' ' as u8,
    ensures
        asctime_step(s, 4, d).1 == s.len() ==> (asctime_step(s, 4, d).0 matches Ok(h)
            ==> is_text_of(s, h)),
{
    lemma_date3_text(s, 4);
    lemma_expect_text(s, 10, ' ' as u8);
    lemma_time_text(s, 11);
    lemma_expect_text(s, 19, ' ' as u8);
    lemma_digits4_text(s, 20);
    if let Ok(h) = asctime_step(s, 4, d).0 {
        if asctime_step(s, 4, d).1 == s.len() {
            let e = encode_model(h);
            let z = asctime_zero_day_text(h);
            lemma_asctime_layout(h);
            lemma_asctime_zero_day_layout(h);
            let date3 = date3_text(h.dt.date);
            assert(date3 =~= month_text(h.dt.date.month) + seq![' ' as u8] + pad2(h.dt.date.day));
            assert(e.subrange(4, 7) =~= date3.subrange(0, 3));
            assert(e.subrange(8, 10) =~= date3.subrange(4, 6));
            assert(date3.subrange(0, 3) =~= month_text(h.dt.date.month));
            assert(date3.subrange(4, 6) =~= pad2(h.dt.date.day));
            assert(e[7] == date3[3]);
            assert forall|i: int| 0 <= i < 24 && i != 8 && i != 9 implies s[i] == e[i] && s[i]
                == z[i] by {
                if i < 3 {
                    assert(s[i] == s.subrange(0, 3)[i] && e[i] == e.subrange(0, 3)[i] && z[i]
                        == z.subrange(0, 3)[i]);
                } else if 4 <= i < 7 {
                    assert(s[i] == s.subrange(4, 7)[i - 4] && e[i] == e.subrange(4, 7)[i - 4]
                        && z[i] == z.subrange(4, 7)[i - 4]);
                } else if 11 <= i < 19 {
                    assert(s[i] == s.subrange(11, 19)[i - 11] && e[i] == e.subrange(11, 19)[i
                        - 11] && z[i] == z.subrange(11, 19)[i - 11]);
                } else if 20 <= i {
                    assert(s[i] == s.subrange(20, 24)[i - 20] && e[i] == e.subrange(20, 24)[i
                        - 20] && z[i] == z.subrange(20, 24)[i - 20]);
                }
            }
            if s.subrange(8, 10) == pad2(h.dt.date.day) {
                assert(s[8] == s.subrange(8, 10)[0] && s[9] == s.subrange(8, 10)[1]);
                assert(e[8] == e.subrange(8, 10)[0] && e[9] == e.subrange(8, 10)[1]);
                assert(s =~= e);
            } else {
                assert(s[8] == s.subrange(8, 10)[0] && s[9] == s.subrange(8, 10)[1]);
                assert(z[8] == z.subrange(8, 10)[0] && z[9] == z.subrange(8, 10)[1]);
                assert(s =~= z);
                if h.dt.date.day >= 10 {
                    assert(e[8] == e.subrange(8, 10)[0] && e[9] == e.subrange(8, 10)[1]);
                    assert(s =~= e);
                }
            }
        }
    }
}

/// Decoding is strict: a text that decodes to `h` is the text `encode`
/// writes for `h`, or, for an asctime date with a one-digit day, that text
/// with the day zero-padded.
pub proof fn lemma_decode_strict(s: Seq<u8>)
    ensures
        decode_bytes(s) matches Ok(h) ==> is_text_of(s, h),
{
    crate::grammar::lemma_alpha_end(s, 0);
    let q = alpha_end(s, 0);
    lemma_dayname_token_text(s.subrange(0, q));
    match dayname_step(s, 0).0 {
        Ok(DayNameTok::Long(d)) => {
            assert(s.subrange(0, q).len() == q);
            lemma_rfc850_strict(s, d);
        },
        Ok(DayNameTok::Short(d)) => {
            assert(s.subrange(0, q).len() == q);
            assert(short_name(d).len() == 3);
            match punctuation_step(s, 3).0 {
                Ok(PunctuationTok::Comma) => lemma_imf_fixdate_strict(s, d),
                Ok(PunctuationTok::Space) => lemma_asctime_strict(s, d),
                Err(_) => {},
            }
        },
        Err(_) => {},
    }
}

/// An asctime text with a one-digit day written as two digits decodes to
/// the same date.
proof fn lemma_decode_asctime_zero_day(h: HttpDateModel)
    requires
        h.wf(),
        h.format == Format::Asctime,
        h.dt.date.day < 10,
    ensures
        decode_bytes(asctime_zero_day_text(h)) == Ok::<HttpDateModel, DecodeErrorModel>(h),
{
    let dt = h.dt;
    let z = asctime_zero_day_text(h);
    lemma_asctime_zero_day_layout(h);
    lemma_names_alpha(dt.dayname, dt.date.month);
    assert forall|i: int| 0 <= i < 3 implies is_alpha(#[trigger] z[i]) by {
        assert(z[i] == z.subrange(0, 3)[i]);
    }
    lemma_alpha_end_at(z, 0, 3);
    lemma_dayname_token(dt.dayname);
    assert(dayname_step(z, 0) == (Ok::<DayNameTok, DecodeErrorModel>(DayNameTok::Short(dt.dayname)), 3int));
    assert(punctuation_step(z, 3) == (Ok::<PunctuationTok, DecodeErrorModel>(PunctuationTok::Space), 4int));
    assert(z[7] == ' ' as u8);
    lemma_month_at(z, 4, dt.date.month);
    assert(z[8] == z.subrange(8, 10)[0]);
    lemma_digits2(z, 8, dt.date.day);
    assert(date3_step(z, 4) == (Ok::<(int, int), DecodeErrorModel>((dt.date.month, dt.date.day)), 10int));
    lemma_time_at(z, 11, dt.time);
    lemma_digits4(z, 20, dt.date.year);
    assert(asctime_step(z, 4, dt.dayname) == (Ok::<HttpDateModel, DecodeErrorModel>(h), 24int));
}

/// Exactly the texts of `h` decode to `h`, and only a well-formed `h` is
/// decoded to.
pub proof fn lemma_decode_exactly(s: Seq<u8>, h: HttpDateModel)
    ensures
        decode_bytes(s) == Ok::<HttpDateModel, DecodeErrorModel>(h) <==> (h.wf() && is_text_of(s, h)),
{
    lemma_decode_strict(s);
    lemma_decode_wf(s);
    if h.wf() && is_text_of(s, h) {
        if s == encode_model(h) {
            lemma_decode_encode(h);
        } else {
            lemma_decode_asctime_zero_day(h);
        }
    }
}

} // verus!
