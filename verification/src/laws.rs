//! What holds of decoding and encoding as a whole.
use vstd::prelude::*;

use crate::grammar::{
    alpha_end, asctime_step, date1_step, date1_text, date2_step, date2_text, date3_step,
    date3_text, dayname_step, dec2, dec4, decode_bytes, digit_scan, digits, encode_model,
    expect_byte, gmt_step, gmt_suffix, gmt_text, imf_fixdate_step, is_alpha, month_step, pad2,
    punctuation_step, rfc850_step, time_step, time_text,
};
use crate::names::{
    day_search, dayname_token, long_name, month_text, month_number, month_search, short_name,
};
use crate::text::digit_byte;
use crate::types::{
    DateModel, DayName, DayNameTok, DecodeErrorModel, Format, HttpDateModel, PunctuationTok,
    TimeModel,
};

verus! {

/// Two digits are read back as the value they were written from.
pub(crate) proof fn lemma_digits2(s: Seq<u8>, p: int, v: int)
    requires
        0 <= v <= 99,
        0 <= p,
        p + 2 <= s.len(),
        s.subrange(p, p + 2) == dec2(v),
    ensures
        digits(s, p, 2) == (Ok::<int, crate::types::DecodeErrorModel>(v), p + 2),
{
    assert(s[p] == s.subrange(p, p + 2)[0]);
    assert(s[p + 1] == s.subrange(p, p + 2)[1]);
    reveal_with_fuel(digit_scan, 3);
}

/// Four digits are read back as the value they were written from.
pub(crate) proof fn lemma_digits4(s: Seq<u8>, p: int, v: int)
    requires
        0 <= v <= 9999,
        0 <= p,
        p + 4 <= s.len(),
        s.subrange(p, p + 4) == dec4(v),
    ensures
        digits(s, p, 4) == (Ok::<int, crate::types::DecodeErrorModel>(v), p + 4),
{
    assert(s[p] == s.subrange(p, p + 4)[0]);
    assert(s[p + 1] == s.subrange(p, p + 4)[1]);
    assert(s[p + 2] == s.subrange(p, p + 4)[2]);
    assert(s[p + 3] == s.subrange(p, p + 4)[3]);
    reveal_with_fuel(digit_scan, 5);
}

/// A month name is read back as its number.
proof fn lemma_month_number(m: int)
    requires
        1 <= m <= 12,
    ensures
        month_number(month_text(m)) == Some(m),
{
    reveal_with_fuel(month_search, 13);
    assert(month_text(1)[0] == 'J' as u8);
}

/// A day's abbreviation and full name are read back as that day.
pub(crate) proof fn lemma_dayname_token(d: DayName)
    ensures
        dayname_token(short_name(d)) == Some(DayNameTok::Short(d)),
        dayname_token(long_name(d)) == Some(DayNameTok::Long(d)),
{
    reveal_with_fuel(day_search, 8);
    assert(long_name(d).len() >= 6);
    assert(long_name(DayName::Mon).len() == 6 && long_name(DayName::Mon)[0] == 'M' as u8);
    assert(long_name(DayName::Tue).len() == 7 && long_name(DayName::Tue)[0] == 'T' as u8);
    assert(long_name(DayName::Wed).len() == 9 && long_name(DayName::Wed)[0] == 'W' as u8);
    assert(long_name(DayName::Thu).len() == 8 && long_name(DayName::Thu)[0] == 'T' as u8);
    assert(long_name(DayName::Fri).len() == 6 && long_name(DayName::Fri)[0] == 'F' as u8);
    assert(long_name(DayName::Sat).len() == 8 && long_name(DayName::Sat)[0] == 'S' as u8);
    assert(long_name(DayName::Sun).len() == 6 && long_name(DayName::Sun)[0] == 'S' as u8);
}

/// Day and month names are made of letters.
pub(crate) proof fn lemma_names_alpha(d: DayName, m: int)
    ensures
        forall|i: int| 0 <= i < short_name(d).len() ==> is_alpha(#[trigger] short_name(d)[i]),
        forall|i: int| 0 <= i < long_name(d).len() ==> is_alpha(#[trigger] long_name(d)[i]),
        forall|i: int| 0 <= i < month_text(m).len() ==> is_alpha(#[trigger] month_text(m)[i]),
        short_name(d).len() == 3,
        month_text(m).len() == 3,
{
}

/// A run of letters from `p` to `q` that is not followed by a letter ends
/// at `q`.
pub(crate) proof fn lemma_alpha_end_at(s: Seq<u8>, p: int, q: int)
    requires
        0 <= p <= q <= s.len(),
        forall|i: int| p <= i < q ==> is_alpha(#[trigger] s[i]),
        q == s.len() || !is_alpha(s[q]),
    ensures
        alpha_end(s, p) == q,
    decreases q - p,
{
    if p < q {
        lemma_alpha_end_at(s, p + 1, q);
    }
}

/// One digit is read back as the value it was written from.
proof fn lemma_digits1(s: Seq<u8>, p: int, v: int)
    requires
        0 <= v <= 9,
        0 <= p < s.len(),
        s[p] == digit_byte(v),
    ensures
        digits(s, p, 1) == (Ok::<int, DecodeErrorModel>(v), p + 1),
{
    reveal_with_fuel(digit_scan, 2);
}

/// A month name followed by a byte that starts a character is read back
/// as its number.
pub(crate) proof fn lemma_month_at(s: Seq<u8>, p: int, m: int)
    requires
        1 <= m <= 12,
        0 <= p,
        p + 3 < s.len(),
        s.subrange(p, p + 3) == month_text(m),
        s[p + 3] < 0x80,
    ensures
        month_step(s, p) == (Ok::<int, DecodeErrorModel>(m), p + 3),
{
    lemma_month_number(m);
    assert(s[p] == s.subrange(p, p + 3)[0]);
}

/// A `date1` text is read back as its date.
proof fn lemma_date1_at(s: Seq<u8>, p: int, d: DateModel)
    requires
        d.wf(),
        0 <= p,
        p + 11 <= s.len(),
        s.subrange(p, p + 11) == date1_text(d),
    ensures
        date1_step(s, p) == (Ok::<DateModel, DecodeErrorModel>(d), p + 11),
{
    let t = date1_text(d);
    let a = dec2(d.day);
    let mn = month_text(d.month);
    let y = dec4(d.year);
    assert(mn.len() == 3);
    assert(t =~= seq![a[0], a[1], ' ' as u8, mn[0], mn[1], mn[2], ' ' as u8, y[0], y[1], y[2], y[3]]);
    assert forall|i: int| 0 <= i < 11 implies s[p + i] == #[trigger] t[i] by {
        assert(s.subrange(p, p + 11)[i] == s[p + i]);
    }
    assert(s.subrange(p, p + 2) =~= dec2(d.day));
    assert(s.subrange(p + 3, p + 6) =~= month_text(d.month));
    assert(s.subrange(p + 7, p + 11) =~= dec4(d.year));
    lemma_digits2(s, p, d.day);
    lemma_month_at(s, p + 3, d.month);
    lemma_digits4(s, p + 7, d.year);
}

/// A `date2` text is read back as its date.
proof fn lemma_date2_at(s: Seq<u8>, p: int, d: DateModel)
    requires
        d.wf(),
        0 <= d.year <= 99,
        0 <= p,
        p + 9 <= s.len(),
        s.subrange(p, p + 9) == date2_text(d),
    ensures
        date2_step(s, p) == (Ok::<DateModel, DecodeErrorModel>(d), p + 9),
{
    let t = date2_text(d);
    let a = dec2(d.day);
    let mn = month_text(d.month);
    let y = dec2(d.year);
    assert(mn.len() == 3);
    assert(t =~= seq![a[0], a[1], '-' as u8, mn[0], mn[1], mn[2], '-' as u8, y[0], y[1]]);
    assert forall|i: int| 0 <= i < 9 implies s[p + i] == #[trigger] t[i] by {
        assert(s.subrange(p, p + 9)[i] == s[p + i]);
    }
    assert(s.subrange(p, p + 2) =~= dec2(d.day));
    assert(s.subrange(p + 3, p + 6) =~= month_text(d.month));
    assert(s.subrange(p + 7, p + 9) =~= dec2(d.year));
    lemma_digits2(s, p, d.day);
    lemma_month_at(s, p + 3, d.month);
    lemma_digits2(s, p + 7, d.year);
}

/// A `date3` text is read back as its month and day.
proof fn lemma_date3_at(s: Seq<u8>, p: int, d: DateModel)
    requires
        d.wf(),
        0 <= p,
        p + 6 <= s.len(),
        s.subrange(p, p + 6) == date3_text(d),
    ensures
        date3_step(s, p) == (Ok::<(int, int), DecodeErrorModel>((d.month, d.day)), p + 6),
{
    let t = date3_text(d);
    let mn = month_text(d.month);
    let a = pad2(d.day);
    assert(mn.len() == 3);
    assert(t =~= seq![mn[0], mn[1], mn[2], ' ' as u8, a[0], a[1]]);
    assert forall|i: int| 0 <= i < 6 implies s[p + i] == #[trigger] t[i] by {
        assert(s.subrange(p, p + 6)[i] == s[p + i]);
    }
    assert(s.subrange(p, p + 3) =~= month_text(d.month));
    lemma_month_at(s, p, d.month);
    if d.day < 10 {
        lemma_digits1(s, p + 5, d.day);
    } else {
        assert(s.subrange(p + 4, p + 6) =~= dec2(d.day));
        lemma_digits2(s, p + 4, d.day);
    }
}

/// A time text is read back as its time.
pub(crate) proof fn lemma_time_at(s: Seq<u8>, p: int, tm: TimeModel)
    requires
        tm.wf(),
        0 <= p,
        p + 8 <= s.len(),
        s.subrange(p, p + 8) == time_text(tm),
    ensures
        time_step(s, p) == (Ok::<TimeModel, DecodeErrorModel>(tm), p + 8),
{
    let t = time_text(tm);
    let h = dec2(tm.hour);
    let mi = dec2(tm.minute);
    let se = dec2(tm.second);
    assert(t =~= seq![h[0], h[1], ':' as u8, mi[0], mi[1], ':' as u8, se[0], se[1]]);
    assert forall|i: int| 0 <= i < 8 implies s[p + i] == #[trigger] t[i] by {
        assert(s.subrange(p, p + 8)[i] == s[p + i]);
    }
    assert(s.subrange(p, p + 2) =~= dec2(tm.hour));
    assert(s.subrange(p + 3, p + 5) =~= dec2(tm.minute));
    assert(s.subrange(p + 6, p + 8) =~= dec2(tm.second));
    lemma_digits2(s, p, tm.hour);
    lemma_digits2(s, p + 3, tm.minute);
    lemma_digits2(s, p + 6, tm.second);
}

/// `GMT` at the end of the text is read back.
proof fn lemma_gmt_at(s: Seq<u8>, p: int)
    requires
        0 <= p,
        p + 3 == s.len(),
        s.subrange(p, p + 3) == gmt_text(),
    ensures
        gmt_step(s, p) == (Ok::<(), DecodeErrorModel>(()), p + 3),
{
    assert forall|i: int| p <= i < p + 3 implies is_alpha(#[trigger] s[i]) by {
        assert(s[i] == s.subrange(p, p + 3)[i - p]);
    }
    lemma_alpha_end_at(s, p, p + 3);
}

/// Where the parts of an IMF-fixdate text stand.
pub(crate) proof fn lemma_imf_fixdate_layout(h: HttpDateModel)
    requires
        h.format == Format::ImfFixdate,
    ensures
        ({
            let s = encode_model(h);
            &&& s.len() == 29
            &&& s.subrange(0, 3) == short_name(h.dt.dayname)
            &&& s[3] == ',' as u8
            &&& s[4] == ' ' as u8
            &&& s.subrange(5, 16) == date1_text(h.dt.date)
            &&& s[16] == ' ' as u8
            &&& s.subrange(17, 25) == time_text(h.dt.time)
            &&& s[25] == ' ' as u8
            &&& s.subrange(26, 29) == gmt_text()
        }),
{
    let dt = h.dt;
    let s = encode_model(h);
    let p1 = short_name(dt.dayname) + seq![',' as u8, ' ' as u8];
    let p2 = p1 + date1_text(dt.date);
    let p3 = p2 + seq![' ' as u8];
    let p4 = p3 + time_text(dt.time);
    lemma_names_alpha(dt.dayname, dt.date.month);
    assert(s == p4 + gmt_suffix());
    assert(p4.len() == 25);
    assert(s.subrange(0, 25) =~= p4);
    assert(p4.subrange(0, 17) =~= p3);
    assert(p3.subrange(0, 16) =~= p2);
    assert(p2.subrange(0, 5) =~= p1);
    assert(s.subrange(0, 3) =~= p1.subrange(0, 3));
    assert(p1.subrange(0, 3) =~= short_name(dt.dayname));
    assert(s.subrange(5, 16) =~= p2.subrange(5, 16));
    assert(p2.subrange(5, 16) =~= date1_text(dt.date));
    assert(s.subrange(17, 25) =~= p4.subrange(17, 25));
    assert(p4.subrange(17, 25) =~= time_text(dt.time));
    assert(s.subrange(25, 29) =~= gmt_suffix());
    assert(s.subrange(26, 29) =~= gmt_text());
    assert(s[3] == p1[3]);
    assert(s[4] == p1[4]);
    assert(s[16] == p3[16]);
    assert(s[25] == gmt_suffix()[0]);
}

proof fn lemma_decode_imf_fixdate(h: HttpDateModel)
    requires
        h.wf(),
        h.format == Format::ImfFixdate,
    ensures
        decode_bytes(encode_model(h)) == Ok::<HttpDateModel, DecodeErrorModel>(h),
{
    let dt = h.dt;
    let s = encode_model(h);
    let name = short_name(dt.dayname);
    lemma_imf_fixdate_layout(h);
    lemma_names_alpha(dt.dayname, dt.date.month);
    assert forall|i: int| 0 <= i < 3 implies is_alpha(#[trigger] s[i]) by {
        assert(s[i] == s.subrange(0, 3)[i]);
    }
    lemma_alpha_end_at(s, 0, 3);
    lemma_dayname_token(dt.dayname);
    assert(dayname_step(s, 0) == (Ok::<DayNameTok, DecodeErrorModel>(DayNameTok::Short(dt.dayname)), 3int));
    assert(punctuation_step(s, 3) == (Ok::<PunctuationTok, DecodeErrorModel>(PunctuationTok::Comma), 4int));
    lemma_date1_at(s, 5, dt.date);
    lemma_time_at(s, 17, dt.time);
    lemma_gmt_at(s, 26);
    assert(imf_fixdate_step(s, 4, dt.dayname) == (Ok::<HttpDateModel, DecodeErrorModel>(h), 29int));
}

/// Where the parts of an RFC 850 text stand; `n` is the length of the day
/// name.
pub(crate) proof fn lemma_rfc850_layout(h: HttpDateModel)
    requires
        h.format == Format::Rfc850,
    ensures
        ({
            let s = encode_model(h);
            let n = long_name(h.dt.dayname).len() as int;
            &&& 6 <= n <= 9
            &&& s.len() == n + 24
            &&& s.subrange(0, n) == long_name(h.dt.dayname)
            &&& s[n] == ',' as u8
            &&& s[n + 1] == ' ' as u8
            &&& s.subrange(n + 2, n + 11) == date2_text(h.dt.date)
            &&& s[n + 11] == ' ' as u8
            &&& s.subrange(n + 12, n + 20) == time_text(h.dt.time)
            &&& s[n + 20] == ' ' as u8
            &&& s.subrange(n + 21, n + 24) == gmt_text()
        }),
{
    let dt = h.dt;
    let s = encode_model(h);
    let name = long_name(dt.dayname);
    let n = name.len() as int;
    let p1 = name + seq![',' as u8, ' ' as u8];
    let p2 = p1 + date2_text(dt.date);
    let p3 = p2 + seq![' ' as u8];
    let p4 = p3 + time_text(dt.time);
    lemma_names_alpha(dt.dayname, dt.date.month);
    assert(6 <= n <= 9);
    assert(s == p4 + gmt_suffix());
    assert(p4.len() == n + 20);
    assert(s.subrange(0, n + 20) =~= p4);
    assert(p4.subrange(0, n + 12) =~= p3);
    assert(p3.subrange(0, n + 11) =~= p2);
    assert(p2.subrange(0, n + 2) =~= p1);
    assert(s.subrange(0, n) =~= p1.subrange(0, n));
    assert(p1.subrange(0, n) =~= name);
    assert(s.subrange(n + 2, n + 11) =~= p2.subrange(n + 2, n + 11));
    assert(p2.subrange(n + 2, n + 11) =~= date2_text(dt.date));
    assert(s.subrange(n + 12, n + 20) =~= p4.subrange(n + 12, n + 20));
    assert(p4.subrange(n + 12, n + 20) =~= time_text(dt.time));
    assert(s.subrange(n + 20, n + 24) =~= gmt_suffix());
    assert(s.subrange(n + 21, n + 24) =~= gmt_text());
    assert(s[n] == p1[n]);
    assert(s[n + 1] == p1[n + 1]);
    assert(s[n + 11] == p3[n + 11]);
    assert(s[n + 20] == gmt_suffix()[0]);
}

proof fn lemma_decode_rfc850(h: HttpDateModel)
    requires
        h.wf(),
        h.format == Format::Rfc850,
    ensures
        decode_bytes(encode_model(h)) == Ok::<HttpDateModel, DecodeErrorModel>(h),
{
    let dt = h.dt;
    let s = encode_model(h);
    let n = long_name(dt.dayname).len() as int;
    lemma_rfc850_layout(h);
    lemma_names_alpha(dt.dayname, dt.date.month);
    assert forall|i: int| 0 <= i < n implies is_alpha(#[trigger] s[i]) by {
        assert(s[i] == s.subrange(0, n)[i]);
    }
    lemma_alpha_end_at(s, 0, n);
    lemma_dayname_token(dt.dayname);
    assert(dayname_step(s, 0) == (Ok::<DayNameTok, DecodeErrorModel>(DayNameTok::Long(dt.dayname)), n));
    lemma_date2_at(s, n + 2, dt.date);
    lemma_time_at(s, n + 12, dt.time);
    lemma_gmt_at(s, n + 21);
    assert(rfc850_step(s, n, dt.dayname) == (Ok::<HttpDateModel, DecodeErrorModel>(h), n + 24));
}

/// Where the parts of an asctime text stand.
pub(crate) proof fn lemma_asctime_layout(h: HttpDateModel)
    requires
        h.format == Format::Asctime,
    ensures
        ({
            let s = encode_model(h);
            &&& s.len() == 24
            &&& s.subrange(0, 3) == short_name(h.dt.dayname)
            &&& s[3] == ' ' as u8
            &&& s.subrange(4, 10) == date3_text(h.dt.date)
            &&& s[10] == ' ' as u8
            &&& s.subrange(11, 19) == time_text(h.dt.time)
            &&& s[19] == ' ' as u8
            &&& s.subrange(20, 24) == dec4(h.dt.date.year)
        }),
{
    let dt = h.dt;
    let s = encode_model(h);
    let p1 = short_name(dt.dayname) + seq![' ' as u8];
    let p2 = p1 + date3_text(dt.date);
    let p3 = p2 + seq![' ' as u8];
    let p4 = p3 + time_text(dt.time);
    let p5 = p4 + seq![' ' as u8];
    lemma_names_alpha(dt.dayname, dt.date.month);
    assert(s == p5 + dec4(dt.date.year));
    assert(p5.len() == 20);
    assert(s.subrange(0, 20) =~= p5);
    assert(p5.subrange(0, 19) =~= p4);
    assert(p4.subrange(0, 11) =~= p3);
    assert(p3.subrange(0, 10) =~= p2);
    assert(p2.subrange(0, 4) =~= p1);
    assert(s.subrange(0, 3) =~= p1.subrange(0, 3));
    assert(p1.subrange(0, 3) =~= short_name(dt.dayname));
    assert(s.subrange(4, 10) =~= p2.subrange(4, 10));
    assert(p2.subrange(4, 10) =~= date3_text(dt.date));
    assert(s.subrange(11, 19) =~= p4.subrange(11, 19));
    assert(p4.subrange(11, 19) =~= time_text(dt.time));
    assert(s.subrange(20, 24) =~= dec4(dt.date.year));
    assert(s[3] == p1[3]);
    assert(s[10] == p3[10]);
    assert(s[19] == p5[19]);
}

proof fn lemma_decode_asctime(h: HttpDateModel)
    requires
        h.wf(),
        h.format == Format::Asctime,
    ensures
        decode_bytes(encode_model(h)) == Ok::<HttpDateModel, DecodeErrorModel>(h),
{
    let dt = h.dt;
    let s = encode_model(h);
    lemma_asctime_layout(h);
    lemma_names_alpha(dt.dayname, dt.date.month);
    assert forall|i: int| 0 <= i < 3 implies is_alpha(#[trigger] s[i]) by {
        assert(s[i] == s.subrange(0, 3)[i]);
    }
    lemma_alpha_end_at(s, 0, 3);
    lemma_dayname_token(dt.dayname);
    assert(dayname_step(s, 0) == (Ok::<DayNameTok, DecodeErrorModel>(DayNameTok::Short(dt.dayname)), 3int));
    assert(punctuation_step(s, 3) == (Ok::<PunctuationTok, DecodeErrorModel>(PunctuationTok::Space), 4int));
    lemma_date3_at(s, 4, dt.date);
    lemma_time_at(s, 11, dt.time);
    lemma_digits4(s, 20, dt.date.year);
    assert(asctime_step(s, 4, dt.dayname) == (Ok::<HttpDateModel, DecodeErrorModel>(h), 24int));
}

/// Decoding the text of a well-formed HTTP date gives back that date, in
/// the same format.
pub proof fn lemma_decode_encode(h: HttpDateModel)
    requires
        h.wf(),
    ensures
        decode_bytes(encode_model(h)) == Ok::<HttpDateModel, DecodeErrorModel>(h),
{
    match h.format {
        Format::ImfFixdate => lemma_decode_imf_fixdate(h),
        Format::Rfc850 => lemma_decode_rfc850(h),
        Format::Asctime => lemma_decode_asctime(h),
    }
}

proof fn lemma_date_steps_wf(s: Seq<u8>, p: int)
    ensures
        date1_step(s, p).0 matches Ok(d) ==> d.wf(),
        date2_step(s, p).0 matches Ok(d) ==> d.wf(),
        time_step(s, p).0 matches Ok(t) ==> t.wf(),
{
}

pub(crate) proof fn lemma_format_steps_wf(s: Seq<u8>, p: int, d: DayName)
    ensures
        imf_fixdate_step(s, p, d).0 matches Ok(h) ==> h.wf(),
        rfc850_step(s, p, d).0 matches Ok(h) ==> h.wf(),
        asctime_step(s, p, d).0 matches Ok(h) ==> h.wf(),
{
    let p1 = expect_byte(s, p, ' ' as u8).1;
    lemma_date_steps_wf(s, p1);
    let p2 = date1_step(s, p1).1;
    let p3 = expect_byte(s, p2, ' ' as u8).1;
    lemma_date_steps_wf(s, p3);
    let q0 = expect_byte(s, p, ',' as u8).1;
    let q1 = expect_byte(s, q0, ' ' as u8).1;
    lemma_date_steps_wf(s, q1);
    let q2 = date2_step(s, q1).1;
    let q3 = expect_byte(s, q2, ' ' as u8).1;
    lemma_date_steps_wf(s, q3);
    let r1 = date3_step(s, p).1;
    let r2 = expect_byte(s, r1, ' ' as u8).1;
    lemma_date_steps_wf(s, r2);
}

/// Whatever `decode` accepts is a well-formed HTTP date.
pub proof fn lemma_decode_wf(s: Seq<u8>)
    ensures
        decode_bytes(s) matches Ok(h) ==> h.wf(),
{
    let p1 = dayname_step(s, 0).1;
    let p2 = punctuation_step(s, p1).1;
    match dayname_step(s, 0).0 {
        Ok(DayNameTok::Long(d)) => lemma_format_steps_wf(s, p1, d),
        Ok(DayNameTok::Short(d)) => lemma_format_steps_wf(s, p2, d),
        Err(_) => {},
    }
}

/// Decoding is stable: if a text decodes to a date, the text that `encode`
/// writes for that date decodes to the same date.
pub proof fn lemma_decode_encode_decode(s: Seq<u8>)
    ensures
        decode_bytes(s) matches Ok(h) ==> decode_bytes(encode_model(h)) == decode_bytes(s),
{
    lemma_decode_wf(s);
    if let Ok(h) = decode_bytes(s) {
        lemma_decode_encode(h);
    }
}

} // verus!
