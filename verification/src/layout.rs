//! The text of each format spelled out: the English names, the separators
//! and the decimal value of every numeric field.
use vstd::prelude::*;

use crate::grammar::{dec2, dec4, encode_model, is_digit, pad2};
use crate::names::{
    english_day_name, lemma_day_names, lemma_month_names, long_name, month_abbreviations,
    month_text, short_name,
};
use crate::steps::decimal_value;
use crate::text::{ascii_chars, digit_byte, pow10};
use crate::types::{Format, HttpDateModel};

verus! {

/// Two zero-padded digits spell `v` (0–99) in decimal, four spell `v`
/// (0–9999), and a space-padded field is a space and the digit of a `v`
/// below 10, else the two digits.
pub proof fn lemma_decimal_fields(v: int)
    ensures
        0 <= v < 100 ==> {
            &&& dec2(v).len() == 2
            &&& is_digit(dec2(v)[0]) && is_digit(dec2(v)[1])
            &&& decimal_value(dec2(v)) == v
        },
        0 <= v < 10000 ==> {
            &&& dec4(v).len() == 4
            &&& is_digit(dec4(v)[0]) && is_digit(dec4(v)[1]) && is_digit(dec4(v)[2]) && is_digit(
                dec4(v)[3],
            )
            &&& decimal_value(dec4(v)) == v
        },
        0 <= v < 10 ==> pad2(v).len() == 2 && pad2(v)[0] == ' ' as u8 && is_digit(pad2(v)[1])
            && pad2(v)[1] - '0' as u8 == v,
        10 <= v < 100 ==> pad2(v) == dec2(v),
{
    if 0 <= v < 100 {
        lemma_dec2_value(v);
    }
    if 0 <= v < 10000 {
        lemma_dec4_value(v);
    }
    if 0 <= v < 10 {
        lemma_digit_byte(v);
    }
}

proof fn lemma_dec2_value(v: int)
    requires
        0 <= v < 100,
    ensures
        is_digit(dec2(v)[0]) && is_digit(dec2(v)[1]),
        decimal_value(dec2(v)) == v,
{
    let t = dec2(v);
    lemma_digit_byte(v / 10 % 10);
    lemma_digit_byte(v % 10);
    lemma_decimal_one(t.drop_first());
    assert(pow10(1) == 10) by {
        assert(pow10(0) == 1);
    }
    assert(decimal_value(t) == (t[0] - '0' as u8) * pow10(1) + decimal_value(t.drop_first()));
    assert(v == (v / 10 % 10) * 10 + v % 10);
}

proof fn lemma_dec4_value(v: int)
    requires
        0 <= v < 10000,
    ensures
        is_digit(dec4(v)[0]) && is_digit(dec4(v)[1]) && is_digit(dec4(v)[2]) && is_digit(
            dec4(v)[3],
        ),
        decimal_value(dec4(v)) == v,
{
    let t = dec4(v);
    let t1 = t.drop_first();
    let t2 = t1.drop_first();
    let t3 = t2.drop_first();
    lemma_digit_byte(v / 1000 % 10);
    lemma_digit_byte(v / 100 % 10);
    lemma_digit_byte(v / 10 % 10);
    lemma_digit_byte(v % 10);
    lemma_decimal_one(t3);
    assert(pow10(0) == 1);
    assert(pow10(1) == 10);
    assert(pow10(2) == 100);
    assert(pow10(3) == 1000);
    assert(decimal_value(t2) == (t2[0] - '0' as u8) * pow10(1) + decimal_value(t3));
    assert(decimal_value(t1) == (t1[0] - '0' as u8) * pow10(2) + decimal_value(t2));
    assert(decimal_value(t) == (t[0] - '0' as u8) * pow10(3) + decimal_value(t1));
    lemma_four_digits(v);
    assert(t1[0] == t[1] && t2[0] == t[2] && t3[0] == t[3]);
}

/// A number below 10000 is the sum of its four decimal digits, each times
/// its place value.
proof fn lemma_four_digits(v: int)
    requires
        0 <= v < 10000,
    ensures
        v == (v / 1000 % 10) * 1000 + (v / 100 % 10) * 100 + (v / 10 % 10) * 10 + v % 10,
{
    let a = v / 10;
    let b = a / 10;
    let c = b / 10;
    assert(v == a * 10 + v % 10);
    assert(a == b * 10 + a % 10);
    assert(b == c * 10 + b % 10);
    assert(c < 10);
    assert(v / 100 == b) by (nonlinear_arith)
        requires
            a == v / 10,
            b == a / 10,
            0 <= v,
    ;
    assert(v / 1000 == c) by (nonlinear_arith)
        requires
            a == v / 10,
            b == a / 10,
            c == b / 10,
            0 <= v,
    ;
}

/// The digit byte of 0–9 is an ASCII digit worth that value.
proof fn lemma_digit_byte(x: int)
    requires
        0 <= x < 10,
    ensures
        is_digit(digit_byte(x)),
        digit_byte(x) - '0' as u8 == x,
{
    assert(('0' as int + x) as u8 == '0' as int + x);
}

/// One digit is worth its own value.
proof fn lemma_decimal_one(t: Seq<u8>)
    requires
        t.len() == 1,
    ensures
        decimal_value(t) == t[0] - '0' as u8,
{
    assert(t.drop_first() =~= Seq::<u8>::empty());
    assert(decimal_value(Seq::<u8>::empty()) == 0);
    assert(pow10(0) == 1);
    assert(decimal_value(t) == (t[0] - '0' as u8) * pow10(0) + decimal_value(t.drop_first()));
}

/// Reading bytes as characters keeps concatenation.
proof fn lemma_chars_concat(a: Seq<u8>, b: Seq<u8>)
    ensures
        ascii_chars(a + b) == ascii_chars(a) + ascii_chars(b),
{
    assert(ascii_chars(a + b) =~= ascii_chars(a) + ascii_chars(b));
}

/// `HH:MM:SS` as characters.
pub open spec fn time_chars(hour: int, minute: int, second: int) -> Seq<char> {
    ascii_chars(dec2(hour)) + ":"@ + ascii_chars(dec2(minute)) + ":"@ + ascii_chars(dec2(second))
}

/// The text `encode` writes, spelled out for each format (RFC 9110
/// § 5.6.7): `Sun, 06 Nov 1994 08:49:37 GMT`,
/// `Sunday, 06-Nov-94 08:49:37 GMT` and `Sun Nov  6 08:49:37 1994`, with
/// the English day and month names and the numbers in decimal
/// ([`lemma_decimal_fields`]).
pub proof fn lemma_encode_text(h: HttpDateModel)
    requires
        h.wf(),
    ensures
        ({
            let d = h.dt.date;
            let t = h.dt.time;
            let day = english_day_name(h.dt.dayname);
            let month = month_abbreviations()[d.month - 1];
            let time = time_chars(t.hour, t.minute, t.second);
            ascii_chars(encode_model(h)) == match h.format {
                Format::ImfFixdate => day.0 + ", "@ + ascii_chars(dec2(d.day)) + " "@ + month
                    + " "@ + ascii_chars(dec4(d.year)) + " "@ + time + " GMT"@,
                Format::Rfc850 => day.1 + ", "@ + ascii_chars(dec2(d.day)) + "-"@ + month + "-"@
                    + ascii_chars(dec2(d.year)) + " "@ + time + " GMT"@,
                Format::Asctime => day.0 + " "@ + month + " "@ + ascii_chars(pad2(d.day)) + " "@
                    + time + " "@ + ascii_chars(dec4(d.year)),
            }
        }),
{
    let dt = h.dt;
    let d = dt.date;
    let t = dt.time;
    lemma_day_names(dt.dayname);
    lemma_month_names(d.month);
    reveal_strlit(", ");
    reveal_strlit(" ");
    reveal_strlit("-");
    reveal_strlit(":");
    reveal_strlit(" GMT");
    let comma = seq![',' as u8, ' ' as u8];
    let sp = seq![' ' as u8];
    let colon = seq![':' as u8];
    let dash = seq!['-' as u8];
    let gmt = seq![' ' as u8] + seq!['G' as u8, 'M' as u8, 'T' as u8];
    assert(ascii_chars(comma) =~= ", "@);
    assert(ascii_chars(sp) =~= " "@);
    assert(ascii_chars(colon) =~= ":"@);
    assert(ascii_chars(dash) =~= "-"@);
    assert(ascii_chars(gmt) =~= " GMT"@);
    let tt = dec2(t.hour) + colon + dec2(t.minute) + colon + dec2(t.second);
    lemma_chars_concat(dec2(t.hour), colon);
    lemma_chars_concat(dec2(t.hour) + colon, dec2(t.minute));
    lemma_chars_concat(dec2(t.hour) + colon + dec2(t.minute), colon);
    lemma_chars_concat(dec2(t.hour) + colon + dec2(t.minute) + colon, dec2(t.second));
    assert(ascii_chars(tt) == time_chars(t.hour, t.minute, t.second));
    let mt = month_text(d.month);
    match h.format {
        Format::ImfFixdate => {
            let p1 = short_name(dt.dayname) + comma;
            let p2 = p1 + dec2(d.day);
            let p3 = p2 + sp;
            let p4 = p3 + mt;
            let p5 = p4 + sp;
            let p6 = p5 + dec4(d.year);
            let p7 = p6 + sp;
            let p8 = p7 + tt;
            assert(encode_model(h) =~= p8 + gmt);
            lemma_chars_concat(short_name(dt.dayname), comma);
            lemma_chars_concat(p1, dec2(d.day));
            lemma_chars_concat(p2, sp);
            lemma_chars_concat(p3, mt);
            lemma_chars_concat(p4, sp);
            lemma_chars_concat(p5, dec4(d.year));
            lemma_chars_concat(p6, sp);
            lemma_chars_concat(p7, tt);
            lemma_chars_concat(p8, gmt);
        },
        Format::Rfc850 => {
            let p1 = long_name(dt.dayname) + comma;
            let p2 = p1 + dec2(d.day);
            let p3 = p2 + dash;
            let p4 = p3 + mt;
            let p5 = p4 + dash;
            let p6 = p5 + dec2(d.year);
            let p7 = p6 + sp;
            let p8 = p7 + tt;
            assert(encode_model(h) =~= p8 + gmt);
            lemma_chars_concat(long_name(dt.dayname), comma);
            lemma_chars_concat(p1, dec2(d.day));
            lemma_chars_concat(p2, dash);
            lemma_chars_concat(p3, mt);
            lemma_chars_concat(p4, dash);
            lemma_chars_concat(p5, dec2(d.year));
            lemma_chars_concat(p6, sp);
            lemma_chars_concat(p7, tt);
            lemma_chars_concat(p8, gmt);
        },
        Format::Asctime => {
            let p1 = short_name(dt.dayname) + sp;
            let p2 = p1 + mt;
            let p3 = p2 + sp;
            let p4 = p3 + pad2(d.day);
            let p5 = p4 + sp;
            let p6 = p5 + tt;
            let p7 = p6 + sp;
            assert(encode_model(h) =~= p7 + dec4(d.year));
            lemma_chars_concat(short_name(dt.dayname), sp);
            lemma_chars_concat(p1, mt);
            lemma_chars_concat(p2, sp);
            lemma_chars_concat(p3, pad2(d.day));
            lemma_chars_concat(p4, sp);
            lemma_chars_concat(p5, tt);
            lemma_chars_concat(p6, sp);
            lemma_chars_concat(p7, dec4(d.year));
        },
    }
}

} // verus!
