//! Writing an HTTP date in its own format, and [`encode`].
use vstd::prelude::*;
use vstd::utf8::encode_utf8;

use crate::grammar::{
    date1_text, date2_text, date3_text, dec2, dec4, encode_model, gmt_suffix, pad2, time_text,
};
use crate::names::{long_name, month_name, month_text, short_name};
use crate::text::{ascii_chars, ascii_string, digit_byte, is_ascii_bytes, push_all};
use crate::types::{Date, DayName, Format, HttpDate, Time};

verus! {

/// Day and month names are ASCII.
pub proof fn lemma_names_ascii(d: DayName, m: int)
    ensures
        is_ascii_bytes(short_name(d)),
        is_ascii_bytes(long_name(d)),
        is_ascii_bytes(month_text(m)),
{
    assert(is_ascii_bytes(short_name(d)));
    assert(is_ascii_bytes(long_name(d)));
    assert(is_ascii_bytes(month_text(m)));
}

/// Appending ASCII bytes to ASCII bytes gives ASCII bytes.
pub proof fn lemma_ascii_concat(a: Seq<u8>, b: Seq<u8>)
    requires
        is_ascii_bytes(a),
        is_ascii_bytes(b),
    ensures
        is_ascii_bytes(a + b),
{
    assert forall|i: int| 0 <= i < (a + b).len() implies #[trigger] (a + b)[i] < 128 by {
        if i < a.len() {
            assert((a + b)[i] == a[i]);
        } else {
            assert((a + b)[i] == b[i - a.len()]);
        }
    }
}

/// Appends the bytes of `piece`, keeping `out` ASCII.
pub(crate) fn push_ascii(out: &mut Vec<u8>, piece: &[u8])
    requires
        is_ascii_bytes(old(out)@),
        is_ascii_bytes(piece@),
    ensures
        final(out)@ == old(out)@ + piece@,
        is_ascii_bytes(final(out)@),
{
    push_all(out, piece);
    proof {
        lemma_ascii_concat(old(out)@, piece@);
    }
}

/// Appends one ASCII byte.
pub(crate) fn push_byte(out: &mut Vec<u8>, b: u8)
    requires
        is_ascii_bytes(old(out)@),
        b < 128,
    ensures
        final(out)@ == old(out)@ + seq![b],
        is_ascii_bytes(final(out)@),
{
    out.push(b);
    assert(final(out)@ =~= old(out)@ + seq![b]);
}

fn digit_of(v: i32) -> (r: u8)
    requires
        0 <= v <= 9,
    ensures
        r == digit_byte(v as int),
        r < 128,
{
    ('0' as u8 + v as u8) as u8
}

/// Appends `v` as two zero-padded digits.
pub(crate) fn push_dec2(out: &mut Vec<u8>, v: i32)
    requires
        is_ascii_bytes(old(out)@),
        0 <= v <= 99,
    ensures
        final(out)@ == old(out)@ + dec2(v as int),
        is_ascii_bytes(final(out)@),
{
    push_byte(out, digit_of(v / 10 % 10));
    push_byte(out, digit_of(v % 10));
    assert(final(out)@ =~= old(out)@ + dec2(v as int));
}

/// Appends `v` as four zero-padded digits.
pub(crate) fn push_dec4(out: &mut Vec<u8>, v: i32)
    requires
        is_ascii_bytes(old(out)@),
        0 <= v <= 9999,
    ensures
        final(out)@ == old(out)@ + dec4(v as int),
        is_ascii_bytes(final(out)@),
{
    push_byte(out, digit_of(v / 1000 % 10));
    push_byte(out, digit_of(v / 100 % 10));
    push_byte(out, digit_of(v / 10 % 10));
    push_byte(out, digit_of(v % 10));
    assert(final(out)@ =~= old(out)@ + dec4(v as int));
}

/// Appends `v` right-aligned in two columns, space-padded.
fn push_pad2(out: &mut Vec<u8>, v: i32)
    requires
        is_ascii_bytes(old(out)@),
        0 <= v <= 99,
    ensures
        final(out)@ == old(out)@ + pad2(v as int),
        is_ascii_bytes(final(out)@),
{
    if v < 10 {
        push_byte(out, ' ' as u8);
        push_byte(out, digit_of(v));
        assert(final(out)@ =~= old(out)@ + pad2(v as int));
    } else {
        push_dec2(out, v);
    }
}

/// Appends `HH:MM:SS`.
fn push_time(out: &mut Vec<u8>, t: &Time)
    requires
        is_ascii_bytes(old(out)@),
    ensures
        final(out)@ == old(out)@ + time_text(t@),
        is_ascii_bytes(final(out)@),
{
    push_dec2(out, t.hour());
    push_byte(out, ':' as u8);
    push_dec2(out, t.minute());
    push_byte(out, ':' as u8);
    push_dec2(out, t.second());
    assert(final(out)@ =~= old(out)@ + time_text(t@));
}

/// Appends ` GMT`.
fn push_gmt(out: &mut Vec<u8>)
    requires
        is_ascii_bytes(old(out)@),
    ensures
        final(out)@ == old(out)@ + gmt_suffix(),
        is_ascii_bytes(final(out)@),
{
    push_byte(out, ' ' as u8);
    push_byte(out, 'G' as u8);
    push_byte(out, 'M' as u8);
    push_byte(out, 'T' as u8);
    assert(final(out)@ =~= old(out)@ + gmt_suffix());
}

/// Appends `date1`, e.g. `06 Nov 1994`.
fn push_date1(out: &mut Vec<u8>, date: &Date)
    requires
        is_ascii_bytes(old(out)@),
    ensures
        final(out)@ == old(out)@ + date1_text(date@),
        is_ascii_bytes(final(out)@),
{
    let month = date.month();
    proof {
        lemma_names_ascii(DayName::Mon, month as int);
    }
    push_dec2(out, date.day());
    push_byte(out, ' ' as u8);
    push_ascii(out, month_name(month));
    push_byte(out, ' ' as u8);
    push_dec4(out, date.year());
    assert(final(out)@ =~= old(out)@ + date1_text(date@));
}

/// Appends `date2`, e.g. `06-Nov-94`; the year must have two digits.
fn push_date2(out: &mut Vec<u8>, date: &Date)
    requires
        is_ascii_bytes(old(out)@),
        date@.year <= 99,
    ensures
        final(out)@ == old(out)@ + date2_text(date@),
        is_ascii_bytes(final(out)@),
{
    let month = date.month();
    proof {
        lemma_names_ascii(DayName::Mon, month as int);
    }
    push_dec2(out, date.day());
    push_byte(out, '-' as u8);
    push_ascii(out, month_name(month));
    push_byte(out, '-' as u8);
    push_dec2(out, date.year());
    assert(final(out)@ =~= old(out)@ + date2_text(date@));
}

/// Appends `date3`, e.g. `Nov  6`.
fn push_date3(out: &mut Vec<u8>, date: &Date)
    requires
        is_ascii_bytes(old(out)@),
    ensures
        final(out)@ == old(out)@ + date3_text(date@),
        is_ascii_bytes(final(out)@),
{
    let month = date.month();
    proof {
        lemma_names_ascii(DayName::Mon, month as int);
    }
    push_ascii(out, month_name(month));
    push_byte(out, ' ' as u8);
    push_pad2(out, date.day());
    assert(final(out)@ =~= old(out)@ + date3_text(date@));
}

/// The bytes of an HTTP date in its own format.
pub fn encode_bytes(date: &HttpDate) -> (r: Vec<u8>)
    ensures
        r@ == encode_model(date@),
        is_ascii_bytes(r@),
{
    proof {
        use_type_invariant(date);
    }
    let dt = date.datetime();
    proof {
        lemma_names_ascii(dt.dayname, 1);
    }
    let mut out: Vec<u8> = Vec::new();
    match date.format() {
        Format::ImfFixdate => {
            push_ascii(&mut out, dt.dayname.short());
            push_byte(&mut out, ',' as u8);
            push_byte(&mut out, ' ' as u8);
            push_date1(&mut out, &dt.date);
            push_byte(&mut out, ' ' as u8);
            push_time(&mut out, &dt.time);
            push_gmt(&mut out);
        },
        Format::Rfc850 => {
            push_ascii(&mut out, dt.dayname.long());
            push_byte(&mut out, ',' as u8);
            push_byte(&mut out, ' ' as u8);
            push_date2(&mut out, &dt.date);
            push_byte(&mut out, ' ' as u8);
            push_time(&mut out, &dt.time);
            push_gmt(&mut out);
        },
        Format::Asctime => {
            push_ascii(&mut out, dt.dayname.short());
            push_byte(&mut out, ' ' as u8);
            push_date3(&mut out, &dt.date);
            push_byte(&mut out, ' ' as u8);
            push_time(&mut out, &dt.time);
            push_byte(&mut out, ' ' as u8);
            push_dec4(&mut out, dt.date.year());
        },
    }
    assert(out@ =~= encode_model(date@));
    out
}

/// Formats an HTTP date as text in its own format; a decoded date is
/// written as the format it was read in.
pub fn encode(date: &HttpDate) -> (r: String)
    ensures
        r@ == ascii_chars(encode_model(date@)),
        encode_utf8(r@) == encode_model(date@),
{
    ascii_string(encode_bytes(date))
}

impl HttpDate {
    /// The text of this date, as [`encode`] writes it.
    pub fn to_string(&self) -> (r: String)
        ensures
            r@ == ascii_chars(encode_model(self@)),
            encode_utf8(r@) == encode_model(self@),
    {
        encode(self)
    }
}

} // verus!
