//! ASCII text: turning bytes into `String`s and numbers into digits.
use vstd::prelude::*;
use vstd::utf8::{
    decode_utf8, encode_utf8, encode_utf8_decode_utf8, encode_utf8_valid_utf8, is_ascii_chars,
    is_ascii_chars_encode_utf8, valid_utf8,
};

verus! {

/// Every byte is ASCII.
pub open spec fn is_ascii_bytes(b: Seq<u8>) -> bool {
    forall|i: int| 0 <= i < b.len() ==> #[trigger] b[i] < 128
}

/// ASCII bytes read as characters.
pub open spec fn ascii_chars(b: Seq<u8>) -> Seq<char> {
    b.map_values(|x: u8| x as char)
}

/// ASCII bytes are valid UTF-8 and spell the same characters.
pub proof fn lemma_ascii_utf8(b: Seq<u8>)
    requires
        is_ascii_bytes(b),
    ensures
        valid_utf8(b),
        decode_utf8(b) == ascii_chars(b),
        encode_utf8(ascii_chars(b)) == b,
{
    let c = ascii_chars(b);
    assert forall|i: int| 0 <= i < c.len() implies '\0' <= #[trigger] c[i] <= '\u{7f}' by {
        assert(b[i] < 128);
    }
    assert(is_ascii_chars(c));
    is_ascii_chars_encode_utf8(c);
    assert forall|i: int| 0 <= i < b.len() implies #[trigger] encode_utf8(c)[i] == b[i] by {
        assert(c[i] as u8 == encode_utf8(c)[i]);
        assert(b[i] < 128);
    }
    assert(encode_utf8(c) =~= b);
    encode_utf8_valid_utf8(c);
    encode_utf8_decode_utf8(c);
}

/// Calls `String::from_utf8`, whose documentation says that it accepts a
/// vector of bytes that is valid UTF-8 and returns the `String` of the
/// characters those bytes encode.  Only valid UTF-8 is handed to it here.
#[verifier::external_body]
fn string_from_utf8(bytes: Vec<u8>) -> (s: String)
    requires
        valid_utf8(bytes@),
    ensures
        s@ == decode_utf8(bytes@),
{
    String::from_utf8(bytes).unwrap()
}

/// The `String` that the ASCII bytes spell.
pub fn ascii_string(bytes: Vec<u8>) -> (s: String)
    requires
        is_ascii_bytes(bytes@),
    ensures
        s@ == ascii_chars(bytes@),
        encode_utf8(s@) == bytes@,
{
    proof {
        lemma_ascii_utf8(bytes@);
    }
    string_from_utf8(bytes)
}

/// Appends `src[start..end]` to `out`.
pub fn push_range(out: &mut Vec<u8>, src: &[u8], start: usize, end: usize)
    requires
        start <= end <= src@.len(),
    ensures
        final(out)@ == old(out)@ + src@.subrange(start as int, end as int),
{
    let mut i = start;
    while i < end
        invariant
            start <= i <= end <= src@.len(),
            out@ == old(out)@ + src@.subrange(start as int, i as int),
        decreases end - i,
    {
        out.push(src[i]);
        assert(src@.subrange(start as int, i + 1) =~= src@.subrange(start as int, i as int).push(
            src@[i as int],
        ));
        i = i + 1;
    }
}

/// Appends all of `src` to `out`.
pub fn push_all(out: &mut Vec<u8>, src: &[u8])
    ensures
        final(out)@ == old(out)@ + src@,
{
    push_range(out, src, 0, src.len());
    assert(src@.subrange(0, src@.len() as int) =~= src@);
}

/// The ASCII digit of 0–9.
pub open spec fn digit_byte(v: int) -> u8 {
    ('0' as int + v) as u8
}

/// The decimal digits of `v`, without leading zeros.
pub open spec fn decimal_text(v: nat) -> Seq<u8>
    decreases v,
{
    if v < 10 {
        seq![digit_byte(v as int)]
    } else {
        decimal_text(v / 10).push(digit_byte((v % 10) as int))
    }
}

/// `v` written in decimal, with a `-` in front when it is negative.
pub open spec fn signed_text(v: int) -> Seq<u8> {
    if v < 0 {
        seq!['-' as u8] + decimal_text((-v) as nat)
    } else {
        decimal_text(v as nat)
    }
}

pub proof fn lemma_decimal_ascii(v: nat)
    ensures
        is_ascii_bytes(decimal_text(v)),
        decimal_text(v).len() >= 1,
    decreases v,
{
    if v >= 10 {
        lemma_decimal_ascii(v / 10);
    }
}

/// Appends the decimal digits of `v`.
pub fn push_decimal(out: &mut Vec<u8>, v: u64)
    ensures
        final(out)@ == old(out)@ + decimal_text(v as nat),
    decreases v,
{
    if v >= 10 {
        push_decimal(out, v / 10);
    }
    out.push(('0' as u8 + (v % 10) as u8) as u8);
    if v >= 10 {
        assert(decimal_text(v as nat) == decimal_text((v / 10) as nat).push(
            digit_byte((v % 10) as int),
        ));
    }
}

/// Appends `v` in decimal, with a `-` in front when it is negative.
pub fn push_signed(out: &mut Vec<u8>, v: i32)
    ensures
        final(out)@ == old(out)@ + signed_text(v as int),
{
    if v < 0 {
        out.push('-' as u8);
        let m: u64 = (0i64 - v as i64) as u64;
        push_decimal(out, m);
    } else {
        push_decimal(out, v as u64);
    }
}

/// 10 to the power `n`.
pub open spec fn pow10(n: nat) -> nat
    decreases n,
{
    if n == 0 {
        1
    } else {
        10 * pow10((n - 1) as nat)
    }
}

/// Up to nine digits fit below 10^9.
pub proof fn lemma_pow10_le_9(n: nat)
    requires
        n <= 9,
    ensures
        pow10(n) <= 1_000_000_000,
    decreases 9 - n,
{
    if n < 9 {
        lemma_pow10_le_9(n + 1);
    } else {
        reveal_with_fuel(pow10, 10);
    }
}

} // verus!
