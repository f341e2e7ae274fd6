//! Text made of ASCII characters.

use vstd::prelude::*;
use vstd::utf8::{decode_utf8, encode_utf8, is_ascii_chars, valid_utf8};

verus! {

/// The characters of ASCII bytes.
pub open spec fn ascii_chars(b: Seq<u8>) -> Seq<char> {
    b.map_values(|x: u8| x as char)
}

/// Whether all bytes are ASCII.
pub open spec fn all_ascii(b: Seq<u8>) -> bool {
    forall|i: int| 0 <= i < b.len() ==> b[i] < 0x80
}

/// The string of ASCII bytes.
pub fn ascii_string(b: &[u8]) -> (r: String)
    requires
        all_ascii(b@),
    ensures
        r@ == ascii_chars(b@),
{
    proof {
        ascii_bytes_decode(b@);
    }
    match crate::reader::utf8_text(b) {
        Some(s) => s,
        None => String::new(),
    }
}

/// ASCII bytes are the encoding of their characters.
pub proof fn ascii_bytes_decode(b: Seq<u8>)
    requires
        all_ascii(b),
    ensures
        valid_utf8(b),
        decode_utf8(b) == ascii_chars(b),
        encode_utf8(ascii_chars(b)) == b,
{
    let c = ascii_chars(b);
    assert(is_ascii_chars(c));
    vstd::utf8::is_ascii_chars_encode_utf8(c);
    assert(encode_utf8(c) =~= b);
    vstd::utf8::encode_utf8_decode_utf8(c);
    vstd::utf8::encode_utf8_valid_utf8(c);
}

/// The decimal digits of a number.
pub open spec fn decimal(v: nat) -> Seq<u8>
    decreases v,
{
    if v < 10 {
        seq![(0x30 + v) as u8]
    } else {
        decimal(v / 10).push((0x30 + v % 10) as u8)
    }
}

/// The decimal notation of a signed number.
pub open spec fn signed_decimal(v: int) -> Seq<u8> {
    if v < 0 { seq![0x2du8] + decimal((-v) as nat) } else { decimal(v as nat) }
}

/// The number that decimal digits stand for.
pub open spec fn digits_value(b: Seq<u8>) -> int
    decreases b.len(),
{
    if b.len() == 0 {
        0
    } else {
        10 * digits_value(b.drop_last()) + (b.last() - 0x30)
    }
}

/// The digits of a number stand for it, and none but zero starts with a zero.
pub proof fn digits_stand_for_numbers(v: nat)
    ensures
        digits_value(decimal(v)) == v,
        decimal(v).len() >= 1,
        forall|i: int| 0 <= i < decimal(v).len() ==> 0x30 <= #[trigger] decimal(v)[i] <= 0x39,
        v > 0 ==> decimal(v)[0] != 0x30,
        signed_decimal(v as int) == decimal(v),
        v > 0 ==> signed_decimal(-v) == seq![0x2du8] + decimal(v),
    decreases v,
{
    if v >= 10 {
        digits_stand_for_numbers(v / 10);
        let d = decimal(v);
        assert(d.drop_last() =~= decimal(v / 10));
        assert(d.last() == 0x30 + v % 10);
        assert(d[0] == decimal(v / 10)[0]);
    } else {
        let d = decimal(v);
        assert(d.drop_last() =~= Seq::empty());
        assert(digits_value(d.drop_last()) == 0);
    }
}

/// Decimal digits are ASCII, at most twenty for a 64-bit number.
pub proof fn decimal_is_ascii(v: nat)
    ensures
        all_ascii(decimal(v)),
        decimal(v).len() >= 1,
    decreases v,
{
    if v >= 10 {
        decimal_is_ascii(v / 10);
    }
}

/// Appends the decimal digits of a number.
pub fn put_decimal(out: &mut Vec<u8>, v: u64)
    ensures
        final(out)@ == old(out)@ + decimal(v as nat),
    decreases v,
{
    if v >= 10 {
        put_decimal(out, v / 10);
        out.push((0x30 + v % 10) as u8);
    } else {
        out.push((0x30 + v) as u8);
    }
    assert(out@ =~= old(out)@ + decimal(v as nat));
}

/// Appends the decimal notation of a signed number.
pub fn put_signed_decimal(out: &mut Vec<u8>, v: i64)
    ensures
        final(out)@ == old(out)@ + signed_decimal(v as int),
{
    if v < 0 {
        out.push(0x2d);
        put_decimal(out, (0 - v as i128) as u64);
    } else {
        put_decimal(out, v as u64);
    }
    assert(out@ =~= old(out)@ + signed_decimal(v as int));
}

/// A signed number in decimal notation.
pub fn decimal_string(v: i64) -> (r: String)
    ensures
        r@ == ascii_chars(signed_decimal(v as int)),
{
    let mut out: Vec<u8> = Vec::new();
    put_signed_decimal(&mut out, v);
    assert(out@ =~= signed_decimal(v as int));
    proof {
        decimal_is_ascii(if v < 0 { (-v) as nat } else { v as nat });
    }
    ascii_string(out.as_slice())
}

} // verus!
