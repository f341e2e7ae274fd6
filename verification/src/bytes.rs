//! Fixed-width integers as byte sequences, in both byte orders.

use vstd::prelude::*;
use byteorder::{BigEndian, ByteOrder, LittleEndian};

verus! {

/// The value of two big-endian bytes.
pub open spec fn u16_be(s: Seq<u8>) -> u16 {
    (s[0] as int * 0x100 + s[1]) as u16
}

/// The value of four big-endian bytes.
pub open spec fn u32_be(s: Seq<u8>) -> u32 {
    (s[0] as int * 0x100_0000 + s[1] * 0x1_0000 + s[2] * 0x100 + s[3]) as u32
}

/// The value of eight big-endian bytes.
pub open spec fn u64_be(s: Seq<u8>) -> u64 {
    (u32_be(s) as int * 0x1_0000_0000 + u32_be(s.subrange(4, 8))) as u64
}

/// The value of two little-endian bytes.
pub open spec fn u16_le(s: Seq<u8>) -> u16 {
    (s[1] as int * 0x100 + s[0]) as u16
}

/// The value of four little-endian bytes.
pub open spec fn u32_le(s: Seq<u8>) -> u32 {
    (s[3] as int * 0x100_0000 + s[2] * 0x1_0000 + s[1] * 0x100 + s[0]) as u32
}

/// The two big-endian bytes of a value.
pub open spec fn be16(v: u16) -> Seq<u8> {
    seq![(v / 0x100) as u8, (v % 0x100) as u8]
}

/// The four big-endian bytes of a value.
pub open spec fn be32(v: u32) -> Seq<u8> {
    seq![
        (v / 0x100_0000) as u8,
        (v / 0x1_0000 % 0x100) as u8,
        (v / 0x100 % 0x100) as u8,
        (v % 0x100) as u8,
    ]
}

/// The eight big-endian bytes of a value.
pub open spec fn be64(v: u64) -> Seq<u8> {
    be32((v / 0x1_0000_0000) as u32) + be32((v % 0x1_0000_0000) as u32)
}

/// The two little-endian bytes of a value.
pub open spec fn le16(v: u16) -> Seq<u8> {
    seq![(v % 0x100) as u8, (v / 0x100) as u8]
}

/// The four little-endian bytes of a value.
pub open spec fn le32(v: u32) -> Seq<u8> {
    seq![
        (v % 0x100) as u8,
        (v / 0x100 % 0x100) as u8,
        (v / 0x1_0000 % 0x100) as u8,
        (v / 0x100_0000) as u8,
    ]
}

/// The signed value with the same eight bits.
pub open spec fn i8_of(v: u8) -> i8 {
    if v < 0x80 { v as i8 } else { (v - 0x100) as i8 }
}

/// The signed value with the same sixteen bits.
pub open spec fn i16_of(v: u16) -> i16 {
    if v < 0x8000 { v as i16 } else { (v - 0x1_0000) as i16 }
}

/// The signed value with the same thirty-two bits.
pub open spec fn i32_of(v: u32) -> i32 {
    if v < 0x8000_0000 { v as i32 } else { (v - 0x1_0000_0000) as i32 }
}

/// The signed value with the same sixty-four bits.
pub open spec fn i64_of(v: u64) -> i64 {
    if v < 0x8000_0000_0000_0000 { v as i64 } else { (v - 0x1_0000_0000_0000_0000) as i64 }
}

/// The unsigned value with the same eight bits.
pub open spec fn u8_of(v: i8) -> u8 {
    if v >= 0 { v as u8 } else { (v + 0x100) as u8 }
}

/// The unsigned value with the same sixteen bits.
pub open spec fn u16_of(v: i16) -> u16 {
    if v >= 0 { v as u16 } else { (v + 0x1_0000) as u16 }
}

/// The unsigned value with the same thirty-two bits.
pub open spec fn u32_of(v: i32) -> u32 {
    if v >= 0 { v as u32 } else { (v + 0x1_0000_0000) as u32 }
}

/// `n` zero bytes.
pub open spec fn zeros(n: nat) -> Seq<u8> {
    Seq::new(n, |i: int| 0u8)
}

/// Calls `byteorder::BigEndian::read_u16`: the first two bytes, most
/// significant first.
#[verifier::external_body]
pub(crate) fn read_u16_be(buf: &[u8]) -> (r: u16)
    requires
        buf@.len() >= 2,
    ensures
        r == u16_be(buf@),
{
    BigEndian::read_u16(buf)
}

/// Calls `byteorder::BigEndian::read_i16`: the first two bytes, most
/// significant first, in two's complement.
#[verifier::external_body]
pub(crate) fn read_i16_be(buf: &[u8]) -> (r: i16)
    requires
        buf@.len() >= 2,
    ensures
        r == i16_of(u16_be(buf@)),
{
    BigEndian::read_i16(buf)
}

/// Calls `byteorder::BigEndian::read_u32`: the first four bytes, most
/// significant first.
#[verifier::external_body]
pub(crate) fn read_u32_be(buf: &[u8]) -> (r: u32)
    requires
        buf@.len() >= 4,
    ensures
        r == u32_be(buf@),
{
    BigEndian::read_u32(buf)
}

/// Calls `byteorder::BigEndian::read_i32`: the first four bytes, most
/// significant first, in two's complement.
#[verifier::external_body]
pub(crate) fn read_i32_be(buf: &[u8]) -> (r: i32)
    requires
        buf@.len() >= 4,
    ensures
        r == i32_of(u32_be(buf@)),
{
    BigEndian::read_i32(buf)
}

/// Calls `byteorder::BigEndian::read_u64`: the first eight bytes, most
/// significant first.
#[verifier::external_body]
pub(crate) fn read_u64_be(buf: &[u8]) -> (r: u64)
    requires
        buf@.len() >= 8,
    ensures
        r == u64_be(buf@),
{
    BigEndian::read_u64(buf)
}

/// Calls `byteorder::LittleEndian::read_u16`: the first two bytes, least
/// significant first.
#[verifier::external_body]
pub(crate) fn read_u16_le(buf: &[u8]) -> (r: u16)
    requires
        buf@.len() >= 2,
    ensures
        r == u16_le(buf@),
{
    LittleEndian::read_u16(buf)
}

/// Calls `byteorder::LittleEndian::read_u32`: the first four bytes, least
/// significant first.
#[verifier::external_body]
pub(crate) fn read_u32_le(buf: &[u8]) -> (r: u32)
    requires
        buf@.len() >= 4,
    ensures
        r == u32_le(buf@),
{
    LittleEndian::read_u32(buf)
}

/// The signed reading of a byte.
pub fn to_i8(v: u8) -> (r: i8)
    ensures
        r == i8_of(v),
{
    if v < 0x80 { v as i8 } else { (v as i16 - 0x100) as i8 }
}

/// The signed reading of a 64-bit word.
pub fn to_i64(v: u64) -> (r: i64)
    ensures
        r == i64_of(v),
{
    if v < 0x8000_0000_0000_0000 { v as i64 } else { (v as i128 - 0x1_0000_0000_0000_0000) as i64 }
}

/// Appends one byte holding a signed value.
pub fn put_i8(out: &mut Vec<u8>, v: i8)
    ensures
        final(out)@ == old(out)@.push(u8_of(v)),
{
    out.push(if v >= 0 { v as u8 } else { (v as i16 + 0x100) as u8 });
}

/// Appends a 16-bit value, most significant byte first.
pub fn put_u16_be(out: &mut Vec<u8>, v: u16)
    ensures
        final(out)@ == old(out)@ + be16(v),
{
    out.push((v / 0x100) as u8);
    out.push((v % 0x100) as u8);
    assert(out@ =~= old(out)@ + be16(v));
}

/// Appends a 32-bit value, most significant byte first.
pub fn put_u32_be(out: &mut Vec<u8>, v: u32)
    ensures
        final(out)@ == old(out)@ + be32(v),
{
    out.push((v / 0x100_0000) as u8);
    out.push((v / 0x1_0000 % 0x100) as u8);
    out.push((v / 0x100 % 0x100) as u8);
    out.push((v % 0x100) as u8);
    assert(out@ =~= old(out)@ + be32(v));
}

/// Appends a 64-bit value, most significant byte first.
pub fn put_u64_be(out: &mut Vec<u8>, v: u64)
    ensures
        final(out)@ == old(out)@ + be64(v),
{
    put_u32_be(out, (v / 0x1_0000_0000) as u32);
    put_u32_be(out, (v % 0x1_0000_0000) as u32);
    assert(out@ =~= old(out)@ + be64(v));
}

/// Appends a signed 16-bit value, most significant byte first.
pub fn put_i16_be(out: &mut Vec<u8>, v: i16)
    ensures
        final(out)@ == old(out)@ + be16(u16_of(v)),
{
    put_u16_be(out, if v >= 0 { v as u16 } else { (v as i32 + 0x1_0000) as u16 });
}

/// Appends a signed 32-bit value, most significant byte first.
pub fn put_i32_be(out: &mut Vec<u8>, v: i32)
    ensures
        final(out)@ == old(out)@ + be32(u32_of(v)),
{
    put_u32_be(out, if v >= 0 { v as u32 } else { (v as i64 + 0x1_0000_0000) as u32 });
}

/// Appends a 16-bit value, least significant byte first.
pub fn put_u16_le(out: &mut Vec<u8>, v: u16)
    ensures
        final(out)@ == old(out)@ + le16(v),
{
    out.push((v % 0x100) as u8);
    out.push((v / 0x100) as u8);
    assert(out@ =~= old(out)@ + le16(v));
}

/// Appends a 32-bit value, least significant byte first.
pub fn put_u32_le(out: &mut Vec<u8>, v: u32)
    ensures
        final(out)@ == old(out)@ + le32(v),
{
    out.push((v % 0x100) as u8);
    out.push((v / 0x100 % 0x100) as u8);
    out.push((v / 0x1_0000 % 0x100) as u8);
    out.push((v / 0x100_0000) as u8);
    assert(out@ =~= old(out)@ + le32(v));
}

/// Appends `n` zero bytes.
pub fn put_zeros(out: &mut Vec<u8>, n: usize)
    ensures
        final(out)@ == old(out)@ + zeros(n as nat),
{
    let mut i: usize = 0;
    while i < n
        invariant
            i <= n,
            out@ =~= old(out)@ + zeros(i as nat),
        decreases n - i,
    {
        out.push(0u8);
        i += 1;
    }
}

/// Appends all bytes of a slice.
pub fn put_slice(out: &mut Vec<u8>, s: &[u8])
    ensures
        final(out)@ == old(out)@ + s@,
{
    let mut i: usize = 0;
    while i < s.len()
        invariant
            i <= s@.len(),
            out@ =~= old(out)@ + s@.subrange(0, i as int),
        decreases s@.len() - i,
    {
        out.push(s[i]);
        i += 1;
    }
    assert(s@.subrange(0, s@.len() as int) =~= s@);
}

/// A copy of the bytes `from..to` of a slice.
pub fn copy_range(s: &[u8], from: usize, to: usize) -> (r: Vec<u8>)
    requires
        from <= to <= s@.len(),
    ensures
        r@ == s@.subrange(from as int, to as int),
{
    let mut out: Vec<u8> = Vec::new();
    let mut i: usize = from;
    while i < to
        invariant
            from <= i <= to <= s@.len(),
            out@ =~= s@.subrange(from as int, i as int),
        decreases to - i,
    {
        out.push(s[i]);
        i += 1;
    }
    out
}

/// A copy of a byte slice.
pub fn copy_bytes(s: &[u8]) -> (r: Vec<u8>)
    ensures
        r@ == s@,
{
    let r = copy_range(s, 0, s.len());
    assert(s@.subrange(0, s@.len() as int) =~= s@);
    r
}

/// Whether two slices hold the same bytes.
pub fn same_bytes(a: &[u8], b: &[u8]) -> (r: bool)
    ensures
        r == (a@ == b@),
{
    if a.len() != b.len() {
        return false;
    }
    let mut i: usize = 0;
    while i < a.len()
        invariant
            i <= a@.len(),
            a@.len() == b@.len(),
            forall|j: int| 0 <= j < i ==> a@[j] == b@[j],
        decreases a@.len() - i,
    {
        if a[i] != b[i] {
            return false;
        }
        i += 1;
    }
    assert(a@ =~= b@);
    true
}

/// Whether two strings hold the same text.
pub fn same_text(a: &str, b: &str) -> (r: bool)
    ensures
        r == (a@ == b@),
{
    proof {
        vstd::utf8::encode_utf8_decode_utf8(a@);
        vstd::utf8::encode_utf8_decode_utf8(b@);
    }
    same_bytes(a.as_bytes(), b.as_bytes())
}

/// Reading big-endian bytes gives back the 16-bit value that was written.
pub proof fn be16_round_trip(v: u16)
    ensures
        be16(v).len() == 2,
        u16_be(be16(v)) == v,
{
}

/// Reading big-endian bytes gives back the 32-bit value that was written.
pub proof fn be32_round_trip(v: u32)
    ensures
        be32(v).len() == 4,
        u32_be(be32(v)) == v,
{
}

/// Reading big-endian bytes gives back the 64-bit value that was written.
pub proof fn be64_round_trip(v: u64)
    ensures
        be64(v).len() == 8,
        u64_be(be64(v)) == v,
{
    let hi = (v / 0x1_0000_0000) as u32;
    let lo = (v % 0x1_0000_0000) as u32;
    be32_round_trip(hi);
    be32_round_trip(lo);
    assert(be64(v).subrange(4, 8) =~= be32(lo));
    assert(u32_be(be64(v)) == u32_be(be32(hi)));
}

/// Reading little-endian bytes gives back the values that were written.
pub proof fn le_round_trip(v: u16, w: u32)
    ensures
        le16(v).len() == 2,
        u16_le(le16(v)) == v,
        le32(w).len() == 4,
        u32_le(le32(w)) == w,
{
}

/// Changing signedness and back gives the same value, at every width.
pub proof fn sign_round_trip(a: i8, b: i16, c: i32)
    ensures
        i8_of(u8_of(a)) == a,
        i16_of(u16_of(b)) == b,
        i32_of(u32_of(c)) == c,
{
}

} // verus!
