//! A positioned reader over bytes in memory, and the text encodings of CRI
//! tables.

use vstd::prelude::*;
use vstd::utf8::{decode_utf8, valid_utf8};
use crate::bytes::{i16_of, i32_of, i8_of, u16_be, u16_le, u32_be, u32_le, u64_be};

verus! {

/// Why a read or a seek failed.
#[derive(Clone, Copy, PartialEq, Eq, Structural, Debug)]
pub enum IoError {
    /// The data ended before the requested bytes.
    UnexpectedEof,
    /// A seek to a position below zero or above the 64-bit range.
    InvalidSeek,
}

/// Where a seek counts from.
#[derive(Clone, Copy, PartialEq, Eq, Structural, Debug)]
pub enum SeekFrom {
    Start(u64),
    End(i64),
    Current(i64),
}

/// Bytes in memory with a position, which may lie past the end.
#[derive(Debug)]
pub struct Cursor {
    data: Vec<u8>,
    pos: u64,
}

/// The bytes left from a position on.
pub open spec fn remaining(len: nat, pos: nat) -> nat {
    if pos <= len { (len - pos) as nat } else { 0 }
}

/// The bytes `pos..pos + n`; none where `n` is zero, wherever `pos` lies.
pub open spec fn slice_at(data: Seq<u8>, pos: nat, n: nat) -> Seq<u8> {
    if n == 0 { Seq::empty() } else { data.subrange(pos as int, (pos + n) as int) }
}

impl Cursor {
    /// All bytes.
    pub closed spec fn data(&self) -> Seq<u8> {
        self.data@
    }

    /// The position.
    pub closed spec fn pos(&self) -> nat {
        self.pos as nat
    }

    /// A cursor at the start of `data`.
    pub fn new(data: Vec<u8>) -> (r: Self)
        ensures
            r.data() == data@,
            r.pos() == 0,
    {
        Cursor { data, pos: 0 }
    }

    /// The current position.
    pub fn position(&self) -> (r: u64)
        ensures
            r == self.pos(),
    {
        self.pos
    }

    /// The bytes the cursor was made from.
    pub fn into_inner(self) -> (r: Vec<u8>)
        ensures
            r@ == self.data(),
    {
        self.data
    }

    /// The number of bytes in all.
    pub fn len(&self) -> (r: usize)
        ensures
            r == self.data().len(),
    {
        self.data.len()
    }

    /// Moves to `pos`; fails where the target is negative or does not fit.
    pub fn seek(&mut self, pos: SeekFrom) -> (r: Result<u64, IoError>)
        ensures
            final(self).data() == old(self).data(),
            ({
                let target: int = match pos {
                    SeekFrom::Start(n) => n as int,
                    SeekFrom::End(n) => old(self).data().len() + n,
                    SeekFrom::Current(n) => old(self).pos() + n,
                };
                if 0 <= target <= u64::MAX {
                    r == Ok::<u64, IoError>(target as u64) && final(self).pos() == target
                } else {
                    r == Err::<u64, IoError>(IoError::InvalidSeek)
                        && final(self).pos() == old(self).pos()
                }
            }),
    {
        let target: i128 = match pos {
            SeekFrom::Start(n) => n as i128,
            SeekFrom::End(n) => self.data.len() as i128 + n as i128,
            SeekFrom::Current(n) => self.pos as i128 + n as i128,
        };
        if target < 0 || target > u64::MAX as i128 {
            return Err(IoError::InvalidSeek);
        }
        self.pos = target as u64;
        Ok(self.pos)
    }

    /// Reads exactly `n` bytes; at the end of the data it fails and stops there.
    pub fn read_exact(&mut self, n: usize) -> (r: Result<Vec<u8>, IoError>)
        ensures
            final(self).data() == old(self).data(),
            n <= remaining(old(self).data().len(), old(self).pos()) ==> {
                &&& r is Ok
                &&& r->Ok_0@ == slice_at(old(self).data(), old(self).pos(), n as nat)
                &&& final(self).pos() == old(self).pos() + n
            },
            n > remaining(old(self).data().len(), old(self).pos()) ==> {
                &&& r == Err::<Vec<u8>, IoError>(IoError::UnexpectedEof)
                &&& final(self).pos() == old(self).data().len()
            },
    {
        let len: usize = self.data.len();
        let left: usize = if self.pos <= len as u64 { len - self.pos as usize } else { 0 };
        if n > left {
            self.pos = len as u64;
            return Err(IoError::UnexpectedEof);
        }
        if n == 0 {
            let r: Vec<u8> = Vec::new();
            assert(r@ =~= slice_at(old(self).data(), old(self).pos(), 0));
            return Ok(r);
        }
        let start: usize = self.pos as usize;
        let r = crate::bytes::copy_range(self.data.as_slice(), start, start + n);
        self.pos = (start + n) as u64;
        Ok(r)
    }
}

/// What a fixed-width read of `n` bytes leaves behind: it succeeds where `n`
/// bytes are left, and then moves past them.
pub open spec fn read_moves(before: &Reader, after: &Reader, n: nat, ok: bool) -> bool {
    &&& after.data() == before.data()
    &&& ok == (n <= remaining(before.data().len(), before.pos()))
    &&& after.pos() == if ok { before.pos() + n } else { before.data().len() }
}

/// Reader with typed read methods.
#[derive(Debug)]
pub struct Reader {
    inner: Cursor,
}

impl Reader {
    /// All bytes.
    pub closed spec fn data(&self) -> Seq<u8> {
        self.inner.data()
    }

    /// The position.
    pub closed spec fn pos(&self) -> nat {
        self.inner.pos()
    }

    pub fn new(inner: Cursor) -> (r: Self)
        ensures
            r.data() == inner.data(),
            r.pos() == inner.pos(),
    {
        Reader { inner }
    }

    pub fn into_inner(self) -> (r: Cursor)
        ensures
            r.data() == self.data(),
            r.pos() == self.pos(),
    {
        self.inner
    }

    /// The number of bytes in all.
    pub fn len(&self) -> (r: usize)
        ensures
            r == self.data().len(),
    {
        self.inner.len()
    }

    /// Moves to `pos`; fails where the target is negative or does not fit.
    pub fn seek(&mut self, pos: SeekFrom) -> (r: Result<u64, IoError>)
        ensures
            final(self).data() == old(self).data(),
            ({
                let target: int = match pos {
                    SeekFrom::Start(n) => n as int,
                    SeekFrom::End(n) => old(self).data().len() + n,
                    SeekFrom::Current(n) => old(self).pos() + n,
                };
                if 0 <= target <= u64::MAX {
                    r == Ok::<u64, IoError>(target as u64) && final(self).pos() == target
                } else {
                    r == Err::<u64, IoError>(IoError::InvalidSeek)
                        && final(self).pos() == old(self).pos()
                }
            }),
    {
        self.inner.seek(pos)
    }

    /// The current position. It takes `&mut self` like the other reads.
    pub fn stream_position(&mut self) -> (r: Result<u64, IoError>)
        ensures
            *final(self) == *old(self),
            r == Ok::<u64, IoError>(old(self).pos() as u64),
            old(self).pos() <= u64::MAX,
    {
        Ok(self.inner.position())
    }

    /// Reads exactly `n` bytes; at the end of the data it fails and stops there.
    pub fn read_bytes(&mut self, n: usize) -> (r: Result<Vec<u8>, IoError>)
        ensures
            read_moves(old(self), final(self), n as nat, r is Ok),
            r is Ok ==> r->Ok_0@ == slice_at(old(self).data(), old(self).pos(), n as nat),
            r is Err ==> r->Err_0 == IoError::UnexpectedEof,
    {
        self.inner.read_exact(n)
    }

    pub fn read_u8(&mut self) -> (r: Result<u8, IoError>)
        ensures
            read_moves(old(self), final(self), 1, r is Ok),
            r is Ok ==> r->Ok_0 == old(self).data()[old(self).pos() as int],
            r is Err ==> r->Err_0 == IoError::UnexpectedEof,
    {
        let b = self.read_bytes(1)?;
        Ok(b[0])
    }

    pub fn read_i8(&mut self) -> (r: Result<i8, IoError>)
        ensures
            read_moves(old(self), final(self), 1, r is Ok),
            r is Ok ==> r->Ok_0 == i8_of(old(self).data()[old(self).pos() as int]),
            r is Err ==> r->Err_0 == IoError::UnexpectedEof,
    {
        let b = self.read_bytes(1)?;
        Ok(crate::bytes::to_i8(b[0]))
    }

    pub fn read_u16(&mut self) -> (r: Result<u16, IoError>)
        ensures
            read_moves(old(self), final(self), 2, r is Ok),
            r is Ok ==> r->Ok_0 == u16_be(slice_at(old(self).data(), old(self).pos(), 2)),
            r is Err ==> r->Err_0 == IoError::UnexpectedEof,
    {
        let b = self.read_bytes(2)?;
        Ok(crate::bytes::read_u16_be(b.as_slice()))
    }

    pub fn read_i16(&mut self) -> (r: Result<i16, IoError>)
        ensures
            read_moves(old(self), final(self), 2, r is Ok),
            r is Ok ==> r->Ok_0 == i16_of(u16_be(slice_at(old(self).data(), old(self).pos(), 2))),
            r is Err ==> r->Err_0 == IoError::UnexpectedEof,
    {
        let b = self.read_bytes(2)?;
        Ok(crate::bytes::read_i16_be(b.as_slice()))
    }

    pub fn read_u32(&mut self) -> (r: Result<u32, IoError>)
        ensures
            read_moves(old(self), final(self), 4, r is Ok),
            r is Ok ==> r->Ok_0 == u32_be(slice_at(old(self).data(), old(self).pos(), 4)),
            r is Err ==> r->Err_0 == IoError::UnexpectedEof,
    {
        let b = self.read_bytes(4)?;
        Ok(crate::bytes::read_u32_be(b.as_slice()))
    }

    pub fn read_i32(&mut self) -> (r: Result<i32, IoError>)
        ensures
            read_moves(old(self), final(self), 4, r is Ok),
            r is Ok ==> r->Ok_0 == i32_of(u32_be(slice_at(old(self).data(), old(self).pos(), 4))),
            r is Err ==> r->Err_0 == IoError::UnexpectedEof,
    {
        let b = self.read_bytes(4)?;
        Ok(crate::bytes::read_i32_be(b.as_slice()))
    }

    pub fn read_u64(&mut self) -> (r: Result<u64, IoError>)
        ensures
            read_moves(old(self), final(self), 8, r is Ok),
            r is Ok ==> r->Ok_0 == u64_be(slice_at(old(self).data(), old(self).pos(), 8)),
            r is Err ==> r->Err_0 == IoError::UnexpectedEof,
    {
        let b = self.read_bytes(8)?;
        Ok(crate::bytes::read_u64_be(b.as_slice()))
    }

    /// Reads a single-precision number and returns its bit pattern.
    pub fn read_f32(&mut self) -> (r: Result<u32, IoError>)
        ensures
            read_moves(old(self), final(self), 4, r is Ok),
            r is Ok ==> r->Ok_0 == u32_be(slice_at(old(self).data(), old(self).pos(), 4)),
            r is Err ==> r->Err_0 == IoError::UnexpectedEof,
    {
        self.read_u32()
    }

    pub fn read_u16_le(&mut self) -> (r: Result<u16, IoError>)
        ensures
            read_moves(old(self), final(self), 2, r is Ok),
            r is Ok ==> r->Ok_0 == u16_le(slice_at(old(self).data(), old(self).pos(), 2)),
            r is Err ==> r->Err_0 == IoError::UnexpectedEof,
    {
        let b = self.read_bytes(2)?;
        Ok(crate::bytes::read_u16_le(b.as_slice()))
    }

    pub fn read_u32_le(&mut self) -> (r: Result<u32, IoError>)
        ensures
            read_moves(old(self), final(self), 4, r is Ok),
            r is Ok ==> r->Ok_0 == u32_le(slice_at(old(self).data(), old(self).pos(), 4)),
            r is Err ==> r->Err_0 == IoError::UnexpectedEof,
    {
        let b = self.read_bytes(4)?;
        Ok(crate::bytes::read_u32_le(b.as_slice()))
    }

    /// Appends exactly `n` bytes to `out`; on failure `out` keeps its bytes.
    pub fn read_into_vec(&mut self, n: usize, out: &mut Vec<u8>) -> (r: Result<(), IoError>)
        ensures
            read_moves(old(self), final(self), n as nat, r is Ok),
            r is Ok ==> final(out)@ == old(out)@ + slice_at(
                old(self).data(),
                old(self).pos(),
                n as nat,
            ),
            r is Err ==> r->Err_0 == IoError::UnexpectedEof && final(out)@ == old(out)@,
    {
        let b = self.read_bytes(n)?;
        crate::bytes::put_slice(out, b.as_slice());
        Ok(())
    }

    /// Appends the next `n` bytes to `writer`, or as many as are left, and
    /// fails where fewer than `n` were left.
    pub fn copy_to_writer(&mut self, n: u64, writer: &mut Vec<u8>) -> (r: Result<u64, IoError>)
        ensures
            final(self).data() == old(self).data(),
            ({
                let left = remaining(old(self).data().len(), old(self).pos());
                let moved = if n <= left { n as nat } else { left };
                &&& final(self).pos() == old(self).pos() + moved
                &&& final(writer)@ == old(writer)@ + slice_at(
                    old(self).data(),
                    old(self).pos(),
                    moved,
                )
                &&& n <= left ==> r == Ok::<u64, IoError>(n)
                &&& n > left ==> r == Err::<u64, IoError>(IoError::UnexpectedEof)
            }),
    {
        let len: u64 = self.inner.len() as u64;
        let at: u64 = self.inner.position();
        let left: u64 = if at <= len { len - at } else { 0 };
        let moved: u64 = if n <= left { n } else { left };
        match self.read_bytes(moved as usize) {
            Ok(b) => {
                crate::bytes::put_slice(writer, b.as_slice());
            },
            Err(e) => {
                return Err(e);
            },
        }
        if moved == n {
            Ok(moved)
        } else {
            Err(IoError::UnexpectedEof)
        }
    }

    /// Reads `n` bytes at `offset`; the position stays where it was.
    pub fn read_bytes_at(&mut self, n: usize, offset: u64) -> (r: Result<Vec<u8>, IoError>)
        ensures
            final(self).data() == old(self).data(),
            final(self).pos() == old(self).pos(),
            r is Ok <==> n <= remaining(old(self).data().len(), offset as nat),
            r is Ok ==> r->Ok_0@ == slice_at(old(self).data(), offset as nat, n as nat),
            r is Err ==> r->Err_0 == IoError::UnexpectedEof,
    {
        let pos: u64 = self.stream_position()?;
        let _ = self.seek(SeekFrom::Start(offset))?;
        let result = self.read_bytes(n);
        let _ = self.seek(SeekFrom::Start(pos))?;
        result
    }

    /// Reads a null-terminated string and moves past the terminator.
    pub fn read_string0(&mut self) -> (r: Result<String, IoError>)
        requires
            addressable(old(self).data().len()),
        ensures
            final(self).data() == old(self).data(),
            match text_end(old(self).data(), old(self).pos()) {
                Some(z) => {
                    &&& r is Ok
                    &&& r->Ok_0@ == cri_text(old(self).data().subrange(old(self).pos() as int, z as int))
                    &&& final(self).pos() == z + 1
                },
                None => {
                    &&& r == Err::<String, IoError>(IoError::UnexpectedEof)
                    &&& final(self).pos() == old(self).data().len()
                },
            },
    {
        let ghost d = self.data();
        let ghost start = self.pos();
        let mut buf: Vec<u8> = Vec::new();
        loop
            invariant
                self.data() == d,
                addressable(d.len()),
                start <= self.pos(),
                self.pos() <= d.len() || self.pos() == start,
                buf@.len() == self.pos() - start,
                self.pos() <= d.len() ==> buf@ == d.subrange(start as int, self.pos() as int),
                text_end(d, start) == text_end(d, self.pos()),
                start == old(self).pos(),
                d == old(self).data(),
            decreases remaining(d.len(), self.pos()),
        {
            let ghost p = self.pos();
            let b = match self.read_u8() {
                Ok(b) => b,
                Err(e) => {
                    return Err(e);
                },
            };
            if b == 0 {
                assert(text_end(d, p) == Some(p));
                return Ok(decode_cri_string(buf.as_slice()));
            }
            buf.push(b);
            assert(d.subrange(start as int, p as int).push(b) =~= d.subrange(
                start as int,
                self.pos() as int,
            ));
        }
    }

    /// Reads a null-terminated string at `offset`; the position stays where it
    /// was.
    pub fn read_string0_at(&mut self, offset: u64) -> (r: Result<String, IoError>)
        requires
            addressable(old(self).data().len()),
        ensures
            final(self).data() == old(self).data(),
            final(self).pos() == old(self).pos(),
            match string_at(old(self).data(), offset as nat) {
                Some(s) => r is Ok && r->Ok_0@ == s,
                None => r == Err::<String, IoError>(IoError::UnexpectedEof),
            },
    {
        let pos: u64 = self.stream_position()?;
        let _ = self.seek(SeekFrom::Start(offset))?;
        let result = self.read_string0();
        let _ = self.seek(SeekFrom::Start(pos))?;
        result
    }
}

/// The index of the first zero byte from `pos` on.
pub open spec fn text_end(data: Seq<u8>, pos: nat) -> Option<nat>
    decreases data.len() - pos,
{
    if pos >= data.len() {
        None
    } else if data[pos as int] == 0 {
        Some(pos)
    } else {
        text_end(data, pos + 1)
    }
}

/// The null-terminated string at `pos`, where the data holds a terminator.
pub open spec fn string_at(data: Seq<u8>, pos: nat) -> Option<Seq<char>> {
    match text_end(data, pos) {
        Some(z) => Some(cri_text(data.subrange(pos as int, z as int))),
        None => None,
    }
}

/// A length small enough that every text decoder can size its output buffer.
pub open spec fn addressable(len: nat) -> bool {
    len <= usize::MAX / 16
}

/// What decoding Shift-JIS gives: the text, and whether a sequence was
/// malformed.
pub uninterp spec fn shift_jis_decoded(bytes: Seq<u8>) -> (Seq<char>, bool);

/// Whether all bytes are ASCII.
pub open spec fn ascii_bytes(b: Seq<u8>) -> bool {
    forall|i: int| 0 <= i < b.len() ==> #[trigger] b[i] < 0x80
}

/// ASCII bytes as characters.
pub open spec fn ascii_text(b: Seq<u8>) -> Seq<char> {
    b.map_values(|x: u8| x as char)
}

/// Bytes read as Shift-JIS: the text, and whether a sequence was malformed.
/// ASCII bytes stand for themselves.
pub open spec fn sjis_text(b: Seq<u8>) -> (Seq<char>, bool) {
    if ascii_bytes(b) { (ascii_text(b), false) } else { shift_jis_decoded(b) }
}

/// What decoding little-endian UTF-16 gives: the text, and whether a sequence
/// was malformed.
pub uninterp spec fn utf16le_decoded(bytes: Seq<u8>) -> (Seq<char>, bool);

/// UTF-8 text with each malformed sequence replaced.
pub uninterp spec fn utf8_lossy(bytes: Seq<u8>) -> Seq<char>;

/// The text of a byte string of a CRI table: UTF-8 where it is valid, else
/// Shift-JIS, else UTF-16, else UTF-8 with replacements.
pub open spec fn cri_text(b: Seq<u8>) -> Seq<char> {
    if valid_utf8(b) {
        decode_utf8(b)
    } else {
        fallback_text(sjis_text(b), utf16le_decoded(b), utf8_lossy(b))
    }
}

/// The first decoding without a malformed sequence, or the replacement text.
pub open spec fn fallback_text(
    sjis: (Seq<char>, bool),
    utf16: (Seq<char>, bool),
    lossy: Seq<char>,
) -> Seq<char> {
    if !sjis.1 {
        sjis.0
    } else if !utf16.1 {
        utf16.0
    } else {
        lossy
    }
}

/// Calls `std::str::from_utf8`: the text, exactly where the bytes are valid
/// UTF-8.
#[verifier::external_body]
pub(crate) fn utf8_text(buf: &[u8]) -> (r: Option<String>)
    ensures
        r is Some <==> valid_utf8(buf@),
        r is Some ==> r->Some_0@ == decode_utf8(buf@),
{
    match std::str::from_utf8(buf) {
        Ok(s) => Some(s.to_string()),
        Err(_) => None,
    }
}

/// Calls `encoding_rs::SHIFT_JIS.decode`: the text, and whether a sequence was
/// malformed. The bytes alone decide both, and ASCII bytes come out as they
/// are. Longer inputs than the bound can overflow the size of its output
/// buffer.
#[verifier::external_body]
pub(crate) fn decode_shift_jis(buf: &[u8]) -> (r: (String, bool))
    requires
        addressable(buf@.len()),
    ensures
        (r.0@, r.1) == shift_jis_decoded(buf@),
        ascii_bytes(buf@) ==> r.0@ == ascii_text(buf@) && !r.1,
{
    let (s, _, had_errors) = encoding_rs::SHIFT_JIS.decode(buf);
    (s.into_owned(), had_errors)
}

/// Calls `encoding_rs::UTF_16LE.decode`: the text, and whether a sequence was
/// malformed. The bytes alone decide both. Longer inputs than the bound can
/// overflow the size of its output buffer.
#[verifier::external_body]
fn decode_utf16le(buf: &[u8]) -> (r: (String, bool))
    requires
        addressable(buf@.len()),
    ensures
        (r.0@, r.1) == utf16le_decoded(buf@),
{
    let (s, _, had_errors) = encoding_rs::UTF_16LE.decode(buf);
    (s.into_owned(), had_errors)
}

/// Calls `String::from_utf8_lossy`: the text of the bytes where they are valid
/// UTF-8; else text in which U+FFFD stands for each malformed sequence. The
/// bytes alone decide it.
#[verifier::external_body]
pub(crate) fn decode_utf8_lossy(buf: &[u8]) -> (r: String)
    requires
        addressable(buf@.len()),
    ensures
        r@ == utf8_lossy(buf@),
        valid_utf8(buf@) ==> r@ == decode_utf8(buf@),
        !valid_utf8(buf@) ==> r@.contains('\u{FFFD}'),
{
    String::from_utf8_lossy(buf).into_owned()
}

/// Picks the first decoding without a malformed sequence, else `lossy`.
pub fn pick_decoding(sjis: (String, bool), utf16: (String, bool), lossy: String) -> (r: String)
    ensures
        r@ == fallback_text((sjis.0@, sjis.1), (utf16.0@, utf16.1), lossy@),
{
    if !sjis.1 {
        return sjis.0;
    }
    if !utf16.1 {
        return utf16.0;
    }
    lossy
}

/// Decode a CRI `@UTF` string. CRI tables store names as UTF-8, Shift-JIS, or
/// UTF-16; they are tried in that order before a lossy fallback.
pub fn decode_cri_string(buf: &[u8]) -> (r: String)
    requires
        addressable(buf@.len()),
    ensures
        r@ == cri_text(buf@),
{
    if let Some(s) = utf8_text(buf) {
        return s;
    }
    pick_decoding(decode_shift_jis(buf), decode_utf16le(buf), decode_utf8_lossy(buf))
}

/// The least multiple of `alignment` not below `offset`, for a positive
/// `alignment`.
pub open spec fn aligned(alignment: int, offset: int) -> int
    recommends
        alignment > 0,
{
    (offset + alignment - 1) / alignment * alignment
}

/// Rounds `offset` up to a multiple of `alignment`; alignment zero keeps it.
pub fn align(alignment: u32, offset: u32) -> (r: u32)
    requires
        alignment > 0 ==> aligned(alignment as int, offset as int) <= u32::MAX,
    ensures
        r == if alignment == 0 { offset as int } else { aligned(alignment as int, offset as int) },
{
    if alignment == 0 {
        return offset;
    }
    let q: u64 = (offset as u64 + alignment as u64 - 1) / alignment as u64;
    proof {
        aligned_bounds(alignment as int, offset as int);
        assert(q * alignment == aligned(alignment as int, offset as int));
    }
    (q * alignment as u64) as u32
}

/// Rounding up gives the least multiple that is not below the offset.
pub proof fn aligned_bounds(alignment: int, offset: int)
    requires
        alignment > 0,
    ensures
        offset <= aligned(alignment, offset) < offset + alignment,
        aligned(alignment, offset) % alignment == 0,
        offset >= 0 ==> aligned(alignment, offset) >= 0,
        forall|m: int|
            m * alignment >= offset ==> #[trigger] (m * alignment) >= aligned(alignment, offset),
{
    let x = offset + alignment - 1;
    let q = x / alignment;
    vstd::arithmetic::div_mod::lemma_fundamental_div_mod(x, alignment);
    assert(q * alignment == x - x % alignment) by (nonlinear_arith)
        requires
            x == alignment * q + x % alignment,
    ;
    vstd::arithmetic::div_mod::lemma_mod_bound(x, alignment);
    vstd::arithmetic::div_mod::lemma_mod_multiples_basic(q, alignment);
    assert forall|m: int| m * alignment >= offset implies #[trigger] (m * alignment) >= q
        * alignment by {
        assert(m >= q) by (nonlinear_arith)
            requires
                m * alignment >= offset,
                q * alignment < offset + alignment,
                alignment > 0,
        ;
        assert(m * alignment >= q * alignment) by (nonlinear_arith)
            requires
                m >= q,
                alignment > 0,
        ;
    }
}

/// Rounding up twice is rounding up once.
pub proof fn aligned_idempotent(alignment: int, offset: int)
    requires
        alignment > 0,
    ensures
        aligned(alignment, aligned(alignment, offset)) == aligned(alignment, offset),
{
    let a = aligned(alignment, offset);
    let q = (offset + alignment - 1) / alignment;
    aligned_bounds(alignment, offset);
    aligned_bounds(alignment, a);
    assert(q * alignment >= a);
}

} // verus!
