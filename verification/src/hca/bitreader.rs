//! Bit-level reader and writer for HCA blocks.

use vstd::prelude::*;
use vstd::arithmetic::power2::{lemma2_to64, lemma_pow2_adds, lemma_pow2_pos, lemma_pow2_strictly_increases, pow2};
use vstd::bits::{lemma_u32_shr_is_div, lemma_u64_shl_is_mul, lemma_u64_shr_is_div, lemma_u8_shr_is_div};
use crate::hca::bits::{
    bit_at, bits_make_number, drop_low, number_bit, window_shift, windowed, word, word_bound,
    word_byte, word_past_end, word_split,
};

verus! {

/// Whether the bits of that many bytes can be counted.
pub open spec fn countable(len: nat) -> bool {
    8 * len <= usize::MAX
}

/// What a read of `bits` bits at `p` gives: nothing for more than 32 bits or
/// past the end, else the bits that a 32-bit window shows.
pub open spec fn peeked(d: Seq<u8>, p: nat, bits: nat) -> nat {
    if bits == 0 || bits > 32 || p + bits > 8 * d.len() { 0 } else { windowed(d, p, bits) }
}

/// A number of `bits` bits read in two's complement.
pub open spec fn sign_extended(v: nat, bits: nat) -> int {
    if bits > 0 && v >= pow2((bits - 1) as nat) { v - pow2(bits) } else { v as int }
}

/// Bit reader for HCA data.
#[derive(Debug)]
pub struct BitReader<'a> {
    data: &'a [u8],
    position: usize,
}

/// The 32 bits from a byte on, zero past the end.
fn load_padded(data: &[u8], byte_idx: usize) -> (r: u32)
    requires
        byte_idx + 4 <= usize::MAX,
    ensures
        r == word(data@, 8 * byte_idx as nat, 32),
{
    let ghost d = data@;
    let ghost p = 8 * byte_idx as nat;
    let mut chunk: u32 = 0;
    let mut k: usize = 0;
    proof {
        lemma2_to64();
    }
    while k < 4
        invariant
            k <= 4,
            byte_idx + 4 <= usize::MAX,
            d == data@,
            p == 8 * byte_idx,
            chunk == word(d, p, 8 * k as nat),
            chunk < pow2(8 * k as nat),
        decreases 4 - k,
    {
        let pos: usize = byte_idx + k;
        let b: u32 = if pos < data.len() { data[pos] as u32 } else { 0 };
        proof {
            lemma2_to64();
            word_split(d, p, 8 * k as nat, 8);
            word_bound(d, p, 8 * (k + 1) as nat);
            assert(p + 8 * k as nat == 8 * pos as nat);
            if pos < d.len() {
                word_byte(d, pos as nat);
            } else {
                word_past_end(d, 8 * pos as nat, 8);
            }
            assert(k == 0 || k == 1 || k == 2 || k == 3);
        }
        chunk = chunk * 0x100 + b;
        k += 1;
    }
    chunk
}

/// The bits from bit `off` of a 32-bit window on.
fn shift_out(chunk: u32, off: u32, bits: u32) -> (r: u32)
    requires
        off < 8,
        1 <= bits <= 32,
    ensures
        r == ((chunk * pow2(off as nat)) % (pow2(32) as int)) / (pow2((32 - bits) as nat) as int),
{
    proof {
        lemma2_to64();
        lemma_pow2_strictly_increases(off as nat, 8);
        assert(chunk * pow2(off as nat) <= 0xFFFF_FFFF * 0x100) by (nonlinear_arith)
            requires
                chunk <= 0xFFFF_FFFF,
                pow2(off as nat) < 0x100,
        ;
        lemma_u64_shl_is_mul(chunk as u64, off as u64);
    }
    let wide: u64 = (chunk as u64) << (off as u64);
    let kept: u64 = wide % 0x1_0000_0000;
    proof {
        lemma_u64_shr_is_div(kept, (32 - bits) as u64);
        lemma_pow2_pos((32 - bits) as nat);
        assert(kept / (pow2((32 - bits) as nat) as u64) <= kept) by (nonlinear_arith)
            requires
                pow2((32 - bits) as nat) >= 1,
                kept >= 0,
                kept / (pow2((32 - bits) as nat) as u64) == kept as int / pow2((32 - bits) as nat) as int,
        ;
    }
    (kept >> ((32 - bits) as u64)) as u32
}

impl<'a> BitReader<'a> {
    /// The bytes read from.
    pub closed spec fn bytes(&self) -> Seq<u8> {
        self.data@
    }

    /// The position in bits.
    pub closed spec fn pos(&self) -> nat {
        self.position as nat
    }

    /// Create a new BitReader.
    pub fn new(data: &'a [u8]) -> (r: Self)
        ensures
            r.bytes() == data@,
            r.pos() == 0,
    {
        BitReader { data, position: 0 }
    }

    /// Create BitReader starting at byte offset.
    pub fn with_offset(data: &'a [u8], byte_offset: usize) -> (r: Self)
        requires
            countable(byte_offset as nat),
        ensures
            r.bytes() == data@,
            r.pos() == 8 * byte_offset,
    {
        BitReader { data, position: byte_offset * 8 }
    }

    /// Get current bit position.
    pub fn position(&self) -> (r: usize)
        ensures
            r == self.pos(),
    {
        self.position
    }

    /// Borrow the underlying data slice.
    pub fn data(&self) -> (r: &'a [u8])
        ensures
            r@ == self.bytes(),
    {
        self.data
    }

    /// Set bit position.
    pub fn set_position(&mut self, pos: usize)
        ensures
            final(self).bytes() == old(self).bytes(),
            final(self).pos() == pos,
    {
        self.position = pos;
    }

    /// Peek at up to 32 bits without advancing position. The bits come from a
    /// window of four bytes that starts at the current bit's byte. A read of
    /// more than 32 bits, or one that crosses the end, gives zero.
    pub fn peek(&self, bits: usize) -> (r: u32)
        requires
            countable(self.bytes().len()),
            self.pos() + bits <= usize::MAX,
        ensures
            r == peeked(self.bytes(), self.pos(), bits as nat),
    {
        if bits == 0 || bits > 32 {
            return 0;
        }
        if self.position + bits > self.data.len() * 8 {
            return 0;
        }
        let byte_idx: usize = self.position / 8;
        let bit_offset: u32 = (self.position % 8) as u32;
        let chunk: u32 = load_padded(self.data, byte_idx);
        proof {
            window_shift(self.bytes(), byte_idx as nat, bit_offset as nat, bits as nat);
        }
        shift_out(chunk, bit_offset, bits as u32)
    }

    /// Read bits and advance position.
    pub fn read(&mut self, bits: usize) -> (r: u32)
        requires
            countable(old(self).bytes().len()),
            old(self).pos() + bits <= usize::MAX,
        ensures
            r == peeked(old(self).bytes(), old(self).pos(), bits as nat),
            final(self).bytes() == old(self).bytes(),
            final(self).pos() == old(self).pos() + bits,
    {
        let value: u32 = self.peek(bits);
        self.position = self.position + bits;
        value
    }

    /// Read a known-valid bit width and advance position, as `read` does.
    pub fn read_hca_bits(&mut self, bits: usize) -> (r: u32)
        requires
            countable(old(self).bytes().len()),
            bits <= 32,
            old(self).pos() + bits <= usize::MAX,
        ensures
            r == peeked(old(self).bytes(), old(self).pos(), bits as nat),
            final(self).bytes() == old(self).bytes(),
            final(self).pos() == old(self).pos() + bits,
    {
        self.read(bits)
    }

    /// Skip bits.
    pub fn skip(&mut self, bits: usize)
        requires
            old(self).pos() + bits <= usize::MAX,
        ensures
            final(self).bytes() == old(self).bytes(),
            final(self).pos() == old(self).pos() + bits,
    {
        self.position = self.position + bits;
    }

    /// Advance the position by a signed amount, saturating at zero.
    pub fn advance_signed(&mut self, delta: i32)
        requires
            old(self).pos() + delta <= usize::MAX,
        ensures
            final(self).bytes() == old(self).bytes(),
            final(self).pos() == if old(self).pos() + delta >= 0 {
                old(self).pos() + delta
            } else {
                0
            },
    {
        if delta >= 0 {
            self.position = self.position + delta as usize;
        } else {
            let back: usize = (0 - delta as i64) as usize;
            self.position = if self.position >= back { self.position - back } else { 0 };
        }
    }

    /// Read a single bit.
    pub fn read_bit(&mut self) -> (r: bool)
        requires
            countable(old(self).bytes().len()),
            old(self).pos() + 1 <= usize::MAX,
        ensures
            r == (bit_at(old(self).bytes(), old(self).pos()) == 1),
            final(self).bytes() == old(self).bytes(),
            final(self).pos() == old(self).pos() + 1,
    {
        let result = self.peek(1) != 0;
        proof {
            reveal_with_fuel(word, 2);
            let p = self.pos();
            if p + 1 > 8 * self.bytes().len() {
                assert(p / 8 >= self.bytes().len());
            }
        }
        self.position = self.position + 1;
        result
    }

    /// Remaining bits available.
    pub fn remaining_bits(&self) -> (r: usize)
        requires
            countable(self.bytes().len()),
        ensures
            r == if self.pos() <= 8 * self.bytes().len() {
                8 * self.bytes().len() - self.pos()
            } else {
                0
            },
    {
        let total: usize = self.data.len() * 8;
        if self.position <= total {
            total - self.position
        } else {
            0
        }
    }

    /// Check if there are enough bits remaining.
    pub fn has_bits(&self, bits: usize) -> (r: bool)
        requires
            countable(self.bytes().len()),
        ensures
            r == (bits == 0 || self.pos() + bits <= 8 * self.bytes().len()),
    {
        self.remaining_bits() >= bits
    }

    /// Read signed value (with leading bit as sign).
    pub fn read_signed(&mut self, bits: usize) -> (r: i32)
        requires
            countable(old(self).bytes().len()),
            old(self).pos() + bits <= usize::MAX,
            bits <= 32,
            bits == 32 ==> peeked(old(self).bytes(), old(self).pos(), 32) < 0x8000_0000,
        ensures
            r == sign_extended(peeked(old(self).bytes(), old(self).pos(), bits as nat), bits as nat),
            final(self).bytes() == old(self).bytes(),
            final(self).pos() == old(self).pos() + bits,
    {
        if bits == 0 {
            return 0;
        }
        proof {
            lemma2_to64();
            peeked_bound(self.bytes(), self.pos(), bits as nat);
            lemma_pow2_adds((bits - 1) as nat, 1);
            lemma_pow2_strictly_increases((bits - 1) as nat, 32);
            if bits < 32 {
                lemma_pow2_strictly_increases(bits as nat, 32);
            }
            vstd::bits::lemma_u64_pow2_no_overflow((bits - 1) as nat);
            lemma_u64_shl_is_mul(1, (bits - 1) as u64);
        }
        let value: u32 = self.read(bits);
        let sign: u64 = 1u64 << ((bits - 1) as u64);
        if value as u64 >= sign {
            (value as i64 - 2 * sign as i64) as i32
        } else {
            value as i32
        }
    }

    /// Read a width of three bits, then a count of that width and a resolution
    /// of four bits; a zero width gives zeros. The count is stored less one.
    pub fn read_scale_count(&mut self) -> (r: (u32, u32))
        requires
            countable(old(self).bytes().len()),
            old(self).pos() + 14 <= usize::MAX,
        ensures
            final(self).bytes() == old(self).bytes(),
            ({
                let d = old(self).bytes();
                let p = old(self).pos();
                let width = peeked(d, p, 3);
                if width == 0 {
                    r == (0u32, 0u32) && final(self).pos() == p + 3
                } else {
                    &&& r.0 == peeked(d, p + 3, width) + 1
                    &&& r.1 == peeked(d, p + 3 + width, 4)
                    &&& final(self).pos() == p + 7 + width
                }
            }),
    {
        proof {
            lemma2_to64();
            peeked_bound(self.bytes(), self.pos(), 3);
        }
        let delta_bits: u32 = self.read(3);
        if delta_bits == 0 {
            return (0, 0);
        }
        proof {
            peeked_bound(self.bytes(), self.pos(), delta_bits as nat);
            lemma_pow2_strictly_increases(delta_bits as nat, 8);
        }
        let count: u32 = self.read(delta_bits as usize);
        let resolution: u32 = self.read(4);
        (count + 1, resolution)
    }

    /// Read off-by-one encoded value: zero is zero, any other value counts one
    /// more.
    pub fn read_off_by_one(&mut self, bits: usize) -> (r: u32)
        requires
            countable(old(self).bytes().len()),
            old(self).pos() + bits <= usize::MAX,
            peeked(old(self).bytes(), old(self).pos(), bits as nat) < u32::MAX,
        ensures
            ({
                let v = peeked(old(self).bytes(), old(self).pos(), bits as nat);
                r == if v == 0 { 0 } else { v + 1 }
            }),
            final(self).bytes() == old(self).bytes(),
            final(self).pos() == old(self).pos() + bits,
    {
        let value: u32 = self.read(bits);
        if value != 0 {
            value + 1
        } else {
            0
        }
    }

    /// Start a register-resident forward-only accumulator at the current
    /// position. Call `BitAcc::sync` to write the consumed count back.
    pub fn acc(&self) -> (r: BitAcc<'a>)
        requires
            countable(self.bytes().len()),
        ensures
            r.wf(),
            r.bytes() == self.bytes(),
            r.pos() == self.pos(),
    {
        BitAcc::new(self.data, self.position)
    }
}

/// A read of `bits` bits gives a number below two to the `bits`.
pub proof fn peeked_bound(d: Seq<u8>, p: nat, bits: nat)
    requires
        bits <= 32,
    ensures
        peeked(d, p, bits) < pow2(bits),
{
    lemma_pow2_pos(bits);
    windowed_bound(d, p, bits);
}

/// A window of `bits` bits shows a number below two to the `bits`.
pub proof fn windowed_bound(d: Seq<u8>, p: nat, bits: nat)
    requires
        bits <= 32,
    ensures
        windowed(d, p, bits) < pow2(bits),
{
    let have = (32 - p % 8) as nat;
    if bits <= have {
        word_bound(d, p, bits);
    } else {
        let over = (bits - have) as nat;
        word_bound(d, p, have);
        lemma_pow2_adds(have, over);
        lemma_pow2_pos(over);
        let w = word(d, p, have);
        assert(w * pow2(over) < pow2(bits)) by (nonlinear_arith)
            requires
                w < pow2(have),
                pow2(bits) == pow2(have) * pow2(over),
                pow2(over) > 0,
        ;
    }
}

/// Bit writer over a fixed number of bytes.
#[derive(Debug)]
pub struct BitWriter {
    data: Vec<u8>,
    position: usize,
}

/// Whether bytes are others with the low `bits` bits of a number written at
/// bit `p`, as far as they lie within the bytes.
pub open spec fn written(before: Seq<u8>, after: Seq<u8>, p: nat, v: nat, bits: nat) -> bool {
    &&& after.len() == before.len()
    &&& forall|q: nat|
        q < 8 * before.len() ==> #[trigger] bit_at(after, q) == if p <= q < p + bits {
            number_bit(v, (p + bits - 1 - q) as nat)
        } else {
            bit_at(before, q)
        }
}

/// Setting or clearing a bit of a byte changes that bit alone.
proof fn one_bit(x: u8, k: u8, on: bool, j: u8)
    requires
        k < 8,
        j < 8,
    ensures
        ({
            let y = if on { x | (1u8 << k) } else { x & !(1u8 << k) };
            (y as nat / pow2(j as nat)) % 2 == if j == k {
                if on { 1 } else { 0 }
            } else {
                (x as nat / pow2(j as nat)) % 2
            }
        }),
{
    let set = x | (1u8 << k);
    let clear = x & !(1u8 << k);
    lemma_u8_shr_is_div(set, j);
    lemma_u8_shr_is_div(clear, j);
    lemma_u8_shr_is_div(x, j);
    assert(((x | (1u8 << k)) >> j) % 2 == if j == k { 1 } else { (x >> j) % 2 }) by (bit_vector)
        requires
            k < 8,
            j < 8,
    ;
    assert(((x & !(1u8 << k)) >> j) % 2 == if j == k { 0 } else { (x >> j) % 2 }) by (bit_vector)
        requires
            k < 8,
            j < 8,
    ;
}

/// Setting or clearing bit `at` of some bytes changes that bit alone.
proof fn bit_changed(was: Seq<u8>, now: Seq<u8>, at: nat, x: u8, on: bool)
    requires
        at / 8 < was.len(),
        x == was[(at / 8) as int],
        ({
            let k = (7 - at % 8) as u8;
            now == was.update((at / 8) as int, if on { x | (1u8 << k) } else { x & !(1u8 << k) })
        }),
    ensures
        forall|q: nat|
            q < 8 * was.len() ==> #[trigger] bit_at(now, q) == if q == at {
                if on { 1nat } else { 0 }
            } else {
                bit_at(was, q)
            },
{
    assert forall|q: nat| q < 8 * was.len() implies #[trigger] bit_at(now, q) == if q == at {
        if on { 1nat } else { 0 }
    } else {
        bit_at(was, q)
    } by {
        if q / 8 == at / 8 {
            one_bit(x, (7 - at % 8) as u8, on, (7 - q % 8) as u8);
            assert((q == at) == (q % 8 == at % 8));
        }
    }
}

impl BitWriter {
    /// The bytes.
    pub closed spec fn bytes(&self) -> Seq<u8> {
        self.data@
    }

    /// The position in bits, which may lie past the end.
    pub closed spec fn pos(&self) -> nat {
        self.position as nat
    }

    /// A writer over `capacity` zero bytes.
    pub fn new(capacity: usize) -> (r: Self)
        ensures
            r.bytes() == crate::bytes::zeros(capacity as nat),
            r.pos() == 0,
    {
        let mut data: Vec<u8> = Vec::new();
        crate::bytes::put_zeros(&mut data, capacity);
        assert(data@ =~= crate::bytes::zeros(capacity as nat));
        BitWriter { data, position: 0 }
    }

    /// Writes the low `bits` bits of a value; nothing for zero or more than 32
    /// bits. Bits past the end are counted and dropped.
    pub fn write(&mut self, value: u32, bits: usize)
        requires
            old(self).pos() + bits <= usize::MAX,
        ensures
            ({
                let n = if bits <= 32 { bits as nat } else { 0 };
                &&& final(self).pos() == old(self).pos() + n
                &&& written(old(self).bytes(), final(self).bytes(), old(self).pos(), value as nat, n)
            }),
    {
        if bits == 0 || bits > 32 {
            return;
        }
        let ghost start = self.pos();
        let ghost before = self.bytes();
        let mut i: usize = 0;
        while i < bits
            invariant
                i <= bits <= 32,
                start + bits <= usize::MAX,
                self.pos() == start + i,
                start == old(self).pos(),
                before == old(self).bytes(),
                self.bytes().len() == before.len(),
                forall|q: nat|
                    q < 8 * before.len() ==> #[trigger] bit_at(self.bytes(), q) == if start <= q
                        < start + i {
                        number_bit(value as nat, (start + bits - 1 - q) as nat)
                    } else {
                        bit_at(before, q)
                    },
            decreases bits - i,
        {
            let shift: u32 = (bits - 1 - i) as u32;
            let bit: u32 = (value >> shift) % 2;
            proof {
                lemma_u32_shr_is_div(value, shift);
                assert(bit == number_bit(value as nat, shift as nat));
            }
            let byte_idx: usize = self.position / 8;
            let bit_idx: u8 = (7 - self.position % 8) as u8;
            let ghost was = self.data@;
            let ghost at = (start + i) as nat;
            if byte_idx < self.data.len() {
                let x: u8 = self.data[byte_idx];
                let y: u8 = if bit != 0 { x | (1u8 << bit_idx) } else { x & !(1u8 << bit_idx) };
                self.data.set(byte_idx, y);
                proof {
                    bit_changed(was, self.data@, at, x, bit != 0);
                }
            }
            let ghost now = self.data@;
            self.position = self.position + 1;
            i += 1;
            proof {
                assert forall|q: nat| q < 8 * before.len() implies #[trigger] bit_at(now, q)
                    == if start <= q < start + i {
                    number_bit(value as nat, (start + bits - 1 - q) as nat)
                } else {
                    bit_at(before, q)
                } by {
                    assert(bit_at(was, q) == if start <= q < at {
                        number_bit(value as nat, (start + bits - 1 - q) as nat)
                    } else {
                        bit_at(before, q)
                    });
                    if byte_idx < before.len() {
                        assert(bit_at(now, q) == if q == at {
                            if bit != 0 { 1nat } else { 0 }
                        } else {
                            bit_at(was, q)
                        });
                    } else {
                        assert(q != at);
                    }
                }
            }
        }
    }

    pub fn data(&self) -> (r: &[u8])
        ensures
            r@ == self.bytes(),
    {
        self.data.as_slice()
    }

    pub fn position(&self) -> (r: usize)
        ensures
            r == self.pos(),
    {
        self.position
    }

    pub fn into_vec(self) -> (r: Vec<u8>)
        ensures
            r@ == self.bytes(),
    {
        self.data
    }
}

/// Bits that were written within the bytes are read back.
pub proof fn write_then_read(before: Seq<u8>, after: Seq<u8>, p: nat, v: nat, bits: nat)
    requires
        written(before, after, p, v, bits),
        p + bits <= 8 * before.len(),
    ensures
        word(after, p, bits) == v % pow2(bits),
{
    lemma2_to64();
    assert forall|j: nat| j < bits implies #[trigger] bit_at(after, p + j) == number_bit(
        v,
        (bits - 1 - j) as nat,
    ) by {
        assert(bit_at(after, p + j) == number_bit(v, (p + bits - 1 - (p + j)) as nat));
    }
    bits_make_number(after, p, v, bits, bits);
    assert(v / pow2(0) == v);
}

/// A write leaves all other bits as they were.
pub proof fn write_keeps_others(
    before: Seq<u8>,
    after: Seq<u8>,
    p: nat,
    v: nat,
    bits: nat,
    q: nat,
    n: nat,
)
    requires
        written(before, after, p, v, bits),
        q + n <= p || p + bits <= q,
    ensures
        word(after, q, n) == word(before, q, n),
    decreases n,
{
    if n > 0 {
        write_keeps_others(before, after, p, v, bits, q, (n - 1) as nat);
        let last = (q + n - 1) as nat;
        if last < 8 * before.len() {
            assert(bit_at(after, last) == bit_at(before, last));
        } else {
            assert(last / 8 >= before.len());
        }
    }
}

/// Register-resident, forward-only bit accumulator over a byte slice. Valid
/// bits live in the high end of `acc`, unfilled low bits are zero. Reads must
/// be at most 32 bits.
#[derive(Debug)]
pub struct BitAcc<'a> {
    data: &'a [u8],
    byte_pos: usize,
    acc: u64,
    nbits: u32,
    consumed: usize,
    base: usize,
}

impl<'a> BitAcc<'a> {
    /// The bytes read from.
    pub closed spec fn bytes(&self) -> Seq<u8> {
        self.data@
    }

    /// The position in bits.
    pub closed spec fn pos(&self) -> nat {
        (self.base + self.consumed) as nat
    }

    /// The accumulator holds the bits from the position up to the next byte to
    /// load, and none past the end.
    pub closed spec fn wf(&self) -> bool {
        &&& countable(self.bytes().len())
        &&& self.nbits <= 64
        &&& self.acc == word(self.bytes(), self.pos(), self.nbits as nat) * pow2(
            (64 - self.nbits) as nat,
        )
        &&& if self.pos() < 8 * self.bytes().len() {
            &&& self.pos() + self.nbits == 8 * self.byte_pos
            &&& self.byte_pos <= self.bytes().len()
        } else {
            self.nbits == 0 && self.byte_pos >= self.bytes().len()
        }
    }

    fn new(data: &'a [u8], start: usize) -> (r: Self)
        requires
            countable(data@.len()),
        ensures
            r.wf(),
            r.bytes() == data@,
            r.pos() == start,
    {
        let lead: usize = start % 8;
        let mut s = BitAcc {
            data,
            byte_pos: start / 8,
            acc: 0,
            nbits: 0,
            consumed: 0,
            base: start - lead,
        };
        proof {
            lemma2_to64();
            assert(0 * pow2(64) == 0) by (nonlinear_arith);
        }
        s.refill();
        if lead > 0 {
            let _ = s.read(lead as u32);
        }
        s
    }

    /// Loads bytes while they fit.
    fn refill(&mut self)
        requires
            old(self).wf(),
        ensures
            final(self).wf(),
            final(self).bytes() == old(self).bytes(),
            final(self).pos() == old(self).pos(),
            final(self).nbits > 56 || final(self).byte_pos >= final(self).bytes().len(),
            final(self).base == old(self).base,
            final(self).consumed == old(self).consumed,
    {
        while self.nbits <= 56 && self.byte_pos < self.data.len()
            invariant
                self.wf(),
                self.bytes() == old(self).bytes(),
                self.pos() == old(self).pos(),
                self.base == old(self).base,
                self.consumed == old(self).consumed,
            decreases self.bytes().len() - self.byte_pos,
        {
            let b: u8 = self.data[self.byte_pos];
            let ghost n = self.nbits as nat;
            let ghost p = self.pos();
            let ghost d = self.bytes();
            let ghost w = word(d, p, n);
            let shift: u64 = (56 - self.nbits) as u64;
            proof {
                lemma2_to64();
                lemma_pow2_adds(8, shift as nat);
                vstd::arithmetic::power2::lemma2_to64_rest();
                if shift < 56 {
                    lemma_pow2_strictly_increases(shift as nat, 56);
                }
                lemma_pow2_pos(shift as nat);
                word_split(d, p, n, 8);
                word_byte(d, self.byte_pos as nat);
                word_bound(d, p, n);
                word_bound(d, p, n + 8);
                lemma_pow2_adds(n, (64 - n) as nat);
                lemma_pow2_adds(n + 8, shift as nat);
                let e = pow2(shift as nat);
                assert(b * e <= 255 * e) by (nonlinear_arith)
                    requires
                        b <= 255,
                ;
                lemma2_to64();
                lemma_u64_shl_is_mul(b as u64, shift);
                let next = word(d, p, n + 8);
                assert(w * (256 * e) + b * e == next * e) by (nonlinear_arith)
                    requires
                        next == w * 256 + b,
                ;
                assert(next * e < pow2(n + 8) * e) by (nonlinear_arith)
                    requires
                        next < pow2(n + 8),
                        e > 0,
                ;
            }
            self.acc = self.acc + ((b as u64) << shift);
            self.nbits = self.nbits + 8;
            self.byte_pos = self.byte_pos + 1;
        }
    }

    /// The next `bits` (1..=32) without advancing. Bits past EOF are zero.
    pub fn peek(&mut self, bits: u32) -> (r: u32)
        requires
            old(self).wf(),
            1 <= bits <= 32,
        ensures
            r == word(old(self).bytes(), old(self).pos(), bits as nat),
            final(self).wf(),
            final(self).bytes() == old(self).bytes(),
            final(self).pos() == old(self).pos(),
            final(self).loaded(bits as nat),
    {
        if self.nbits < 32 {
            self.refill();
        }
        let shift: u64 = (64 - bits) as u64;
        proof {
            let d = self.bytes();
            let p = self.pos();
            let k = bits as nat;
            lemma2_to64();
            acc_front(d, p, self.nbits as nat, k, self.acc as nat);
            lemma_u64_shr_is_div(self.acc, shift);
            word_bound(d, p, k);
            if k < 32 {
                lemma_pow2_strictly_increases(k, 32);
            }
        }
        (self.acc >> shift) as u32
    }

    /// Whether the next `bits` bits are in the accumulator, or all that are
    /// left.
    pub closed spec fn loaded(&self, bits: nat) -> bool {
        self.nbits >= bits || self.pos() + self.nbits >= 8 * self.bytes().len()
    }

    /// Drops `bits` (1..=32) that were peeked.
    pub fn consume(&mut self, bits: u32)
        requires
            old(self).wf(),
            1 <= bits <= 32,
            old(self).loaded(bits as nat),
            old(self).pos() + bits <= usize::MAX,
        ensures
            final(self).wf(),
            final(self).bytes() == old(self).bytes(),
            final(self).pos() == old(self).pos() + bits,
    {
        let ghost d = self.bytes();
        let ghost p = self.pos();
        let ghost n = self.nbits as nat;
        let ghost k = bits as nat;
        let ghost e = pow2((64 - k) as nat);
        let ghost a = self.acc as nat;
        let shift: u64 = (64 - bits) as u64;
        proof {
            lemma2_to64();
            lemma_pow2_adds(k, (64 - k) as nat);
            lemma_pow2_pos((64 - k) as nat);
            lemma_pow2_pos(k);
            acc_front(d, p, n, k, a);
            lemma_pow2_strictly_increases((64 - k) as nat, 64);
            vstd::bits::lemma_u64_pow2_no_overflow((64 - k) as nat);
            lemma_u64_shl_is_mul(1, shift);
        }
        let low: u64 = self.acc % (1u64 << shift);
        proof {
            let lo = a % e;
            assert(lo < e);
            assert(lo * pow2(k) < e * pow2(k)) by (nonlinear_arith)
                requires
                    lo < e,
                    pow2(k) > 0,
            ;
            assert(e * pow2(k) == pow2(64)) by (nonlinear_arith)
                requires
                    pow2(64) == pow2(k) * e,
            ;
            lemma_u64_shl_is_mul(low, bits as u64);
        }
        self.acc = low << (bits as u64);
        self.nbits = if self.nbits >= bits { self.nbits - bits } else { 0 };
        self.consumed = self.consumed + bits as usize;
        proof {
            assert(0 * pow2(64) == 0) by (nonlinear_arith);
            assert(self.pos() == p + k);
            assert(self.acc == (a % e) * pow2(k));
            if n < k {
                assert(p + n >= 8 * d.len());
            }
        }
    }

    /// Bits that were peeked cover every shorter run.
    pub proof fn loaded_less(&self, bits: nat, fewer: nat)
        requires
            self.loaded(bits),
            fewer <= bits,
        ensures
            self.loaded(fewer),
    {
    }

    /// Read `bits` (1..=32) and advance. Reads past EOF yield zero bits.
    pub fn read(&mut self, bits: u32) -> (r: u32)
        requires
            old(self).wf(),
            1 <= bits <= 32,
            old(self).pos() + bits <= usize::MAX,
        ensures
            r == word(old(self).bytes(), old(self).pos(), bits as nat),
            final(self).wf(),
            final(self).bytes() == old(self).bytes(),
            final(self).pos() == old(self).pos() + bits,
    {
        let value: u32 = self.peek(bits);
        self.consume(bits);
        value
    }

    /// Write the consumed bit count back to the reader this was forked from.
    pub fn sync(&self, br: &mut BitReader<'_>)
        requires
            self.pos() <= usize::MAX,
        ensures
            final(br).bytes() == old(br).bytes(),
            final(br).pos() == self.pos(),
    {
        br.set_position(self.base + self.consumed);
    }
}

/// What taking `k` bits from the front of an accumulator gives and leaves.
proof fn acc_front(d: Seq<u8>, p: nat, n: nat, k: nat, a: nat)
    requires
        n <= 64,
        1 <= k <= 32,
        a == word(d, p, n) * pow2((64 - n) as nat),
        n >= k || p + n >= 8 * d.len(),
    ensures
        a / pow2((64 - k) as nat) == word(d, p, k),
        (a % pow2((64 - k) as nat)) * pow2(k) == if n >= k {
            word(d, p + k, (n - k) as nat) * pow2((64 - (n - k)) as nat)
        } else {
            0
        },
{
    lemma2_to64();
    let m = (64 - k) as nat;
    let f = pow2((64 - n) as nat);
    if n >= k {
        let r = (n - k) as nat;
        let top = word(d, p, k);
        let rest = word(d, p + k, r);
        word_split(d, p, k, r);
        word_bound(d, p + k, r);
        lemma_pow2_adds(r, (64 - n) as nat);
        lemma_pow2_adds((64 - n) as nat, k);
        lemma_pow2_pos((64 - n) as nat);
        assert(r + (64 - n) == m);
        let low = rest * f;
        assert(a == top * pow2(m) + low) by (nonlinear_arith)
            requires
                a == word(d, p, n) * f,
                word(d, p, n) == top * pow2(r) + rest,
                pow2(m) == pow2(r) * f,
                low == rest * f,
        ;
        assert(low < pow2(m)) by (nonlinear_arith)
            requires
                rest < pow2(r),
                pow2(m) == pow2(r) * f,
                low == rest * f,
                f > 0,
        ;
        drop_low(top, low, m);
        assert(low * pow2(k) == rest * (f * pow2(k))) by (nonlinear_arith)
            requires
                low == rest * f,
        ;
        assert((64 - (n - k)) as nat == (64 - n) as nat + k);
    } else {
        let over = (k - n) as nat;
        word_split(d, p, n, over);
        word_past_end(d, p + n, over);
        lemma_pow2_adds(over, m);
        lemma_pow2_pos(m);
        assert(over + m == 64 - n);
        let w = word(d, p, n);
        let shown = w * pow2(over);
        assert(a == shown * pow2(m) + 0) by (nonlinear_arith)
            requires
                a == w * f,
                f == pow2(over) * pow2(m),
                shown == w * pow2(over),
        ;
        drop_low(shown, 0, m);
        assert(0 * pow2(k) == 0) by (nonlinear_arith);
    }
}

} // verus!
