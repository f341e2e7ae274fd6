//! HCA streams: blocks in order, the samples that are kept of them, and keys.

use vstd::prelude::*;
use vstd::string::StringExecFns;
use crate::bytes::{le16, le32, u16_of};
use crate::hca::alone_law::{kin, opened_are_kin};
use crate::hca::block::scale_room;
use crate::hca::decoder::{
    blank_header, blank_state, coded_bands, header_of, header_wf, info_shows, num, tag, ClHca,
    HcaError, HcaInfo, HeaderModel, StateModel, HCA_DEFAULT_RANDOM,
};
use crate::hca::reconstruct::{lists_sound, noise_copies, random_after, BandCopy};
use crate::reader::{remaining, slice_at, Cursor, IoError, Reader, SeekFrom};
use crate::text::{ascii_chars, signed_decimal};

verus! {

/// Key test parameters for testing HCA decryption keys.
#[derive(Debug, Clone, Copy, PartialEq, Eq, Structural)]
pub struct KeyTest {
    pub key: u64,
    pub subkey: u64,
    pub start_offset: u32,
    pub best_score: i32,
    pub best_key: u64,
}

impl Default for KeyTest {
    fn default() -> (r: Self)
        ensures
            r == (KeyTest { key: 0, subkey: 0, start_offset: 0, best_score: 0, best_key: 0 }),
    {
        KeyTest { key: 0, subkey: 0, start_offset: 0, best_score: 0, best_key: 0 }
    }
}

pub const HCA_KEY_SCORE_SCALE: i32 = 10;

pub const HCA_KEY_MAX_SKIP_BLANKS: i32 = 1200;

pub const HCA_KEY_MIN_TEST_FRAMES: i32 = 3;

pub const HCA_KEY_MAX_TEST_FRAMES: i32 = 7;

pub const HCA_KEY_MAX_FRAME_SCORE: i32 = 600;

pub const HCA_KEY_MAX_TOTAL_SCORE: i32 = 3500;

/// Errors that can occur during HCA decoding.
#[derive(Debug, Clone, Copy)]
pub enum HcaDecoderError {
    Io(IoError),
    Hca(HcaError),
    InvalidHeader,
    InvalidSampleRange,
    Eof,
}

/// The text of a failed read or seek.
pub open spec fn io_text(e: IoError) -> Seq<char> {
    match e {
        IoError::UnexpectedEof => "failed to fill whole buffer"@,
        IoError::InvalidSeek => "invalid seek to a negative or overflowing position"@,
    }
}

/// The text of a decoder error.
pub open spec fn hca_text(e: HcaError) -> Seq<char> {
    match e {
        HcaError::InvalidParams => "invalid parameters"@,
        HcaError::InvalidHeader => "invalid HCA header"@,
        HcaError::ChecksumFailed => "checksum failed"@,
        HcaError::SyncError => "sync word not found"@,
        HcaError::UnpackError(m) => "unpack error: "@ + m@,
        HcaError::BitreaderError => "bitreader error"@,
        HcaError::UnsupportedVersion(v) => "unsupported version: "@ + ascii_chars(
            signed_decimal(v as int),
        ),
        HcaError::NotInitialized => "decoder not initialized"@,
    }
}

/// The text of an error.
pub open spec fn error_text(e: HcaDecoderError) -> Seq<char> {
    match e {
        HcaDecoderError::Io(e) => "IO error: "@ + io_text(e),
        HcaDecoderError::Hca(e) => "HCA error: "@ + hca_text(e),
        HcaDecoderError::InvalidHeader => "Invalid HCA header"@,
        HcaDecoderError::InvalidSampleRange => "Invalid sample range"@,
        HcaDecoderError::Eof => "End of file"@,
    }
}

impl IoError {
    /// The error in words.
    pub fn message(&self) -> (r: String)
        ensures
            r@ == io_text(*self),
    {
        match self {
            IoError::UnexpectedEof => "failed to fill whole buffer".to_owned(),
            IoError::InvalidSeek => "invalid seek to a negative or overflowing position".to_owned(),
        }
    }
}

impl HcaError {
    /// The error in words.
    pub fn message(&self) -> (r: String)
        ensures
            r@ == hca_text(*self),
    {
        match self {
            HcaError::InvalidParams => "invalid parameters".to_owned(),
            HcaError::InvalidHeader => "invalid HCA header".to_owned(),
            HcaError::ChecksumFailed => "checksum failed".to_owned(),
            HcaError::SyncError => "sync word not found".to_owned(),
            HcaError::UnpackError(m) => "unpack error: ".to_owned().concat(m),
            HcaError::BitreaderError => "bitreader error".to_owned(),
            HcaError::UnsupportedVersion(v) => "unsupported version: ".to_owned().concat(
                crate::text::decimal_string(*v as i64).as_str(),
            ),
            HcaError::NotInitialized => "decoder not initialized".to_owned(),
        }
    }
}

impl HcaDecoderError {
    /// The error in words.
    pub fn message(&self) -> (r: String)
        ensures
            r@ == error_text(*self),
    {
        match self {
            HcaDecoderError::Io(e) => "IO error: ".to_owned().concat(e.message().as_str()),
            HcaDecoderError::Hca(e) => "HCA error: ".to_owned().concat(e.message().as_str()),
            HcaDecoderError::InvalidHeader => "Invalid HCA header".to_owned(),
            HcaDecoderError::InvalidSampleRange => "Invalid sample range".to_owned(),
            HcaDecoderError::Eof => "End of file".to_owned(),
        }
    }
}

/// The key that a stream is encrypted with: the subkey, where there is one,
/// multiplies the key code.
pub open spec fn effective_key(keycode: u64, subkey: u64) -> u64 {
    if subkey == 0 {
        keycode
    } else {
        let m = (subkey << 16u64) | ((65537 - subkey % 65536) as u64);
        ((keycode * m) % 0x1_0000_0000_0000_0000) as u64
    }
}

/// Combines a key code and a subkey.
pub fn combine_key(keycode: u64, subkey: u64) -> (r: u64)
    ensures
        r == effective_key(keycode, subkey),
{
    if subkey == 0 {
        return keycode;
    }
    let m: u64 = (subkey << 16u64) | (65537 - subkey % 65536);
    assert(keycode * m <= 0xFFFF_FFFF_FFFF_FFFF * 0xFFFF_FFFF_FFFF_FFFF) by (nonlinear_arith)
        requires
            0 <= keycode <= 0xFFFF_FFFF_FFFF_FFFF,
            0 <= m <= 0xFFFF_FFFF_FFFF_FFFF,
    ;
    ((keycode as u128 * m as u128) % 0x1_0000_0000_0000_0000) as u64
}

/// The samples per channel of a block.
pub open spec fn block_samples() -> int {
    1024
}

/// The valid samples per channel of a stream: all samples without the delay
/// at the front and the padding at the end.
pub open spec fn valid_samples(blocks: int, delay: int, padding: int) -> int {
    let n = blocks * block_samples() - delay - padding;
    if n < 0 { 0 } else { n }
}

/// What is kept of the next block: where the kept samples start and how many
/// they are, and the delay and the count of samples afterwards.
pub struct Trim {
    pub start: int,
    pub count: int,
    pub delay: int,
    pub written: int,
}

/// Drops the delay at the front; no more than the valid samples come out.
pub open spec fn trimmed(delay: int, written: int, valid: int) -> Trim {
    if delay >= block_samples() {
        Trim { start: 0, count: 0, delay: delay - block_samples(), written }
    } else {
        let start = if delay > 0 { delay } else { 0 };
        let left = if valid > written { valid - written } else { 0 };
        let count = if block_samples() - start > left { left } else { block_samples() - start };
        Trim { start, count, delay: if delay > 0 { 0 } else { delay }, written: written + count }
    }
}

/// What is kept of block `b`, from its place in the stream alone.
pub open spec fn keep_range(b: int, delay: int, valid: int) -> (int, int) {
    let at = b * block_samples();
    let low = if delay - at < 0 {
        0
    } else if delay - at > block_samples() {
        block_samples()
    } else {
        delay - at
    };
    let end = delay + valid - at;
    let high = if end < 0 {
        0
    } else if end > block_samples() {
        block_samples()
    } else {
        end
    };
    (low, high)
}

/// The samples of a block that are kept: from the first up to the second.
pub fn block_keep_range(block: u32, delay: u32, total_valid: u64) -> (r: (usize, usize))
    requires
        total_valid <= 0xFFFF_FFFF_FFFF,
    ensures
        (r.0 as int, r.1 as int) == keep_range(block as int, delay as int, total_valid as int),
{
    let at: u64 = block as u64 * 1024;
    let gap: u64 = if delay as u64 >= at { delay as u64 - at } else { 0 };
    let low: u64 = if gap > 1024 { 1024 } else { gap };
    let end: u64 = delay as u64 + total_valid;
    let rest: u64 = if end >= at { end - at } else { 0 };
    let high: u64 = if rest > 1024 { 1024 } else { rest };
    (low as usize, high as usize)
}

/// The delay and the count of samples after `n` blocks from the start.
pub open spec fn trim_after(delay: int, valid: int, n: nat) -> (int, int)
    decreases n,
{
    if n == 0 {
        (delay, 0)
    } else {
        let (d, w) = trim_after(delay, valid, (n - 1) as nat);
        let t = trimmed(d, w, valid);
        (t.delay, t.written)
    }
}

/// The state of trimming after `n` blocks, in closed form.
proof fn trim_state(delay: int, valid: int, n: nat)
    requires
        delay >= 0,
        valid >= 0,
    ensures
        ({
            let at = n * block_samples();
            let (d, w) = trim_after(delay, valid, n);
            &&& d == if delay > at { delay - at } else { 0 }
            &&& w == if at <= delay {
                0
            } else if at - delay > valid {
                valid
            } else {
                at - delay
            }
        }),
    decreases n,
{
    if n > 0 {
        trim_state(delay, valid, (n - 1) as nat);
    }
}

/// Trimming block after block keeps of each block what its place in the stream
/// tells, so blocks can be decoded in any order.
pub proof fn trim_is_static(delay: int, valid: int, n: nat)
    requires
        delay >= 0,
        valid >= 0,
    ensures
        ({
            let (d, w) = trim_after(delay, valid, n);
            let t = trimmed(d, w, valid);
            let (low, high) = keep_range(n as int, delay, valid);
            &&& t.count > 0 ==> t.start == low && t.start + t.count == high
            &&& t.count == 0 ==> high <= low
        }),
{
    trim_state(delay, valid, n);
}

/// All blocks of a stream together give its valid samples.
pub proof fn trim_gives_all(blocks: nat, delay: int, padding: int)
    requires
        delay >= 0,
        padding >= 0,
    ensures
        trim_after(delay, valid_samples(blocks as int, delay, padding), blocks).1 == valid_samples(
            blocks as int,
            delay,
            padding,
        ),
{
    trim_state(delay, valid_samples(blocks as int, delay, padding), blocks);
}

/// High-level HCA decoder: the blocks of a stream in memory, with a read-ahead
/// buffer of several blocks.
#[derive(Debug)]
pub struct HcaDecoder {
    reader: Reader,
    info: HcaInfo,
    handle: ClHca,
    buf: Vec<u8>,
    chunk: Vec<u8>,
    chunk_first: u32,
    chunk_blocks: u32,
    current_delay: i32,
    current_block: u32,
    reader_offset: Option<u64>,
    samples_written: u64,
}

/// What a stream decoder holds.
pub struct StreamModel {
    pub data: Seq<u8>,
    pub header: HeaderModel,
    pub state: StateModel,
    /// The block that was read last.
    pub block: Seq<u8>,
    /// The first block of the read-ahead buffer and the number of blocks in it.
    pub ahead: (int, int),
    pub delay: int,
    pub next: int,
    pub written: int,
}

/// A stream from its start: the noise generator of a ready decoder starts
/// anew.
pub open spec fn rewound(m: StreamModel) -> StreamModel {
    StreamModel {
        state: if m.state.is_valid {
            StateModel { random: HCA_DEFAULT_RANDOM, ..m.state }
        } else {
            m.state
        },
        next: 0,
        delay: m.header.encoder_delay as int,
        written: 0,
        ..m
    }
}

/// The channels of an open stream are set up by its header.
pub proof fn stream_is_kin(d: &HcaDecoder)
    requires
        d.wf(),
        d@.state.is_valid,
        scale_room(d@.header),
    ensures
        d@.header.channels <= 16,
        d@.state.channel.len() == 16,
        forall|i: int|
            0 <= i < d@.header.channels ==> kin(
                d@.header,
                #[trigger] d@.state.channel[i],
                d@.state.channel[i],
            ) && d@.state.channel[i].coded_count == coded_bands(
                d@.header,
                d@.state.channel[i].channel_type,
            ),
{
    opened_are_kin(&d.handle, &d.handle);
}

/// Where a block starts.
pub open spec fn block_at(h: HeaderModel, b: int) -> int {
    h.header_size + b * h.frame_size
}

/// The bytes of a block.
pub open spec fn block_bytes(data: Seq<u8>, h: HeaderModel, b: int) -> Seq<u8> {
    data.subrange(block_at(h, b), block_at(h, b) + h.frame_size)
}

/// How many blocks are read at once: about a mebibyte of them, within limits.
pub open spec fn blocks_at_once(h: HeaderModel, next: int) -> int {
    let fit = 0x10_0000int / h.frame_size as int;
    let most = if fit < 1 {
        1
    } else if fit > 4096 {
        4096
    } else {
        fit
    };
    if most < h.frame_count - next { most } else { h.frame_count - next }
}

/// Whether the next block is in the read-ahead buffer.
pub open spec fn is_ahead(m: StreamModel) -> bool {
    m.ahead.0 <= m.next < m.ahead.0 + m.ahead.1
}

/// What reading the next block does.
pub open spec fn next_read(m: StreamModel) -> (Option<HcaDecoderError>, StreamModel) {
    let h = m.header;
    if m.next >= h.frame_count {
        (Some(HcaDecoderError::Eof), m)
    } else if is_ahead(m) {
        (None, StreamModel { block: block_bytes(m.data, h, m.next), next: m.next + 1, ..m })
    } else {
        let want = blocks_at_once(h, m.next);
        if block_at(h, m.next + want) <= m.data.len() {
            (
                None,
                StreamModel {
                    block: block_bytes(m.data, h, m.next),
                    ahead: (m.next, want),
                    next: m.next + 1,
                    ..m
                },
            )
        } else {
            (
                Some(HcaDecoderError::Io(IoError::UnexpectedEof)),
                StreamModel { ahead: (u32::MAX as int, 0), ..m },
            )
        }
    }
}

/// Why a stream cannot be opened, if so.
pub open spec fn open_error(d: Seq<u8>, pos: nat) -> Option<HcaDecoderError> {
    let first = slice_at(d, pos, 8);
    if remaining(d.len(), pos) < 8 {
        Some(HcaDecoderError::Io(IoError::UnexpectedEof))
    } else if tag(first, 0) != 0x4843_4100 || num(first, 48, 16) == 0 || num(first, 48, 16)
        > 0x1000 {
        Some(HcaDecoderError::InvalidHeader)
    } else if d.len() < num(first, 48, 16) {
        Some(HcaDecoderError::Io(IoError::UnexpectedEof))
    } else {
        match header_of(d.subrange(0, num(first, 48, 16) as int), blank_header()).error {
            Some(e) => Some(HcaDecoderError::Hca(e)),
            None => None,
        }
    }
}

/// The header of a stream that can be opened.
pub open spec fn open_header(d: Seq<u8>, pos: nat) -> HeaderModel {
    header_of(
        d.subrange(0, num(slice_at(d, pos, 8), 48, 16) as int),
        blank_header(),
    ).h
}

impl View for HcaDecoder {
    type V = StreamModel;

    closed spec fn view(&self) -> StreamModel {
        StreamModel {
            data: self.reader.data(),
            header: self.handle.header(),
            state: self.handle.state(),
            block: self.buf@,
            ahead: (self.chunk_first as int, self.chunk_blocks as int),
            delay: self.current_delay as int,
            next: self.current_block as int,
            written: self.samples_written as int,
        }
    }
}

impl HcaDecoder {
    /// Whether the header was accepted, the buffers hold what they should, and
    /// no more samples came out than are valid.
    pub closed spec fn wf(&self) -> bool {
        let h = self.handle.header();
        &&& self.handle.wf()
        &&& header_wf(h)
        &&& info_shows(self.info, h)
        &&& self.reader.data().len() <= 0xFFFF_FFFF_FFFF
        &&& self.buf@.len() == h.frame_size
        &&& match self.reader_offset {
            Some(o) => self.reader.pos() == o,
            None => true,
        }
        &&& self.current_delay >= 0
        &&& self.samples_written <= valid_samples(
            h.frame_count as int,
            h.encoder_delay as int,
            h.encoder_padding as int,
        )
        &&& self.chunk_blocks > 0 ==> {
            let from = block_at(h, self.chunk_first as int);
            let to = block_at(h, self.chunk_first + self.chunk_blocks);
            &&& self.chunk_first + self.chunk_blocks <= h.frame_count
            &&& to <= self.reader.data().len()
            &&& self.chunk@ == self.reader.data().subrange(from, to)
        }
    }

    /// Opens a stream in memory and reads its header.
    pub fn from_reader(reader: Cursor) -> (r: Result<Self, HcaDecoderError>)
        requires
            reader.data().len() <= 0xFFFF_FFFF_FFFF,
        ensures
            match open_error(reader.data(), reader.pos()) {
                Some(e) => r == Err::<Self, HcaDecoderError>(e),
                None => {
                    let h = open_header(reader.data(), reader.pos());
                    &&& r is Ok
                    &&& r->Ok_0.wf()
                    &&& r->Ok_0@ == (StreamModel {
                        data: reader.data(),
                        header: h,
                        state: blank_state(),
                        block: crate::bytes::zeros(h.frame_size as nat),
                        ahead: (u32::MAX as int, 0),
                        delay: h.encoder_delay as int,
                        next: 0,
                        written: 0,
                    })
                },
            },
    {
        let ghost d = reader.data();
        let mut input = Reader::new(reader);
        let first = match input.read_bytes(8) {
            Ok(b) => b,
            Err(e) => {
                return Err(HcaDecoderError::Io(e));
            },
        };
        let header_size: usize = match ClHca::is_hca_file(first.as_slice()) {
            Some(n) => n,
            None => {
                return Err(HcaDecoderError::InvalidHeader);
            },
        };
        if header_size > 0x1000 {
            return Err(HcaDecoderError::InvalidHeader);
        }
        if let Err(e) = input.seek(SeekFrom::Start(0)) {
            return Err(HcaDecoderError::Io(e));
        }
        let full = match input.read_bytes(header_size) {
            Ok(b) => b,
            Err(e) => {
                return Err(HcaDecoderError::Io(e));
            },
        };
        assert(full@ =~= d.subrange(0, header_size as int));
        let mut handle = ClHca::new();
        if let Err(e) = handle.decode_header(full.as_slice()) {
            return Err(HcaDecoderError::Hca(e));
        }
        proof {
            state_unchanged(handle.state());
        }
        let info = handle.header_info();
        let mut buf: Vec<u8> = Vec::new();
        crate::bytes::put_zeros(&mut buf, info.block_size as usize);
        assert(buf@ =~= crate::bytes::zeros(info.block_size as nat));
        let delay: i32 = info.encoder_delay as i32;
        Ok(
            HcaDecoder {
                reader: input,
                info,
                handle,
                buf,
                chunk: Vec::new(),
                chunk_first: u32::MAX,
                chunk_blocks: 0,
                current_delay: delay,
                current_block: 0,
                reader_offset: Some(header_size as u64),
                samples_written: 0,
            },
        )
    }

    /// Gives the decoder the tables that its header asks for.
    pub fn initialize(&mut self, ath_curve: Option<[u8; 128]>, cipher_table: &[u8; 256]) -> (r:
        Result<(), HcaDecoderError>)
        requires
            old(self).wf(),
        ensures
            final(self).wf(),
            match ath_curve {
                None => r == Err::<(), HcaDecoderError>(
                    HcaDecoderError::Hca(HcaError::InvalidHeader),
                ) && final(self)@ == old(self)@,
                Some(curve) => r is Ok && final(self)@ == (StreamModel {
                    state: StateModel {
                        is_valid: true,
                        ath_curve: curve@,
                        cipher_table: cipher_table@,
                        random: crate::hca::decoder::HCA_DEFAULT_RANDOM,
                        channel: crate::hca::decoder::typed_channels(
                            old(self)@.header,
                            old(self)@.state.channel,
                        ),
                    },
                    ..old(self)@
                }),
            },
    {
        match self.handle.initialize_decoder_state(ath_curve, cipher_table) {
            Ok(_) => Ok(()),
            Err(e) => Err(HcaDecoderError::Hca(e)),
        }
    }

    /// The decoder of the blocks.
    pub fn handle(&self) -> (r: &ClHca)
        requires
            self.wf(),
        ensures
            r.header() == self@.header,
            r.state() == self@.state,
            r.wf(),
    {
        &self.handle
    }

    /// Reset the decoder to the beginning.
    pub fn reset(&mut self)
        requires
            old(self).wf(),
        ensures
            final(self).wf(),
            final(self)@ == rewound(old(self)@),
    {
        self.handle.decode_reset();
        self.current_block = 0;
        self.current_delay = self.info.encoder_delay as i32;
        self.reader_offset = None;
        self.samples_written = 0;
    }

    /// How the bands of a channel without a resolution are filled in one
    /// subframe. The noise generator moves on.
    pub fn fill_noise(&mut self, ch: usize) -> (r: Vec<BandCopy>)
        requires
            old(self).wf(),
            ch < 16,
            lists_sound(old(self)@.state.channel[ch as int]),
        ensures
            final(self).wf(),
            r@ == noise_copies(
                old(self)@.header,
                old(self)@.state.channel[ch as int],
                old(self)@.state.random,
            ),
            final(self)@ == (StreamModel {
                state: StateModel {
                    random: random_after(old(self)@.state.random, r@.len()),
                    ..old(self)@.state
                },
                ..old(self)@
            }),
    {
        self.handle.reconstruct_noise(ch)
    }

    /// Moves behind the last block, with all valid samples taken.
    pub fn finish(&mut self)
        requires
            old(self).wf(),
        ensures
            final(self).wf(),
            ({
                let h = old(self)@.header;
                final(self)@ == (StreamModel {
                    next: h.frame_count as int,
                    delay: if h.encoder_delay > h.frame_count * 1024 {
                        h.encoder_delay - h.frame_count * 1024
                    } else {
                        0
                    },
                    written: valid_samples(
                        h.frame_count as int,
                        h.encoder_delay as int,
                        h.encoder_padding as int,
                    ),
                    ..old(self)@
                })
            }),
    {
        let frames: u64 = self.info.block_count as u64 * 1024;
        let delay: u64 = self.info.encoder_delay as u64;
        self.samples_written = self.total_valid_samples();
        self.current_block = self.info.block_count;
        self.current_delay = if delay > frames { (delay - frames) as i32 } else { 0 };
    }

    /// Get the HCA file information.
    pub fn info(&self) -> (r: &HcaInfo)
        requires
            self.wf(),
        ensures
            info_shows(*r, self@.header),
            1 <= r.channel_count <= 16,
    {
        &self.info
    }

    /// The canonical valid sample count per channel: all samples of all blocks
    /// without the encoder's delay and padding.
    pub fn total_valid_samples(&self) -> (r: u64)
        requires
            self.wf(),
        ensures
            r == valid_samples(
                self@.header.frame_count as int,
                self@.header.encoder_delay as int,
                self@.header.encoder_padding as int,
            ),
            r <= 0xFFFF_FFFF_FFFF,
    {
        let all: u64 = self.info.block_count as u64 * 1024;
        let delay: u64 = self.info.encoder_delay as u64;
        let padding: u64 = self.info.encoder_padding as u64;
        let rest: u64 = if all >= delay { all - delay } else { 0 };
        if rest >= padding {
            rest - padding
        } else {
            0
        }
    }

    /// Sets the key of the stream, with the cipher table that belongs to the
    /// combined key.
    pub fn set_encryption_key(&mut self, keycode: u64, subkey: u64, cipher_table: &[u8; 256])
        requires
            old(self).wf(),
        ensures
            final(self).wf(),
            final(self)@ == (StreamModel {
                header: HeaderModel {
                    keycode: effective_key(keycode, subkey),
                    ..old(self)@.header
                },
                state: if old(self)@.state.is_valid {
                    StateModel { cipher_table: cipher_table@, ..old(self)@.state }
                } else {
                    old(self)@.state
                },
                ..old(self)@
            }),
    {
        let key: u64 = combine_key(keycode, subkey);
        self.handle.set_key(key, cipher_table);
    }

    /// Reads the next block, from the read-ahead buffer where it holds it.
    pub fn read_packet(&mut self) -> (r: Result<(), HcaDecoderError>)
        requires
            old(self).wf(),
        ensures
            final(self).wf(),
            match next_read(old(self)@).0 {
                Some(e) => r == Err::<(), HcaDecoderError>(e),
                None => r is Ok,
            },
            final(self)@ == next_read(old(self)@).1,
    {
        let ghost m = self@;
        let ghost h = self.handle.header();
        let ghost d = self.reader.data();
        let total: u32 = self.info.block_count;
        if self.current_block >= total {
            return Err(HcaDecoderError::Eof);
        }
        let block_size: usize = self.info.block_size as usize;
        let ghost s = block_size as int;
        let next: u32 = self.current_block;
        let ahead: bool = next >= self.chunk_first && next - self.chunk_first < self.chunk_blocks;
        assert(ahead == is_ahead(m));
        if !ahead {
            let fit: u32 = (0x10_0000 / self.info.block_size);
            let most: u32 = if fit < 1 {
                1
            } else if fit > 4096 {
                4096
            } else {
                fit
            };
            let want: u32 = if most < total - next { most } else { total - next };
            assert(want == blocks_at_once(h, next as int));
            assert(next * s <= 0xFFFF_FFFF * 0xFFFF) by (nonlinear_arith)
                requires
                    next <= 0xFFFF_FFFF,
                    0 <= s <= 0xFFFF,
            ;
            assert(want * s <= 4096 * 0xFFFF) by (nonlinear_arith)
                requires
                    want <= 4096,
                    0 <= s <= 0xFFFF,
            ;
            let offset: u64 = self.info.header_size as u64 + next as u64 * block_size as u64;
            assert(offset == block_at(h, next as int));
            let mut placed: bool = false;
            if let Some(o) = self.reader_offset {
                placed = o == offset;
            }
            if !placed {
                if let Err(e) = self.reader.seek(SeekFrom::Start(offset)) {
                    return Err(HcaDecoderError::Io(e));
                }
            }
            self.chunk_first = u32::MAX;
            self.chunk_blocks = 0;
            self.reader_offset = None;
            let bytes: usize = want as usize * block_size;
            proof {
                assert((next + want) * s == next * s + want * s) by (nonlinear_arith);
                assert(want * s >= 1) by (nonlinear_arith)
                    requires
                        want >= 1,
                        s >= 1,
                ;
            }
            match self.reader.read_bytes(bytes) {
                Ok(b) => {
                    self.chunk = b;
                },
                Err(e) => {
                    return Err(HcaDecoderError::Io(e));
                },
            }
            self.reader_offset = Some(offset + bytes as u64);
            self.chunk_first = next;
            self.chunk_blocks = want;
        }
        proof {
            let k = next - self.chunk_first;
            assert(k * s >= 0 && k * s + s <= self.chunk_blocks * s) by (nonlinear_arith)
                requires
                    0 <= k,
                    k + 1 <= self.chunk_blocks,
                    s >= 0,
            ;
            assert((self.chunk_first + self.chunk_blocks) * s == self.chunk_first * s
                + self.chunk_blocks * s) by (nonlinear_arith);
            assert(next * s == self.chunk_first * s + k * s) by (nonlinear_arith)
                requires
                    k == next - self.chunk_first,
            ;
            assert((next + 1) * s == next * s + s) by (nonlinear_arith);
            assert(self.chunk@.len() == self.chunk_blocks * s);
            assert(self.chunk@.len() == self.chunk.len());
        }
        let at: usize = (next - self.chunk_first) as usize * block_size;
        self.buf = crate::bytes::copy_range(self.chunk.as_slice(), at, at + block_size);
        assert(self.buf@ =~= block_bytes(d, h, next as int));
        self.current_block = next + 1;
        Ok(())
    }

    /// Reads the bytes of all blocks, from the end of the header on.
    pub fn read_blocks(&mut self) -> (r: Result<Vec<u8>, HcaDecoderError>)
        requires
            old(self).wf(),
        ensures
            final(self).wf(),
            final(self)@ == old(self)@,
            ({
                let h = old(self)@.header;
                let from = block_at(h, 0);
                let to = block_at(h, h.frame_count as int);
                if to <= old(self)@.data.len() {
                    r is Ok && r->Ok_0@ == old(self)@.data.subrange(from, to)
                } else {
                    r == Err::<Vec<u8>, HcaDecoderError>(
                        HcaDecoderError::Io(IoError::UnexpectedEof),
                    )
                }
            }),
    {
        let ghost h = self.handle.header();
        let ghost n = h.frame_count as int;
        let ghost s = h.frame_size as int;
        let from: u64 = self.info.header_size as u64;
        assert(n * s <= 0xFFFF_FFFF * 0xFFFF && n * s >= 1) by (nonlinear_arith)
            requires
                1 <= n <= 0xFFFF_FFFF,
                1 <= s <= 0xFFFF,
        ;
        let size: u64 = self.info.block_count as u64 * self.info.block_size as u64;
        self.reader_offset = None;
        if from + size > self.reader.len() as u64 {
            return Err(HcaDecoderError::Io(IoError::UnexpectedEof));
        }
        let _ = self.reader.seek(SeekFrom::Start(from));
        match self.reader.read_bytes(size as usize) {
            Ok(b) => {
                assert(b@ =~= self@.data.subrange(block_at(h, 0), block_at(h, n)));
                Ok(b)
            },
            Err(e) => Err(HcaDecoderError::Io(e)),
        }
    }

    /// Reads the next block and its bit stream; the samples are made from the
    /// values that the decoder of the blocks then holds.
    pub fn unpack_frame(&mut self) -> (r: Result<(), HcaDecoderError>)
        requires
            old(self).wf(),
            scale_room(old(self)@.header),
        ensures
            final(self).wf(),
            ({
                let (e, m) = next_read(old(self)@);
                if e is Some {
                    r == Err::<(), HcaDecoderError>(e->Some_0) && final(self)@ == m
                } else {
                    &&& final(self)@ == (StreamModel {
                        block: crate::hca::block::bytes_after(m.header, m.state, m.block),
                        state: StateModel {
                            channel: crate::hca::block::channels_after(
                                m.header,
                                m.state,
                                m.block,
                            ),
                            ..m.state
                        },
                        ..m
                    })
                    &&& match crate::hca::block::error_of(m.header, m.state, m.block) {
                        Some(e) => r == Err::<(), HcaDecoderError>(HcaDecoderError::Hca(e)),
                        None => r is Ok,
                    }
                }
            }),
    {
        self.read_packet()?;
        proof {
            assert(self.buf@.len() <= 0xFFFF);
        }
        match self.handle.decode_block_unpack(&mut self.buf) {
            Ok(_) => Ok(()),
            Err(e) => Err(HcaDecoderError::Hca(e)),
        }
    }

    /// The samples that are kept of a block that was decoded: where they start
    /// and how many they are, per channel.
    pub fn take_frame(&mut self) -> (r: (usize, usize))
        requires
            old(self).wf(),
        ensures
            final(self).wf(),
            ({
                let m = old(self)@;
                let valid = valid_samples(
                    m.header.frame_count as int,
                    m.header.encoder_delay as int,
                    m.header.encoder_padding as int,
                );
                let t = trimmed(m.delay, m.written, valid);
                &&& r.0 == t.start
                &&& r.1 == t.count
                &&& r.0 + r.1 <= 1024
                &&& final(self)@ == (StreamModel { delay: t.delay, written: t.written, ..m })
            }),
    {
        let mut discard: i32 = 0;
        if self.current_delay > 0 {
            if self.current_delay >= 1024 {
                self.current_delay = self.current_delay - 1024;
                return (0, 0);
            }
            discard = self.current_delay;
            self.current_delay = 0;
        }
        let valid: u64 = self.total_valid_samples();
        let left: u64 = if valid >= self.samples_written { valid - self.samples_written } else { 0 };
        let mut count: u64 = (1024 - discard) as u64;
        if count > left {
            count = left;
        }
        self.samples_written = self.samples_written + count;
        (discard as usize, count as usize)
    }

    /// Seek to a specific sample position. The count of samples that came out
    /// stays as it is.
    pub fn seek(&mut self, sample_num: u32)
        requires
            old(self).wf(),
            sample_num + old(self)@.header.encoder_delay <= u32::MAX,
        ensures
            final(self).wf(),
            ({
                let target = sample_num + old(self)@.header.encoder_delay;
                final(self)@ == (StreamModel {
                    next: target / 1024,
                    delay: target % 1024,
                    ..old(self)@
                })
            }),
    {
        let target: u32 = sample_num + self.info.encoder_delay;
        self.current_block = target / 1024;
        self.current_delay = (target % 1024) as i32;
        self.reader_offset = None;
    }

    /// The block at an offset, for testing a key; none where the data ends.
    pub fn block_for_test(&mut self, offset: u32) -> (r: Option<Vec<u8>>)
        requires
            old(self).wf(),
        ensures
            final(self).wf(),
            final(self)@ == old(self)@,
            ({
                let m = old(self)@;
                let size = m.header.frame_size as int;
                if offset + size <= m.data.len() {
                    r is Some && r->Some_0@ == m.data.subrange(offset as int, offset + size)
                } else {
                    r is None
                }
            }),
    {
        self.reader_offset = None;
        match self.reader.read_bytes_at(self.info.block_size as usize, offset as u64) {
            Ok(b) => Some(b),
            Err(_) => None,
        }
    }

    /// Build the 44-byte RIFF/WAVE header for this file's PCM output. Sizes are
    /// kept in 32 bits.
    pub fn wav_header(&self, total_pcm_bytes: u64, smpl_len: u64) -> (r: Vec<u8>)
        requires
            self.wf(),
            total_pcm_bytes + smpl_len <= 0xFFFF_FFFF_FFFF_FFFF - 36,
        ensures
            r@ == wav_header_of(
                self@.header.channels,
                self@.header.sample_rate,
                total_pcm_bytes as int,
                smpl_len as int,
            ),
            r@.len() == 44,
    {
        let mut out: Vec<u8> = Vec::new();
        put_tag(&mut out, 0x52, 0x49, 0x46, 0x46);
        crate::bytes::put_u32_le(
            &mut out,
            ((36 + total_pcm_bytes + smpl_len) % 0x1_0000_0000) as u32,
        );
        put_tag(&mut out, 0x57, 0x41, 0x56, 0x45);
        put_tag(&mut out, 0x66, 0x6d, 0x74, 0x20);
        crate::bytes::put_u32_le(&mut out, 16);
        crate::bytes::put_u16_le(&mut out, 1);
        crate::bytes::put_u16_le(&mut out, self.info.channel_count as u16);
        crate::bytes::put_u32_le(&mut out, self.info.sampling_rate);
        assert(self.info.sampling_rate * self.info.channel_count <= 0x7F_FFFF * 16)
            by (nonlinear_arith)
            requires
                self.info.sampling_rate <= 0x7F_FFFF,
                self.info.channel_count <= 16,
        ;
        crate::bytes::put_u32_le(
            &mut out,
            self.info.sampling_rate * self.info.channel_count * 2,
        );
        crate::bytes::put_u16_le(&mut out, (self.info.channel_count * 2) as u16);
        crate::bytes::put_u16_le(&mut out, 16);
        put_tag(&mut out, 0x64, 0x61, 0x74, 0x61);
        crate::bytes::put_u32_le(&mut out, (total_pcm_bytes % 0x1_0000_0000) as u32);
        assert(out@ =~= wav_header_of(
            self.info.channel_count,
            self.info.sampling_rate,
            total_pcm_bytes as int,
            smpl_len as int,
        ));
        out
    }

    /// Build a WAV `smpl` chunk for the HCA loop region, or empty if not
    /// looping.
    pub fn loop_smpl_chunk(&self) -> (r: Vec<u8>)
        requires
            self.wf(),
            self@.header.loop_flag ==> self@.header.loop_end_frame * 1024 <= u32::MAX,
        ensures
            r@ == smpl_chunk(self@.header),
    {
        let mut c: Vec<u8> = Vec::new();
        if !self.info.loop_enabled {
            assert(c@ =~= Seq::empty());
            return c;
        }
        let delay: u64 = self.info.encoder_delay as u64;
        let start: u32 = loop_sample(
            self.info.loop_start_block,
            self.info.loop_start_delay as u64,
            delay,
        );
        let tail: u64 = if self.info.loop_end_padding <= 1024 {
            1024 - self.info.loop_end_padding as u64
        } else {
            0
        };
        let end: u32 = loop_sample(self.info.loop_end_block, tail, delay);
        let period: u32 = 1_000_000_000 / self.info.sampling_rate;
        put_tag(&mut c, 0x73, 0x6d, 0x70, 0x6c);
        crate::bytes::put_u32_le(&mut c, 60);
        crate::bytes::put_u32_le(&mut c, 0);
        crate::bytes::put_u32_le(&mut c, 0);
        crate::bytes::put_u32_le(&mut c, period);
        crate::bytes::put_u32_le(&mut c, 60);
        crate::bytes::put_u32_le(&mut c, 0);
        crate::bytes::put_u32_le(&mut c, 0);
        crate::bytes::put_u32_le(&mut c, 0);
        crate::bytes::put_u32_le(&mut c, 1);
        crate::bytes::put_u32_le(&mut c, 0);
        crate::bytes::put_u32_le(&mut c, 0);
        crate::bytes::put_u32_le(&mut c, 0);
        crate::bytes::put_u32_le(&mut c, start);
        crate::bytes::put_u32_le(&mut c, end);
        crate::bytes::put_u32_le(&mut c, 0);
        crate::bytes::put_u32_le(&mut c, 0);
        assert(c@ =~= smpl_chunk(self@.header));
        c
    }
}

/// A state that was not valid is the same with its flag cleared.
proof fn state_unchanged(s: StateModel)
    requires
        s == (StateModel { is_valid: false, ..blank_state() }),
    ensures
        s == blank_state(),
{
}

/// Appends four letters.
fn put_tag(out: &mut Vec<u8>, a: u8, b: u8, c: u8, d: u8)
    ensures
        final(out)@ == old(out)@ + seq![a, b, c, d],
{
    out.push(a);
    out.push(b);
    out.push(c);
    out.push(d);
    assert(out@ =~= old(out)@ + seq![a, b, c, d]);
}

/// The header of a WAV file of 16-bit samples; sizes are kept in 32 bits.
pub open spec fn wav_header_of(channels: u32, rate: u32, pcm: int, smpl: int) -> Seq<u8> {
    seq![0x52u8, 0x49, 0x46, 0x46] + le32(((36 + pcm + smpl) % 0x1_0000_0000) as u32) + seq![
        0x57u8,
        0x41,
        0x56,
        0x45,
    ] + seq![0x66u8, 0x6d, 0x74, 0x20] + le32(16) + le16(1) + le16(channels as u16) + le32(rate)
        + le32((rate * channels * 2) as u32) + le16((channels * 2) as u16) + le16(16) + seq![
        0x64u8,
        0x61,
        0x74,
        0x61,
    ] + le32((pcm % 0x1_0000_0000) as u32)
}

/// A sample of a loop: a block and a place in it, counted without the delay,
/// within 32 bits.
pub open spec fn loop_sample_of(block: int, within: int, delay: int) -> u32 {
    let at = if block * 1024 + within > u32::MAX { u32::MAX as int } else { block * 1024 + within };
    if at < delay { 0 } else { (at - delay) as u32 }
}

fn loop_sample(block: u32, within: u64, delay: u64) -> (r: u32)
    requires
        within <= 0xFFFF_FFFF,
        delay <= 0xFFFF_FFFF,
    ensures
        r == loop_sample_of(block as int, within as int, delay as int),
{
    let sum: u64 = block as u64 * 1024 + within;
    let at: u64 = if sum > 0xFFFF_FFFF { 0xFFFF_FFFF } else { sum };
    if at < delay {
        0
    } else {
        (at - delay) as u32
    }
}

/// The sampler chunk of a looping stream: one forward loop; nothing for a
/// stream without a loop.
pub open spec fn smpl_chunk(h: HeaderModel) -> Seq<u8> {
    if h.loop_flag {
        let tail: int = if h.loop_end_padding <= 1024 { 1024 - h.loop_end_padding } else { 0 };
        let start = loop_sample_of(
            h.loop_start_frame as int,
            h.loop_start_delay as int,
            h.encoder_delay as int,
        );
        let end = loop_sample_of(h.loop_end_frame as int, tail, h.encoder_delay as int);
        seq![0x73u8, 0x6d, 0x70, 0x6c] + le32(60) + le32(0) + le32(0) + le32(
            (1_000_000_000int / h.sample_rate as int) as u32,
        ) + le32(60) + le32(0) + le32(0) + le32(0) + le32(1) + le32(0) + le32(0) + le32(0) + le32(
            start,
        ) + le32(end) + le32(0) + le32(0)
    } else {
        Seq::empty()
    }
}

/// The little-endian bytes of samples.
pub open spec fn pcm_bytes(s: Seq<i16>) -> Seq<u8>
    decreases s.len(),
{
    if s.len() == 0 {
        Seq::empty()
    } else {
        pcm_bytes(s.drop_last()) + le16(u16_of(s.last()))
    }
}

/// Appends samples as little-endian bytes.
pub fn write_pcm_i16_le(writer: &mut Vec<u8>, samples: &[i16])
    ensures
        final(writer)@ == old(writer)@ + pcm_bytes(samples@),
{
    let mut i: usize = 0;
    assert(samples@.subrange(0, 0) =~= Seq::empty());
    assert(writer@ =~= old(writer)@ + pcm_bytes(samples@.subrange(0, 0)));
    while i < samples.len()
        invariant
            i <= samples@.len(),
            writer@ == old(writer)@ + pcm_bytes(samples@.subrange(0, i as int)),
        decreases samples@.len() - i,
    {
        let v: i16 = samples[i];
        proof {
            let s = samples@.subrange(0, i + 1);
            assert(s.drop_last() =~= samples@.subrange(0, i as int));
            assert(s.last() == v);
        }
        crate::bytes::put_u16_le(
            writer,
            if v >= 0 { v as u16 } else { (v as i32 + 0x1_0000) as u16 },
        );
        i += 1;
        assert(writer@ =~= old(writer)@ + pcm_bytes(samples@.subrange(0, i as int)));
    }
    assert(samples@.subrange(0, samples@.len() as int) =~= samples@);
}

/// Whether a buffer has room for a whole interleaved frame.
pub fn frame_room(len: usize, channels: usize) -> (r: Result<(), HcaDecoderError>)
    requires
        channels <= 16,
    ensures
        r == if len >= block_samples() * channels {
            Ok::<(), HcaDecoderError>(())
        } else {
            Err::<(), HcaDecoderError>(HcaDecoderError::InvalidSampleRange)
        },
{
    if len < 1024 * channels {
        return Err(HcaDecoderError::InvalidSampleRange);
    }
    Ok(())
}

/// The kept samples of an interleaved frame.
pub fn keep_samples(frame: &[i16], channels: usize, start: usize, count: usize) -> (r: Result<
    Vec<i16>,
    HcaDecoderError,
>)
    requires
        channels <= 16,
        start <= 1024,
        count <= 1024,
    ensures
        if (start + count) * channels <= frame@.len() {
            r is Ok && r->Ok_0@ == frame@.subrange(start * channels, (start + count) * channels)
        } else {
            r == Err::<Vec<i16>, HcaDecoderError>(HcaDecoderError::InvalidSampleRange)
        },
{
    assert(start * channels <= 1024 * 16 && (start + count) * channels <= 2048 * 16 && start
        * channels <= (start + count) * channels) by (nonlinear_arith)
        requires
            0 <= start <= 1024,
            0 <= count <= 1024,
            0 <= channels <= 16,
    ;
    let from: usize = start * channels;
    let to: usize = (start + count) * channels;
    if to > frame.len() {
        return Err(HcaDecoderError::InvalidSampleRange);
    }
    let mut out: Vec<i16> = Vec::new();
    let mut i: usize = from;
    while i < to
        invariant
            from <= i <= to <= frame@.len(),
            out@ =~= frame@.subrange(from as int, i as int),
        decreases to - i,
    {
        out.push(frame[i]);
        i += 1;
    }
    Ok(out)
}

/// How much a frame's score weighs: a good frame least, a silent one more than
/// a doubtful one.
pub open spec fn frame_weight(score: int) -> int {
    if score == 1 {
        1
    } else if score == 0 {
        3 * HCA_KEY_SCORE_SCALE
    } else {
        score * HCA_KEY_SCORE_SCALE
    }
}

pub fn scale_frame_score(score: i32) -> (r: i32)
    requires
        i32::MIN <= score * HCA_KEY_SCORE_SCALE <= i32::MAX,
    ensures
        r == frame_weight(score as int),
{
    if score == 1 {
        1
    } else if score == 0 {
        3 * HCA_KEY_SCORE_SCALE
    } else {
        score * HCA_KEY_SCORE_SCALE
    }
}

/// The score of a key: 1 where enough frames were all good, else the sum.
pub open spec fn final_score(total_score: int, test_frames: int) -> int {
    if test_frames > HCA_KEY_MIN_TEST_FRAMES && 0 < total_score <= test_frames {
        1
    } else {
        total_score
    }
}

pub fn finalize_score(total_score: i32, test_frames: i32) -> (r: i32)
    ensures
        r == final_score(total_score as int, test_frames as int),
{
    if test_frames > HCA_KEY_MIN_TEST_FRAMES && total_score > 0 && total_score <= test_frames {
        return 1;
    }
    total_score
}

/// A test of a key over the blocks of a stream: the next block to test and the
/// sums so far.
#[derive(Debug, Clone, Copy, PartialEq, Eq, Structural)]
pub struct KeyTrial {
    pub offset: u32,
    pub block_size: u32,
    pub block_count: u32,
    pub current_frame: u32,
    pub test_frames: i32,
    pub blank_frames: i32,
    pub total_score: i32,
    pub stopped: bool,
}

/// A trial that is about to start.
pub open spec fn new_trial(kt: KeyTest, header_size: u32, block_size: u32, block_count: u32) -> KeyTrial {
    KeyTrial {
        offset: if kt.start_offset == 0 { header_size } else { kt.start_offset },
        block_size,
        block_count,
        current_frame: 0,
        test_frames: 0,
        blank_frames: 0,
        total_score: 0,
        stopped: false,
    }
}

/// The trial after a block with a score: a score out of range condemns the
/// key, blank blocks are skipped up to a limit, others add to the sum.
pub open spec fn trial_step(t: KeyTrial, score: int) -> KeyTrial {
    let offset = (t.offset + t.block_size) as u32;
    if score < 0 || score > HCA_KEY_MAX_FRAME_SCORE {
        KeyTrial { offset, total_score: (-1) as i32, stopped: true, ..t }
    } else if score == 0 && t.blank_frames < HCA_KEY_MAX_SKIP_BLANKS {
        KeyTrial {
            offset,
            current_frame: (t.current_frame + 1) as u32,
            blank_frames: (t.blank_frames + 1) as i32,
            ..t
        }
    } else {
        let total = t.total_score + frame_weight(score);
        KeyTrial {
            offset,
            current_frame: (t.current_frame + 1) as u32,
            test_frames: (t.test_frames + 1) as i32,
            total_score: total as i32,
            stopped: total > HCA_KEY_MAX_TOTAL_SCORE,
            ..t
        }
    }
}

impl KeyTrial {
    /// Whether the sums are within their limits.
    pub open spec fn wf(&self) -> bool {
        &&& 0 <= self.test_frames <= HCA_KEY_MAX_TEST_FRAMES
        &&& 0 <= self.blank_frames <= HCA_KEY_MAX_SKIP_BLANKS
        &&& !self.stopped ==> 0 <= self.total_score <= HCA_KEY_MAX_TOTAL_SCORE
        &&& self.current_frame <= self.block_count
    }

    /// A trial of a key that starts at the first block, or where an earlier
    /// trial found the first one that is not blank.
    pub fn new(kt: &KeyTest, header_size: u32, block_size: u32, block_count: u32) -> (r: Self)
        ensures
            r == new_trial(*kt, header_size, block_size, block_count),
            r.wf(),
    {
        KeyTrial {
            offset: if kt.start_offset == 0 { header_size } else { kt.start_offset },
            block_size,
            block_count,
            current_frame: 0,
            test_frames: 0,
            blank_frames: 0,
            total_score: 0,
            stopped: false,
        }
    }

    /// Whether another block is to be tested.
    pub fn wants_block(&self) -> (r: bool)
        ensures
            r == (!self.stopped && self.test_frames < HCA_KEY_MAX_TEST_FRAMES && self.current_frame
                < self.block_count),
    {
        !self.stopped && self.test_frames < HCA_KEY_MAX_TEST_FRAMES && self.current_frame
            < self.block_count
    }

    /// Ends the trial where the data ends.
    pub fn no_block(&mut self)
        ensures
            *final(self) == (KeyTrial { stopped: true, ..*old(self) }),
    {
        self.stopped = true;
    }

    /// Takes the score of the block that was asked for. The first block that
    /// is not blank is noted in the key test.
    pub fn take_score(&mut self, kt: &mut KeyTest, score: i32)
        requires
            old(self).wf(),
            !old(self).stopped,
            old(self).test_frames < HCA_KEY_MAX_TEST_FRAMES,
            old(self).current_frame < old(self).block_count,
            old(self).offset + old(self).block_size <= u32::MAX,
        ensures
            *final(self) == trial_step(*old(self), score as int),
            final(self).wf(),
            *final(kt) == if old(kt).start_offset == 0 && score != 0 {
                KeyTest { start_offset: old(self).offset, ..*old(kt) }
            } else {
                *old(kt)
            },
    {
        if kt.start_offset == 0 && score != 0 {
            kt.start_offset = self.offset;
        }
        self.offset = self.offset + self.block_size;
        if score < 0 || score > HCA_KEY_MAX_FRAME_SCORE {
            self.total_score = -1;
            self.stopped = true;
            return;
        }
        self.current_frame = self.current_frame + 1;
        if score == 0 && self.blank_frames < HCA_KEY_MAX_SKIP_BLANKS {
            self.blank_frames = self.blank_frames + 1;
            return;
        }
        self.test_frames = self.test_frames + 1;
        self.total_score = self.total_score + scale_frame_score(score);
        if self.total_score > HCA_KEY_MAX_TOTAL_SCORE {
            self.stopped = true;
        }
    }

    /// The score of the key.
    pub fn score(&self) -> (r: i32)
        ensures
            r == final_score(self.total_score as int, self.test_frames as int),
    {
        finalize_score(self.total_score, self.test_frames)
    }
}

/// A key test after a key got a score: a wrong key changes nothing, a better
/// score than before is kept.
pub open spec fn judged(kt: KeyTest, score: int) -> KeyTest {
    if score >= 0 && (kt.best_score <= 0 || 0 < score < kt.best_score) {
        KeyTest { best_score: score as i32, best_key: kt.key, ..kt }
    } else {
        kt
    }
}

impl KeyTest {
    /// Keeps the key where its score is the best so far.
    pub fn judge(&mut self, score: i32)
        ensures
            *final(self) == judged(*old(self), score as int),
    {
        if score < 0 {
            return;
        }
        if self.best_score <= 0 || (score < self.best_score && score > 0) {
            self.best_score = score;
            self.best_key = self.key;
        }
    }
}

/// Parts that arrive in any order and leave in order.
#[derive(Debug)]
pub struct ChunkOrder {
    next: usize,
    slots: Vec<Option<Vec<u8>>>,
    out: Vec<u8>,
}

/// What an order of parts holds: the next part to leave, the parts that wait,
/// and what has left.
pub struct OrderModel {
    pub next: nat,
    pub slots: Seq<Option<Seq<u8>>>,
    pub out: Seq<u8>,
}

/// The models of waiting parts.
pub open spec fn slot_models(v: Seq<Option<Vec<u8>>>) -> Seq<Option<Seq<u8>>> {
    v.map_values(
        |s: Option<Vec<u8>>|
            match s {
                Some(b) => Some(b@),
                None => None,
            },
    )
}

impl View for ChunkOrder {
    type V = OrderModel;

    closed spec fn view(&self) -> OrderModel {
        OrderModel { next: self.next as nat, slots: slot_models(self.slots@), out: self.out@ }
    }
}

/// Lets the parts leave that are next in turn.
pub open spec fn drained(m: OrderModel) -> OrderModel
    decreases m.slots.len() - m.next,
{
    if m.next >= m.slots.len() {
        m
    } else {
        match m.slots[m.next as int] {
            None => m,
            Some(b) => drained(
                OrderModel {
                    next: m.next + 1,
                    slots: m.slots.update(m.next as int, None),
                    out: m.out + b,
                },
            ),
        }
    }
}

/// The order after part `i` arrived.
pub open spec fn arrived(m: OrderModel, i: int, part: Seq<u8>) -> OrderModel {
    drained(OrderModel { slots: m.slots.update(i, Some(part)), ..m })
}

impl ChunkOrder {
    /// An order of `count` parts, none of which has arrived.
    pub fn new(count: usize) -> (r: Self)
        ensures
            r@ == (OrderModel {
                next: 0,
                slots: Seq::new(count as nat, |i: int| None::<Seq<u8>>),
                out: Seq::empty(),
            }),
    {
        let mut slots: Vec<Option<Vec<u8>>> = Vec::new();
        let mut i: usize = 0;
        while i < count
            invariant
                i <= count,
                slot_models(slots@) =~= Seq::new(i as nat, |j: int| None::<Seq<u8>>),
            decreases count - i,
        {
            let ghost before = slot_models(slots@);
            slots.push(None);
            assert(slot_models(slots@) =~= before.push(None));
            i += 1;
        }
        let r = ChunkOrder { next: 0, slots, out: Vec::new() };
        assert(r.out@ =~= Seq::empty());
        r
    }

    /// Takes part `index`; every part that is next in turn leaves.
    pub fn arrive(&mut self, index: usize, part: Vec<u8>)
        requires
            index < old(self)@.slots.len(),
        ensures
            final(self)@ == arrived(old(self)@, index as int, part@),
    {
        let ghost m = self@;
        self.slots.set(index, Some(part));
        assert(slot_models(self.slots@) =~= m.slots.update(index as int, Some(part@)));
        let ghost want = drained(self@);
        while self.next < self.slots.len()
            invariant
                drained(self@) == want,
                want == arrived(old(self)@, index as int, part@),
            decreases self.slots@.len() - self.next,
        {
            let ghost was = self@;
            let at: usize = self.next;
            assert(was.slots[at as int] == match self.slots@[at as int] {
                Some(b) => Some(b@),
                None => None,
            });
            let bytes = match &self.slots[at] {
                Some(b) => crate::bytes::copy_bytes(b.as_slice()),
                None => {
                    return;
                },
            };
            crate::bytes::put_slice(&mut self.out, bytes.as_slice());
            self.slots.set(at, None);
            assert(slot_models(self.slots@) =~= was.slots.update(at as int, None));
            self.next = at + 1;
            assert(self@.out =~= was.out + bytes@);
        }
    }

    /// Whether all parts have left.
    pub fn is_done(&self) -> (r: bool)
        ensures
            r == (self@.next >= self@.slots.len()),
    {
        self.next >= self.slots.len()
    }

    /// What has left so far.
    pub fn left(&self) -> (r: &[u8])
        ensures
            r@ == self@.out,
    {
        self.out.as_slice()
    }

    /// What has left.
    pub fn into_bytes(self) -> (r: Vec<u8>)
        ensures
            r@ == self@.out,
    {
        self.out
    }
}

/// The first `n` parts one after the other.
pub open spec fn joined(parts: Seq<Seq<u8>>, n: nat) -> Seq<u8>
    decreases n,
{
    if n == 0 { Seq::empty() } else { joined(parts, (n - 1) as nat) + parts[n - 1] }
}

/// Whether an order holds some of the given parts: those that left are the
/// first ones, those that wait are themselves.
pub open spec fn orders(m: OrderModel, parts: Seq<Seq<u8>>) -> bool {
    &&& m.slots.len() == parts.len()
    &&& m.next <= parts.len()
    &&& m.out == joined(parts, m.next)
    &&& forall|i: int|
        0 <= i < parts.len() && (#[trigger] m.slots[i]) is Some ==> m.slots[i]->Some_0 == parts[i]
}

/// Parts leave in order, whatever the order in which they arrive.
pub proof fn parts_leave_in_order(m: OrderModel, parts: Seq<Seq<u8>>, i: int)
    requires
        orders(m, parts),
        0 <= i < parts.len(),
    ensures
        orders(arrived(m, i, parts[i]), parts),
{
    let a = OrderModel { slots: m.slots.update(i, Some(parts[i])), ..m };
    assert(orders(a, parts));
    draining_orders(a, parts);
}

proof fn draining_orders(m: OrderModel, parts: Seq<Seq<u8>>)
    requires
        orders(m, parts),
    ensures
        orders(drained(m), parts),
        ({
            let d = drained(m);
            d.next >= d.slots.len() || d.slots[d.next as int] is None
        }),
    decreases m.slots.len() - m.next,
{
    if m.next < m.slots.len() && m.slots[m.next as int] is Some {
        let n = OrderModel {
            next: m.next + 1,
            slots: m.slots.update(m.next as int, None),
            out: m.out + m.slots[m.next as int]->Some_0,
        };
        assert(m.slots[m.next as int]->Some_0 == parts[m.next as int]);
        assert(n.out == joined(parts, n.next));
        draining_orders(n, parts);
    }
}

} // verus!
