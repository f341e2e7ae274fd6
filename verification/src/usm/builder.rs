//! Builder of USM containers.

use vstd::prelude::*;
use vstd::utf8::encode_utf8;
use crate::acb::utf::wrap32;
use crate::bytes::{be16, be32, put_slice, put_u16_be, put_u32_be, put_zeros, zeros};
use crate::usm::mask::{
    apply_audio_mask, apply_video_mask, audio_mask_bytes, audio_masked, mask_bytes,
    tail_mask_bytes, video_masked,
};

verus! {

/// The bytes `CRID`.
pub const CRID: [u8; 4] = [
    0x43, 0x52, 0x49, 0x44,
];

/// The bytes `@SFV`.
pub const SFV: [u8; 4] = [
    0x40, 0x53, 0x46, 0x56,
];

/// The bytes `@SFA`.
pub const SFA: [u8; 4] = [
    0x40, 0x53, 0x46, 0x41,
];

/// The bytes `@SBV`.
pub const SBV: [u8; 4] = [
    0x40, 0x53, 0x42, 0x56,
];

/// The bytes `@SBA`.
pub const SBA: [u8; 4] = [
    0x40, 0x53, 0x42, 0x41,
];

/// The bytes `@END`.
pub const END: [u8; 4] = [
    0x40, 0x45, 0x4e, 0x44,
];

/// The bytes `@UTF`.
pub const UTF: [u8; 4] = [
    0x40, 0x55, 0x54, 0x46,
];

/// The names of the directory table: `CRIUSF_DIR_STREAM` and `filename`.
pub const DIR_STRINGS: [u8; 27] = [
    0x43, 0x52, 0x49, 0x55, 0x53, 0x46, 0x5f, 0x44, 0x49, 0x52, 0x5f, 0x53,
    0x54, 0x52, 0x45, 0x41, 0x4d, 0x00, 0x66, 0x69, 0x6c, 0x65, 0x6e, 0x61,
    0x6d, 0x65, 0x00,
];

/// The names of the video table: `VIDEO_HDRINFO`, `width`, `height` and
/// `total_frames`.
pub const VIDEO_STRINGS: [u8; 40] = [
    0x56, 0x49, 0x44, 0x45, 0x4f, 0x5f, 0x48, 0x44, 0x52, 0x49, 0x4e, 0x46,
    0x4f, 0x00, 0x77, 0x69, 0x64, 0x74, 0x68, 0x00, 0x68, 0x65, 0x69, 0x67,
    0x68, 0x74, 0x00, 0x74, 0x6f, 0x74, 0x61, 0x6c, 0x5f, 0x66, 0x72, 0x61,
    0x6d, 0x65, 0x73, 0x00,
];

/// The names of the audio table: `AUDIO_HDRINFO` and `stream_id`.
pub const AUDIO_STRINGS: [u8; 24] = [
    0x41, 0x55, 0x44, 0x49, 0x4f, 0x5f, 0x48, 0x44, 0x52, 0x49, 0x4e, 0x46,
    0x4f, 0x00, 0x73, 0x74, 0x72, 0x65, 0x61, 0x6d, 0x5f, 0x69, 0x64, 0x00,
];

/// The payload bytes of a full chunk.
pub const CHUNK_SIZE: usize = 0x1_0000;

/// Why a container could not be built.
#[derive(Clone, Copy, PartialEq, Eq, Structural, Debug)]
pub enum UsmBuilderError {
    /// The builder was given no video.
    NoVideoStream,
    /// The video cannot be used.
    InvalidVideoData,
}

/// A stream to put into a container.
#[derive(Debug, Clone)]
pub struct StreamInput {
    pub data: Vec<u8>,
    pub stream_type: StreamType,
}

/// What a stream holds.
#[derive(Debug, Clone, Copy, PartialEq, Eq, Structural)]
pub enum StreamType {
    /// M2V video.
    Video,
    /// ADX or HCA audio.
    Audio,
}

/// Builder for USM containers.
///
/// It writes a minimal container: a directory, one header table per stream,
/// the interleaved chunks and one end marker per stream.
pub struct UsmBuilder {
    filename: String,
    video_stream: Option<Vec<u8>>,
    audio_streams: Vec<Vec<u8>>,
    encryption_key: Option<u64>,
}

/// What a builder holds.
#[verifier::ext_equal]
pub struct UsmModel {
    pub filename: Seq<char>,
    pub video: Option<Seq<u8>>,
    pub audios: Seq<Seq<u8>>,
    pub key: Option<u64>,
}

/// The bytes of each stream.
pub open spec fn streams(v: Seq<Vec<u8>>) -> Seq<Seq<u8>> {
    Seq::new(v.len(), |i: int| v[i]@)
}

impl View for UsmBuilder {
    type V = UsmModel;

    closed spec fn view(&self) -> UsmModel {
        UsmModel {
            filename: self.filename@,
            video: match self.video_stream {
                Some(v) => Some(v@),
                None => None,
            },
            audios: streams(self.audio_streams@),
            key: self.encryption_key,
        }
    }
}

/// The output with zeros up to the next multiple of 32.
pub open spec fn padded(out: Seq<u8>) -> Seq<u8> {
    out + zeros(((0x20 - out.len() % 0x20) % 0x20) as nat)
}

fn pad(out: &mut Vec<u8>)
    ensures
        final(out)@ == padded(old(out)@),
{
    let n: usize = out.len();
    put_zeros(out, (0x20 - n % 0x20) % 0x20);
}

/// The rest of a chunk header behind its size field.
pub open spec fn chunk_flags() -> Seq<u8> {
    be16(1) + be16(0x18) + zeros(16)
}

fn put_chunk_flags(out: &mut Vec<u8>)
    ensures
        final(out)@ == old(out)@ + chunk_flags(),
{
    put_u16_be(out, 1);
    put_u16_be(out, 0x18);
    put_zeros(out, 16);
    assert(out@ =~= old(out)@ + chunk_flags());
}

/// The head of a table: the size of what follows, then where its rows, strings
/// and data start, the columns and the bytes of a row.
pub open spec fn table_head(
    size: u32,
    rows: u16,
    strings: u32,
    data: u32,
    columns: u16,
    width: u16,
) -> Seq<u8> {
    UTF@ + be32(size) + be16(1) + be16(rows) + be32(strings) + be32(data) + be32(0) + be16(columns)
        + be16(width) + be32(1)
}

fn put_table_head(
    out: &mut Vec<u8>,
    size: u32,
    rows: u16,
    strings: u32,
    data: u32,
    columns: u16,
    width: u16,
)
    ensures
        final(out)@ == old(out)@ + table_head(size, rows, strings, data, columns, width),
{
    put_slice(out, UTF.as_slice());
    put_u32_be(out, size);
    put_u16_be(out, 1);
    put_u16_be(out, rows);
    put_u32_be(out, strings);
    put_u32_be(out, data);
    put_u32_be(out, 0);
    put_u16_be(out, columns);
    put_u16_be(out, width);
    put_u32_be(out, 1);
    assert(out@ =~= old(out)@ + table_head(size, rows, strings, data, columns, width));
}

/// A number column of the given name.
pub open spec fn number_column(name: u32) -> Seq<u8> {
    seq![0x54u8] + be32(name)
}

fn put_number_column(out: &mut Vec<u8>, name: u32)
    ensures
        final(out)@ == old(out)@ + number_column(name),
{
    out.push(0x54);
    put_u32_be(out, name);
    assert(out@ =~= old(out)@ + number_column(name));
}

/// The directory table: one row with the file name.
pub open spec fn directory_table(name: Seq<u8>) -> Seq<u8> {
    table_head(wrap32(name.len() as int + 61), 25, 29, wrap32(name.len() as int + 57), 1, 4) + seq![0x5Au8]
        + be32(18) + be32(27) + DIR_STRINGS@ + name + seq![0u8]
}

/// The output with the directory chunk. Its size counts from the start of the
/// output.
pub open spec fn with_directory(out: Seq<u8>, name: Seq<u8>) -> Seq<u8> {
    let size = wrap32(out.len() + 28 + directory_table(name).len() - 8);
    padded(out + CRID@ + be32(size) + chunk_flags() + directory_table(name))
}

/// The video table: one row with the frame size and a count of frames
/// estimated from the length.
pub open spec fn video_table(len: nat) -> Seq<u8> {
    table_head(91, 31, 43, 83, 3, 12) + number_column(14) + number_column(20) + number_column(27)
        + be32(1920) + be32(1080) + be32(wrap32(len as int / 1000)) + VIDEO_STRINGS@
}

/// The output with the header chunk of the video.
pub open spec fn with_video_header(out: Seq<u8>, len: nat) -> Seq<u8> {
    padded(out + SFV@ + be32(119) + chunk_flags() + video_table(len))
}

/// The audio table: one row with the number of the stream.
pub open spec fn audio_table(stream: u32) -> Seq<u8> {
    table_head(57, 0x10, 0x14, 0x30, 1, 4) + number_column(14) + be32(stream) + AUDIO_STRINGS@
}

/// The output with the header chunk of an audio stream.
pub open spec fn with_audio_header(out: Seq<u8>, stream: u32) -> Seq<u8> {
    padded(out + SFA@ + be32(85) + chunk_flags() + audio_table(stream))
}

/// The output with the header chunks of the first `n` audio streams.
pub open spec fn with_audio_headers(out: Seq<u8>, n: nat) -> Seq<u8>
    decreases n,
{
    if n == 0 {
        out
    } else {
        with_audio_header(with_audio_headers(out, (n - 1) as nat), wrap32(n - 1))
    }
}

/// The payload of a video chunk.
pub open spec fn video_payload(data: Seq<u8>, key: Option<u64>) -> Seq<u8> {
    match key {
        Some(k) => video_masked(data, mask_bytes(k), tail_mask_bytes(k)),
        None => data,
    }
}

/// The payload of an audio chunk.
pub open spec fn audio_payload(data: Seq<u8>, key: Option<u64>) -> Seq<u8> {
    match key {
        Some(k) => audio_masked(data, audio_mask_bytes(k)),
        None => data,
    }
}

/// A chunk before padding.
pub open spec fn chunk_bytes(
    signature: Seq<u8>,
    payload: Seq<u8>,
    offset: u32,
    stream: u32,
) -> Seq<u8> {
    signature + be32(wrap32(payload.len() as int + 0x18)) + be16(1) + be16(0x18) + be32(offset) + be32(
        stream,
    ) + zeros(8) + payload
}

/// The part of a stream that its chunk at `at` holds.
pub open spec fn piece(data: Seq<u8>, at: int) -> Seq<u8> {
    data.subrange(at, if at + CHUNK_SIZE <= data.len() { at + CHUNK_SIZE } else { data.len() as int })
}

/// The output with the video chunk at `at`, where the video reaches it.
pub open spec fn with_video_chunk(
    out: Seq<u8>,
    video: Seq<u8>,
    at: int,
    key: Option<u64>,
) -> Seq<u8> {
    if at < video.len() {
        padded(out + chunk_bytes(SBV@, video_payload(piece(video, at), key), wrap32(at), 0))
    } else {
        out
    }
}

/// The output with the audio chunk at `at` of a stream, where it reaches it.
pub open spec fn with_audio_chunk(
    out: Seq<u8>,
    audio: Seq<u8>,
    stream: u32,
    at: int,
    key: Option<u64>,
) -> Seq<u8> {
    if at < audio.len() {
        padded(out + chunk_bytes(SBA@, audio_payload(piece(audio, at), key), wrap32(at), stream))
    } else {
        out
    }
}

/// The output with the chunks at `at` of the first `n` audio streams.
pub open spec fn with_audio_chunks(
    out: Seq<u8>,
    audios: Seq<Seq<u8>>,
    n: nat,
    at: int,
    key: Option<u64>,
) -> Seq<u8>
    decreases n,
{
    if n == 0 {
        out
    } else {
        with_audio_chunk(
            with_audio_chunks(out, audios, (n - 1) as nat, at, key),
            audios[n - 1],
            wrap32(n - 1),
            at,
            key,
        )
    }
}

/// The output with the first `k` rounds of chunks: one of each stream that is
/// long enough, the video first.
pub open spec fn with_rounds(
    out: Seq<u8>,
    video: Seq<u8>,
    audios: Seq<Seq<u8>>,
    k: nat,
    key: Option<u64>,
) -> Seq<u8>
    decreases k,
{
    if k == 0 {
        out
    } else {
        let at = (k - 1) * CHUNK_SIZE;
        let before = with_rounds(out, video, audios, (k - 1) as nat, key);
        with_audio_chunks(with_video_chunk(before, video, at, key), audios, audios.len(), at, key)
    }
}

/// The length of the longest stream.
pub open spec fn longest(video: Seq<u8>, audios: Seq<Seq<u8>>) -> nat
    decreases audios.len(),
{
    if audios.len() == 0 {
        video.len()
    } else if audios.last().len() > longest(video, audios.drop_last()) {
        audios.last().len()
    } else {
        longest(video, audios.drop_last())
    }
}

/// The chunks of a stream of the given length.
pub open spec fn chunk_count(len: nat) -> nat {
    ((len + CHUNK_SIZE - 1) / CHUNK_SIZE as int) as nat
}

/// An end marker.
pub open spec fn end_marker() -> Seq<u8> {
    END@ + be32(0x18) + chunk_flags()
}

/// The output with `n` end markers.
pub open spec fn with_end_markers(out: Seq<u8>, n: nat) -> Seq<u8>
    decreases n,
{
    if n == 0 {
        out
    } else {
        with_end_markers(out, (n - 1) as nat) + end_marker()
    }
}

/// The output with the headers of a container.
pub open spec fn with_headers(
    out: Seq<u8>,
    name: Seq<char>,
    video: Seq<u8>,
    audios: Seq<Seq<u8>>,
) -> Seq<u8> {
    with_audio_headers(
        with_video_header(with_directory(out, encode_utf8(name)), video.len()),
        audios.len(),
    )
}

/// The output with all chunks and the end markers.
pub open spec fn with_stream_data(
    out: Seq<u8>,
    video: Seq<u8>,
    audios: Seq<Seq<u8>>,
    key: Option<u64>,
) -> Seq<u8> {
    with_end_markers(
        with_rounds(out, video, audios, chunk_count(longest(video, audios)), key),
        1 + audios.len(),
    )
}

pub(crate) proof fn longest_bounds(video: Seq<u8>, audios: Seq<Seq<u8>>)
    ensures
        video.len() <= longest(video, audios),
        forall|i: int| 0 <= i < audios.len() ==> (#[trigger] audios[i]).len() <= longest(
            video,
            audios,
        ),
        longest(video, audios) == video.len() || exists|i: int|
            0 <= i < audios.len() && (#[trigger] audios[i]).len() == longest(video, audios),
    decreases audios.len(),
{
    if audios.len() > 0 {
        let rest = audios.drop_last();
        longest_bounds(video, rest);
        assert forall|i: int| 0 <= i < audios.len() implies (#[trigger] audios[i]).len()
            <= longest(video, audios) by {
            if i < rest.len() {
                assert(rest[i] == audios[i]);
            }
        }
        if audios.last().len() > longest(video, rest) {
            assert(audios[audios.len() - 1].len() == longest(video, audios));
        } else if longest(video, rest) != video.len() {
            let i = choose|i: int|
                0 <= i < rest.len() && (#[trigger] rest[i]).len() == longest(video, rest);
            assert(audios[i] == rest[i]);
        }
    }
}

/// The pieces of a stream, joined.
pub open spec fn joined(data: Seq<u8>, k: nat) -> Seq<u8>
    decreases k,
{
    if k == 0 {
        Seq::empty()
    } else {
        let before = joined(data, (k - 1) as nat);
        let at = (k - 1) * CHUNK_SIZE;
        if at < data.len() {
            before + piece(data, at)
        } else {
            before
        }
    }
}

/// The chunks of a stream hold its bytes, each once and in order.
pub proof fn pieces_join(data: Seq<u8>)
    ensures
        joined(data, chunk_count(data.len())) == data,
{
    joined_prefix(data, chunk_count(data.len()));
    assert(data.subrange(0, data.len() as int) =~= data);
}

proof fn joined_prefix(data: Seq<u8>, k: nat)
    ensures
        joined(data, k) == data.subrange(
            0,
            if k * CHUNK_SIZE <= data.len() { k * CHUNK_SIZE } else { data.len() as int },
        ),
    decreases k,
{
    if k > 0 {
        joined_prefix(data, (k - 1) as nat);
        assert(joined(data, k) =~= data.subrange(
            0,
            if k * CHUNK_SIZE <= data.len() { k * CHUNK_SIZE } else { data.len() as int },
        ));
    } else {
        assert(joined(data, k) =~= data.subrange(0, 0));
    }
}

/// Padding ends at a multiple of 32 and keeps what was there.
pub proof fn padded_is_aligned(out: Seq<u8>)
    ensures
        padded(out).len() % 0x20 == 0,
        padded(out).len() < out.len() + 0x20,
        padded(out).subrange(0, out.len() as int) == out,
{
    assert(padded(out).subrange(0, out.len() as int) =~= out);
}

impl UsmBuilder {
    pub fn new(filename: &str) -> (r: Self)
        ensures
            r@ == (UsmModel {
                filename: filename@,
                video: None,
                audios: Seq::empty(),
                key: None,
            }),
    {
        let r = UsmBuilder {
            filename: filename.to_owned(),
            video_stream: None,
            audio_streams: Vec::new(),
            encryption_key: None,
        };
        assert(r@.audios =~= Seq::empty());
        r
    }

    /// The builder with a video stream, in place of an earlier one.
    pub fn video(self, data: Vec<u8>) -> (r: Self)
        ensures
            r@ == (UsmModel { video: Some(data@), ..self@ }),
    {
        UsmBuilder {
            filename: self.filename,
            video_stream: Some(data),
            audio_streams: self.audio_streams,
            encryption_key: self.encryption_key,
        }
    }

    /// Adds an audio stream behind the others.
    pub fn add_audio(&mut self, data: Vec<u8>) -> (r: &mut Self)
        ensures
            r@ == (UsmModel { audios: old(self)@.audios.push(data@), ..old(self)@ }),
            *final(self) == *final(r),
    {
        self.audio_streams.push(data);
        assert(self@.audios =~= old(self)@.audios.push(data@));
        self
    }

    /// The builder with a key, by which the payloads are masked.
    pub fn encryption_key(self, key: u64) -> (r: Self)
        ensures
            r@ == (UsmModel { key: Some(key), ..self@ }),
    {
        UsmBuilder {
            filename: self.filename,
            video_stream: self.video_stream,
            audio_streams: self.audio_streams,
            encryption_key: Some(key),
        }
    }

    /// Appends the container to `writer`. Without a video nothing is written.
    pub fn build(&self, writer: &mut Vec<u8>) -> (r: Result<(), UsmBuilderError>)
        ensures
            r == match self@.video {
                Some(_) => Ok(()),
                None => Err::<(), UsmBuilderError>(UsmBuilderError::NoVideoStream),
            },
            final(writer)@ == match self@.video {
                Some(video) => with_stream_data(
                    with_headers(old(writer)@, self@.filename, video, self@.audios),
                    video,
                    self@.audios,
                    self@.key,
                ),
                None => old(writer)@,
            },
    {
        match &self.video_stream {
            None => Err(UsmBuilderError::NoVideoStream),
            Some(video) => {
                self.write_crid_header(writer);
                write_sfv_header(writer, video.as_slice());
                let ghost start = writer@;
                let mut i: usize = 0;
                while i < self.audio_streams.len()
                    invariant
                        i <= self.audio_streams@.len(),
                        writer@ == with_audio_headers(start, i as nat),
                    decreases self.audio_streams@.len() - i,
                {
                    write_sfa_header(writer, (i as u64 % 0x1_0000_0000) as u32);
                    i += 1;
                }
                self.write_stream_data(writer, video.as_slice());
                Ok(())
            },
        }
    }

    fn write_crid_header(&self, writer: &mut Vec<u8>)
        ensures
            final(writer)@ == with_directory(old(writer)@, encode_utf8(self@.filename)),
    {
        let mut table: Vec<u8> = Vec::new();
        self.write_crid_utf_table(&mut table);
        let size: u128 = (writer.len() as u128 + 28 + table.len() as u128) - 8;
        put_slice(writer, CRID.as_slice());
        put_u32_be(writer, (size % 0x1_0000_0000) as u32);
        put_chunk_flags(writer);
        put_slice(writer, table.as_slice());
        pad(writer);
    }

    fn write_crid_utf_table(&self, writer: &mut Vec<u8>)
        ensures
            final(writer)@ == old(writer)@ + directory_table(encode_utf8(self@.filename)),
    {
        let name = self.filename.as_str().as_bytes();
        let n: u128 = name.len() as u128;
        put_table_head(
            writer,
            ((n + 61) % 0x1_0000_0000) as u32,
            25,
            29,
            ((n + 57) % 0x1_0000_0000) as u32,
            1,
            4,
        );
        writer.push(0x5A);
        put_u32_be(writer, 18);
        put_u32_be(writer, 27);
        put_slice(writer, DIR_STRINGS.as_slice());
        put_slice(writer, name);
        writer.push(0);
        assert(writer@ =~= old(writer)@ + directory_table(encode_utf8(self@.filename)));
    }

    fn write_stream_data(&self, writer: &mut Vec<u8>, video_data: &[u8])
        ensures
            final(writer)@ == with_stream_data(
                old(writer)@,
                video_data@,
                self@.audios,
                self@.key,
            ),
    {
        let ghost out = writer@;
        let ghost audios = self@.audios;
        let ghost mut k: nat = 0;
        let mut at: u128 = 0;
        proof {
            longest_bounds(video_data@, audios);
            assert(video_data@.len() == video_data.len());
            assert forall|i: int| 0 <= i < audios.len() implies (#[trigger] audios[i]).len()
                <= usize::MAX by {
                assert(audios[i].len() == self.audio_streams@[i].len());
            }
        }
        while at < video_data.len() as u128 || self.any_reaches(at)
            invariant
                audios == self@.audios,
                at == k * CHUNK_SIZE,
                k == 0 || (k - 1) * CHUNK_SIZE < longest(video_data@, audios),
                longest(video_data@, audios) <= usize::MAX,
                writer@ == with_rounds(out, video_data@, audios, k, self@.key),
            decreases longest(video_data@, audios) + CHUNK_SIZE - at,
        {
            proof {
                longest_bounds(video_data@, audios);
            }
            self.write_video_chunk(writer, video_data, at);
            let ghost start = writer@;
            let mut i: usize = 0;
            while i < self.audio_streams.len()
                invariant
                    i <= self.audio_streams@.len(),
                    audios == self@.audios,
                    writer@ == with_audio_chunks(start, audios, i as nat, at as int, self@.key),
                decreases self.audio_streams@.len() - i,
            {
                self.write_audio_chunk(writer, i, at);
                i += 1;
            }
            proof {
                k = k + 1;
            }
            at = at + CHUNK_SIZE as u128;
        }
        proof {
            longest_bounds(video_data@, audios);
            assert(at >= longest(video_data@, audios));
            assert(k == chunk_count(longest(video_data@, audios))) by {
                let n = longest(video_data@, audios) as int;
                assert(k * 0x1_0000 >= n);
            }
        }
        let ghost before = writer@;
        put_end_marker(writer);
        assert(with_end_markers(before, 0) == before);
        assert(writer@ =~= with_end_markers(before, 1));
        let mut i: usize = 0;
        while i < self.audio_streams.len()
            invariant
                i <= self.audio_streams@.len(),
                writer@ == with_end_markers(before, 1 + i as nat),
            decreases self.audio_streams@.len() - i,
        {
            put_end_marker(writer);
            i += 1;
        }
    }

    /// Whether an audio stream has bytes at `at`.
    fn any_reaches(&self, at: u128) -> (r: bool)
        ensures
            r == exists|i: int| 0 <= i < self@.audios.len() && at < (#[trigger] self@.audios[i]).len(),
    {
        let mut i: usize = 0;
        while i < self.audio_streams.len()
            invariant
                i <= self.audio_streams@.len(),
                forall|j: int| 0 <= j < i ==> at >= (#[trigger] self@.audios[j]).len(),
            decreases self.audio_streams@.len() - i,
        {
            if at < self.audio_streams[i].len() as u128 {
                assert(at < self@.audios[i as int].len());
                return true;
            }
            i += 1;
        }
        false
    }

    fn write_video_chunk(&self, writer: &mut Vec<u8>, video: &[u8], at: u128)
        ensures
            final(writer)@ == with_video_chunk(old(writer)@, video@, at as int, self@.key),
    {
        if at >= video.len() as u128 {
            return;
        }
        let data = piece_at(video, at as usize);
        let payload = match self.encryption_key {
            Some(key) => apply_video_mask(data.as_slice(), key),
            None => data,
        };
        put_chunk(writer, SBV.as_slice(), payload.as_slice(), (at % 0x1_0000_0000) as u32, 0);
        pad(writer);
    }

    fn write_audio_chunk(&self, writer: &mut Vec<u8>, stream: usize, at: u128)
        requires
            stream < self@.audios.len(),
        ensures
            final(writer)@ == with_audio_chunk(
                old(writer)@,
                self@.audios[stream as int],
                wrap32(stream as int),
                at as int,
                self@.key,
            ),
    {
        let audio = &self.audio_streams[stream];
        if at >= audio.len() as u128 {
            return;
        }
        let data = piece_at(audio.as_slice(), at as usize);
        let payload = match self.encryption_key {
            Some(key) => apply_audio_mask(data.as_slice(), key),
            None => data,
        };
        put_chunk(
            writer,
            SBA.as_slice(),
            payload.as_slice(),
            (at % 0x1_0000_0000) as u32,
            (stream as u64 % 0x1_0000_0000) as u32,
        );
        pad(writer);
    }
}

fn write_sfv_header(writer: &mut Vec<u8>, video_data: &[u8])
    ensures
        final(writer)@ == with_video_header(old(writer)@, video_data@.len()),
{
    put_slice(writer, SFV.as_slice());
    put_u32_be(writer, 119);
    put_chunk_flags(writer);
    write_video_format_utf(writer, video_data);
    pad(writer);
}

fn write_video_format_utf(writer: &mut Vec<u8>, video_data: &[u8])
    ensures
        final(writer)@ == old(writer)@ + video_table(video_data@.len()),
{
    put_table_head(writer, 91, 31, 43, 83, 3, 12);
    put_number_column(writer, 14);
    put_number_column(writer, 20);
    put_number_column(writer, 27);
    put_u32_be(writer, 1920);
    put_u32_be(writer, 1080);
    put_u32_be(writer, ((video_data.len() / 1000) as u64 % 0x1_0000_0000) as u32);
    put_slice(writer, VIDEO_STRINGS.as_slice());
    assert(writer@ =~= old(writer)@ + video_table(video_data@.len()));
}

fn write_sfa_header(writer: &mut Vec<u8>, stream_id: u32)
    ensures
        final(writer)@ == with_audio_header(old(writer)@, stream_id),
{
    put_slice(writer, SFA.as_slice());
    put_u32_be(writer, 85);
    put_chunk_flags(writer);
    let ghost before = writer@;
    put_table_head(writer, 57, 0x10, 0x14, 0x30, 1, 4);
    put_number_column(writer, 14);
    put_u32_be(writer, stream_id);
    put_slice(writer, AUDIO_STRINGS.as_slice());
    assert(writer@ =~= before + audio_table(stream_id));
    pad(writer);
}

/// The part of a stream that its chunk at `at` holds.
fn piece_at(data: &[u8], at: usize) -> (r: Vec<u8>)
    requires
        at < data@.len(),
    ensures
        r@ == piece(data@, at as int),
{
    let left: usize = data.len() - at;
    let end: usize = if left >= CHUNK_SIZE { at + CHUNK_SIZE } else { data.len() };
    crate::bytes::copy_range(data, at, end)
}

fn put_chunk(out: &mut Vec<u8>, signature: &[u8], payload: &[u8], offset: u32, stream: u32)
    ensures
        final(out)@ == old(out)@ + chunk_bytes(signature@, payload@, offset, stream),
{
    put_slice(out, signature);
    put_u32_be(out, ((payload.len() as u128 + 0x18) % 0x1_0000_0000) as u32);
    put_u16_be(out, 1);
    put_u16_be(out, 0x18);
    put_u32_be(out, offset);
    put_u32_be(out, stream);
    put_zeros(out, 8);
    put_slice(out, payload);
    assert(out@ =~= old(out)@ + chunk_bytes(signature@, payload@, offset, stream));
}

fn put_end_marker(out: &mut Vec<u8>)
    ensures
        final(out)@ == old(out)@ + end_marker(),
{
    put_slice(out, END.as_slice());
    put_u32_be(out, 0x18);
    put_chunk_flags(out);
    assert(out@ =~= old(out)@ + end_marker());
}

/// The sizes written into the headers are those of what follows them.
pub proof fn sizes_are_right(name: Seq<u8>, len: nat, stream: u32)
    ensures
        name.len() + 61 <= u32::MAX ==> directory_table(name).len() == 8 + wrap32(
            name.len() as int + 61,
        ),
        video_table(len).len() == 8 + 91,
        chunk_flags().len() + video_table(len).len() == 119,
        audio_table(stream).len() == 8 + 57,
        chunk_flags().len() + audio_table(stream).len() == 85,
{
}

} // verus!
