//! Extraction of the streams of a USM container.

use vstd::prelude::*;
use vstd::string::StringExecFns;
use vstd::utf8::encode_utf8;
use crate::acb::utf::wrap32;
use crate::bytes::{put_slice, same_bytes, u16_be, u32_be, u32_of};
use crate::reader::{
    addressable, remaining, sjis_text, slice_at, Cursor, IoError, Reader, SeekFrom,
};
use crate::usm::header::{
    parts_lie_within, read_parts, usm_parts, usm_parts_end, UsmPartsModel,
};
use crate::usm::mask::{
    audio_mask_bytes, audio_masked, get_mask, mask_audio, mask_bytes, mask_video, tail_mask_bytes,
    video_unmasked, AudioMask, VideoMask,
};
use crate::usm::table::{
    ended, row_model, row_within, rows_model, RowModel, UsmError, UsmFault, UtfModel, UtfTable,
    UtfValue,
};

verus! {

/// A stream taken out of a container.
#[derive(Debug, Clone, PartialEq, Eq)]
pub struct ExtractedUsmStream {
    pub name: String,
    pub extension: String,
    pub data: Vec<u8>,
}

/// What an extracted stream holds.
pub struct StreamModel {
    pub name: Seq<char>,
    pub extension: Seq<char>,
    pub data: Seq<u8>,
}

impl View for ExtractedUsmStream {
    type V = StreamModel;

    open spec fn view(&self) -> StreamModel {
        StreamModel { name: self.name@, extension: self.extension@, data: self.data@ }
    }
}

/// The file name, whether there is audio, and the codecs of video and audio.
pub type UsmHeaderInfo = (Vec<u8>, bool, Option<u32>, Option<u32>);

/// The low 32 bits of a whole number.
pub open spec fn low_word(v: UtfModel) -> Option<u32> {
    match v {
        UtfModel::Byte(v) => Some(v as u32),
        UtfModel::SByte(v) => Some(u32_of(v as i32)),
        UtfModel::UShort(v) => Some(v as u32),
        UtfModel::Short(v) => Some(u32_of(v as i32)),
        UtfModel::UInt(v) => Some(v),
        UtfModel::Int(v) => Some(u32_of(v)),
        UtfModel::ULong(v) => Some(wrap32(v as int)),
        _ => None,
    }
}

/// The whole number in a column of the first row, if there is one.
pub open spec fn first_u32(rows: Seq<RowModel>, key: Seq<char>) -> Option<u32> {
    if rows.len() > 0 && rows[0].contains_key(key) {
        low_word(rows[0][key])
    } else {
        None
    }
}

fn word_of(v: i32) -> (r: u32)
    ensures
        r == u32_of(v),
{
    if v >= 0 {
        v as u32
    } else {
        (v as i64 + 0x1_0000_0000) as u32
    }
}

/// Read the first row's named integer column as u32 (codec fields), if present.
pub fn utf_first_u32(table: &UtfTable, key: &str) -> (r: Option<u32>)
    ensures
        r == first_u32(rows_model(table@), key@),
{
    if table.len() == 0 {
        return None;
    }
    match table[0].find(key) {
        Some(UtfValue::Byte(v)) => Some(*v as u32),
        Some(UtfValue::SByte(v)) => Some(word_of(*v as i32)),
        Some(UtfValue::UShort(v)) => Some(*v as u32),
        Some(UtfValue::Short(v)) => Some(word_of(*v as i32)),
        Some(UtfValue::UInt(v)) => Some(*v),
        Some(UtfValue::Int(v)) => Some(word_of(*v)),
        Some(UtfValue::ULong(v)) => Some((*v % 0x1_0000_0000) as u32),
        _ => None,
    }
}

/// The audio codec whose payloads are masked.
pub const ADX_CODEC: u32 = 2;

/// The extension of an audio stream: `hca` for codec 4, else `adx`.
pub open spec fn audio_extension(codec: Option<u32>) -> Seq<char> {
    if codec == Some(4u32) { "hca"@ } else { "adx"@ }
}

/// The extension of a video stream: `ivf` for codec 9, else `m2v`.
pub open spec fn video_extension(codec: Option<u32>) -> Seq<char> {
    if codec == Some(9u32) { "ivf"@ } else { "m2v"@ }
}

/// The extension of an audio stream; `adx` also where no codec is named.
pub fn audio_ext(audio_codec: Option<u32>) -> (r: &'static str)
    ensures
        r@ == audio_extension(audio_codec),
{
    match audio_codec {
        Some(4) => "hca",
        _ => "adx",
    }
}

/// The extension of a video stream; `m2v` also where no codec is named.
pub fn video_ext(mpeg_codec: Option<u32>) -> (r: &'static str)
    ensures
        r@ == video_extension(mpeg_codec),
{
    match mpeg_codec {
        Some(9) => "ivf",
        _ => "m2v",
    }
}

/// The file name in the last row, or else the fallback.
pub open spec fn filename_of(rows: Seq<RowModel>, fallback: Seq<u8>) -> Seq<u8> {
    if rows.len() > 0 && rows.last().contains_key("filename"@) {
        match rows.last()["filename"@] {
            UtfModel::String(s) => s,
            UtfModel::Data(s) => s,
            _ => fallback,
        }
    } else {
        fallback
    }
}

/// Extract filename from entry table
pub fn extract_filename(entry_table: &UtfTable, fallback_name: &[u8]) -> (r: Vec<u8>)
    ensures
        r@ == filename_of(rows_model(entry_table@), fallback_name@),
{
    let n: usize = entry_table.len();
    if n > 0 {
        let row = &entry_table[n - 1];
        assert(rows_model(entry_table@).last() == row_model(row@));
        match row.find("filename") {
            Some(UtfValue::String(filename)) => {
                return crate::bytes::copy_bytes(filename.as_slice());
            },
            Some(UtfValue::Data(filename)) => {
                return crate::bytes::copy_bytes(filename.as_slice());
            },
            _ => {},
        }
    }
    crate::bytes::copy_bytes(fallback_name)
}

/// The codec of the video.
pub open spec fn video_codec(p: UsmPartsModel) -> Option<u32> {
    first_u32(p.header.video.table.rows, "mpeg_codec"@)
}

/// The codec of the audio.
pub open spec fn audio_codec(p: UsmPartsModel) -> Option<u32> {
    match p.header.audio {
        Some(a) => first_u32(a.table.rows, "audio_codec"@),
        None => None,
    }
}

/// Parse USM header; the reader then stands at the streams.
pub fn parse_usm_header(reader: &mut Reader, fallback_name: &[u8]) -> (r: Result<
    UsmHeaderInfo,
    UsmError,
>)
    requires
        addressable(old(reader).data().len()),
    ensures
        final(reader).data() == old(reader).data(),
        match (r, usm_parts(old(reader).data(), old(reader).pos(), false)) {
            (Ok(v), Ok(p)) => {
                &&& v.0@ == filename_of(p.directory.rows, fallback_name@)
                &&& v.1 == p.header.audio is Some
                &&& v.2 == video_codec(p)
                &&& v.3 == audio_codec(p)
                &&& final(reader).pos() == p.metadata.stream_offset
            },
            (Err(e), Err(f)) => e@ == f,
            _ => false,
        },
        final(reader).pos() == usm_parts_end(old(reader).data(), old(reader).pos(), false),
{
    let parts = match read_parts(reader, false) {
        Ok(v) => v,
        Err(e) => { return Err(e); },
    };
    let filename = extract_filename(&parts.directory.rows, fallback_name);
    let mpeg_codec = utf_first_u32(&parts.header.video.table.rows, "mpeg_codec");
    match &parts.header.audio {
        Some(audio) => {
            let codec = utf_first_u32(&audio.table.rows, "audio_codec");
            Ok((filename, true, mpeg_codec, codec))
        },
        None => Ok((filename, false, mpeg_codec, None)),
    }
}

/// A stream chunk.
pub struct Chunk {
    pub signature: Seq<u8>,
    /// Whether it only marks the end of a stream.
    pub contents_end: bool,
    /// The bytes of its payload, which starts 32 bytes behind the chunk.
    pub len: int,
    pub data_type: u8,
    /// Where the next chunk starts.
    pub next: nat,
}

/// The bytes that a chunk needs at least.
pub const CHUNK_LEAST: usize = 45;

/// The chunk at `pos`.
pub open spec fn chunk_at(d: Seq<u8>, pos: nat) -> Chunk {
    let block_size = u32_be(slice_at(d, pos + 4, 4));
    Chunk {
        signature: slice_at(d, pos, 4),
        contents_end: slice_at(d, pos + 32, 13) == encode_utf8("#CONTENTS END"@),
        len: block_size - u16_be(slice_at(d, pos + 8, 2)) - u16_be(slice_at(d, pos + 10, 2)),
        data_type: d[pos as int + 15] % 4,
        next: pos + 8 + block_size as nat,
    }
}

/// Whether the payload of the chunk at `pos` lies in the data.
pub open spec fn payload_fits(d: Seq<u8>, pos: nat) -> bool {
    0 <= chunk_at(d, pos).len <= remaining(d.len(), pos + 32)
}

/// The payload of the chunk at `pos`.
pub open spec fn payload(d: Seq<u8>, pos: nat) -> Seq<u8> {
    slice_at(d, pos + 32, chunk_at(d, pos).len as nat)
}

/// The two masks of a video stream.
pub open spec fn video_mask_of(vmask: Option<&VideoMask>) -> Option<(Seq<u8>, Seq<u8>)> {
    match vmask {
        Some(m) => Some((m.0@, m.1@)),
        None => None,
    }
}

/// The mask of an audio stream.
pub open spec fn audio_mask_of(amask: Option<&AudioMask>) -> Option<Seq<u8>> {
    match amask {
        Some(m) => Some(m@),
        None => None,
    }
}

/// A video payload without its mask; only data of type zero has one.
pub open spec fn plain_video(
    b: Seq<u8>,
    data_type: u8,
    vmask: Option<(Seq<u8>, Seq<u8>)>,
) -> Seq<u8> {
    match vmask {
        Some((head, tail)) if data_type == 0 => video_unmasked(b, head, tail),
        _ => b,
    }
}

/// An audio payload without its mask; only data of type zero has one.
pub open spec fn plain_audio(b: Seq<u8>, data_type: u8, amask: Option<Seq<u8>>) -> Seq<u8> {
    match amask {
        Some(m) if data_type == 0 => audio_masked(b, m),
        _ => b,
    }
}

/// The streams gathered from the chunks from `pos` on, behind what is there.
/// Without an audio stream, audio chunks are passed over.
pub open spec fn gathered(
    d: Seq<u8>,
    pos: nat,
    video: Seq<u8>,
    audio: Option<Seq<u8>>,
    vmask: Option<(Seq<u8>, Seq<u8>)>,
    amask: Option<Seq<u8>>,
) -> Result<(Seq<u8>, Option<Seq<u8>>), UsmFault>
    decreases remaining(d.len(), pos),
{
    let left = remaining(d.len(), pos);
    let c = chunk_at(d, pos);
    if left < 4 {
        Ok((video, audio))
    } else if left < CHUNK_LEAST {
        Err(ended())
    } else if c.contents_end {
        gathered(d, c.next, video, audio, vmask, amask)
    } else if c.signature == encode_utf8("@SFV"@) {
        if payload_fits(d, pos) {
            let more = plain_video(payload(d, pos), c.data_type, vmask);
            gathered(d, c.next, video + more, audio, vmask, amask)
        } else {
            Err(ended())
        }
    } else if c.signature == encode_utf8("@SFA"@) && audio is Some {
        if payload_fits(d, pos) {
            let more = plain_audio(payload(d, pos), c.data_type, amask);
            gathered(d, c.next, video, Some(audio->Some_0 + more), vmask, amask)
        } else {
            Err(ended())
        }
    } else {
        gathered(d, c.next, video, audio, vmask, amask)
    }
}

/// What is written of a payload that the data cuts off: the bytes that are
/// there, unless a mask has to come off. A payload of a chunk that has no room
/// for its header and footer is longer than any data.
pub open spec fn cut_payload(d: Seq<u8>, pos: nat, masked: bool) -> Seq<u8> {
    if masked {
        Seq::empty()
    } else {
        slice_at(d, pos + 32, remaining(d.len(), pos + 32))
    }
}

/// The streams written chunk by chunk from `pos` on, behind what is there, and
/// what went wrong, if anything.
pub open spec fn written(
    d: Seq<u8>,
    pos: nat,
    video: Seq<u8>,
    audio: Option<Seq<u8>>,
    vmask: Option<(Seq<u8>, Seq<u8>)>,
    amask: Option<Seq<u8>>,
) -> (Seq<u8>, Option<Seq<u8>>, Option<UsmFault>)
    decreases remaining(d.len(), pos),
{
    let left = remaining(d.len(), pos);
    let c = chunk_at(d, pos);
    if left < 4 {
        (video, audio, None)
    } else if left < CHUNK_LEAST {
        (video, audio, Some(ended()))
    } else if c.contents_end {
        written(d, c.next, video, audio, vmask, amask)
    } else if c.signature == encode_utf8("@SFV"@) {
        if payload_fits(d, pos) {
            let more = plain_video(payload(d, pos), c.data_type, vmask);
            written(d, c.next, video + more, audio, vmask, amask)
        } else {
            let part = cut_payload(d, pos, c.data_type == 0 && vmask is Some);
            (video + part, audio, Some(ended()))
        }
    } else if c.signature == encode_utf8("@SFA"@) && audio is Some {
        if payload_fits(d, pos) {
            let more = plain_audio(payload(d, pos), c.data_type, amask);
            written(d, c.next, video, Some(audio->Some_0 + more), vmask, amask)
        } else {
            let part = cut_payload(d, pos, c.data_type == 0 && amask is Some);
            (video, Some(audio->Some_0 + part), Some(ended()))
        }
    } else {
        written(d, c.next, video, audio, vmask, amask)
    }
}

/// Writing chunk by chunk and gathering in memory fail on the same data, and
/// where they do not they give the same streams.
pub proof fn written_is_gathered(
    d: Seq<u8>,
    pos: nat,
    video: Seq<u8>,
    audio: Option<Seq<u8>>,
    vmask: Option<(Seq<u8>, Seq<u8>)>,
    amask: Option<Seq<u8>>,
)
    ensures
        ({
            let w = written(d, pos, video, audio, vmask, amask);
            gathered(d, pos, video, audio, vmask, amask) == match w.2 {
                None => Ok::<(Seq<u8>, Option<Seq<u8>>), UsmFault>((w.0, w.1)),
                Some(f) => Err::<(Seq<u8>, Option<Seq<u8>>), UsmFault>(f),
            }
        }),
    decreases remaining(d.len(), pos),
{
    let left = remaining(d.len(), pos);
    let c = chunk_at(d, pos);
    if left >= CHUNK_LEAST {
        if !c.contents_end && c.signature == encode_utf8("@SFV"@) {
            if payload_fits(d, pos) {
                let more = plain_video(payload(d, pos), c.data_type, vmask);
                written_is_gathered(d, c.next, video + more, audio, vmask, amask);
            }
        } else if !c.contents_end && c.signature == encode_utf8("@SFA"@) && audio is Some {
            if payload_fits(d, pos) {
                let more = plain_audio(payload(d, pos), c.data_type, amask);
                written_is_gathered(d, c.next, video, Some(audio->Some_0 + more), vmask, amask);
            }
        } else {
            written_is_gathered(d, c.next, video, audio, vmask, amask);
        }
    }
}

/// The head of a stream chunk.
struct ChunkHead {
    signature: Vec<u8>,
    contents_end: bool,
    len: i64,
    data_type: u8,
    next: u64,
}

/// Reads the head of the next chunk, if there is one, and moves to its
/// payload.
fn next_chunk(reader: &mut Reader) -> (r: Result<Option<ChunkHead>, UsmError>)
    requires
        addressable(old(reader).data().len()),
    ensures
        final(reader).data() == old(reader).data(),
        ({
            let d = old(reader).data();
            let pos = old(reader).pos();
            let left = remaining(d.len(), pos);
            let c = chunk_at(d, pos);
            if left < 4 {
                r is Ok && r->Ok_0 is None && final(reader).pos() == d.len()
            } else if left < CHUNK_LEAST {
                r is Err && r->Err_0@ == ended() && final(reader).pos() == d.len()
            } else {
                &&& r is Ok && r->Ok_0 is Some
                &&& r->Ok_0->Some_0.signature@ == c.signature
                &&& r->Ok_0->Some_0.contents_end == c.contents_end
                &&& r->Ok_0->Some_0.len == c.len
                &&& r->Ok_0->Some_0.data_type == c.data_type
                &&& r->Ok_0->Some_0.next == c.next
                &&& final(reader).pos() == pos + 32
            }
        }),
{
    let signature = match reader.read_bytes(4) {
        Ok(v) => v,
        Err(_) => { return Ok(None); },
    };
    let block_size: u32 = match reader.read_u32() {
        Ok(v) => v,
        Err(e) => { return Err(UsmError::Io(e)); },
    };
    let current_pos: u64 = match reader.stream_position() {
        Ok(v) => v,
        Err(e) => { return Err(UsmError::Io(e)); },
    };
    let header_size: u16 = match reader.read_u16() {
        Ok(v) => v,
        Err(e) => { return Err(UsmError::Io(e)); },
    };
    let footer_size: u16 = match reader.read_u16() {
        Ok(v) => v,
        Err(e) => { return Err(UsmError::Io(e)); },
    };
    match reader.read_bytes(3) {
        Ok(_) => {},
        Err(e) => { return Err(UsmError::Io(e)); },
    }
    let data_type: u8 = match reader.read_u8() {
        Ok(v) => v % 4,
        Err(e) => { return Err(UsmError::Io(e)); },
    };
    let _ = reader.seek(SeekFrom::Current(16));
    let contents = match reader.read_bytes(13) {
        Ok(v) => v,
        Err(e) => { return Err(UsmError::Io(e)); },
    };
    let contents_end: bool = same_bytes(contents.as_slice(), "#CONTENTS END".as_bytes());
    let _ = reader.seek(SeekFrom::Current(-13));
    let len: i64 = block_size as i64 - header_size as i64 - footer_size as i64;
    let next: u64 = current_pos + block_size as u64;
    Ok(Some(ChunkHead { signature, contents_end, len, data_type, next }))
}

/// Appends the payload of a chunk to its stream: the video's without its mask
/// to `video_file`, the audio's to `audio_file` where there is one. A payload
/// that the data cuts off fails; what is there of it is written, unless a mask
/// has to come off.
fn process_chunk(
    reader: &mut Reader,
    chunk: &ChunkHead,
    video_file: &mut Vec<u8>,
    audio_file: &mut Option<Vec<u8>>,
    vmask: Option<&VideoMask>,
    amask: Option<&AudioMask>,
    Ghost(pos): Ghost<nat>,
) -> (r: Result<(), UsmError>)
    requires
        addressable(old(reader).data().len()),
        old(reader).pos() == pos + 32,
        remaining(old(reader).data().len(), pos) >= CHUNK_LEAST,
        chunk.signature@ == chunk_at(old(reader).data(), pos).signature,
        chunk.len == chunk_at(old(reader).data(), pos).len,
        chunk.data_type == chunk_at(old(reader).data(), pos).data_type,
    ensures
        final(reader).data() == old(reader).data(),
        ({
            let d = old(reader).data();
            let c = chunk_at(d, pos);
            let vm = video_mask_of(vmask);
            let am = audio_mask_of(amask);
            let had = audio_of(*old(audio_file));
            let has = audio_of(*final(audio_file));
            let wanted = c.signature == encode_utf8("@SFV"@) || c.signature == encode_utf8("@SFA"@)
                && had is Some;
            &&& r is Ok <==> !wanted || payload_fits(d, pos)
            &&& r is Err ==> r->Err_0@ == ended() && final(reader).pos() == d.len()
            &&& final(video_file)@ == old(video_file)@ + if c.signature != encode_utf8("@SFV"@) {
                Seq::empty()
            } else if payload_fits(d, pos) {
                plain_video(payload(d, pos), c.data_type, vm)
            } else {
                cut_payload(d, pos, c.data_type == 0 && vm is Some)
            }
            &&& has is Some == had is Some
            &&& had is Some ==> has->Some_0 == had->Some_0 + if c.signature == encode_utf8(
                "@SFV"@,
            ) || c.signature != encode_utf8("@SFA"@) {
                Seq::empty()
            } else if payload_fits(d, pos) {
                plain_audio(payload(d, pos), c.data_type, am)
            } else {
                cut_payload(d, pos, c.data_type == 0 && am is Some)
            }
        }),
{
    let is_video: bool = same_bytes(chunk.signature.as_slice(), "@SFV".as_bytes());
    let is_audio: bool = same_bytes(chunk.signature.as_slice(), "@SFA".as_bytes());
    if is_video {
        let masked: bool = chunk.data_type == 0 && vmask.is_some();
        let mut content: Vec<u8> = Vec::new();
        let outcome = read_payload(reader, chunk.len, masked, &mut content, Ghost(pos));
        if outcome.is_ok() && chunk.data_type == 0 {
            if let Some(m) = vmask {
                mask_video(content.as_mut_slice(), m);
            }
        }
        put_slice(video_file, content.as_slice());
        if let Some(a) = audio_file {
            assert(a@ =~= a@ + Seq::empty());
        }
        outcome
    } else if is_audio {
        assert(video_file@ =~= video_file@ + Seq::empty());
        match audio_file {
            Some(audio) => {
                let masked: bool = chunk.data_type == 0 && amask.is_some();
                let mut content: Vec<u8> = Vec::new();
                let outcome = read_payload(reader, chunk.len, masked, &mut content, Ghost(pos));
                if outcome.is_ok() && chunk.data_type == 0 {
                    if let Some(m) = amask {
                        mask_audio(content.as_mut_slice(), m);
                    }
                }
                put_slice(audio, content.as_slice());
                outcome
            },
            None => Ok(()),
        }
    } else {
        assert(video_file@ =~= video_file@ + Seq::empty());
        if let Some(a) = audio_file {
            assert(a@ =~= a@ + Seq::empty());
        }
        Ok(())
    }
}

/// The bytes of an optional stream.
pub open spec fn audio_of(audio: Option<Vec<u8>>) -> Option<Seq<u8>> {
    match audio {
        Some(v) => Some(v@),
        None => None,
    }
}

/// Reads the payload of the chunk at `pos`. One that the data cuts off fails,
/// and `out` then holds what is there of it, unless it is masked.
fn read_payload(
    reader: &mut Reader,
    len: i64,
    masked: bool,
    out: &mut Vec<u8>,
    Ghost(pos): Ghost<nat>,
) -> (r: Result<(), UsmError>)
    requires
        addressable(old(reader).data().len()),
        old(reader).pos() == pos + 32,
        remaining(old(reader).data().len(), pos) >= CHUNK_LEAST,
        len == chunk_at(old(reader).data(), pos).len,
        old(out)@.len() == 0,
    ensures
        final(reader).data() == old(reader).data(),
        ({
            let d = old(reader).data();
            &&& r is Ok <==> payload_fits(d, pos)
            &&& r is Ok ==> final(out)@ == payload(d, pos)
            &&& r is Err ==> {
                &&& r->Err_0@ == ended()
                &&& final(reader).pos() == d.len()
                &&& final(out)@ == cut_payload(d, pos, masked)
            }
        }),
{
    let ghost d = reader.data();
    if masked {
        if len < 0 {
            let _ = reader.seek(SeekFrom::End(0));
            assert(out@ =~= Seq::empty());
            return Err(UsmError::Io(IoError::UnexpectedEof));
        }
        match reader.read_bytes(len as usize) {
            Ok(b) => {
                put_slice(out, b.as_slice());
                assert(out@ =~= payload(d, pos));
                Ok(())
            },
            Err(e) => {
                assert(out@ =~= Seq::empty());
                Err(UsmError::Io(e))
            },
        }
    } else {
        let n: u64 = if len < 0 { u64::MAX } else { len as u64 };
        match reader.copy_to_writer(n, out) {
            Ok(_) => {
                assert(out@ =~= payload(d, pos));
                Ok(())
            },
            Err(e) => {
                assert(out@ =~= cut_payload(d, pos, masked));
                Err(UsmError::Io(e))
            },
        }
    }
}

/// Extract USM chunks
///
/// Writes the payloads from the reader's position on behind what the streams
/// hold already.
pub fn extract_usm_chunks(
    reader: &mut Reader,
    video_file: &mut Vec<u8>,
    audio_file: &mut Option<Vec<u8>>,
    vmask: Option<&VideoMask>,
    amask: Option<&AudioMask>,
) -> (r: Result<(), UsmError>)
    requires
        addressable(old(reader).data().len()),
    ensures
        final(reader).data() == old(reader).data(),
        final(reader).pos() == old(reader).data().len(),
        ({
            let w = written(
                old(reader).data(),
                old(reader).pos(),
                old(video_file)@,
                audio_of(*old(audio_file)),
                video_mask_of(vmask),
                audio_mask_of(amask),
            );
            &&& final(video_file)@ == w.0
            &&& audio_of(*final(audio_file)) == w.1
            &&& match w.2 {
                Some(f) => r is Err && r->Err_0@ == f,
                None => r is Ok,
            }
        }),
{
    let ghost d = reader.data();
    let ghost vm = video_mask_of(vmask);
    let ghost am = audio_mask_of(amask);
    let ghost whole = written(d, reader.pos(), video_file@, audio_of(*audio_file), vm, am);
    loop
        invariant
            reader.data() == d,
            d == old(reader).data(),
            addressable(d.len()),
            vm == video_mask_of(vmask),
            am == audio_mask_of(amask),
            whole == written(d, reader.pos(), video_file@, audio_of(*audio_file), vm, am),
            whole == written(
                old(reader).data(),
                old(reader).pos(),
                old(video_file)@,
                audio_of(*old(audio_file)),
                vm,
                am,
            ),
        decreases remaining(d.len(), reader.pos()),
    {
        let ghost pos = reader.pos();
        let ghost video = video_file@;
        let ghost audio = audio_of(*audio_file);
        let chunk = match next_chunk(reader) {
            Ok(Some(c)) => c,
            Ok(None) => { return Ok(()); },
            Err(e) => { return Err(e); },
        };
        if !chunk.contents_end {
            match process_chunk(
                reader,
                &chunk,
                video_file,
                audio_file,
                vmask,
                amask,
                Ghost(pos),
            ) {
                Ok(_) => {},
                Err(e) => {
                    proof {
                        assert(video + Seq::empty() =~= video);
                        if audio is Some {
                            assert(audio->Some_0 + Seq::empty() =~= audio->Some_0);
                        }
                    }
                    return Err(e);
                },
            }
            proof {
                assert(video + Seq::empty() =~= video);
                if audio is Some {
                    assert(audio->Some_0 + Seq::empty() =~= audio->Some_0);
                }
            }
        }
        let _ = reader.seek(SeekFrom::Start(chunk.next));
    }
}

/// Reads one payload and appends it to `out` without its mask.
fn read_usm_chunk_into(
    reader: &mut Reader,
    read_data_len: usize,
    data_type: u8,
    vmask: Option<&VideoMask>,
    amask: Option<&AudioMask>,
    out: &mut Vec<u8>,
) -> (r: Result<(), UsmError>)
    ensures
        final(reader).data() == old(reader).data(),
        ({
            let d = old(reader).data();
            let b = slice_at(d, old(reader).pos(), read_data_len as nat);
            let plain = if vmask is Some {
                plain_video(b, data_type, video_mask_of(vmask))
            } else {
                plain_audio(b, data_type, audio_mask_of(amask))
            };
            if read_data_len <= remaining(d.len(), old(reader).pos()) {
                r is Ok && final(out)@ == old(out)@ + plain
            } else {
                r is Err && r->Err_0@ == ended() && final(out)@ == old(out)@
                    && final(reader).pos() == d.len()
            }
        }),
{
    let mut content: Vec<u8> = Vec::new();
    match reader.read_into_vec(read_data_len, &mut content) {
        Ok(_) => {},
        Err(e) => { return Err(UsmError::Io(e)); },
    }
    assert(content@ =~= slice_at(old(reader).data(), old(reader).pos(), read_data_len as nat));
    if data_type == 0 {
        if let Some(m) = vmask {
            mask_video(content.as_mut_slice(), m);
        } else if let Some(m) = amask {
            mask_audio(content.as_mut_slice(), m);
        }
    }
    put_slice(out, content.as_slice());
    Ok(())
}

/// The streams of a container under a base name.
pub open spec fn named_streams(
    base: Seq<char>,
    video: Seq<u8>,
    audio: Option<Seq<u8>>,
    mpeg_codec: Option<u32>,
    audio_codec: Option<u32>,
) -> Seq<StreamModel> {
    let first = StreamModel { name: base, extension: video_extension(mpeg_codec), data: video };
    match audio {
        Some(data) => seq![
            first,
            StreamModel { name: base, extension: audio_extension(audio_codec), data },
        ],
        None => seq![first],
    }
}

/// What a list of streams holds.
pub open spec fn streams_model(streams: Seq<ExtractedUsmStream>) -> Seq<StreamModel> {
    Seq::new(streams.len(), |i: int| streams[i]@)
}

/// Gathers the streams from the reader's position on in memory.
pub fn extract_usm_chunks_to_memory(
    reader: &mut Reader,
    base_name: String,
    export_audio: bool,
    vmask: Option<&VideoMask>,
    amask: Option<&AudioMask>,
    mpeg_codec: Option<u32>,
    audio_codec: Option<u32>,
) -> (r: Result<Vec<ExtractedUsmStream>, UsmError>)
    requires
        addressable(old(reader).data().len()),
    ensures
        final(reader).data() == old(reader).data(),
        final(reader).pos() == old(reader).data().len(),
        match (
            r,
            gathered(
                old(reader).data(),
                old(reader).pos(),
                Seq::empty(),
                if export_audio { Some(Seq::empty()) } else { None },
                video_mask_of(vmask),
                audio_mask_of(amask),
            ),
        ) {
            (Ok(v), Ok((video, audio))) => streams_model(v@) == named_streams(
                base_name@,
                video,
                audio,
                mpeg_codec,
                audio_codec,
            ),
            (Err(e), Err(f)) => e@ == f,
            _ => false,
        },
{
    let ghost d = reader.data();
    let ghost vm = video_mask_of(vmask);
    let ghost am = audio_mask_of(amask);
    let mut video: Vec<u8> = Vec::new();
    let mut audio: Option<Vec<u8>> = if export_audio { Some(Vec::new()) } else { None };
    let ghost whole = gathered(d, reader.pos(), video@, audio_of(audio), vm, am);
    assert(video@ =~= Seq::empty());
    if export_audio {
        assert(audio_of(audio)->Some_0 =~= Seq::empty());
    }
    assert(whole == gathered(
        old(reader).data(),
        old(reader).pos(),
        Seq::empty(),
        if export_audio { Some(Seq::empty()) } else { None },
        vm,
        am,
    ));
    loop
        invariant_except_break
            reader.data() == d,
            whole == gathered(d, reader.pos(), video@, audio_of(audio), vm, am),
        invariant
            d == old(reader).data(),
            addressable(d.len()),
            vm == video_mask_of(vmask),
            am == audio_mask_of(amask),
            whole == gathered(
                old(reader).data(),
                old(reader).pos(),
                Seq::empty(),
                if export_audio { Some(Seq::empty()) } else { None },
                vm,
                am,
            ),
        ensures
            reader.data() == d,
            reader.pos() == d.len(),
            whole == Ok::<(Seq<u8>, Option<Seq<u8>>), UsmFault>((video@, audio_of(audio))),
        decreases remaining(d.len(), reader.pos()),
    {
        let ghost pos = reader.pos();
        let chunk = match next_chunk(reader) {
            Ok(Some(c)) => c,
            Ok(None) => {
                break;
            },
            Err(e) => { return Err(e); },
        };
        if !chunk.contents_end {
            let is_video: bool = same_bytes(chunk.signature.as_slice(), "@SFV".as_bytes());
            let is_audio: bool = same_bytes(chunk.signature.as_slice(), "@SFA".as_bytes());
            if (is_video || is_audio && audio.is_some()) && chunk.len < 0 {
                let _ = reader.seek(SeekFrom::End(0));
                return Err(UsmError::Io(IoError::UnexpectedEof));
            }
            if is_video {
                match read_usm_chunk_into(
                    reader,
                    chunk.len as usize,
                    chunk.data_type,
                    vmask,
                    None,
                    &mut video,
                ) {
                    Ok(_) => {},
                    Err(e) => { return Err(e); },
                }
            } else if is_audio {
                if let Some(held) = audio.as_mut() {
                    match read_usm_chunk_into(
                        reader,
                        chunk.len as usize,
                        chunk.data_type,
                        None,
                        amask,
                        held,
                    ) {
                        Ok(_) => {},
                        Err(e) => { return Err(e); },
                    }
                }
            }
        }
        let _ = reader.seek(SeekFrom::Start(chunk.next));
    }
    let ghost video_bytes = video@;
    let ghost audio_bytes = audio_of(audio);
    let mut streams: Vec<ExtractedUsmStream> = Vec::new();
    let name = base_name.clone();
    streams.push(
        ExtractedUsmStream { name, extension: video_ext(mpeg_codec).to_owned(), data: video },
    );
    if let Some(data) = audio {
        streams.push(
            ExtractedUsmStream {
                name: base_name,
                extension: audio_ext(audio_codec).to_owned(),
                data,
            },
        );
    }
    assert(streams_model(streams@) =~= named_streams(
        base_name@,
        video_bytes,
        audio_bytes,
        mpeg_codec,
        audio_codec,
    ));
    Ok(streams)
}

/// Whether every system takes a path apart in the same way: at its slashes
/// alone. Some have other separators, and prefixes with a colon or of two
/// slashes.
pub open spec fn portable(s: Seq<char>) -> bool {
    &&& !s.contains('\\') && !s.contains(':')
    &&& !(s.len() >= 2 && s[0] == '/' && s[1] == '/')
}

/// Where the last component of the first `n` characters starts.
pub open spec fn part_start(s: Seq<char>, n: nat) -> nat
    decreases n,
{
    if n == 0 || s[n - 1] == '/' { n } else { part_start(s, (n - 1) as nat) }
}

/// The last component of the first `n` characters; empty ones and single dots
/// behind another component do not count.
pub open spec fn last_part(s: Seq<char>, n: nat) -> Seq<char>
    decreases n,
{
    let at = part_start(s, n);
    let part = s.subrange(at as int, n as int);
    if 0 < at <= n && (part.len() == 0 || part == seq!['.']) {
        last_part(s, (at - 1) as nat)
    } else {
        part
    }
}

/// The stem of a path's last component; none where that is no file name.
pub open spec fn path_stem(s: Seq<char>) -> Option<Seq<char>> {
    let part = last_part(s, s.len());
    if part.len() == 0 || part == seq!['.'] || part == seq!['.', '.'] {
        None
    } else {
        Some(stem_of(part))
    }
}

/// The base name of the streams: the stem of the file name, or the whole name
/// where it has none.
pub open spec fn base_text(s: Seq<char>) -> Seq<char> {
    match path_stem(s) {
        Some(stem) => stem,
        None => s,
    }
}

/// The part of a file name before its last dot; the whole name where it has
/// none, or only one at its start.
pub open spec fn stem_of(s: Seq<char>) -> Seq<char> {
    stem_within(s, s.len())
}

/// The part before the last dot among the first `n` characters.
pub open spec fn stem_within(s: Seq<char>, n: nat) -> Seq<char>
    decreases n,
{
    if n <= 1 {
        s
    } else if s[n - 1] == '.' {
        s.subrange(0, n - 1)
    } else {
        stem_within(s, (n - 1) as nat)
    }
}

proof fn no_slash_before(s: Seq<char>, n: nat)
    requires
        n <= s.len(),
        !s.contains('/'),
    ensures
        part_start(s, n) == 0,
    decreases n,
{
    if n > 0 {
        assert(s.contains(s[n - 1]));
        no_slash_before(s, (n - 1) as nat);
    }
}

proof fn no_dot_within(s: Seq<char>, n: nat)
    requires
        n <= s.len(),
        !s.contains('.'),
    ensures
        stem_within(s, n) == s,
    decreases n,
{
    if n > 1 {
        assert(s.contains(s[n - 1]));
        no_dot_within(s, (n - 1) as nat);
    }
}

/// The base name of a file name without slashes is its stem, but for names of
/// dots alone, which stay whole; a name without dots stays whole too.
pub proof fn bare_name_has_stem(s: Seq<char>)
    requires
        !s.contains('/'),
    ensures
        s == seq!['.'] || s == seq!['.', '.'] ==> base_text(s) == s,
        s != seq!['.'] && s != seq!['.', '.'] ==> base_text(s) == stem_of(s),
        !s.contains('.') ==> base_text(s) == s,
{
    no_slash_before(s, s.len());
    assert(s.subrange(0, s.len() as int) =~= s);
    if !s.contains('.') {
        no_dot_within(s, s.len());
        assert(s != seq!['.'] && s != seq!['.', '.']) by {
            if s == seq!['.'] || s == seq!['.', '.'] {
                assert(s.contains(s[0]));
            }
        }
    }
}

/// Calls `std::path::Path::file_stem`: the part of the last component before
/// its last dot, and nothing where the path is empty or ends in dots alone. Of
/// names that are not the same path on every system nothing is claimed, since
/// what separates components depends on the system.
#[verifier::external_body]
fn file_stem(name: &str) -> (r: Option<String>)
    ensures
        portable(name@) ==> match r {
            Some(s) => path_stem(name@) == Some(s@),
            None => path_stem(name@) is None,
        },
{
    match std::path::Path::new(name).file_stem() {
        Some(stem) => match stem.to_str() {
            Some(s) => Some(s.to_string()),
            None => None,
        },
        None => None,
    }
}

/// The base name of the streams: the stem of the file name, or the whole name
/// where it has none.
pub fn stream_base_name(stem: Option<String>, name: String) -> (r: String)
    ensures
        r@ == match stem {
            Some(s) => s@,
            None => name@,
        },
{
    match stem {
        Some(s) => s,
        None => name,
    }
}

/// The text of a file name in a container.
pub open spec fn filename_text(bytes: Seq<u8>) -> Seq<char> {
    sjis_text(bytes).0
}

/// The base name of the streams of a container with the given file name: its
/// stem, or the whole name where it has none. How a name with a backslash, a
/// colon or two leading slashes is taken apart depends on the system.
pub fn base_name_of(filename: &[u8]) -> (r: String)
    requires
        addressable(filename@.len()),
    ensures
        portable(filename_text(filename@)) ==> r@ == base_text(filename_text(filename@)),
{
    let (decoded, _) = crate::reader::decode_shift_jis(filename);
    let stem = file_stem(decoded.as_str());
    stream_base_name(stem, decoded)
}

/// The file names of the streams under a base name: the video's, then the
/// audio's where it is written.
pub open spec fn file_names(
    base: Seq<char>,
    with_audio: bool,
    mpeg_codec: Option<u32>,
    audio_codec: Option<u32>,
) -> Seq<Seq<char>> {
    let video = base + "."@ + video_extension(mpeg_codec);
    if with_audio {
        seq![video, base + "."@ + audio_extension(audio_codec)]
    } else {
        seq![video]
    }
}

/// The file names of the streams under a base name: the video's, then the
/// audio's where it is written.
pub fn output_file_names(
    base_name: &str,
    with_audio: bool,
    mpeg_codec: Option<u32>,
    audio_codec: Option<u32>,
) -> (r: Vec<String>)
    ensures
        Seq::new(r@.len(), |i: int| r@[i]@) == file_names(
            base_name@,
            with_audio,
            mpeg_codec,
            audio_codec,
        ),
{
    let mut names: Vec<String> = Vec::new();
    names.push(base_name.to_owned().concat(".").concat(video_ext(mpeg_codec)));
    if with_audio {
        names.push(base_name.to_owned().concat(".").concat(audio_ext(audio_codec)));
    }
    assert(Seq::new(names@.len(), |i: int| names@[i]@) =~= file_names(
        base_name@,
        with_audio,
        mpeg_codec,
        audio_codec,
    ));
    names
}

/// The video masks of a key.
pub open spec fn key_video_mask(key: Option<u64>) -> Option<(Seq<u8>, Seq<u8>)> {
    match key {
        Some(k) => Some((mask_bytes(k), tail_mask_bytes(k))),
        None => None,
    }
}

/// The audio mask of a key. It applies to ADX only; HCA has its own cipher.
pub open spec fn key_audio_mask(key: Option<u64>, codec: Option<u32>) -> Option<Seq<u8>> {
    match key {
        Some(k) if codec == Some(ADX_CODEC) => Some(audio_mask_bytes(k)),
        _ => None,
    }
}

/// The streams of a container behind the given parts.
pub open spec fn container_streams(
    d: Seq<u8>,
    p: UsmPartsModel,
    key: Option<u64>,
    export_audio: bool,
) -> Result<(Seq<u8>, Option<Seq<u8>>), UsmFault> {
    gathered(
        d,
        p.metadata.stream_offset as nat,
        Seq::empty(),
        if p.header.audio is Some && export_audio { Some(Seq::empty()) } else { None },
        key_video_mask(key),
        key_audio_mask(key, audio_codec(p)),
    )
}

proof fn masks_spare_audio(
    d: Seq<u8>,
    pos: nat,
    a: Seq<u8>,
    b: Seq<u8>,
    audio: Option<Seq<u8>>,
    x: Option<(Seq<u8>, Seq<u8>)>,
    y: Option<(Seq<u8>, Seq<u8>)>,
    amask: Option<Seq<u8>>,
)
    ensures
        match (gathered(d, pos, a, audio, x, amask), gathered(d, pos, b, audio, y, amask)) {
            (Ok(r), Ok(s)) => r.1 == s.1 && (r.1 is Some <==> audio is Some),
            (Err(e), Err(f)) => e == f,
            _ => false,
        },
    decreases remaining(d.len(), pos),
{
    let left = remaining(d.len(), pos);
    let c = chunk_at(d, pos);
    if left >= CHUNK_LEAST {
        if !c.contents_end && c.signature == encode_utf8("@SFV"@) {
            if payload_fits(d, pos) {
                let more = plain_video(payload(d, pos), c.data_type, x);
                let other = plain_video(payload(d, pos), c.data_type, y);
                masks_spare_audio(d, c.next, a + more, b + other, audio, x, y, amask);
            }
        } else if !c.contents_end && c.signature == encode_utf8("@SFA"@) && audio is Some {
            if payload_fits(d, pos) {
                let more = plain_audio(payload(d, pos), c.data_type, amask);
                masks_spare_audio(d, c.next, a, b, Some(audio->Some_0 + more), x, y, amask);
            }
        } else {
            masks_spare_audio(d, c.next, a, b, audio, x, y, amask);
        }
    }
}

/// A key never touches audio other than ADX: with two keys, or none, a
/// container fails alike or gives the same audio stream, of one name and one
/// extension. There is one where the header has audio and it is asked for, and
/// else none.
pub proof fn key_spares_other_audio(
    d: Seq<u8>,
    p: UsmPartsModel,
    base: Seq<char>,
    key: Option<u64>,
    other: Option<u64>,
    export_audio: bool,
)
    requires
        audio_codec(p) != Some(ADX_CODEC),
    ensures
        match (
            container_streams(d, p, key, export_audio),
            container_streams(d, p, other, export_audio),
        ) {
            (Ok(r), Ok(s)) => {
                let x = named_streams(base, r.0, r.1, video_codec(p), audio_codec(p));
                let y = named_streams(base, s.0, s.1, video_codec(p), audio_codec(p));
                &&& r.1 == s.1
                &&& x.len() == y.len() == if p.header.audio is Some && export_audio {
                    2int
                } else {
                    1
                }
                &&& x[0].name == y[0].name && x[0].extension == y[0].extension
                &&& x.len() == 2 ==> x[1] == y[1]
            },
            (Err(e), Err(f)) => e == f,
            _ => false,
        },
{
    masks_spare_audio(
        d,
        p.metadata.stream_offset as nat,
        Seq::empty(),
        Seq::empty(),
        if p.header.audio is Some && export_audio { Some(Seq::empty()) } else { None },
        key_video_mask(key),
        key_video_mask(other),
        None,
    );
}

/// The masks by which the payloads of a container are read: the video's, and
/// the audio's where its codec has one.
pub fn stream_masks(key: Option<u64>, codec: Option<u32>) -> (r: (
    Option<VideoMask>,
    Option<AudioMask>,
))
    ensures
        (match r.0 {
            Some(m) => Some((m.0@, m.1@)),
            None => None,
        }) == key_video_mask(key),
        (match r.1 {
            Some(m) => Some(m@),
            None => None,
        }) == key_audio_mask(key, codec),
{
    match key {
        Some(k) => {
            let (vmask, amask) = get_mask(k);
            let is_adx: bool = match codec {
                Some(c) => c == ADX_CODEC,
                None => false,
            };
            (Some(vmask), if is_adx { Some(amask) } else { None })
        },
        None => (None, None),
    }
}

/// Extract USM video/audio streams from a reader into memory.
pub fn extract_usm_to_memory(
    usm: Cursor,
    fallback_name: &[u8],
    key: Option<u64>,
    export_audio: bool,
) -> (r: Result<Vec<ExtractedUsmStream>, UsmError>)
    requires
        addressable(usm.data().len()),
        addressable(fallback_name@.len()),
    ensures
        match usm_parts(usm.data(), usm.pos(), false) {
            Err(f) => r is Err && r->Err_0@ == f,
            Ok(p) => match container_streams(usm.data(), p, key, export_audio) {
                Err(f) => r is Err && r->Err_0@ == f,
                Ok((video, audio)) => {
                    let name = filename_text(filename_of(p.directory.rows, fallback_name@));
                    &&& r is Ok
                    &&& r->Ok_0@.len() > 0
                    &&& streams_model(r->Ok_0@) == named_streams(
                        r->Ok_0@[0].name@,
                        video,
                        audio,
                        video_codec(p),
                        audio_codec(p),
                    )
                    &&& portable(name) ==> r->Ok_0@[0].name@ == base_text(name)
                },
            },
        },
{
    let ghost d = usm.data();
    let ghost pos = usm.pos();
    let mut reader = Reader::new(usm);
    let (filename, has_audio, mpeg_codec, codec) = match parse_usm_header(
        &mut reader,
        fallback_name,
    ) {
        Ok(v) => v,
        Err(e) => { return Err(e); },
    };
    proof {
        parts_lie_within(d, pos, false);
        let p = usm_parts(d, pos, false)->Ok_0;
        if p.directory.rows.len() > 0 {
            assert(row_within(p.directory.rows[p.directory.rows.len() - 1], d.len()));
        }
    }
    let base_name = base_name_of(filename.as_slice());
    let (vmask, amask) = stream_masks(key, codec);
    let r = extract_usm_chunks_to_memory(
        &mut reader,
        base_name,
        has_audio && export_audio,
        vmask.as_ref(),
        amask.as_ref(),
        mpeg_codec,
        codec,
    );
    proof {
        if let Ok(v) = &r {
            assert(streams_model(v@).len() > 0);
            assert(streams_model(v@)[0] == v@[0]@);
        }
    }
    r
}

} // verus!
