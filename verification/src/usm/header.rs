//! The chunks in front of the streams of a USM container.

use vstd::prelude::*;
use vstd::utf8::{encode_utf8, valid_utf8};
use crate::bytes::{same_bytes, same_text, u32_be};
use crate::reader::{addressable, aligned, remaining, slice_at, utf8_lossy, Reader, SeekFrom};
use crate::usm::table::{
    align_stream, detailed_table_at, ended, get_detailed_utf_table, get_utf_table, name_keeps_rows,
    position_of, rows_within, table_end, table_lies_within, utf_table_at, wrap64, DetailedUtfTable,
    TableModel, UsmError, UsmFault,
};

verus! {

/// The table at `pos`, with its name or with an empty one.
#[verifier::opaque]
pub open spec fn table_of(d: Seq<u8>, pos: nat, named: bool) -> Result<TableModel, UsmFault> {
    if named {
        detailed_table_at(d, pos)
    } else {
        match utf_table_at(d, pos) {
            Ok(rows) => Ok(TableModel { name: Seq::empty(), rows }),
            Err(f) => Err(f),
        }
    }
}

fn read_table(reader: &mut Reader, named: bool) -> (r: Result<DetailedUtfTable, UsmError>)
    requires
        addressable(old(reader).data().len()),
    ensures
        final(reader).data() == old(reader).data(),
        match (r, table_of(old(reader).data(), old(reader).pos(), named)) {
            (Ok(v), Ok(w)) => v@ == w,
            (Err(e), Err(f)) => e@ == f,
            _ => false,
        },
        final(reader).pos() == table_end(old(reader).data(), old(reader).pos()),
{
    reveal(table_of);
    if named {
        get_detailed_utf_table(reader)
    } else {
        match get_utf_table(reader) {
            Ok(rows) => {
                let r = DetailedUtfTable { name: String::new(), rows };
                assert(r@.name =~= Seq::empty());
                Ok(r)
            },
            Err(e) => Err(e),
        }
    }
}

/// What is wrong with the signature at an offset, if anything.
pub open spec fn signature_fault(d: Seq<u8>, at: nat, expected: Seq<char>) -> Option<UsmFault> {
    if remaining(d.len(), at) < 4 {
        Some(ended())
    } else if slice_at(d, at, 4) != encode_utf8(expected) {
        Some(UsmFault::ExpectedSignature(expected))
    } else {
        None
    }
}

/// Seek to offset and check signature
pub fn seek_and_check_signature(reader: &mut Reader, offset: i64, expected: &str) -> (r: Result<
    (),
    UsmError,
>)
    ensures
        final(reader).data() == old(reader).data(),
        match signature_fault(old(reader).data(), wrap64(offset as int), expected@) {
            Some(f) => r is Err && r->Err_0@ == f,
            None => r is Ok && final(reader).pos() == wrap64(offset as int) + 4,
        },
        final(reader).pos() == if remaining(old(reader).data().len(), wrap64(offset as int)) < 4 {
            old(reader).data().len()
        } else {
            wrap64(offset as int) + 4
        },
{
    let _ = reader.seek(SeekFrom::Start(position_of(offset)));
    let sig = match reader.read_bytes(4) {
        Ok(v) => v,
        Err(e) => { return Err(UsmError::Io(e)); },
    };
    if !same_bytes(sig.as_slice(), expected.as_bytes()) {
        return Err(UsmError::ExpectedSignature(expected.to_owned()));
    }
    Ok(())
}

/// The four bytes at an offset as text.
pub fn read_signature_at(reader: &mut Reader, offset: i64) -> (r: Result<String, UsmError>)
    ensures
        final(reader).data() == old(reader).data(),
        ({
            let d = old(reader).data();
            let at = wrap64(offset as int);
            if remaining(d.len(), at) < 4 {
                r is Err && r->Err_0@ == ended() && final(reader).pos() == d.len()
            } else {
                &&& r is Ok
                &&& r->Ok_0@ == utf8_lossy(slice_at(d, at, 4))
                &&& forall|s: Seq<char>|
                    !s.contains('\u{FFFD}') ==> ((r->Ok_0@ == s) == (slice_at(d, at, 4)
                        == #[trigger] encode_utf8(s)))
                &&& final(reader).pos() == at + 4
            }
        }),
{
    let _ = reader.seek(SeekFrom::Start(position_of(offset)));
    let sig = match reader.read_bytes(4) {
        Ok(v) => v,
        Err(e) => { return Err(UsmError::Io(e)); },
    };
    let text = crate::reader::decode_utf8_lossy(sig.as_slice());
    proof {
        let b = sig@;
        assert forall|s: Seq<char>| !s.contains('\u{FFFD}') implies ((text@ == s) == (b
            == #[trigger] encode_utf8(s))) by {
            vstd::utf8::encode_utf8_valid_utf8(s);
            vstd::utf8::encode_utf8_decode_utf8(s);
            if valid_utf8(b) {
                vstd::utf8::decode_utf8_encode_utf8(b);
            }
        }
    }
    Ok(text)
}

/// A chunk with a table: where it starts, its size field and the table.
#[derive(Debug)]
pub struct UtfSection {
    pub offset: i64,
    pub block_size: u32,
    pub table: DetailedUtfTable,
}

/// What a chunk with a table holds.
pub struct UtfSectionModel {
    pub offset: int,
    pub block_size: u32,
    pub table: TableModel,
}

impl View for UtfSection {
    type V = UtfSectionModel;

    open spec fn view(&self) -> UtfSectionModel {
        UtfSectionModel {
            offset: self.offset as int,
            block_size: self.block_size,
            table: self.table@,
        }
    }
}

impl UtfSectionModel {
    /// Where the next chunk starts.
    pub open spec fn next(self) -> int {
        self.offset + 8 + self.block_size
    }
}

/// A chunk with a marker: where it starts and its size field.
#[derive(Debug, Clone, Copy)]
pub struct MarkerSection {
    pub offset: i64,
    pub block_size: u32,
}

impl MarkerSection {
    /// Where the next chunk starts.
    pub open spec fn next(self) -> int {
        self.offset + 8 + self.block_size
    }
}

/// An offset behind which the chunks of a header can be counted up.
pub open spec fn offset_room(offset: int) -> bool {
    0 <= offset <= 0x1000_0000_0000_0000
}

/// The chunk with a table at an offset.
pub open spec fn utf_section(
    d: Seq<u8>,
    offset: int,
    signature: Seq<char>,
    named: bool,
) -> Result<UtfSectionModel, UsmFault> {
    match signature_fault(d, offset as nat, signature) {
        Some(f) => Err(f),
        None => if remaining(d.len(), offset as nat) < 8 {
            Err(ended())
        } else {
            match table_of(d, (offset + 0x20) as nat, named) {
                Err(f) => Err(f),
                Ok(table) => Ok(
                    UtfSectionModel {
                        offset,
                        block_size: u32_be(slice_at(d, (offset + 4) as nat, 4)),
                        table,
                    },
                ),
            }
        },
    }
}

/// The chunk with a marker at an offset.
pub open spec fn marker_section(
    d: Seq<u8>,
    offset: int,
    signature: Seq<char>,
    marker: Seq<char>,
) -> Result<MarkerSection, UsmFault> {
    match signature_fault(d, offset as nat, signature) {
        Some(f) => Err(f),
        None => {
            let m = encode_utf8(marker);
            let at = (offset + 0x20) as nat;
            if remaining(d.len(), offset as nat) < 8 || remaining(d.len(), at) < m.len() {
                Err(ended())
            } else if slice_at(d, at, m.len()) != m {
                Err(UsmFault::ExpectedMarker(marker))
            } else {
                Ok(
                    MarkerSection {
                        offset: offset as i64,
                        block_size: u32_be(slice_at(d, (offset + 4) as nat, 4)),
                    },
                )
            }
        },
    }
}

/// The chunks up to the end of the stream headers.
#[derive(Debug)]
pub struct HeaderChunks {
    pub video: UtfSection,
    pub audio: Option<UtfSection>,
    pub video_end: MarkerSection,
    pub audio_end: Option<MarkerSection>,
}

/// What the chunks up to the end of the stream headers hold.
pub struct HeaderModel {
    pub video: UtfSectionModel,
    pub audio: Option<UtfSectionModel>,
    pub video_end: MarkerSection,
    pub audio_end: Option<MarkerSection>,
}

impl View for HeaderChunks {
    type V = HeaderModel;

    open spec fn view(&self) -> HeaderModel {
        HeaderModel {
            video: self.video@,
            audio: match self.audio {
                Some(a) => Some(a@),
                None => None,
            },
            video_end: self.video_end,
            audio_end: self.audio_end,
        }
    }
}

impl HeaderModel {
    /// Where the next chunk starts.
    pub open spec fn next(self) -> int {
        match self.audio_end {
            Some(m) => m.next(),
            None => self.video_end.next(),
        }
    }
}

/// The end markers of the stream headers at an offset, behind the headers.
pub open spec fn header_ends(
    d: Seq<u8>,
    offset: int,
    video: UtfSectionModel,
    audio: Option<UtfSectionModel>,
) -> Result<HeaderModel, UsmFault> {
    match marker_section(d, offset, "@SFV"@, "#HEADER END"@) {
        Err(f) => Err(f),
        Ok(video_end) => if audio is Some {
            match marker_section(d, video_end.next(), "@SFA"@, "#HEADER END"@) {
                Err(f) => Err(f),
                Ok(m) => Ok(HeaderModel { video, audio, video_end, audio_end: Some(m) }),
            }
        } else {
            Ok(HeaderModel { video, audio, video_end, audio_end: None })
        },
    }
}

/// The chunks of the stream headers from an offset on: the video's, the
/// audio's where there is one, and their end markers.
pub open spec fn header_chunks(d: Seq<u8>, offset: int, named: bool) -> Result<
    HeaderModel,
    UsmFault,
> {
    match utf_section(d, offset, "@SFV"@, named) {
        Err(f) => Err(f),
        Ok(video) => if remaining(d.len(), video.next() as nat) < 4 {
            Err(ended())
        } else if slice_at(d, video.next() as nat, 4) == encode_utf8("@SFA"@) {
            match utf_section(d, video.next(), "@SFA"@, named) {
                Err(f) => Err(f),
                Ok(audio) => header_ends(d, audio.next(), video, Some(audio)),
            }
        } else {
            header_ends(d, video.next(), video, None)
        },
    }
}

/// The chunks of the video's metadata, and where the streams start.
#[derive(Debug)]
pub struct MetadataChunks {
    pub table: UtfSection,
    pub end: MarkerSection,
    pub stream_offset: u64,
}

/// What the chunks of the video's metadata hold.
pub struct MetadataChunksModel {
    pub table: UtfSectionModel,
    pub end: MarkerSection,
    pub stream_offset: int,
}

impl View for MetadataChunks {
    type V = MetadataChunksModel;

    open spec fn view(&self) -> MetadataChunksModel {
        MetadataChunksModel {
            table: self.table@,
            end: self.end,
            stream_offset: self.stream_offset as int,
        }
    }
}

/// The chunks of the video's metadata from an offset on. The streams start 16
/// bytes behind the end marker, counted from the next multiple of four.
pub open spec fn metadata_chunks(d: Seq<u8>, offset: int, named: bool) -> Result<
    MetadataChunksModel,
    UsmFault,
> {
    match utf_section(d, offset, "@SFV"@, named) {
        Err(f) => Err(f),
        Ok(table) => match marker_section(d, table.next(), "@SFV"@, "#METADATA END"@) {
            Err(f) => Err(f),
            Ok(end) => Ok(
                MetadataChunksModel {
                    table,
                    end,
                    stream_offset: aligned(4, table.next() + 0x20 + 13) + 16,
                },
            ),
        },
    }
}

/// Everything in front of the streams.
#[derive(Debug)]
pub struct UsmParts {
    pub block_size: u32,
    pub directory: DetailedUtfTable,
    pub header: HeaderChunks,
    pub metadata: MetadataChunks,
}

/// What stands in front of the streams.
pub struct UsmPartsModel {
    pub block_size: u32,
    pub directory: TableModel,
    pub header: HeaderModel,
    pub metadata: MetadataChunksModel,
}

impl View for UsmParts {
    type V = UsmPartsModel;

    open spec fn view(&self) -> UsmPartsModel {
        UsmPartsModel {
            block_size: self.block_size,
            directory: self.directory@,
            header: self.header@,
            metadata: self.metadata@,
        }
    }
}

/// What stands in front of the streams of a container whose signature is at
/// `pos`; its chunks are counted from the start of the data.
pub open spec fn usm_parts(d: Seq<u8>, pos: nat, named: bool) -> Result<UsmPartsModel, UsmFault> {
    if remaining(d.len(), pos) < 4 {
        Err(ended())
    } else if slice_at(d, pos, 4) != encode_utf8("CRID"@) {
        Err(UsmFault::InvalidCridSignature)
    } else if remaining(d.len(), pos) < 8 {
        Err(ended())
    } else {
        let block_size = u32_be(slice_at(d, pos + 4, 4));
        match table_of(d, 0x20, named) {
            Err(f) => Err(f),
            Ok(directory) => match header_chunks(d, 8 + block_size, named) {
                Err(f) => Err(f),
                Ok(header) => match metadata_chunks(d, header.next(), named) {
                    Err(f) => Err(f),
                    Ok(metadata) => Ok(UsmPartsModel { block_size, directory, header, metadata }),
                },
            },
        }
    }
}

/// Where the reader stands after the signature at an offset was checked, and
/// the number behind it read where it is the expected one.
pub open spec fn opening_end(d: Seq<u8>, offset: int, signature: Seq<char>) -> nat {
    if remaining(d.len(), offset as nat) < 4 {
        d.len()
    } else if slice_at(d, offset as nat, 4) != encode_utf8(signature) {
        (offset + 4) as nat
    } else if remaining(d.len(), offset as nat) < 8 {
        d.len()
    } else {
        (offset + 8) as nat
    }
}

/// Whether the signature at an offset is the expected one, with a number
/// behind it.
pub open spec fn opens(d: Seq<u8>, offset: int, signature: Seq<char>) -> bool {
    remaining(d.len(), offset as nat) >= 8 && slice_at(d, offset as nat, 4) == encode_utf8(
        signature,
    )
}

/// Where the reader stands after the chunk with a table at an offset, whether
/// it could be read or not.
pub open spec fn utf_section_end(d: Seq<u8>, offset: int, signature: Seq<char>) -> nat {
    if opens(d, offset, signature) {
        table_end(d, (offset + 0x20) as nat)
    } else {
        opening_end(d, offset, signature)
    }
}

/// Where the reader stands after the chunk with a marker at an offset, whether
/// it could be read or not.
pub open spec fn marker_end(
    d: Seq<u8>,
    offset: int,
    signature: Seq<char>,
    marker: Seq<char>,
) -> nat {
    let at = (offset + 0x20) as nat;
    let n = encode_utf8(marker).len();
    if !opens(d, offset, signature) {
        opening_end(d, offset, signature)
    } else if remaining(d.len(), at) < n {
        d.len()
    } else {
        at + n
    }
}

/// Where the reader stands after the end markers of the stream headers.
pub open spec fn header_ends_end(d: Seq<u8>, offset: int, with_audio: bool) -> nat {
    match marker_section(d, offset, "@SFV"@, "#HEADER END"@) {
        Ok(m) if with_audio => marker_end(d, m.next(), "@SFA"@, "#HEADER END"@),
        _ => marker_end(d, offset, "@SFV"@, "#HEADER END"@),
    }
}

/// Where the reader stands after the chunks of the stream headers.
pub open spec fn header_chunks_end(d: Seq<u8>, offset: int, named: bool) -> nat {
    match utf_section(d, offset, "@SFV"@, named) {
        Err(_) => utf_section_end(d, offset, "@SFV"@),
        Ok(video) => if remaining(d.len(), video.next() as nat) < 4 {
            d.len()
        } else if slice_at(d, video.next() as nat, 4) == encode_utf8("@SFA"@) {
            match utf_section(d, video.next(), "@SFA"@, named) {
                Err(_) => utf_section_end(d, video.next(), "@SFA"@),
                Ok(audio) => header_ends_end(d, audio.next(), true),
            }
        } else {
            header_ends_end(d, video.next(), false)
        },
    }
}

/// Where the reader stands after the chunks of the video's metadata.
pub open spec fn metadata_chunks_end(d: Seq<u8>, offset: int, named: bool) -> nat {
    match utf_section(d, offset, "@SFV"@, named) {
        Err(_) => utf_section_end(d, offset, "@SFV"@),
        Ok(table) => match metadata_chunks(d, offset, named) {
            Err(_) => marker_end(d, table.next(), "@SFV"@, "#METADATA END"@),
            Ok(m) => m.stream_offset as nat,
        },
    }
}

/// Where the reader stands after everything in front of the streams, whether
/// it could be read or not.
pub open spec fn usm_parts_end(d: Seq<u8>, pos: nat, named: bool) -> nat {
    if remaining(d.len(), pos) < 4 {
        d.len()
    } else if slice_at(d, pos, 4) != encode_utf8("CRID"@) {
        pos + 4
    } else if remaining(d.len(), pos) < 8 {
        d.len()
    } else {
        let block_size = u32_be(slice_at(d, pos + 4, 4));
        match table_of(d, 0x20, named) {
            Err(_) => table_end(d, 0x20),
            Ok(_) => match header_chunks(d, 8 + block_size, named) {
                Err(_) => header_chunks_end(d, 8 + block_size, named),
                Ok(header) => metadata_chunks_end(d, header.next(), named),
            },
        }
    }
}

/// Reads the chunk with a table at an offset.
pub(crate) fn read_utf_section(
    reader: &mut Reader,
    offset: i64,
    expected_signature: &str,
    named: bool,
) -> (r: Result<UtfSection, UsmError>)
    requires
        addressable(old(reader).data().len()),
        offset_room(offset as int),
    ensures
        final(reader).data() == old(reader).data(),
        match (r, utf_section(old(reader).data(), offset as int, expected_signature@, named)) {
            (Ok(v), Ok(w)) => v@ == w,
            (Err(e), Err(f)) => e@ == f,
            _ => false,
        },
        final(reader).pos() == utf_section_end(
            old(reader).data(),
            offset as int,
            expected_signature@,
        ),
{
    match seek_and_check_signature(reader, offset, expected_signature) {
        Ok(_) => {},
        Err(e) => { return Err(e); },
    }
    let block_size: u32 = match reader.read_u32() {
        Ok(v) => v,
        Err(e) => { return Err(UsmError::Io(e)); },
    };
    let _ = reader.seek(SeekFrom::Start((offset + 0x20) as u64));
    match read_table(reader, named) {
        Ok(table) => Ok(UtfSection { offset, block_size, table }),
        Err(e) => Err(e),
    }
}

/// Reads the chunk with a marker at an offset; the reader then stands behind
/// the marker.
pub(crate) fn read_marker_section(
    reader: &mut Reader,
    offset: i64,
    expected_signature: &str,
    marker: &str,
) -> (r: Result<MarkerSection, UsmError>)
    requires
        offset_room(offset as int),
    ensures
        final(reader).data() == old(reader).data(),
        match (
            r,
            marker_section(old(reader).data(), offset as int, expected_signature@, marker@),
        ) {
            (Ok(v), Ok(w)) => v == w && final(reader).pos() == offset + 0x20 + encode_utf8(
                marker@,
            ).len(),
            (Err(e), Err(f)) => e@ == f,
            _ => false,
        },
        final(reader).pos() == marker_end(
            old(reader).data(),
            offset as int,
            expected_signature@,
            marker@,
        ),
{
    match seek_and_check_signature(reader, offset, expected_signature) {
        Ok(_) => {},
        Err(e) => { return Err(e); },
    }
    let block_size: u32 = match reader.read_u32() {
        Ok(v) => v,
        Err(e) => { return Err(UsmError::Io(e)); },
    };
    let _ = reader.seek(SeekFrom::Start((offset + 0x20) as u64));
    let bytes = marker.as_bytes();
    let value = match reader.read_bytes(bytes.len()) {
        Ok(v) => v,
        Err(e) => { return Err(UsmError::Io(e)); },
    };
    if !same_bytes(value.as_slice(), bytes) {
        return Err(UsmError::ExpectedMarker(marker.to_owned()));
    }
    Ok(MarkerSection { offset, block_size })
}

/// Reads the end markers of the stream headers.
fn read_header_ends(
    reader: &mut Reader,
    offset: i64,
    video: UtfSection,
    audio: Option<UtfSection>,
) -> (r: Result<HeaderChunks, UsmError>)
    requires
        addressable(old(reader).data().len()),
        0 <= offset <= 0x100_0000_0000_0000,
    ensures
        final(reader).data() == old(reader).data(),
        match (
            r,
            header_ends(
                old(reader).data(),
                offset as int,
                video@,
                match audio {
                    Some(a) => Some(a@),
                    None => None,
                },
            ),
        ) {
            (Ok(v), Ok(w)) => v@ == w,
            (Err(e), Err(f)) => e@ == f,
            _ => false,
        },
        final(reader).pos() == header_ends_end(
            old(reader).data(),
            offset as int,
            audio is Some,
        ),
{
    let video_end = match read_marker_section(reader, offset, "@SFV", "#HEADER END") {
        Ok(v) => v,
        Err(e) => { return Err(e); },
    };
    if audio.is_some() {
        let next: i64 = offset + 8 + video_end.block_size as i64;
        match read_marker_section(reader, next, "@SFA", "#HEADER END") {
            Ok(m) => Ok(HeaderChunks { video, audio, video_end, audio_end: Some(m) }),
            Err(e) => Err(e),
        }
    } else {
        Ok(HeaderChunks { video, audio, video_end, audio_end: None })
    }
}

/// Parse USM header chunks
pub(crate) fn parse_usm_header_chunks(reader: &mut Reader, offset: i64, named: bool) -> (r: Result<
    HeaderChunks,
    UsmError,
>)
    requires
        addressable(old(reader).data().len()),
        0 <= offset <= 0x10_0000_0000_0000,
    ensures
        final(reader).data() == old(reader).data(),
        match (r, header_chunks(old(reader).data(), offset as int, named)) {
            (Ok(v), Ok(w)) => v@ == w,
            (Err(e), Err(f)) => e@ == f,
            _ => false,
        },
        final(reader).pos() == header_chunks_end(old(reader).data(), offset as int, named),
{
    let video = match read_utf_section(reader, offset, "@SFV", named) {
        Ok(v) => v,
        Err(e) => { return Err(e); },
    };
    let next: i64 = offset + 8 + video.block_size as i64;
    let next_sig = match read_signature_at(reader, next) {
        Ok(v) => v,
        Err(e) => { return Err(e); },
    };
    proof {
        reveal_strlit("@SFA");
        assert(!"@SFA"@.contains('\u{FFFD}'));
        assert(encode_utf8("@SFA"@) == encode_utf8("@SFA"@));
    }
    if same_text(next_sig.as_str(), "@SFA") {
        let audio = match read_utf_section(reader, next, "@SFA", named) {
            Ok(v) => v,
            Err(e) => { return Err(e); },
        };
        let after: i64 = next + 8 + audio.block_size as i64;
        read_header_ends(reader, after, video, Some(audio))
    } else {
        read_header_ends(reader, next, video, None)
    }
}

/// Reads the metadata section and moves the reader to the streams.
pub(crate) fn skip_metadata_section(reader: &mut Reader, offset: i64, named: bool) -> (r: Result<
    MetadataChunks,
    UsmError,
>)
    requires
        addressable(old(reader).data().len()),
        0 <= offset <= 0x100_0000_0000_0000,
    ensures
        final(reader).data() == old(reader).data(),
        match (r, metadata_chunks(old(reader).data(), offset as int, named)) {
            (Ok(v), Ok(w)) => v@ == w && final(reader).pos() == w.stream_offset,
            (Err(e), Err(f)) => e@ == f,
            _ => false,
        },
        final(reader).pos() == metadata_chunks_end(old(reader).data(), offset as int, named),
{
    let table = match read_utf_section(reader, offset, "@SFV", named) {
        Ok(v) => v,
        Err(e) => { return Err(e); },
    };
    let next: i64 = offset + 8 + table.block_size as i64;
    let end = match read_marker_section(reader, next, "@SFV", "#METADATA END") {
        Ok(v) => v,
        Err(e) => { return Err(e); },
    };
    proof {
        reveal_strlit("#METADATA END");
        vstd::utf8::is_ascii_chars_encode_utf8("#METADATA END"@);
        assert(encode_utf8("#METADATA END"@).len() == 13);
        crate::reader::aligned_bounds(4, reader.pos() as int);
    }
    match align_stream(reader, 4) {
        Ok(_) => {},
        Err(e) => { return Err(UsmError::Io(e)); },
    }
    match reader.seek(SeekFrom::Current(16)) {
        Ok(stream_offset) => Ok(MetadataChunks { table, end, stream_offset }),
        Err(e) => Err(UsmError::Io(e)),
    }
}

/// Reads everything in front of the streams and moves the reader to them.
pub(crate) fn read_parts(reader: &mut Reader, named: bool) -> (r: Result<UsmParts, UsmError>)
    requires
        addressable(old(reader).data().len()),
    ensures
        final(reader).data() == old(reader).data(),
        match (r, usm_parts(old(reader).data(), old(reader).pos(), named)) {
            (Ok(v), Ok(w)) => v@ == w && final(reader).pos() == w.metadata.stream_offset,
            (Err(e), Err(f)) => e@ == f,
            _ => false,
        },
        final(reader).pos() == usm_parts_end(old(reader).data(), old(reader).pos(), named),
{
    let sig = match reader.read_bytes(4) {
        Ok(v) => v,
        Err(e) => { return Err(UsmError::Io(e)); },
    };
    if !same_bytes(sig.as_slice(), "CRID".as_bytes()) {
        return Err(UsmError::InvalidCridSignature);
    }
    let block_size: u32 = match reader.read_u32() {
        Ok(v) => v,
        Err(e) => { return Err(UsmError::Io(e)); },
    };
    let _ = reader.seek(SeekFrom::Start(0x20));
    let directory = match read_table(reader, named) {
        Ok(v) => v,
        Err(e) => { return Err(e); },
    };
    let header = match parse_usm_header_chunks(reader, 8 + block_size as i64, named) {
        Ok(v) => v,
        Err(e) => { return Err(e); },
    };
    let next: i64 = match &header.audio_end {
        Some(m) => m.offset + 8 + m.block_size as i64,
        None => header.video_end.offset + 8 + header.video_end.block_size as i64,
    };
    match skip_metadata_section(reader, next, named) {
        Ok(metadata) => Ok(UsmParts { block_size, directory, header, metadata }),
        Err(e) => Err(e),
    }
}

/// A chunk with its table's name left out.
pub open spec fn nameless(s: UtfSectionModel) -> UtfSectionModel {
    UtfSectionModel { table: TableModel { name: Seq::empty(), ..s.table }, ..s }
}

/// The parts with the tables' names left out.
pub open spec fn without_names(p: UsmPartsModel) -> UsmPartsModel {
    UsmPartsModel {
        directory: TableModel { name: Seq::empty(), ..p.directory },
        header: HeaderModel {
            video: nameless(p.header.video),
            audio: match p.header.audio {
                Some(a) => Some(nameless(a)),
                None => None,
            },
            ..p.header
        },
        metadata: MetadataChunksModel { table: nameless(p.metadata.table), ..p.metadata },
        ..p
    }
}

/// A container whose parts can be read with the tables' names gives the same
/// parts without them: the metadata describes the streams that are extracted.
pub proof fn names_change_nothing(d: Seq<u8>, pos: nat)
    ensures
        usm_parts(d, pos, true) is Ok ==> usm_parts(d, pos, false) == Ok::<
            UsmPartsModel,
            UsmFault,
        >(without_names(usm_parts(d, pos, true)->Ok_0)),
        usm_parts(d, pos, false) is Err ==> usm_parts(d, pos, true) is Err,
{
    assert forall|at: nat| #![trigger table_of(d, at, true)] #![trigger table_of(d, at, false)]
        {
            &&& table_of(d, at, true) is Ok ==> table_of(d, at, false) == Ok::<
                TableModel,
                UsmFault,
            >(TableModel { name: Seq::empty(), ..table_of(d, at, true)->Ok_0 })
            &&& table_of(d, at, false) is Err ==> table_of(d, at, true) is Err
        } by {
        reveal(table_of);
        name_keeps_rows(d, at);
    }
}

/// Whether no value of the tables in front of the streams is longer than `n`.
pub open spec fn parts_within(p: UsmPartsModel, n: nat) -> bool {
    &&& rows_within(p.directory.rows, n)
    &&& rows_within(p.header.video.table.rows, n)
    &&& p.header.audio is Some ==> rows_within(p.header.audio->Some_0.table.rows, n)
    &&& rows_within(p.metadata.table.table.rows, n)
}

/// No value in front of the streams is longer than the container.
pub proof fn parts_lie_within(d: Seq<u8>, pos: nat, named: bool)
    ensures
        usm_parts(d, pos, named) is Ok ==> parts_within(usm_parts(d, pos, named)->Ok_0, d.len()),
{
    assert forall|at: nat| #[trigger] table_of(d, at, named) is Ok implies rows_within(
        table_of(d, at, named)->Ok_0.rows,
        d.len(),
    ) by {
        reveal(table_of);
        name_keeps_rows(d, at);
        table_lies_within(d, at);
    }
}

} // verus!
