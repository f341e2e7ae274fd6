//! Numbers of the `@UTF` and ACB formats.

use vstd::prelude::*;

verus! {

/// Bits of a column's info byte that hold its storage flags.
pub const COLUMN_FLAG_MASK: u8 = 0xF0;

/// The column has a name.
pub const COLUMN_FLAG_NAME: u8 = 0x10;

/// The column's value stands in the schema and holds for every row.
pub const COLUMN_FLAG_DEFAULT: u8 = 0x20;

/// The column's value stands in each row.
pub const COLUMN_FLAG_ROW: u8 = 0x40;

/// A flag no table may use.
pub const COLUMN_FLAG_UNDEFINED: u8 = 0x80;

/// Bits of a column's info byte that hold its type.
pub const COLUMN_TYPE_MASK: u8 = 0x0F;

pub const COLUMN_TYPE_1BYTE: u8 = 0x00;

pub const COLUMN_TYPE_1BYTE2: u8 = 0x01;

pub const COLUMN_TYPE_2BYTE: u8 = 0x02;

pub const COLUMN_TYPE_2BYTE2: u8 = 0x03;

pub const COLUMN_TYPE_4BYTE: u8 = 0x04;

pub const COLUMN_TYPE_4BYTE2: u8 = 0x05;

pub const COLUMN_TYPE_8BYTE: u8 = 0x06;

pub const COLUMN_TYPE_FLOAT: u8 = 0x08;

pub const COLUMN_TYPE_STRING: u8 = 0x0A;

pub const COLUMN_TYPE_DATA: u8 = 0x0B;

/// A waveform in ADX format.
pub const WAVEFORM_ENCODE_TYPE_ADX: i32 = 0;

/// A waveform in HCA format.
pub const WAVEFORM_ENCODE_TYPE_HCA: i32 = 2;

/// A waveform in the second HCA variant.
pub const WAVEFORM_ENCODE_TYPE_HCA_ALT: i32 = 6;

/// A waveform in VAG format.
pub const WAVEFORM_ENCODE_TYPE_VAG: i32 = 7;

/// A waveform in ATRAC3 format.
pub const WAVEFORM_ENCODE_TYPE_ATRAC3: i32 = 8;

/// A waveform in BCWAV format.
pub const WAVEFORM_ENCODE_TYPE_BCWAV: i32 = 9;

/// A waveform in ATRAC9 format.
pub const WAVEFORM_ENCODE_TYPE_ATRAC9: i32 = 11;

/// A waveform in Nintendo DSP format.
pub const WAVEFORM_ENCODE_TYPE_NINTENDO_DSP: i32 = 13;

/// The file extension of a waveform encoding, with its dot; empty for a format
/// without one.
pub open spec fn extension_of(enc_type: i32) -> Seq<char> {
    if enc_type == WAVEFORM_ENCODE_TYPE_ADX {
        ".adx"@
    } else if enc_type == WAVEFORM_ENCODE_TYPE_HCA || enc_type == WAVEFORM_ENCODE_TYPE_HCA_ALT {
        ".hca"@
    } else if enc_type == WAVEFORM_ENCODE_TYPE_VAG {
        ".vag"@
    } else if enc_type == WAVEFORM_ENCODE_TYPE_ATRAC3 {
        ".at3"@
    } else if enc_type == WAVEFORM_ENCODE_TYPE_BCWAV {
        ".bcwav"@
    } else if enc_type == WAVEFORM_ENCODE_TYPE_ATRAC9 {
        ".at9"@
    } else if enc_type == WAVEFORM_ENCODE_TYPE_NINTENDO_DSP {
        ".dsp"@
    } else {
        ""@
    }
}

/// The file extension of a waveform encoding, with its dot.
pub fn wave_type_extension(enc_type: i32) -> (r: &'static str)
    ensures
        r@ == extension_of(enc_type),
{
    match enc_type {
        WAVEFORM_ENCODE_TYPE_ADX => ".adx",
        WAVEFORM_ENCODE_TYPE_HCA | WAVEFORM_ENCODE_TYPE_HCA_ALT => ".hca",
        WAVEFORM_ENCODE_TYPE_VAG => ".vag",
        WAVEFORM_ENCODE_TYPE_ATRAC3 => ".at3",
        WAVEFORM_ENCODE_TYPE_BCWAV => ".bcwav",
        WAVEFORM_ENCODE_TYPE_ATRAC9 => ".at9",
        WAVEFORM_ENCODE_TYPE_NINTENDO_DSP => ".dsp",
        _ => "",
    }
}

} // verus!
