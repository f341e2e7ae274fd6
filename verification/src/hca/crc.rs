//! The CRC-16 of HCA headers and frames.

use vstd::prelude::*;
use crate::bytes::be16;

verus! {

/// One bit of the division by the polynomial 0x8005, most significant bit
/// first.
pub open spec fn shifted(x: u16) -> u16 {
    if x & 0x8000u16 != 0 { (x << 1u16) ^ 0x8005u16 } else { x << 1u16 }
}

/// Eight bits of the division.
pub open spec fn shifted8(x: u16) -> u16 {
    shifted(shifted(shifted(shifted(shifted(shifted(shifted(shifted(x))))))))
}

/// The checksum after one more byte.
pub open spec fn crc_step(sum: u16, byte: u8) -> u16 {
    shifted8(sum ^ ((byte as u16) << 8u16))
}

/// The checksum of some bytes: the remainder of the division, with the first
/// byte most significant.
pub open spec fn crc16(d: Seq<u8>) -> u16
    decreases d.len(),
{
    if d.len() == 0 {
        0
    } else {
        crc_step(crc16(d.drop_last()), d.last())
    }
}

/// CRC16 table for HCA: the checksum of each byte.
pub const CRC16_TABLE: [u16; 256] = [
    0x0000, 0x8005, 0x800F, 0x000A, 0x801B, 0x001E, 0x0014, 0x8011, 0x8033, 0x0036, 0x003C, 0x8039,
    0x0028, 0x802D, 0x8027, 0x0022, 0x8063, 0x0066, 0x006C, 0x8069, 0x0078, 0x807D, 0x8077, 0x0072,
    0x0050, 0x8055, 0x805F, 0x005A, 0x804B, 0x004E, 0x0044, 0x8041, 0x80C3, 0x00C6, 0x00CC, 0x80C9,
    0x00D8, 0x80DD, 0x80D7, 0x00D2, 0x00F0, 0x80F5, 0x80FF, 0x00FA, 0x80EB, 0x00EE, 0x00E4, 0x80E1,
    0x00A0, 0x80A5, 0x80AF, 0x00AA, 0x80BB, 0x00BE, 0x00B4, 0x80B1, 0x8093, 0x0096, 0x009C, 0x8099,
    0x0088, 0x808D, 0x8087, 0x0082, 0x8183, 0x0186, 0x018C, 0x8189, 0x0198, 0x819D, 0x8197, 0x0192,
    0x01B0, 0x81B5, 0x81BF, 0x01BA, 0x81AB, 0x01AE, 0x01A4, 0x81A1, 0x01E0, 0x81E5, 0x81EF, 0x01EA,
    0x81FB, 0x01FE, 0x01F4, 0x81F1, 0x81D3, 0x01D6, 0x01DC, 0x81D9, 0x01C8, 0x81CD, 0x81C7, 0x01C2,
    0x0140, 0x8145, 0x814F, 0x014A, 0x815B, 0x015E, 0x0154, 0x8151, 0x8173, 0x0176, 0x017C, 0x8179,
    0x0168, 0x816D, 0x8167, 0x0162, 0x8123, 0x0126, 0x012C, 0x8129, 0x0138, 0x813D, 0x8137, 0x0132,
    0x0110, 0x8115, 0x811F, 0x011A, 0x810B, 0x010E, 0x0104, 0x8101, 0x8303, 0x0306, 0x030C, 0x8309,
    0x0318, 0x831D, 0x8317, 0x0312, 0x0330, 0x8335, 0x833F, 0x033A, 0x832B, 0x032E, 0x0324, 0x8321,
    0x0360, 0x8365, 0x836F, 0x036A, 0x837B, 0x037E, 0x0374, 0x8371, 0x8353, 0x0356, 0x035C, 0x8359,
    0x0348, 0x834D, 0x8347, 0x0342, 0x03C0, 0x83C5, 0x83CF, 0x03CA, 0x83DB, 0x03DE, 0x03D4, 0x83D1,
    0x83F3, 0x03F6, 0x03FC, 0x83F9, 0x03E8, 0x83ED, 0x83E7, 0x03E2, 0x83A3, 0x03A6, 0x03AC, 0x83A9,
    0x03B8, 0x83BD, 0x83B7, 0x03B2, 0x0390, 0x8395, 0x839F, 0x039A, 0x838B, 0x038E, 0x0384, 0x8381,
    0x0280, 0x8285, 0x828F, 0x028A, 0x829B, 0x029E, 0x0294, 0x8291, 0x82B3, 0x02B6, 0x02BC, 0x82B9,
    0x02A8, 0x82AD, 0x82A7, 0x02A2, 0x82E3, 0x02E6, 0x02EC, 0x82E9, 0x02F8, 0x82FD, 0x82F7, 0x02F2,
    0x02D0, 0x82D5, 0x82DF, 0x02DA, 0x82CB, 0x02CE, 0x02C4, 0x82C1, 0x8243, 0x0246, 0x024C, 0x8249,
    0x0258, 0x825D, 0x8257, 0x0252, 0x0270, 0x8275, 0x827F, 0x027A, 0x826B, 0x026E, 0x0264, 0x8261,
    0x0220, 0x8225, 0x822F, 0x022A, 0x823B, 0x023E, 0x0234, 0x8231, 0x8213, 0x0216, 0x021C, 0x8219,
    0x0208, 0x820D, 0x8207, 0x0202,
];

/// What eight bits of the division make of a high byte, as a sum over its
/// bits.
pub open spec fn contribution(i: u16) -> u16 {
    (if i & 0x01u16 != 0 { 0x8005u16 } else { 0u16 })
        ^ (if i & 0x02u16 != 0 { 0x800Fu16 } else { 0u16 })
        ^ (if i & 0x04u16 != 0 { 0x801Bu16 } else { 0u16 })
        ^ (if i & 0x08u16 != 0 { 0x8033u16 } else { 0u16 })
        ^ (if i & 0x10u16 != 0 { 0x8063u16 } else { 0u16 })
        ^ (if i & 0x20u16 != 0 { 0x80C3u16 } else { 0u16 })
        ^ (if i & 0x40u16 != 0 { 0x8183u16 } else { 0u16 })
        ^ (if i & 0x80u16 != 0 { 0x8303u16 } else { 0u16 })
}

/// Eight bits of the division move the low byte up and add the contribution of
/// the high byte.
proof fn division_bits(
    x: u16,
    x1: u16,
    x2: u16,
    x3: u16,
    x4: u16,
    x5: u16,
    x6: u16,
    x7: u16,
    x8: u16,
    h: u16,
)
    by (bit_vector)
    requires
        x1 == (if x & 0x8000u16 != 0 { (x << 1u16) ^ 0x8005u16 } else { x << 1u16 }),
        x2 == (if x1 & 0x8000u16 != 0 { (x1 << 1u16) ^ 0x8005u16 } else { x1 << 1u16 }),
        x3 == (if x2 & 0x8000u16 != 0 { (x2 << 1u16) ^ 0x8005u16 } else { x2 << 1u16 }),
        x4 == (if x3 & 0x8000u16 != 0 { (x3 << 1u16) ^ 0x8005u16 } else { x3 << 1u16 }),
        x5 == (if x4 & 0x8000u16 != 0 { (x4 << 1u16) ^ 0x8005u16 } else { x4 << 1u16 }),
        x6 == (if x5 & 0x8000u16 != 0 { (x5 << 1u16) ^ 0x8005u16 } else { x5 << 1u16 }),
        x7 == (if x6 & 0x8000u16 != 0 { (x6 << 1u16) ^ 0x8005u16 } else { x6 << 1u16 }),
        x8 == (if x7 & 0x8000u16 != 0 { (x7 << 1u16) ^ 0x8005u16 } else { x7 << 1u16 }),
        h == x >> 8u16,
    ensures
        x8 == (x << 8u16) ^ ((if h & 0x01u16 != 0 { 0x8005u16 } else { 0u16 })
            ^ (if h & 0x02u16 != 0 { 0x800Fu16 } else { 0u16 })
            ^ (if h & 0x04u16 != 0 { 0x801Bu16 } else { 0u16 })
            ^ (if h & 0x08u16 != 0 { 0x8033u16 } else { 0u16 })
            ^ (if h & 0x10u16 != 0 { 0x8063u16 } else { 0u16 })
            ^ (if h & 0x20u16 != 0 { 0x80C3u16 } else { 0u16 })
            ^ (if h & 0x40u16 != 0 { 0x8183u16 } else { 0u16 })
            ^ (if h & 0x80u16 != 0 { 0x8303u16 } else { 0u16 })),
{
}

proof fn division_splits(x: u16)
    ensures
        shifted8(x) == (x << 8u16) ^ contribution(x >> 8u16),
{
    let x1 = shifted(x);
    let x2 = shifted(x1);
    let x3 = shifted(x2);
    let x4 = shifted(x3);
    let x5 = shifted(x4);
    let x6 = shifted(x5);
    let x7 = shifted(x6);
    division_bits(x, x1, x2, x3, x4, x5, x6, x7, shifted(x7), x >> 8u16);
}

/// One bit of the division is linear.
proof fn shift_linear(a: u16, b: u16)
    ensures
        shifted(a ^ b) == shifted(a) ^ shifted(b),
{
    assert((if (a ^ b) & 0x8000u16 != 0 { ((a ^ b) << 1u16) ^ 0x8005u16 } else { (a ^ b) << 1u16 }) == (if a & 0x8000u16 != 0 { (a << 1u16) ^ 0x8005u16 } else { a << 1u16 })
        ^ (if b & 0x8000u16 != 0 { (b << 1u16) ^ 0x8005u16 } else { b << 1u16 })) by (bit_vector);
}

/// Eight bits of the division are linear.
pub(crate) proof fn division_linear(a: u16, b: u16)
    ensures
        shifted8(a ^ b) == shifted8(a) ^ shifted8(b),
{
    shift_linear(a, b);
    let (a1, b1) = (shifted(a), shifted(b));
    shift_linear(a1, b1);
    let (a2, b2) = (shifted(a1), shifted(b1));
    shift_linear(a2, b2);
    let (a3, b3) = (shifted(a2), shifted(b2));
    shift_linear(a3, b3);
    let (a4, b4) = (shifted(a3), shifted(b3));
    shift_linear(a4, b4);
    let (a5, b5) = (shifted(a4), shifted(b4));
    shift_linear(a5, b5);
    let (a6, b6) = (shifted(a5), shifted(b5));
    shift_linear(a6, b6);
    let (a7, b7) = (shifted(a6), shifted(b6));
    shift_linear(a7, b7);
}

/// The contribution of each byte, one by one.
#[verifier::rlimit(100)]
proof fn contribution_values(i: u16, c: u16)
    by (bit_vector)
    requires
        i < 256u16,
        c == (if i & 0x01u16 != 0 { 0x8005u16 } else { 0u16 })
            ^ (if i & 0x02u16 != 0 { 0x800Fu16 } else { 0u16 })
            ^ (if i & 0x04u16 != 0 { 0x801Bu16 } else { 0u16 })
            ^ (if i & 0x08u16 != 0 { 0x8033u16 } else { 0u16 })
            ^ (if i & 0x10u16 != 0 { 0x8063u16 } else { 0u16 })
            ^ (if i & 0x20u16 != 0 { 0x80C3u16 } else { 0u16 })
            ^ (if i & 0x40u16 != 0 { 0x8183u16 } else { 0u16 })
            ^ (if i & 0x80u16 != 0 { 0x8303u16 } else { 0u16 }),
    ensures
        i == 0u16 ==> c == 0x0000u16,
        i == 1u16 ==> c == 0x8005u16,
        i == 2u16 ==> c == 0x800Fu16,
        i == 3u16 ==> c == 0x000Au16,
        i == 4u16 ==> c == 0x801Bu16,
        i == 5u16 ==> c == 0x001Eu16,
        i == 6u16 ==> c == 0x0014u16,
        i == 7u16 ==> c == 0x8011u16,
        i == 8u16 ==> c == 0x8033u16,
        i == 9u16 ==> c == 0x0036u16,
        i == 10u16 ==> c == 0x003Cu16,
        i == 11u16 ==> c == 0x8039u16,
        i == 12u16 ==> c == 0x0028u16,
        i == 13u16 ==> c == 0x802Du16,
        i == 14u16 ==> c == 0x8027u16,
        i == 15u16 ==> c == 0x0022u16,
        i == 16u16 ==> c == 0x8063u16,
        i == 17u16 ==> c == 0x0066u16,
        i == 18u16 ==> c == 0x006Cu16,
        i == 19u16 ==> c == 0x8069u16,
        i == 20u16 ==> c == 0x0078u16,
        i == 21u16 ==> c == 0x807Du16,
        i == 22u16 ==> c == 0x8077u16,
        i == 23u16 ==> c == 0x0072u16,
        i == 24u16 ==> c == 0x0050u16,
        i == 25u16 ==> c == 0x8055u16,
        i == 26u16 ==> c == 0x805Fu16,
        i == 27u16 ==> c == 0x005Au16,
        i == 28u16 ==> c == 0x804Bu16,
        i == 29u16 ==> c == 0x004Eu16,
        i == 30u16 ==> c == 0x0044u16,
        i == 31u16 ==> c == 0x8041u16,
        i == 32u16 ==> c == 0x80C3u16,
        i == 33u16 ==> c == 0x00C6u16,
        i == 34u16 ==> c == 0x00CCu16,
        i == 35u16 ==> c == 0x80C9u16,
        i == 36u16 ==> c == 0x00D8u16,
        i == 37u16 ==> c == 0x80DDu16,
        i == 38u16 ==> c == 0x80D7u16,
        i == 39u16 ==> c == 0x00D2u16,
        i == 40u16 ==> c == 0x00F0u16,
        i == 41u16 ==> c == 0x80F5u16,
        i == 42u16 ==> c == 0x80FFu16,
        i == 43u16 ==> c == 0x00FAu16,
        i == 44u16 ==> c == 0x80EBu16,
        i == 45u16 ==> c == 0x00EEu16,
        i == 46u16 ==> c == 0x00E4u16,
        i == 47u16 ==> c == 0x80E1u16,
        i == 48u16 ==> c == 0x00A0u16,
        i == 49u16 ==> c == 0x80A5u16,
        i == 50u16 ==> c == 0x80AFu16,
        i == 51u16 ==> c == 0x00AAu16,
        i == 52u16 ==> c == 0x80BBu16,
        i == 53u16 ==> c == 0x00BEu16,
        i == 54u16 ==> c == 0x00B4u16,
        i == 55u16 ==> c == 0x80B1u16,
        i == 56u16 ==> c == 0x8093u16,
        i == 57u16 ==> c == 0x0096u16,
        i == 58u16 ==> c == 0x009Cu16,
        i == 59u16 ==> c == 0x8099u16,
        i == 60u16 ==> c == 0x0088u16,
        i == 61u16 ==> c == 0x808Du16,
        i == 62u16 ==> c == 0x8087u16,
        i == 63u16 ==> c == 0x0082u16,
        i == 64u16 ==> c == 0x8183u16,
        i == 65u16 ==> c == 0x0186u16,
        i == 66u16 ==> c == 0x018Cu16,
        i == 67u16 ==> c == 0x8189u16,
        i == 68u16 ==> c == 0x0198u16,
        i == 69u16 ==> c == 0x819Du16,
        i == 70u16 ==> c == 0x8197u16,
        i == 71u16 ==> c == 0x0192u16,
        i == 72u16 ==> c == 0x01B0u16,
        i == 73u16 ==> c == 0x81B5u16,
        i == 74u16 ==> c == 0x81BFu16,
        i == 75u16 ==> c == 0x01BAu16,
        i == 76u16 ==> c == 0x81ABu16,
        i == 77u16 ==> c == 0x01AEu16,
        i == 78u16 ==> c == 0x01A4u16,
        i == 79u16 ==> c == 0x81A1u16,
        i == 80u16 ==> c == 0x01E0u16,
        i == 81u16 ==> c == 0x81E5u16,
        i == 82u16 ==> c == 0x81EFu16,
        i == 83u16 ==> c == 0x01EAu16,
        i == 84u16 ==> c == 0x81FBu16,
        i == 85u16 ==> c == 0x01FEu16,
        i == 86u16 ==> c == 0x01F4u16,
        i == 87u16 ==> c == 0x81F1u16,
        i == 88u16 ==> c == 0x81D3u16,
        i == 89u16 ==> c == 0x01D6u16,
        i == 90u16 ==> c == 0x01DCu16,
        i == 91u16 ==> c == 0x81D9u16,
        i == 92u16 ==> c == 0x01C8u16,
        i == 93u16 ==> c == 0x81CDu16,
        i == 94u16 ==> c == 0x81C7u16,
        i == 95u16 ==> c == 0x01C2u16,
        i == 96u16 ==> c == 0x0140u16,
        i == 97u16 ==> c == 0x8145u16,
        i == 98u16 ==> c == 0x814Fu16,
        i == 99u16 ==> c == 0x014Au16,
        i == 100u16 ==> c == 0x815Bu16,
        i == 101u16 ==> c == 0x015Eu16,
        i == 102u16 ==> c == 0x0154u16,
        i == 103u16 ==> c == 0x8151u16,
        i == 104u16 ==> c == 0x8173u16,
        i == 105u16 ==> c == 0x0176u16,
        i == 106u16 ==> c == 0x017Cu16,
        i == 107u16 ==> c == 0x8179u16,
        i == 108u16 ==> c == 0x0168u16,
        i == 109u16 ==> c == 0x816Du16,
        i == 110u16 ==> c == 0x8167u16,
        i == 111u16 ==> c == 0x0162u16,
        i == 112u16 ==> c == 0x8123u16,
        i == 113u16 ==> c == 0x0126u16,
        i == 114u16 ==> c == 0x012Cu16,
        i == 115u16 ==> c == 0x8129u16,
        i == 116u16 ==> c == 0x0138u16,
        i == 117u16 ==> c == 0x813Du16,
        i == 118u16 ==> c == 0x8137u16,
        i == 119u16 ==> c == 0x0132u16,
        i == 120u16 ==> c == 0x0110u16,
        i == 121u16 ==> c == 0x8115u16,
        i == 122u16 ==> c == 0x811Fu16,
        i == 123u16 ==> c == 0x011Au16,
        i == 124u16 ==> c == 0x810Bu16,
        i == 125u16 ==> c == 0x010Eu16,
        i == 126u16 ==> c == 0x0104u16,
        i == 127u16 ==> c == 0x8101u16,
        i == 128u16 ==> c == 0x8303u16,
        i == 129u16 ==> c == 0x0306u16,
        i == 130u16 ==> c == 0x030Cu16,
        i == 131u16 ==> c == 0x8309u16,
        i == 132u16 ==> c == 0x0318u16,
        i == 133u16 ==> c == 0x831Du16,
        i == 134u16 ==> c == 0x8317u16,
        i == 135u16 ==> c == 0x0312u16,
        i == 136u16 ==> c == 0x0330u16,
        i == 137u16 ==> c == 0x8335u16,
        i == 138u16 ==> c == 0x833Fu16,
        i == 139u16 ==> c == 0x033Au16,
        i == 140u16 ==> c == 0x832Bu16,
        i == 141u16 ==> c == 0x032Eu16,
        i == 142u16 ==> c == 0x0324u16,
        i == 143u16 ==> c == 0x8321u16,
        i == 144u16 ==> c == 0x0360u16,
        i == 145u16 ==> c == 0x8365u16,
        i == 146u16 ==> c == 0x836Fu16,
        i == 147u16 ==> c == 0x036Au16,
        i == 148u16 ==> c == 0x837Bu16,
        i == 149u16 ==> c == 0x037Eu16,
        i == 150u16 ==> c == 0x0374u16,
        i == 151u16 ==> c == 0x8371u16,
        i == 152u16 ==> c == 0x8353u16,
        i == 153u16 ==> c == 0x0356u16,
        i == 154u16 ==> c == 0x035Cu16,
        i == 155u16 ==> c == 0x8359u16,
        i == 156u16 ==> c == 0x0348u16,
        i == 157u16 ==> c == 0x834Du16,
        i == 158u16 ==> c == 0x8347u16,
        i == 159u16 ==> c == 0x0342u16,
        i == 160u16 ==> c == 0x03C0u16,
        i == 161u16 ==> c == 0x83C5u16,
        i == 162u16 ==> c == 0x83CFu16,
        i == 163u16 ==> c == 0x03CAu16,
        i == 164u16 ==> c == 0x83DBu16,
        i == 165u16 ==> c == 0x03DEu16,
        i == 166u16 ==> c == 0x03D4u16,
        i == 167u16 ==> c == 0x83D1u16,
        i == 168u16 ==> c == 0x83F3u16,
        i == 169u16 ==> c == 0x03F6u16,
        i == 170u16 ==> c == 0x03FCu16,
        i == 171u16 ==> c == 0x83F9u16,
        i == 172u16 ==> c == 0x03E8u16,
        i == 173u16 ==> c == 0x83EDu16,
        i == 174u16 ==> c == 0x83E7u16,
        i == 175u16 ==> c == 0x03E2u16,
        i == 176u16 ==> c == 0x83A3u16,
        i == 177u16 ==> c == 0x03A6u16,
        i == 178u16 ==> c == 0x03ACu16,
        i == 179u16 ==> c == 0x83A9u16,
        i == 180u16 ==> c == 0x03B8u16,
        i == 181u16 ==> c == 0x83BDu16,
        i == 182u16 ==> c == 0x83B7u16,
        i == 183u16 ==> c == 0x03B2u16,
        i == 184u16 ==> c == 0x0390u16,
        i == 185u16 ==> c == 0x8395u16,
        i == 186u16 ==> c == 0x839Fu16,
        i == 187u16 ==> c == 0x039Au16,
        i == 188u16 ==> c == 0x838Bu16,
        i == 189u16 ==> c == 0x038Eu16,
        i == 190u16 ==> c == 0x0384u16,
        i == 191u16 ==> c == 0x8381u16,
        i == 192u16 ==> c == 0x0280u16,
        i == 193u16 ==> c == 0x8285u16,
        i == 194u16 ==> c == 0x828Fu16,
        i == 195u16 ==> c == 0x028Au16,
        i == 196u16 ==> c == 0x829Bu16,
        i == 197u16 ==> c == 0x029Eu16,
        i == 198u16 ==> c == 0x0294u16,
        i == 199u16 ==> c == 0x8291u16,
        i == 200u16 ==> c == 0x82B3u16,
        i == 201u16 ==> c == 0x02B6u16,
        i == 202u16 ==> c == 0x02BCu16,
        i == 203u16 ==> c == 0x82B9u16,
        i == 204u16 ==> c == 0x02A8u16,
        i == 205u16 ==> c == 0x82ADu16,
        i == 206u16 ==> c == 0x82A7u16,
        i == 207u16 ==> c == 0x02A2u16,
        i == 208u16 ==> c == 0x82E3u16,
        i == 209u16 ==> c == 0x02E6u16,
        i == 210u16 ==> c == 0x02ECu16,
        i == 211u16 ==> c == 0x82E9u16,
        i == 212u16 ==> c == 0x02F8u16,
        i == 213u16 ==> c == 0x82FDu16,
        i == 214u16 ==> c == 0x82F7u16,
        i == 215u16 ==> c == 0x02F2u16,
        i == 216u16 ==> c == 0x02D0u16,
        i == 217u16 ==> c == 0x82D5u16,
        i == 218u16 ==> c == 0x82DFu16,
        i == 219u16 ==> c == 0x02DAu16,
        i == 220u16 ==> c == 0x82CBu16,
        i == 221u16 ==> c == 0x02CEu16,
        i == 222u16 ==> c == 0x02C4u16,
        i == 223u16 ==> c == 0x82C1u16,
        i == 224u16 ==> c == 0x8243u16,
        i == 225u16 ==> c == 0x0246u16,
        i == 226u16 ==> c == 0x024Cu16,
        i == 227u16 ==> c == 0x8249u16,
        i == 228u16 ==> c == 0x0258u16,
        i == 229u16 ==> c == 0x825Du16,
        i == 230u16 ==> c == 0x8257u16,
        i == 231u16 ==> c == 0x0252u16,
        i == 232u16 ==> c == 0x0270u16,
        i == 233u16 ==> c == 0x8275u16,
        i == 234u16 ==> c == 0x827Fu16,
        i == 235u16 ==> c == 0x027Au16,
        i == 236u16 ==> c == 0x826Bu16,
        i == 237u16 ==> c == 0x026Eu16,
        i == 238u16 ==> c == 0x0264u16,
        i == 239u16 ==> c == 0x8261u16,
        i == 240u16 ==> c == 0x0220u16,
        i == 241u16 ==> c == 0x8225u16,
        i == 242u16 ==> c == 0x822Fu16,
        i == 243u16 ==> c == 0x022Au16,
        i == 244u16 ==> c == 0x823Bu16,
        i == 245u16 ==> c == 0x023Eu16,
        i == 246u16 ==> c == 0x0234u16,
        i == 247u16 ==> c == 0x8231u16,
        i == 248u16 ==> c == 0x8213u16,
        i == 249u16 ==> c == 0x0216u16,
        i == 250u16 ==> c == 0x021Cu16,
        i == 251u16 ==> c == 0x8219u16,
        i == 252u16 ==> c == 0x0208u16,
        i == 253u16 ==> c == 0x820Du16,
        i == 254u16 ==> c == 0x8207u16,
        i == 255u16 ==> c == 0x0202u16,
{
}

/// The table holds the contribution of each byte.
pub proof fn table_holds(i: u16)
    requires
        i < 256,
    ensures
        CRC16_TABLE[i as int] == contribution(i),
{
    contribution_values(i, contribution(i));
}

/// Calculate CRC16 checksum for HCA data, byte by byte.
pub fn crc16_checksum(data: &[u8]) -> (r: u16)
    ensures
        r == crc16(data@),
{
    let mut sum: u16 = 0;
    let mut i: usize = 0;
    assert(data@.subrange(0, 0) =~= Seq::empty());
    while i < data.len()
        invariant
            i <= data@.len(),
            sum == crc16(data@.subrange(0, i as int)),
        decreases data@.len() - i,
    {
        let byte: u8 = data[i];
        proof {
            let s = data@.subrange(0, i + 1);
            assert(s.drop_last() =~= data@.subrange(0, i as int));
            table_step(sum, byte);
        }
        sum = (sum << 8u16) ^ CRC16_TABLE[((sum >> 8u16) ^ byte as u16) as usize];
        i += 1;
    }
    assert(data@.subrange(0, data@.len() as int) =~= data@);
    sum
}

/// A step of the checksum through the table.
proof fn table_step(sum: u16, byte: u8)
    ensures
        (sum >> 8u16) ^ byte as u16 <= 255,
        crc_step(sum, byte) == (sum << 8u16) ^ CRC16_TABLE[((sum >> 8u16) ^ byte as u16) as int],
{
    let b = byte as u16;
    let x = sum ^ (b << 8u16);
    let h = (sum >> 8u16) ^ b;
    assert(b <= 255 ==> (sum >> 8u16) ^ b <= 255 && (sum ^ (b << 8u16)) >> 8u16 == (sum >> 8u16)
        ^ b && (sum ^ (b << 8u16)) << 8u16 == sum << 8u16) by (bit_vector);
    division_splits(x);
    table_holds(h);
}

/// The checksum of a byte followed by `k` zero bytes.
pub open spec fn slice(k: nat, i: u16) -> u16
    decreases k,
{
    if k == 0 { shifted8(i << 8u16) } else { shifted8(slice((k - 1) as nat, i)) }
}

/// Tables for eight bytes at a time: entry `i` of table `k` is the checksum of
/// byte `i` followed by `k` zero bytes.
#[derive(Debug, Clone)]
pub struct Crc16Slices {
    t: Vec<Vec<u16>>,
}

impl Crc16Slices {
    /// Whether the tables hold what they should.
    pub closed spec fn wf(&self) -> bool {
        &&& self.t@.len() == 8
        &&& forall|k: int| 0 <= k < 8 ==> table_wf(#[trigger] self.t@[k]@, k as nat)
    }

    /// Builds the tables from the byte table.
    pub fn build_crc16_slice() -> (r: Self)
        ensures
            r.wf(),
    {
        let mut t: Vec<Vec<u16>> = Vec::new();
        let mut first: Vec<u16> = Vec::new();
        let mut i: usize = 0;
        while i < 256
            invariant
                i <= 256,
                first@.len() == i,
                forall|j: int| 0 <= j < i ==> #[trigger] first@[j] == slice(0, j as u16),
            decreases 256 - i,
        {
            proof {
                byte_alone(i as u16);
                table_holds(i as u16);
            }
            first.push(CRC16_TABLE[i]);
            i += 1;
        }
        t.push(first);
        let mut k: usize = 1;
        while k < 8
            invariant
                1 <= k <= 8,
                t@.len() == k,
                forall|m: int| 0 <= m < k ==> table_wf(#[trigger] t@[m]@, m as nat),
            decreases 8 - k,
        {
            let mut next: Vec<u16> = Vec::new();
            let mut j: usize = 0;
            while j < 256
                invariant
                    1 <= k < 8,
                    t@.len() == k,
                    table_wf(t@[k - 1]@, (k - 1) as nat),
                    j <= 256,
                    next@.len() == j,
                    forall|m: int| 0 <= m < j ==> #[trigger] next@[m] == slice(k as nat, m as u16),
                decreases 256 - j,
            {
                let prev: u16 = t[k - 1][j];
                proof {
                    table_step(prev, 0);
                    assert(prev ^ ((0u8 as u16) << 8u16) == prev) by (bit_vector);
                    assert((prev >> 8u16) ^ (0u8 as u16) == prev >> 8u16) by (bit_vector);
                    assert(slice(k as nat, j as u16) == shifted8(slice((k - 1) as nat, j as u16)));
                }
                next.push((prev << 8u16) ^ CRC16_TABLE[(prev >> 8u16) as usize]);
                j += 1;
            }
            t.push(next);
            k += 1;
        }
        Crc16Slices { t }
    }

    /// MSB-first CRC16, slicing-by-8: consumes 8 bytes per step via parallel
    /// table lookups, with a byte-at-a-time tail.
    pub fn checksum(&self, data: &[u8]) -> (r: u16)
        requires
            self.wf(),
        ensures
            r == crc16(data@),
    {
        let mut sum: u16 = 0;
        let mut i: usize = 0;
        assert(data@.subrange(0, 0) =~= Seq::empty());
        while data.len() - i >= 8
            invariant
                self.wf(),
                i <= data@.len(),
                sum == crc16(data@.subrange(0, i as int)),
            decreases data@.len() - i,
        {
            let c0: u8 = data[i];
            let c1: u8 = data[i + 1];
            let hi: u8 = (sum >> 8u16) as u8;
            let lo: u8 = (sum % 0x100) as u8;
            let i0: u8 = hi ^ c0;
            let i1: u8 = lo ^ c1;
            proof {
                eight_bytes(data@, i as int, sum, i0, i1);
            }
            sum = self.t[7][i0 as usize] ^ self.t[6][i1 as usize] ^ self.t[5][data[i + 2] as usize]
                ^ self.t[4][data[i + 3] as usize] ^ self.t[3][data[i + 4] as usize]
                ^ self.t[2][data[i + 5] as usize] ^ self.t[1][data[i + 6] as usize]
                ^ self.t[0][data[i + 7] as usize];
            i += 8;
        }
        while i < data.len()
            invariant
                i <= data@.len(),
                sum == crc16(data@.subrange(0, i as int)),
            decreases data@.len() - i,
        {
            let byte: u8 = data[i];
            proof {
                let s = data@.subrange(0, i + 1);
                assert(s.drop_last() =~= data@.subrange(0, i as int));
                table_step(sum, byte);
            }
            sum = (sum << 8u16) ^ CRC16_TABLE[((sum >> 8u16) ^ byte as u16) as usize];
            i += 1;
        }
        assert(data@.subrange(0, data@.len() as int) =~= data@);
        sum
    }
}

/// Whether a table holds the checksums of bytes followed by `k` zero bytes.
pub open spec fn table_wf(t: Seq<u16>, k: nat) -> bool {
    t.len() == 256 && forall|j: int| 0 <= j < 256 ==> #[trigger] t[j] == slice(k, j as u16)
}

/// A byte alone contributes its table entry.
proof fn byte_alone(i: u16)
    requires
        i < 256,
    ensures
        shifted8(i << 8u16) == contribution(i),
{
    let x = i << 8u16;
    assert(i < 256 ==> (i << 8u16) >> 8u16 == i && (i << 8u16) << 8u16 == 0) by (bit_vector);
    division_splits(x);
    let c = contribution(i);
    assert(0u16 ^ c == c) by (bit_vector);
}

/// Eight steps of the checksum through the sliced tables.
proof fn eight_bytes(d: Seq<u8>, i: int, sum: u16, i0: u8, i1: u8)
    requires
        0 <= i,
        i + 8 <= d.len(),
        sum == crc16(d.subrange(0, i)),
        i0 == ((sum >> 8u16) as u8) ^ d[i],
        i1 == ((sum % 0x100) as u8) ^ d[i + 1],
    ensures
        crc16(d.subrange(0, i + 8)) == slice(7, i0 as u16) ^ slice(6, i1 as u16) ^ slice(
            5,
            d[i + 2] as u16,
        ) ^ slice(4, d[i + 3] as u16) ^ slice(3, d[i + 4] as u16) ^ slice(2, d[i + 5] as u16)
            ^ slice(1, d[i + 6] as u16) ^ slice(0, d[i + 7] as u16),
{
    reveal_with_fuel(slice, 9);
    let a = i0 as u16;
    let b = i1 as u16;
    let p2 = slice(1, a) ^ slice(0, b);
    two_bytes(sum, d[i], d[i + 1], i0, i1);
    crc_grows(d, i);
    crc_grows(d, i + 1);
    assert(crc16(d.subrange(0, i + 2)) == p2);
    let c2 = d[i + 2] as u16;
    let p3 = slice(2, a) ^ slice(1, b) ^ slice(0, c2);
    crc_grows(d, i + 2);
    division_linear(slice(1, a), slice(0, b));
    division_linear(p2, c2 << 8u16);
    let c3 = d[i + 3] as u16;
    let p4 = slice(3, a) ^ slice(2, b) ^ slice(1, c2) ^ slice(0, c3);
    crc_grows(d, i + 3);
    division_linear(slice(2, a), slice(1, b));
    division_linear(slice(2, a) ^ slice(1, b), slice(0, c2));
    division_linear(p3, c3 << 8u16);
    let c4 = d[i + 4] as u16;
    let p5 = slice(4, a) ^ slice(3, b) ^ slice(2, c2) ^ slice(1, c3) ^ slice(0, c4);
    crc_grows(d, i + 4);
    division_linear(slice(3, a), slice(2, b));
    division_linear(slice(3, a) ^ slice(2, b), slice(1, c2));
    division_linear(slice(3, a) ^ slice(2, b) ^ slice(1, c2), slice(0, c3));
    division_linear(p4, c4 << 8u16);
    let c5 = d[i + 5] as u16;
    let p6 = slice(5, a) ^ slice(4, b) ^ slice(3, c2) ^ slice(2, c3) ^ slice(1, c4) ^ slice(0, c5);
    crc_grows(d, i + 5);
    division_linear(slice(4, a), slice(3, b));
    division_linear(slice(4, a) ^ slice(3, b), slice(2, c2));
    division_linear(slice(4, a) ^ slice(3, b) ^ slice(2, c2), slice(1, c3));
    division_linear(slice(4, a) ^ slice(3, b) ^ slice(2, c2) ^ slice(1, c3), slice(0, c4));
    division_linear(p5, c5 << 8u16);
    let c6 = d[i + 6] as u16;
    let p7 = slice(6, a) ^ slice(5, b) ^ slice(4, c2) ^ slice(3, c3) ^ slice(2, c4) ^ slice(1, c5)
        ^ slice(0, c6);
    crc_grows(d, i + 6);
    division_linear(slice(5, a), slice(4, b));
    division_linear(slice(5, a) ^ slice(4, b), slice(3, c2));
    division_linear(slice(5, a) ^ slice(4, b) ^ slice(3, c2), slice(2, c3));
    division_linear(slice(5, a) ^ slice(4, b) ^ slice(3, c2) ^ slice(2, c3), slice(1, c4));
    division_linear(
        slice(5, a) ^ slice(4, b) ^ slice(3, c2) ^ slice(2, c3) ^ slice(1, c4),
        slice(0, c5),
    );
    division_linear(p6, c6 << 8u16);
    let c7 = d[i + 7] as u16;
    crc_grows(d, i + 7);
    division_linear(slice(6, a), slice(5, b));
    division_linear(slice(6, a) ^ slice(5, b), slice(4, c2));
    division_linear(slice(6, a) ^ slice(5, b) ^ slice(4, c2), slice(3, c3));
    division_linear(slice(6, a) ^ slice(5, b) ^ slice(4, c2) ^ slice(3, c3), slice(2, c4));
    division_linear(
        slice(6, a) ^ slice(5, b) ^ slice(4, c2) ^ slice(3, c3) ^ slice(2, c4),
        slice(1, c5),
    );
    division_linear(
        slice(6, a) ^ slice(5, b) ^ slice(4, c2) ^ slice(3, c3) ^ slice(2, c4) ^ slice(1, c5),
        slice(0, c6),
    );
    division_linear(p7, c7 << 8u16);
}

/// The checksum of one more byte.
proof fn crc_grows(d: Seq<u8>, i: int)
    requires
        0 <= i < d.len(),
    ensures
        crc16(d.subrange(0, i + 1)) == crc_step(crc16(d.subrange(0, i)), d[i]),
{
    let s = d.subrange(0, i + 1);
    assert(s.drop_last() =~= d.subrange(0, i));
}

/// The first two bytes meet what was summed so far.
proof fn two_bytes(sum: u16, c0: u8, c1: u8, i0: u8, i1: u8)
    requires
        i0 == ((sum >> 8u16) as u8) ^ c0,
        i1 == ((sum % 0x100) as u8) ^ c1,
    ensures
        crc_step(crc_step(sum, c0), c1) == slice(1, i0 as u16) ^ slice(0, i1 as u16),
{
    reveal_with_fuel(slice, 3);
    let lo = sum & 0xffu16;
    let a = i0 as u16;
    let b = i1 as u16;
    let w0 = c0 as u16;
    let w1 = c1 as u16;
    assert(sum % 0x100 == sum & 0xffu16) by (bit_vector);
    assert(a == (sum >> 8u16) ^ w0) by {
        assert(((((sum >> 8u16) as u8) ^ c0) as u16) == (sum >> 8u16) ^ (c0 as u16)) by (bit_vector);
    }
    assert(b == lo ^ w1) by {
        assert(((((sum & 0xffu16) as u8) ^ c1) as u16) == (sum & 0xffu16) ^ (c1 as u16))
            by (bit_vector);
    }
    assert(sum ^ (w0 << 8u16) == (((sum >> 8u16) ^ w0) << 8u16) ^ (sum & 0xffu16)) by (bit_vector);
    division_linear(a << 8u16, lo);
    division_splits(lo);
    assert((sum & 0xffu16) >> 8u16 == 0) by (bit_vector);
    assert(contribution(0) == 0) by {
        table_holds(0);
    }
    let z = lo << 8u16;
    assert(z ^ 0u16 == z) by (bit_vector);
    let s0 = slice(0, a);
    assert((s0 ^ (lo << 8u16)) ^ (w1 << 8u16) == s0 ^ ((lo ^ w1) << 8u16)) by (bit_vector);
    division_linear(s0, b << 8u16);
}

/// Bytes followed by their own checksum have the checksum zero.
pub proof fn checksum_cancels(d: Seq<u8>)
    ensures
        crc16(d + be16(crc16(d))) == 0,
{
    let s = crc16(d);
    let hi = (s / 0x100) as u8;
    let lo = (s % 0x100) as u8;
    let all = d + be16(s);
    assert(all.drop_last() =~= d.push(hi));
    assert(all.last() == lo);
    assert(d.push(hi).drop_last() =~= d);
    assert(d.push(hi).last() == hi);
    let l = s & 0xffu16;
    let h = hi as u16;
    let lw = lo as u16;
    assert(s / 0x100 == s >> 8u16 && s % 0x100 == s & 0xffu16) by (bit_vector);
    assert(s ^ ((s >> 8u16) << 8u16) == s & 0xffu16) by (bit_vector);
    division_splits(l);
    assert((s & 0xffu16) >> 8u16 == 0) by (bit_vector);
    assert(contribution(0) == 0) by {
        table_holds(0);
    }
    let z = l << 8u16;
    assert(z ^ 0u16 == z && z ^ z == 0) by (bit_vector);
    division_splits(0);
    assert(0u16 << 8u16 == 0 && 0u16 >> 8u16 == 0 && 0u16 ^ 0u16 == 0) by (bit_vector);
    assert(h == s >> 8u16 && lw == l);
    assert(crc_step(s, hi) == z);
    assert(z ^ (lw << 8u16) == 0);
    assert(crc_step(z, lo) == 0);
    assert(crc16(d.push(hi)) == z);
}

} // verus!
