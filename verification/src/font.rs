//! Fixed-width bitmap font.
//!
//! Each glyph lives in an 8 x 8 cell packed into one `u64`: the bit at index
//! `row * 8 + col` (row 0 at the top, column 0 at the left) is 1 where the
//! glyph has ink. The designs are 5 columns wide and 7 rows tall; the spare
//! columns and row keep neighbouring cells apart. Bytes with no glyph in the
//! repertoire (including space) rasterize as blank cells.

use vstd::prelude::*;

verus! {

/// The packed 8 x 8 bitmap of the glyph for byte `c`.
pub open spec fn glyph_spec(c: u8) -> u64 {
    match c {
        33u8 => 0x0004000404040404,
        44u8 => 0x0002040600000000,
        45u8 => 0x000000001f000000,
        46u8 => 0x0006060000000000,
        47u8 => 0x0001020404040810,
        48u8 => 0x000e11131519110e,
        49u8 => 0x000e040404040604,
        50u8 => 0x001f02040810110e,
        51u8 => 0x000e11100804081f,
        52u8 => 0x0008081f090a0c08,
        53u8 => 0x000e1110100f011f,
        54u8 => 0x000e11110f01020c,
        55u8 => 0x000202020408101f,
        56u8 => 0x000e11110e11110e,
        57u8 => 0x000608101e11110e,
        58u8 => 0x0000060600060600,
        65u8 => 0x001111111f11110e,
        66u8 => 0x000f11110f11110f,
        67u8 => 0x000e11010101110e,
        68u8 => 0x000f11111111110f,
        69u8 => 0x001f01010f01011f,
        70u8 => 0x000101010f01011f,
        71u8 => 0x001e11111d01110e,
        72u8 => 0x001111111f111111,
        73u8 => 0x000e04040404040e,
        74u8 => 0x000609080808081c,
        75u8 => 0x0011090503050911,
        76u8 => 0x001f010101010101,
        77u8 => 0x0011111115151b11,
        78u8 => 0x0011111119151311,
        79u8 => 0x000e11111111110e,
        80u8 => 0x000101010f11110f,
        81u8 => 0x001609151111110e,
        82u8 => 0x001109050f11110f,
        83u8 => 0x000f10100e01011e,
        84u8 => 0x000404040404041f,
        85u8 => 0x000e111111111111,
        86u8 => 0x00040a1111111111,
        87u8 => 0x00111b1515111111,
        88u8 => 0x0011110a040a1111,
        89u8 => 0x00040404040a1111,
        90u8 => 0x001f01020408101f,
        97u8 => 0x001e111e100e0000,
        98u8 => 0x000f1111110f0101,
        99u8 => 0x000e1101110e0000,
        100u8 => 0x001e1111111e1010,
        101u8 => 0x000e011f110e0000,
        102u8 => 0x000202020702120c,
        103u8 => 0x000e101e11111e00,
        104u8 => 0x00111111110f0101,
        105u8 => 0x000e040404060004,
        106u8 => 0x00060908080c0008,
        107u8 => 0x0009050305090101,
        108u8 => 0x000e040404040406,
        109u8 => 0x00151515150b0000,
        110u8 => 0x00111111110f0000,
        111u8 => 0x000e1111110e0000,
        112u8 => 0x0001010f110f0000,
        113u8 => 0x0010101e111e0000,
        114u8 => 0x00010101130d0000,
        115u8 => 0x000f100e011e0000,
        116u8 => 0x000c120202070202,
        117u8 => 0x0016191111110000,
        118u8 => 0x00040a1111110000,
        119u8 => 0x000a151515110000,
        120u8 => 0x00110a040a110000,
        121u8 => 0x000e101e11110000,
        122u8 => 0x001f0204081f0000,
        _ => 0x0000000000000000,
    }
}

/// True iff the glyph for `c` has ink at `(col, row)` of its cell.
pub open spec fn glyph_bit(c: u8, col: int, row: int) -> bool {
    &&& 0 <= col < 8
    &&& 0 <= row < 8
    &&& (glyph_spec(c) >> ((row * 8 + col) as u64)) & 1u64 == 1u64
}

/// Looks up the packed glyph bitmap for byte `c`.
pub fn glyph(c: u8) -> (g: u64)
    ensures
        g == glyph_spec(c),
{
    match c {
        33u8 => 0x0004000404040404,
        44u8 => 0x0002040600000000,
        45u8 => 0x000000001f000000,
        46u8 => 0x0006060000000000,
        47u8 => 0x0001020404040810,
        48u8 => 0x000e11131519110e,
        49u8 => 0x000e040404040604,
        50u8 => 0x001f02040810110e,
        51u8 => 0x000e11100804081f,
        52u8 => 0x0008081f090a0c08,
        53u8 => 0x000e1110100f011f,
        54u8 => 0x000e11110f01020c,
        55u8 => 0x000202020408101f,
        56u8 => 0x000e11110e11110e,
        57u8 => 0x000608101e11110e,
        58u8 => 0x0000060600060600,
        65u8 => 0x001111111f11110e,
        66u8 => 0x000f11110f11110f,
        67u8 => 0x000e11010101110e,
        68u8 => 0x000f11111111110f,
        69u8 => 0x001f01010f01011f,
        70u8 => 0x000101010f01011f,
        71u8 => 0x001e11111d01110e,
        72u8 => 0x001111111f111111,
        73u8 => 0x000e04040404040e,
        74u8 => 0x000609080808081c,
        75u8 => 0x0011090503050911,
        76u8 => 0x001f010101010101,
        77u8 => 0x0011111115151b11,
        78u8 => 0x0011111119151311,
        79u8 => 0x000e11111111110e,
        80u8 => 0x000101010f11110f,
        81u8 => 0x001609151111110e,
        82u8 => 0x001109050f11110f,
        83u8 => 0x000f10100e01011e,
        84u8 => 0x000404040404041f,
        85u8 => 0x000e111111111111,
        86u8 => 0x00040a1111111111,
        87u8 => 0x00111b1515111111,
        88u8 => 0x0011110a040a1111,
        89u8 => 0x00040404040a1111,
        90u8 => 0x001f01020408101f,
        97u8 => 0x001e111e100e0000,
        98u8 => 0x000f1111110f0101,
        99u8 => 0x000e1101110e0000,
        100u8 => 0x001e1111111e1010,
        101u8 => 0x000e011f110e0000,
        102u8 => 0x000202020702120c,
        103u8 => 0x000e101e11111e00,
        104u8 => 0x00111111110f0101,
        105u8 => 0x000e040404060004,
        106u8 => 0x00060908080c0008,
        107u8 => 0x0009050305090101,
        108u8 => 0x000e040404040406,
        109u8 => 0x00151515150b0000,
        110u8 => 0x00111111110f0000,
        111u8 => 0x000e1111110e0000,
        112u8 => 0x0001010f110f0000,
        113u8 => 0x0010101e111e0000,
        114u8 => 0x00010101130d0000,
        115u8 => 0x000f100e011e0000,
        116u8 => 0x000c120202070202,
        117u8 => 0x0016191111110000,
        118u8 => 0x00040a1111110000,
        119u8 => 0x000a151515110000,
        120u8 => 0x00110a040a110000,
        121u8 => 0x000e101e11110000,
        122u8 => 0x001f0204081f0000,
        _ => 0x0000000000000000,
    }
}

} // verus!
