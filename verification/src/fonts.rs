//! Font tables: immutable mappings from a symbol (decimal digit or ASCII
//! byte) to the 16-bit segment mask that renders it, plus the designated
//! decimal-point bit. Bit `i` of a mask controls one physical LED segment of
//! a slot; the layout is fixed by the hardware, not derived at runtime.

use vstd::prelude::*;

verus! {

/// Bit position of the decimal-point segment in a slot's 16-bit mask.
pub const DOT_BIT: u8 = 14;

/// Mask with only the decimal-point segment lit (bit `DOT_BIT`).
pub const DOT_MASK: u16 = 0x4000;

/// Canonical segment mask for a decimal digit 0..=9 (0 for anything else).
pub open spec fn digit_font(value: u8) -> u16 {
    match value {
            0 => 0x0C3F,
            1 => 0x0006,
            2 => 0x00DB,
            3 => 0x008F,
            4 => 0x00E6,
            5 => 0x2069,
            6 => 0x00FD,
            7 => 0x0007,
            8 => 0x00FF,
            9 => 0x00EF,
            _ => 0x0000,
    }
}

/// Font lookup for a decimal digit.
pub fn digit_mask(value: u8) -> (r: u16)
    requires
        value < 10,
    ensures
        r == digit_font(value),
{
    match value {
            0 => 0x0C3F,
            1 => 0x0006,
            2 => 0x00DB,
            3 => 0x008F,
            4 => 0x00E6,
            5 => 0x2069,
            6 => 0x00FD,
            7 => 0x0007,
            8 => 0x00FF,
            9 => 0x00EF,
            _ => 0x0000,
    }
}

/// Canonical segment mask for an ASCII byte. Bytes without a glyph (control
/// characters and anything past the ASCII range) render blank; a lookup never
/// fails.
pub open spec fn ascii_font(value: u8) -> u16 {
    match value {
            32 => 0x0000,
            33 => 0x0006,
            34 => 0x0220,
            35 => 0x12CE,
            36 => 0x12ED,
            37 => 0x0C24,
            38 => 0x235D,
            39 => 0x0400,
            40 => 0x2400,
            41 => 0x0900,
            42 => 0x3FC0,
            43 => 0x12C0,
            44 => 0x0800,
            45 => 0x00C0,
            46 => 0x0000,
            47 => 0x0C00,
            48 => 0x0C3F,
            49 => 0x0006,
            50 => 0x00DB,
            51 => 0x008F,
            52 => 0x00E6,
            53 => 0x2069,
            54 => 0x00FD,
            55 => 0x0007,
            56 => 0x00FF,
            57 => 0x00EF,
            58 => 0x1200,
            59 => 0x0A00,
            60 => 0x2400,
            61 => 0x00C8,
            62 => 0x0900,
            63 => 0x1083,
            64 => 0x02BB,
            65 => 0x00F7,
            66 => 0x128F,
            67 => 0x0039,
            68 => 0x120F,
            69 => 0x00F9,
            70 => 0x0071,
            71 => 0x00BD,
            72 => 0x00F6,
            73 => 0x1209,
            74 => 0x001E,
            75 => 0x2470,
            76 => 0x0038,
            77 => 0x0536,
            78 => 0x2136,
            79 => 0x003F,
            80 => 0x00F3,
            81 => 0x203F,
            82 => 0x20F3,
            83 => 0x00ED,
            84 => 0x1201,
            85 => 0x003E,
            86 => 0x0C30,
            87 => 0x2836,
            88 => 0x2D00,
            89 => 0x1500,
            90 => 0x0C09,
            91 => 0x0039,
            92 => 0x2100,
            93 => 0x000F,
            94 => 0x0C03,
            95 => 0x0008,
            96 => 0x0100,
            97 => 0x1058,
            98 => 0x2078,
            99 => 0x00D8,
            100 => 0x088E,
            101 => 0x0858,
            102 => 0x0071,
            103 => 0x048E,
            104 => 0x1070,
            105 => 0x1000,
            106 => 0x000E,
            107 => 0x3600,
            108 => 0x0030,
            109 => 0x10D4,
            110 => 0x1050,
            111 => 0x00DC,
            112 => 0x0170,
            113 => 0x0486,
            114 => 0x0050,
            115 => 0x2088,
            116 => 0x0078,
            117 => 0x001C,
            118 => 0x2004,
            119 => 0x2814,
            120 => 0x28C0,
            121 => 0x200C,
            122 => 0x0848,
            123 => 0x0949,
            124 => 0x1200,
            125 => 0x2489,
            126 => 0x0520,
            _ => 0x0000,
    }
}

/// Font lookup for an ASCII byte.
pub fn ascii_mask(value: u8) -> (r: u16)
    ensures
        r == ascii_font(value),
{
    match value {
            32 => 0x0000,
            33 => 0x0006,
            34 => 0x0220,
            35 => 0x12CE,
            36 => 0x12ED,
            37 => 0x0C24,
            38 => 0x235D,
            39 => 0x0400,
            40 => 0x2400,
            41 => 0x0900,
            42 => 0x3FC0,
            43 => 0x12C0,
            44 => 0x0800,
            45 => 0x00C0,
            46 => 0x0000,
            47 => 0x0C00,
            48 => 0x0C3F,
            49 => 0x0006,
            50 => 0x00DB,
            51 => 0x008F,
            52 => 0x00E6,
            53 => 0x2069,
            54 => 0x00FD,
            55 => 0x0007,
            56 => 0x00FF,
            57 => 0x00EF,
            58 => 0x1200,
            59 => 0x0A00,
            60 => 0x2400,
            61 => 0x00C8,
            62 => 0x0900,
            63 => 0x1083,
            64 => 0x02BB,
            65 => 0x00F7,
            66 => 0x128F,
            67 => 0x0039,
            68 => 0x120F,
            69 => 0x00F9,
            70 => 0x0071,
            71 => 0x00BD,
            72 => 0x00F6,
            73 => 0x1209,
            74 => 0x001E,
            75 => 0x2470,
            76 => 0x0038,
            77 => 0x0536,
            78 => 0x2136,
            79 => 0x003F,
            80 => 0x00F3,
            81 => 0x203F,
            82 => 0x20F3,
            83 => 0x00ED,
            84 => 0x1201,
            85 => 0x003E,
            86 => 0x0C30,
            87 => 0x2836,
            88 => 0x2D00,
            89 => 0x1500,
            90 => 0x0C09,
            91 => 0x0039,
            92 => 0x2100,
            93 => 0x000F,
            94 => 0x0C03,
            95 => 0x0008,
            96 => 0x0100,
            97 => 0x1058,
            98 => 0x2078,
            99 => 0x00D8,
            100 => 0x088E,
            101 => 0x0858,
            102 => 0x0071,
            103 => 0x048E,
            104 => 0x1070,
            105 => 0x1000,
            106 => 0x000E,
            107 => 0x3600,
            108 => 0x0030,
            109 => 0x10D4,
            110 => 0x1050,
            111 => 0x00DC,
            112 => 0x0170,
            113 => 0x0486,
            114 => 0x0050,
            115 => 0x2088,
            116 => 0x0078,
            117 => 0x001C,
            118 => 0x2004,
            119 => 0x2814,
            120 => 0x28C0,
            121 => 0x200C,
            122 => 0x0848,
            123 => 0x0949,
            124 => 0x1200,
            125 => 0x2489,
            126 => 0x0520,
            _ => 0x0000,
    }
}

} // verus!
