//! Packed 24-bit RGB color, no alpha.

use vstd::prelude::*;

verus! {

/// A 24-bit RGB color. The engine packs it into the low 24 bits of an
/// `i32` (red in bits 16..24, green in 8..16, blue in 0..8).
#[derive(Clone, Copy, PartialEq, Eq, Structural, Debug)]
pub enum Color {
    RGB(u8, u8, u8),
}

impl Color {
    /// The packed value as a mathematical integer:
    /// `red * 65536 + green * 256 + blue`.
    pub open spec fn packed(self) -> int {
        match self {
            Color::RGB(r, g, b) => r * 0x10000 + g * 0x100 + b,
        }
    }

    /// Packs the color into the low 24 bits of an `i32`.
    pub fn to_i32(&self) -> (p: i32)
        ensures
            p == self.packed(),
            0 <= p < 0x1000000,
    {
        match self {
            Color::RGB(r, g, b) => {
                let rr = *r;
                let gg = *g;
                let bb = *b;
                let packed: u32 = ((rr as u32) << 16u32) | ((gg as u32) << 8u32) | (bb as u32);
                proof {
                    assert(((rr as u32) << 16u32) | ((gg as u32) << 8u32) | (bb as u32)
                        == rr * 0x10000 + gg * 0x100 + bb) by (bit_vector)
                        requires rr <= 255u32 && gg <= 255u32 && bb <= 255u32;
                }
                packed as i32
            }
        }
    }

    /// The color encoded in the low 24 bits of a packed pixel value;
    /// bits outside the low 24 are ignored.
    pub open spec fn unpacked(pixel: i32) -> Color {
        Color::RGB(
            ((pixel as u32 / 0x10000) % 0x100) as u8,
            ((pixel as u32 / 0x100) % 0x100) as u8,
            (pixel as u32 % 0x100) as u8,
        )
    }

    /// Extracts the color stored in the low 24 bits of `pixel`.
    pub fn from_i32(pixel: i32) -> (c: Color)
        ensures
            c == Color::unpacked(pixel),
    {
        let p = pixel as u32;
        let r = ((p >> 16u32) & 0xff) as u8;
        let g = ((p >> 8u32) & 0xff) as u8;
        let b = (p & 0xff) as u8;
        proof {
            assert(((p >> 16u32) & 0xff) as u8 == ((p / 0x10000) % 0x100) as u8
                && ((p >> 8u32) & 0xff) as u8 == ((p / 0x100) % 0x100) as u8
                && (p & 0xff) as u8 == (p % 0x100) as u8) by (bit_vector);
        }
        Color::RGB(r, g, b)
    }
}

/// Packing a color and unpacking the result yields the same color.
pub proof fn lemma_color_round_trip(c: Color)
    ensures
        Color::unpacked((c.packed()) as i32) == c,
{
    match c {
        Color::RGB(r, g, b) => {
            let p = (r * 0x10000 + g * 0x100 + b) as i32;
            assert(((p as u32 / 0x10000) % 0x100) as u8 == r
                && ((p as u32 / 0x100) % 0x100) as u8 == g
                && (p as u32 % 0x100) as u8 == b) by (bit_vector)
                requires p == r * 0x10000 + g * 0x100 + b && r <= 255 && g <= 255 && b <= 255;
        }
    }
}

} // verus!
