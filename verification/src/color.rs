//! Colours as three independent channels, and their packed wire format.

use vstd::prelude::*;

verus! {

/// A colour: one byte for each of the red, green and blue channels.
#[derive(Clone, Copy, Debug, PartialEq, Eq, Structural)]
pub struct Color {
    pub red: u8,
    pub green: u8,
    pub blue: u8,
}

/// The byte that fills the unused top position of a packed colour.
pub const OPAQUE: u32 = 0xFF00_0000;

impl Color {
    /// The packed form: red in the lowest byte, green in the next, blue in the
    /// third, and the top byte set.
    pub open spec fn packed(self) -> u32 {
        OPAQUE | ((self.blue as u32) << 16) | ((self.green as u32) << 8) | (self.red as u32)
    }

    /// The colour held in the low three bytes of a packed value.
    pub open spec fn unpacked(packed: u32) -> Color {
        Color {
            red: (packed & 0xFF) as u8,
            green: ((packed >> 8) & 0xFF) as u8,
            blue: ((packed >> 16) & 0xFF) as u8,
        }
    }

    /// Channel `k` in the order in which the encoder emits them: red, green, blue.
    pub open spec fn channel(self, k: int) -> u8 {
        if k == 0 {
            self.red
        } else if k == 1 {
            self.green
        } else {
            self.blue
        }
    }

    /// The colour with all three channels at zero.
    pub fn black() -> (c: Color)
        ensures
            c == (Color { red: 0, green: 0, blue: 0 }),
    {
        Color { red: 0, green: 0, blue: 0 }
    }

    /// Reads a colour out of a packed value. The top byte is ignored.
    pub fn from_packed(packed: u32) -> (c: Color)
        ensures
            c == Color::unpacked(packed),
    {
        Color {
            red: (packed & 0xFF) as u8,
            green: ((packed >> 8) & 0xFF) as u8,
            blue: ((packed >> 16) & 0xFF) as u8,
        }
    }

    /// Packs the three channels into one value.
    pub fn to_packed(self) -> (p: u32)
        ensures
            p == self.packed(),
    {
        OPAQUE | ((self.blue as u32) << 16) | ((self.green as u32) << 8) | (self.red as u32)
    }
}

/// Packing a colour and reading it back gives the same colour.
pub proof fn lemma_unpack_pack(c: Color)
    ensures
        Color::unpacked(c.packed()) == c,
{
    let r: u8 = c.red;
    let g: u8 = c.green;
    let b: u8 = c.blue;
    let p: u32 = 0xFF00_0000u32 | ((b as u32) << 16) | ((g as u32) << 8) | (r as u32);
    assert((p & 0xFF) as u8 == r) by (bit_vector)
        requires
            p == 0xFF00_0000u32 | ((b as u32) << 16) | ((g as u32) << 8) | (r as u32),
    ;
    assert(((p >> 8) & 0xFF) as u8 == g) by (bit_vector)
        requires
            p == 0xFF00_0000u32 | ((b as u32) << 16) | ((g as u32) << 8) | (r as u32),
    ;
    assert(((p >> 16) & 0xFF) as u8 == b) by (bit_vector)
        requires
            p == 0xFF00_0000u32 | ((b as u32) << 16) | ((g as u32) << 8) | (r as u32),
    ;
}

/// Reading a packed value and packing it again keeps its low three bytes and
/// sets the top byte.
pub proof fn lemma_pack_unpack(packed: u32)
    ensures
        Color::unpacked(packed).packed() == (packed & 0x00FF_FFFF) | OPAQUE,
{
    let r: u8 = (packed & 0xFF) as u8;
    let g: u8 = ((packed >> 8) & 0xFF) as u8;
    let b: u8 = ((packed >> 16) & 0xFF) as u8;
    assert(0xFF00_0000u32 | ((b as u32) << 16) | ((g as u32) << 8) | (r as u32) == (packed
        & 0x00FF_FFFF) | 0xFF00_0000u32) by (bit_vector)
        requires
            r == (packed & 0xFF) as u8,
            g == ((packed >> 8) & 0xFF) as u8,
            b == ((packed >> 16) & 0xFF) as u8,
    ;
}

} // verus!
