//! A colour as 32 bits: alpha, red, green, blue, eight bits each.

use vstd::prelude::*;

verus! {

/// A colour, `0xAARRGGBB`.
#[derive(Clone, Copy, Debug, PartialEq, Eq, Hash, Structural)]
pub struct Color(pub u32);

impl Color {
    /// Opaque white.
    pub const WHITE: u32 = 0xFFFF_FFFF;

    /// The colour with the given alpha, red, green and blue, eight bits each.
    pub fn argb(alpha: u8, red: u8, green: u8, blue: u8) -> (r: Color)
        ensures
            r.0 == alpha * 0x100_0000 + red * 0x1_0000 + green * 0x100 + blue,
    {
        Color((alpha as u32) * 0x100_0000 + (red as u32) * 0x1_0000 + (green as u32) * 0x100
            + blue as u32)
    }

    /// The red channel: the second eight bits from the top.
    pub fn red(&self) -> (r: u8)
        ensures
            r == (self.0 / 0x1_0000) % 0x100,
    {
        ((self.0 / 0x1_0000) % 0x100) as u8
    }

    /// The green channel: the third eight bits from the top.
    pub fn green(&self) -> (r: u8)
        ensures
            r == (self.0 / 0x100) % 0x100,
    {
        ((self.0 / 0x100) % 0x100) as u8
    }

    /// The blue channel: the bottom eight bits.
    pub fn blue(&self) -> (r: u8)
        ensures
            r == self.0 % 0x100,
    {
        (self.0 % 0x100) as u8
    }

    /// The same colour with the given alpha: the top eight bits replaced,
    /// red, green and blue kept.
    pub fn with_alpha(&self, alpha: u8) -> (r: Color)
        ensures
            r.0 == alpha * 0x100_0000 + self.0 % 0x100_0000,
    {
        Color((alpha as u32) * 0x100_0000 + self.0 % 0x100_0000)
    }

    /// The alpha channel: the top eight bits.
    pub fn alpha(&self) -> (r: u8)
        ensures
            r == self.0 / 0x100_0000,
    {
        (self.0 / 0x100_0000) as u8
    }
}

} // verus!
