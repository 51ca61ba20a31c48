use vstd::prelude::*;

verus! {

/// A color packed into one 32-bit word, laid out as
/// `A << 24 | R << 16 | G << 8 | B` with each channel in `0..=255`.
#[derive(Clone, Copy, PartialEq, Eq, Structural, Hash, Debug)]
pub struct Color(pub u32);

impl Color {
    /// The packed word for the four channels: `a<<24 | r<<16 | g<<8 | b`.
    pub open spec fn spec_pack(r: u8, g: u8, b: u8, a: u8) -> u32 {
        ((a as u32) << 24) | ((r as u32) << 16) | ((g as u32) << 8) | (b as u32)
    }

    /// The alpha channel, bits 24..32 of the packed word.
    pub open spec fn spec_a(self) -> u8 {
        (self.0 >> 24) as u8
    }

    /// The red channel, bits 16..24 of the packed word.
    pub open spec fn spec_r(self) -> u8 {
        ((self.0 >> 16) & 0xFF) as u8
    }

    /// The green channel, bits 8..16 of the packed word.
    pub open spec fn spec_g(self) -> u8 {
        ((self.0 >> 8) & 0xFF) as u8
    }

    /// The blue channel, bits 0..8 of the packed word.
    pub open spec fn spec_b(self) -> u8 {
        (self.0 & 0xFF) as u8
    }

    /// An opaque color: alpha is 255.
    pub fn from_rgb(r: u8, g: u8, b: u8) -> (c: Self)
        ensures
            c.0 == Self::spec_pack(r, g, b, 0xFF),
    {
        Self::from_rgba(r, g, b, 0xFF)
    }

    /// A color with an explicit alpha channel.
    pub fn from_rgba(r: u8, g: u8, b: u8, a: u8) -> (c: Self)
        ensures
            c.0 == Self::spec_pack(r, g, b, a),
    {
        Color(((a as u32) << 24) | ((r as u32) << 16) | ((g as u32) << 8) | (b as u32))
    }

    /// The packed 32-bit representation.
    pub fn as_u32(self) -> (v: u32)
        ensures
            v == self.0,
    {
        self.0
    }

    /// The color whose packed representation is `v`; exact inverse of `as_u32`.
    pub fn from_u32(v: u32) -> (c: Self)
        ensures
            c.0 == v,
    {
        Color(v)
    }

    /// The alpha channel. The blit engine treats exactly 0 as fully
    /// transparent and every other value as opaque.
    pub fn a(self) -> (r: u8)
        ensures
            r == self.spec_a(),
    {
        (self.0 >> 24) as u8
    }

    /// Opaque black, packed `0xFF000000`.
    pub fn black() -> (c: Color)
        ensures
            c.0 == 0xFF00_0000u32,
    {
        Color(0xFF00_0000)
    }

    /// Opaque white, packed `0xFFFFFFFF`.
    pub fn white() -> (c: Color)
        ensures
            c.0 == 0xFFFF_FFFFu32,
    {
        Color(0xFFFF_FFFF)
    }

    /// Opaque red, packed `0xFFFF0000`.
    pub fn red() -> (c: Color)
        ensures
            c.0 == 0xFFFF_0000u32,
    {
        Color(0xFFFF_0000)
    }

    /// Opaque green, packed `0xFF00FF00`.
    pub fn green() -> (c: Color)
        ensures
            c.0 == 0xFF00_FF00u32,
    {
        Color(0xFF00_FF00)
    }

    /// Opaque blue, packed `0xFF0000FF`.
    pub fn blue() -> (c: Color)
        ensures
            c.0 == 0xFF00_00FFu32,
    {
        Color(0xFF00_00FF)
    }

    /// Opaque yellow, packed `0xFFFFFF00`.
    pub fn yellow() -> (c: Color)
        ensures
            c.0 == 0xFFFF_FF00u32,
    {
        Color(0xFFFF_FF00)
    }

    /// Opaque cyan, packed `0xFF00FFFF`.
    pub fn cyan() -> (c: Color)
        ensures
            c.0 == 0xFF00_FFFFu32,
    {
        Color(0xFF00_FFFF)
    }

    /// Opaque magenta, packed `0xFFFF00FF`.
    pub fn magenta() -> (c: Color)
        ensures
            c.0 == 0xFFFF_00FFu32,
    {
        Color(0xFFFF_00FF)
    }

    /// Opaque middle gray, packed `0xFF808080`.
    pub fn gray() -> (c: Color)
        ensures
            c.0 == 0xFF80_8080u32,
    {
        Color(0xFF80_8080)
    }

    /// Opaque light gray, packed `0xFFC0C0C0`.
    pub fn light_gray() -> (c: Color)
        ensures
            c.0 == 0xFFC0_C0C0u32,
    {
        Color(0xFFC0_C0C0)
    }

    /// Opaque dark gray, packed `0xFF404040`.
    pub fn dark_gray() -> (c: Color)
        ensures
            c.0 == 0xFF40_4040u32,
    {
        Color(0xFF40_4040)
    }

    /// Opaque orange, packed `0xFFFFA500`.
    pub fn orange() -> (c: Color)
        ensures
            c.0 == 0xFFFF_A500u32,
    {
        Color(0xFFFF_A500)
    }

    /// Opaque brown, packed `0xFFA52A2A`.
    pub fn brown() -> (c: Color)
        ensures
            c.0 == 0xFFA5_2A2Au32,
    {
        Color(0xFFA5_2A2A)
    }

    /// Opaque pink, packed `0xFFFFC0CB`.
    pub fn pink() -> (c: Color)
        ensures
            c.0 == 0xFFFF_C0CBu32,
    {
        Color(0xFFFF_C0CB)
    }

    /// Opaque purple, packed `0xFF800080`.
    pub fn purple() -> (c: Color)
        ensures
            c.0 == 0xFF80_0080u32,
    {
        Color(0xFF80_0080)
    }
}

/// Packing four channels and reading them back returns exactly the channels
/// that went in: construction from a word and decomposition into channels
/// are inverses.
pub proof fn lemma_color_round_trip(r: u8, g: u8, b: u8, a: u8)
    ensures
        Color(Color::spec_pack(r, g, b, a)).spec_a() == a,
        Color(Color::spec_pack(r, g, b, a)).spec_r() == r,
        Color(Color::spec_pack(r, g, b, a)).spec_g() == g,
        Color(Color::spec_pack(r, g, b, a)).spec_b() == b,
{
    assert(((((a as u32) << 24) | ((r as u32) << 16) | ((g as u32) << 8) | (b as u32)) >> 24)
        as u8 == a) by (bit_vector);
    assert((((((a as u32) << 24) | ((r as u32) << 16) | ((g as u32) << 8) | (b as u32)) >> 16)
        & 0xFF) as u8 == r) by (bit_vector);
    assert((((((a as u32) << 24) | ((r as u32) << 16) | ((g as u32) << 8) | (b as u32)) >> 8)
        & 0xFF) as u8 == g) by (bit_vector);
    assert(((((a as u32) << 24) | ((r as u32) << 16) | ((g as u32) << 8) | (b as u32)) & 0xFF)
        as u8 == b) by (bit_vector);
}

} // verus!
