//! The closed sets of texture and palette format identifiers, with their
//! stable numeric codes.

use vstd::prelude::*;

verus! {

/// The texture formats this codec recognizes. C14X2 is recognized as an
/// identifier but has no decoder or encoder.
#[derive(Clone, Copy, Debug, PartialEq, Eq, Structural)]
pub enum TextureFormats {
    I4,
    I8,
    IA4,
    IA8,
    RGB565,
    RGB5A3,
    RGBA32,
    C4,
    C8,
    C14X2,
    CMPR,
}

/// The palette entry formats of the paletted textures.
#[derive(Clone, Copy, Debug, PartialEq, Eq, Structural)]
pub enum PaletteFormats {
    IA8,
    RGB565,
    RGB5A3,
}

/// The stable numeric code of a texture format.
pub open spec fn texture_format_code(f: TextureFormats) -> u8 {
    match f {
        TextureFormats::I4 => 0x00,
        TextureFormats::I8 => 0x01,
        TextureFormats::IA4 => 0x02,
        TextureFormats::IA8 => 0x03,
        TextureFormats::RGB565 => 0x04,
        TextureFormats::RGB5A3 => 0x05,
        TextureFormats::RGBA32 => 0x06,
        TextureFormats::C4 => 0x08,
        TextureFormats::C8 => 0x09,
        TextureFormats::C14X2 => 0x0A,
        TextureFormats::CMPR => 0x0E,
    }
}

/// The stable numeric code of a palette format.
pub open spec fn palette_format_code(f: PaletteFormats) -> u8 {
    match f {
        PaletteFormats::IA8 => 0x00,
        PaletteFormats::RGB565 => 0x01,
        PaletteFormats::RGB5A3 => 0x02,
    }
}

impl TextureFormats {
    /// The format's numeric code.
    pub fn code(self) -> (r: u8)
        ensures
            r == texture_format_code(self),
    {
        match self {
            TextureFormats::I4 => 0x00,
            TextureFormats::I8 => 0x01,
            TextureFormats::IA4 => 0x02,
            TextureFormats::IA8 => 0x03,
            TextureFormats::RGB565 => 0x04,
            TextureFormats::RGB5A3 => 0x05,
            TextureFormats::RGBA32 => 0x06,
            TextureFormats::C4 => 0x08,
            TextureFormats::C8 => 0x09,
            TextureFormats::C14X2 => 0x0A,
            TextureFormats::CMPR => 0x0E,
        }
    }

    /// The format carrying a numeric code, or `None` for an unrecognized
    /// code.
    pub fn from_code(code: u8) -> (r: Option<TextureFormats>)
        ensures
            match r {
                Some(f) => texture_format_code(f) == code,
                None => forall|f: TextureFormats| texture_format_code(f) != code,
            },
    {
        match code {
            0x00 => Some(TextureFormats::I4),
            0x01 => Some(TextureFormats::I8),
            0x02 => Some(TextureFormats::IA4),
            0x03 => Some(TextureFormats::IA8),
            0x04 => Some(TextureFormats::RGB565),
            0x05 => Some(TextureFormats::RGB5A3),
            0x06 => Some(TextureFormats::RGBA32),
            0x08 => Some(TextureFormats::C4),
            0x09 => Some(TextureFormats::C8),
            0x0A => Some(TextureFormats::C14X2),
            0x0E => Some(TextureFormats::CMPR),
            _ => None,
        }
    }
}

impl PaletteFormats {
    /// The palette format's numeric code.
    pub fn code(self) -> (r: u8)
        ensures
            r == palette_format_code(self),
    {
        match self {
            PaletteFormats::IA8 => 0x00,
            PaletteFormats::RGB565 => 0x01,
            PaletteFormats::RGB5A3 => 0x02,
        }
    }

    /// The palette format carrying a numeric code, or `None` for an
    /// unrecognized code.
    pub fn from_code(code: u8) -> (r: Option<PaletteFormats>)
        ensures
            match r {
                Some(f) => palette_format_code(f) == code,
                None => forall|f: PaletteFormats| palette_format_code(f) != code,
            },
    {
        match code {
            0x00 => Some(PaletteFormats::IA8),
            0x01 => Some(PaletteFormats::RGB565),
            0x02 => Some(PaletteFormats::RGB5A3),
            _ => None,
        }
    }
}

} // verus!
