//! Codec for GameCube/Wii-style hardware texture formats.
//!
//! The library converts between flat BGRA raster buffers and the tiled,
//! bit-packed or block-compressed encodings used by the fixed-function
//! texture units: luminance (I4, I8), luminance-alpha (IA4, IA8), 16-bit
//! direct color (RGB565, RGB5A3), 32-bit color (RGBA32), paletted (C4, C8)
//! and the 4x4 block-compressed CMPR format.
//!
//! The public surface exchanges raw byte buffers and format identifiers
//! only; reading or writing the container that carries these payloads is
//! left to the caller.

use vstd::prelude::*;

pub mod decoders;
pub mod encoders;
pub mod enums;
pub mod imagedataformat;
pub mod palette;
pub mod pixel;
pub mod range;

verus! {

/// Why a decode or encode call failed.
#[derive(Clone, Copy, Debug, PartialEq, Eq, Structural)]
pub enum CodecError {
    /// The input buffer is shorter than the length the format requires.
    MalformedInput,
    /// The format is recognized but this codec does not implement it.
    UnsupportedFormat,
    /// A paletted format was requested without a palette.
    MissingPalette,
    /// The bitstream holds a palette index past the end of the palette.
    PaletteIndexOutOfRange,
}

} // verus!
