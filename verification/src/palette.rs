//! The palette store: a flat buffer of packed two-byte palette entries,
//! and the rule that unpacks one entry into a full B, G, R, A pixel.

use vstd::prelude::*;
use crate::enums::PaletteFormats;
use crate::pixel::be16;
use crate::pixel::rgb565_pixel;
use crate::pixel::rgb5a3_pixel;

verus! {

/// The B, G, R, A pixel that palette entry `idx` unpacks to: IA8 entries
/// hold alpha then a luminance replicated across B/G/R; the 16-bit color
/// entries hold a big-endian RGB565 or RGB5A3 word.
pub open spec fn palette_entry_pixel(pal: Seq<u8>, idx: int, f: PaletteFormats) -> (u8, u8, u8, u8) {
    match f {
        PaletteFormats::IA8 => (pal[2 * idx + 1], pal[2 * idx + 1], pal[2 * idx + 1], pal[2 * idx]),
        PaletteFormats::RGB565 => rgb565_pixel(be16(pal, 2 * idx)),
        PaletteFormats::RGB5A3 => rgb5a3_pixel(be16(pal, 2 * idx)),
    }
}

/// A flat buffer of packed palette entries, read-only after construction.
#[derive(Clone, Debug)]
pub struct Palette {
    pub palettedata: Vec<u8>,
}

impl Palette {
    /// A palette holding the first `count` bytes of `data`.
    pub fn read(data: &Vec<u8>, count: usize) -> (r: Self)
        requires
            count <= data@.len(),
        ensures
            r.palettedata@ == data@.subrange(0, count as int),
    {
        let mut palettedata: Vec<u8> = Vec::new();
        let mut i: usize = 0;
        while i < count
            invariant
                i <= count,
                count <= data@.len(),
                palettedata@ == data@.subrange(0, i as int),
            decreases count - i,
        {
            palettedata.push(data[i]);
            i = i + 1;
            proof {
                assert(palettedata@ =~= data@.subrange(0, i as int));
            }
        }
        Palette { palettedata }
    }

    /// How many two-byte entries the palette holds.
    pub fn entry_count(&self) -> (r: usize)
        ensures
            r == self.palettedata@.len() / 2,
    {
        self.palettedata.len() / 2
    }
}

} // verus!
