//! Scalar pixel conversions: bit-replication channel expansion and the
//! 16-bit RGB565 / RGB5A3 words used by the direct-color and compressed
//! formats. Output pixels are four bytes in B, G, R, A order.

use vstd::prelude::*;

verus! {

/// Widens a 5-bit channel to 8 bits by bit replication.
pub open spec fn expand5(v: u8) -> u8 {
    (v << 3) | (v >> 2)
}

/// Widens a 6-bit channel to 8 bits by bit replication.
pub open spec fn expand6(v: u8) -> u8 {
    (v << 2) | (v >> 4)
}

/// Widens a 4-bit channel to 8 bits by bit replication.
pub open spec fn expand4(v: u8) -> u8 {
    (v << 4) | v
}

/// Widens a 3-bit alpha field to 8 bits by bit replication.
pub open spec fn expand3(v: u8) -> u8 {
    (v << 5) | (v << 2) | (v >> 1)
}

/// The big-endian 16-bit word starting at byte `off`.
pub open spec fn be16(s: Seq<u8>, off: int) -> u16 {
    ((s[off] as u16) << 8) | (s[off + 1] as u16)
}

/// The big-endian 32-bit word starting at byte `off`.
pub open spec fn be32(s: Seq<u8>, off: int) -> u32 {
    ((s[off] as u32) << 24) | ((s[off + 1] as u32) << 16) | ((s[off + 2] as u32) << 8)
        | (s[off + 3] as u32)
}

/// A packed RGB565 word expanded to a full B, G, R, A pixel; alpha is
/// forced opaque.
pub open spec fn rgb565_pixel(p: u16) -> (u8, u8, u8, u8) {
    let r = ((p & 0xF800) >> 11) as u8;
    let g = ((p & 0x07E0) >> 5) as u8;
    let b = (p & 0x001F) as u8;
    (expand5(b), expand6(g), expand5(r), 0xFF)
}

/// A packed RGB5A3 word expanded to a full B, G, R, A pixel: with the top
/// bit set the low 15 bits are 5/5/5 RGB and alpha is opaque; otherwise
/// they are 3/4/4/4 A/R/G/B, each field widened by bit replication.
pub open spec fn rgb5a3_pixel(p: u16) -> (u8, u8, u8, u8) {
    if p & 0x8000 == 0x8000 {
        let r = ((p & 0x7C00) >> 10) as u8;
        let g = ((p & 0x03E0) >> 5) as u8;
        let b = (p & 0x001F) as u8;
        (expand5(b), expand5(g), expand5(r), 0xFF)
    } else {
        let a = ((p & 0x7000) >> 12) as u8;
        let r = ((p & 0x0F00) >> 8) as u8;
        let g = ((p & 0x00F0) >> 4) as u8;
        let b = (p & 0x000F) as u8;
        (expand4(b), expand4(g), expand4(r), expand3(a))
    }
}

/// Reads the big-endian 16-bit word at `off`.
pub fn read_be16(s: &Vec<u8>, off: usize) -> (r: u16)
    requires
        off + 2 <= s@.len(),
    ensures
        r == be16(s@, off as int),
{
    proof {
        vstd::std_specs::vec::axiom_spec_len(s);
    }
    ((s[off] as u16) << 8) | (s[off + 1] as u16)
}

/// Reads the big-endian 32-bit word at `off`.
pub fn read_be32(s: &Vec<u8>, off: usize) -> (r: u32)
    requires
        off + 4 <= s@.len(),
    ensures
        r == be32(s@, off as int),
{
    proof {
        vstd::std_specs::vec::axiom_spec_len(s);
    }
    ((s[off] as u32) << 24) | ((s[off + 1] as u32) << 16) | ((s[off + 2] as u32) << 8)
        | (s[off + 3] as u32)
}

/// Expands a packed RGB565 word into the four pixel bytes.
pub fn rgb565_bytes(p: u16) -> (r: (u8, u8, u8, u8))
    ensures
        r == rgb565_pixel(p),
{
    let r5 = ((p & 0xF800) >> 11) as u8;
    let g6 = ((p & 0x07E0) >> 5) as u8;
    let b5 = (p & 0x001F) as u8;
    ((b5 << 3) | (b5 >> 2), (g6 << 2) | (g6 >> 4), (r5 << 3) | (r5 >> 2), 0xFF)
}

/// Expands a packed RGB5A3 word into the four pixel bytes.
pub fn rgb5a3_bytes(p: u16) -> (r: (u8, u8, u8, u8))
    ensures
        r == rgb5a3_pixel(p),
{
    if p & 0x8000 == 0x8000 {
        let r5 = ((p & 0x7C00) >> 10) as u8;
        let g5 = ((p & 0x03E0) >> 5) as u8;
        let b5 = (p & 0x001F) as u8;
        ((b5 << 3) | (b5 >> 2), (g5 << 3) | (g5 >> 2), (r5 << 3) | (r5 >> 2), 0xFF)
    } else {
        let a3 = ((p & 0x7000) >> 12) as u8;
        let r4 = ((p & 0x0F00) >> 8) as u8;
        let g4 = ((p & 0x00F0) >> 4) as u8;
        let b4 = (p & 0x000F) as u8;
        ((b4 << 4) | b4, (g4 << 4) | g4, (r4 << 4) | r4, (a3 << 5) | (a3 << 2) | (a3 >> 1))
    }
}

/// Writes the expansion of a packed RGB565 word as the four pixel bytes at
/// `destidx`; the rest of the buffer is untouched.
pub fn rgb565torgba8(sourcepixel: u16, decodeddata: &mut Vec<u8>, destidx: usize)
    requires
        destidx + 4 <= old(decodeddata)@.len(),
    ensures
        final(decodeddata)@.len() == old(decodeddata)@.len(),
        final(decodeddata)@[destidx as int] == rgb565_pixel(sourcepixel).0,
        final(decodeddata)@[destidx + 1] == rgb565_pixel(sourcepixel).1,
        final(decodeddata)@[destidx + 2] == rgb565_pixel(sourcepixel).2,
        final(decodeddata)@[destidx + 3] == rgb565_pixel(sourcepixel).3,
        forall|i: int|
            0 <= i < old(decodeddata)@.len() && !(destidx <= i < destidx + 4)
                ==> final(decodeddata)@[i] == old(decodeddata)@[i],
{
    proof {
        vstd::std_specs::vec::axiom_spec_len(decodeddata);
    }
    let (b, g, r, a) = rgb565_bytes(sourcepixel);
    decodeddata.set(destidx, b);
    decodeddata.set(destidx + 1, g);
    decodeddata.set(destidx + 2, r);
    decodeddata.set(destidx + 3, a);
}

/// Writes the expansion of a packed RGB5A3 word as the four pixel bytes at
/// `destidx`; the rest of the buffer is untouched.
pub fn rgb5a3torgba8(sourcepixel: u16, decodeddata: &mut Vec<u8>, destidx: usize)
    requires
        destidx + 4 <= old(decodeddata)@.len(),
    ensures
        final(decodeddata)@.len() == old(decodeddata)@.len(),
        final(decodeddata)@[destidx as int] == rgb5a3_pixel(sourcepixel).0,
        final(decodeddata)@[destidx + 1] == rgb5a3_pixel(sourcepixel).1,
        final(decodeddata)@[destidx + 2] == rgb5a3_pixel(sourcepixel).2,
        final(decodeddata)@[destidx + 3] == rgb5a3_pixel(sourcepixel).3,
        forall|i: int|
            0 <= i < old(decodeddata)@.len() && !(destidx <= i < destidx + 4)
                ==> final(decodeddata)@[i] == old(decodeddata)@[i],
{
    proof {
        vstd::std_specs::vec::axiom_spec_len(decodeddata);
    }
    let (b, g, r, a) = rgb5a3_bytes(sourcepixel);
    decodeddata.set(destidx, b);
    decodeddata.set(destidx + 1, g);
    decodeddata.set(destidx + 2, r);
    decodeddata.set(destidx + 3, a);
}

/// Re-quantizing an expanded 5-bit channel recovers the original value,
/// and likewise for 6-bit channels.
pub proof fn lemma_expansion_requantize()
    ensures
        forall|v: u8| v < 32 ==> #[trigger] (expand5(v) >> 3) == v,
        forall|v: u8| v < 64 ==> #[trigger] (expand6(v) >> 2) == v,
{
    assert forall|v: u8| v < 32 implies #[trigger] (expand5(v) >> 3) == v by {
        assert(v < 32 ==> (((v << 3) | (v >> 2)) >> 3) == v) by (bit_vector);
    }
    assert forall|v: u8| v < 64 implies #[trigger] (expand6(v) >> 2) == v by {
        assert(v < 64 ==> (((v << 2) | (v >> 4)) >> 2) == v) by (bit_vector);
    }
}

} // verus!
