//! Decoders: one routine per format, each walking the tiled, bit-packed or
//! compressed bitstream and producing a full-resolution B, G, R, A raster
//! buffer of exactly `width * height * 4` bytes.
//!
//! Every format tiles the image into fixed-size blocks in raster order:
//! blocks left to right, top to bottom, and pixels row-major inside one
//! block. A block that overhangs the right or bottom edge still occupies
//! its full encoded stride in the bitstream; only the pixels inside the
//! logical image are written to the output.

use vstd::prelude::*;
use crate::CodecError;
use crate::enums::PaletteFormats;
use crate::enums::TextureFormats;
use crate::palette::Palette;
use crate::palette::palette_entry_pixel;
use crate::pixel::be16;
use crate::pixel::rgb565_pixel;

verus! {

/// How many blocks of size `b` cover a dimension of `d` pixels.
pub open spec fn blocks_ceil(d: int, b: int) -> int {
    (d + b - 1) / b
}

/// One component of a four-byte pixel tuple.
pub open spec fn byte_of(t: (u8, u8, u8, u8), k: int) -> u8 {
    if k == 0 {
        t.0
    } else if k == 1 {
        t.1
    } else if k == 2 {
        t.2
    } else {
        t.3
    }
}

/// The four bytes of pixel (x, y) in a raster buffer of width `w`.
pub open spec fn pix4(s: Seq<u8>, w: int, x: int, y: int) -> (u8, u8, u8, u8) {
    (s[4 * (y * w + x)], s[4 * (y * w + x) + 1], s[4 * (y * w + x) + 2], s[4 * (y * w + x) + 3])
}

/// The linear block index of the block holding pixel (x, y), for block
/// size `bw` x `bh` in an image `w` pixels wide.
pub open spec fn block_index(w: int, x: int, y: int, bw: int, bh: int) -> int {
    (y / bh) * blocks_ceil(w, bw) + x / bw
}

/// The row-major position of pixel (x, y) inside its block.
pub open spec fn block_pos(x: int, y: int, bw: int, bh: int) -> int {
    (y % bh) * bw + x % bw
}

/// The block holding a pixel lies inside the block grid.
proof fn lemma_block_index_bound(x: int, y: int, w: int, h: int, bw: int, bh: int)
    requires
        0 <= x < w,
        0 <= y < h,
        0 < bw,
        0 < bh,
    ensures
        x / bw < blocks_ceil(w, bw),
        y / bh < blocks_ceil(h, bh),
        0 <= block_index(w, x, y, bw, bh) < blocks_ceil(w, bw) * blocks_ceil(h, bh),
{
    let nw = blocks_ceil(w, bw);
    let nh = blocks_ceil(h, bh);
    assert(x / bw <= (w - 1) / bw) by {
        vstd::arithmetic::div_mod::lemma_div_is_ordered(x, w - 1, bw);
    }
    assert((w - 1) / bw + 1 == (w - 1 + bw) / bw) by {
        vstd::arithmetic::div_mod::lemma_div_plus_one(w - 1, bw);
    }
    assert(x / bw < nw);
    assert(y / bh <= (h - 1) / bh) by {
        vstd::arithmetic::div_mod::lemma_div_is_ordered(y, h - 1, bh);
    }
    assert((h - 1) / bh + 1 == (h - 1 + bh) / bh) by {
        vstd::arithmetic::div_mod::lemma_div_plus_one(h - 1, bh);
    }
    assert(y / bh < nh);
    assert(0 <= y / bh) by {
        vstd::arithmetic::div_mod::lemma_div_pos_is_pos(y, bh);
    }
    assert(0 <= x / bw) by {
        vstd::arithmetic::div_mod::lemma_div_pos_is_pos(x, bw);
    }
    assert((y / bh) * nw <= (nh - 1) * nw) by {
        vstd::arithmetic::mul::lemma_mul_inequality(y / bh, nh - 1, nw);
    }
    assert((nh - 1) * nw == nh * nw - nw) by {
        vstd::arithmetic::mul::lemma_mul_is_distributive_sub_other_way(nw, nh, 1);
    }
    assert(nw * nh == nh * nw) by {
        vstd::arithmetic::mul::lemma_mul_is_commutative(nw, nh);
    }
}

/// Pixels earlier in row-major order have smaller linear indices.
proof fn lemma_pix_order(xx: int, yy: int, x: int, y: int, w: int)
    requires
        0 <= xx < w,
        0 <= x <= w,
        0 <= yy,
        yy < y || (yy == y && xx < x),
    ensures
        0 <= yy * w + xx < y * w + x,
{
    assert(0 <= yy * w) by {
        vstd::arithmetic::mul::lemma_mul_nonnegative(yy, w);
    }
    if yy < y {
        assert(yy * w + w <= y * w) by {
            vstd::arithmetic::mul::lemma_mul_inequality(yy + 1, y, w);
            vstd::arithmetic::mul::lemma_mul_is_distributive_add_other_way(w, yy, 1);
        }
    }
}

/// A pixel of the image has its four bytes inside the raster buffer.
pub proof fn lemma_pix_in_range(x: int, y: int, w: int, h: int)
    requires
        0 <= x < w,
        0 <= y < h,
    ensures
        0 <= y * w + x,
        y * w + x < h * w,
        4 * (y * w + x) + 4 <= 4 * (h * w),
{
    lemma_pix_order(x, y, 0, h, w);
    assert(y * w + x < h * w + 0);
}

/// The linear pixel index decomposes back into its coordinates.
proof fn lemma_linear_index(x: int, y: int, w: int)
    requires
        0 <= x < w,
        0 <= y,
    ensures
        (y * w + x) / w == y,
        (y * w + x) % w == x,
{
    vstd::arithmetic::div_mod::lemma_fundamental_div_mod_converse(y * w + x, w, y, x);
}

/// The byte length a bitstream must have for a `w` x `h` image tiled into
/// `bw` x `bh` blocks of `stride` bytes each.
pub open spec fn req_bytes(w: int, h: int, bw: int, bh: int, stride: int) -> int {
    blocks_ceil(w, bw) * blocks_ceil(h, bh) * stride
}

/// The first byte of the block holding pixel (x, y) lies a full stride
/// before the end of the required bitstream length.
proof fn lemma_block_byte_bound(x: int, y: int, w: int, h: int, bw: int, bh: int, stride: int)
    requires
        0 <= x < w,
        0 <= y < h,
        0 < bw,
        0 < bh,
        0 < stride,
    ensures
        0 <= block_index(w, x, y, bw, bh) * stride,
        block_index(w, x, y, bw, bh) * stride + stride <= req_bytes(w, h, bw, bh, stride),
{
    lemma_block_index_bound(x, y, w, h, bw, bh);
    let bi = block_index(w, x, y, bw, bh);
    let nb = blocks_ceil(w, bw) * blocks_ceil(h, bh);
    assert(bi * stride + stride <= nb * stride) by {
        vstd::arithmetic::mul::lemma_mul_inequality(bi + 1, nb, stride);
        vstd::arithmetic::mul::lemma_mul_is_distributive_add_other_way(stride, bi, 1);
    }
    assert(0 <= bi * stride) by {
        vstd::arithmetic::mul::lemma_mul_nonnegative(bi, stride);
    }
}

/// The byte length an I8 bitstream must have for a `w` x `h` image:
/// 8x4-pixel blocks of 32 bytes.
pub open spec fn i8_req(w: int, h: int) -> int {
    req_bytes(w, h, 8, 4, 32)
}

/// The bitstream byte holding pixel (x, y) of an I8 image.
pub open spec fn i8_off(w: int, x: int, y: int) -> int {
    block_index(w, x, y, 8, 4) * 32 + block_pos(x, y, 8, 4)
}

/// The decoded pixel: the luminance byte replicated to B, G, R and A.
pub open spec fn i8_pixel(bits: Seq<u8>, w: int, x: int, y: int) -> (u8, u8, u8, u8) {
    let v = bits[i8_off(w, x, y)];
    (v, v, v, v)
}

/// Byte `i` of the raster buffer an I8 bitstream decodes to.
pub open spec fn i8_byte(bits: Seq<u8>, w: int, i: int) -> u8 {
    byte_of(i8_pixel(bits, w, (i / 4) % w, (i / 4) / w), i % 4)
}

/// The pixel's byte lies inside the required bitstream length.
proof fn lemma_i8_off_bound(w: int, h: int, x: int, y: int)
    requires
        0 <= x < w,
        0 <= y < h,
    ensures
        0 <= i8_off(w, x, y),
        i8_off(w, x, y) < i8_req(w, h),
        block_index(w, x, y, 8, 4) * 32 + 32 <= i8_req(w, h),
{
    lemma_block_byte_bound(x, y, w, h, 8, 4, 32);
    vstd::arithmetic::div_mod::lemma_mod_bound(y, 4);
    vstd::arithmetic::div_mod::lemma_mod_bound(x, 8);
}

/// Decodes an I8 bitstream: one byte per pixel, 8x4 blocks, the luminance
/// replicated across all four output channels.
#[verifier::loop_isolation(false)]
pub fn decodei8(bits: &Vec<u8>, width: u16, height: u16) -> (r: Vec<u8>)
    requires
        i8_req(width as int, height as int) <= bits@.len(),
        4 * (width as int) * (height as int) <= usize::MAX,
    ensures
        r@.len() == 4 * (width as int) * (height as int),
        forall|x: int, y: int|
            0 <= x < width && 0 <= y < height ==> pix4(r@, width as int, x, y) == i8_pixel(
                bits@,
                width as int,
                x,
                y,
            ),
{
    let w = width as usize;
    let h = height as usize;
    let nbw: usize = (w + 7) / 8;
    let mut out: Vec<u8> = Vec::new();
    let mut y: usize = 0;
    proof {
        vstd::std_specs::vec::axiom_spec_len(bits);
        vstd::arithmetic::mul::lemma_mul_nonnegative(h as int, w as int);
        if h > 0 && w > 0 {
            lemma_pix_in_range(w as int - 1, h as int - 1, w as int, h as int);
        }
        assert(4 * (width as int) * (height as int) == 4 * ((height as int) * (width as int)))
            by {
            vstd::arithmetic::mul::lemma_mul_is_commutative(width as int, height as int);
            vstd::arithmetic::mul::lemma_mul_is_associative(4, width as int, height as int);
        }
    }
    while y < h
        invariant
            y <= h,
            out@.len() == 4 * (y * w),
            forall|i: int| 0 <= i < out@.len() ==> out@[i] == i8_byte(bits@, w as int, i),
        decreases h - y,
    {
        let mut x: usize = 0;
        while x < w
            invariant
                x <= w,
                out@.len() == 4 * (y * w + x),
                forall|i: int| 0 <= i < out@.len() ==> out@[i] == i8_byte(bits@, w as int, i),
            decreases w - x,
        {
            proof {
                vstd::std_specs::vec::axiom_spec_len(bits);
                lemma_i8_off_bound(w as int, h as int, x as int, y as int);
                lemma_pix_in_range(x as int, y as int, w as int, h as int);
                vstd::arithmetic::div_mod::lemma_mod_bound(y as int, 4);
                vstd::arithmetic::div_mod::lemma_mod_bound(x as int, 8);
            }
            let bi: usize = (y / 4) * nbw + x / 8;
            let off: usize = bi * 32 + (y % 4) * 8 + x % 8;
            proof {
                assert(off as int == i8_off(w as int, x as int, y as int));
            }
            let v = bits[off];
            let ghost p = (y * w + x) as int;
            out.push(v);
            out.push(v);
            out.push(v);
            out.push(v);
            proof {
                lemma_linear_index(x as int, y as int, w as int);
                assert forall|i: int| 0 <= i < out@.len() implies out@[i] == i8_byte(
                    bits@,
                    w as int,
                    i,
                ) by {
                    if i >= 4 * p {
                        assert(i / 4 == p) by {
                            vstd::arithmetic::div_mod::lemma_fundamental_div_mod_converse(
                                i,
                                4,
                                p,
                                i - 4 * p,
                            );
                        }
                        assert(i % 4 == i - 4 * p) by {
                            vstd::arithmetic::div_mod::lemma_fundamental_div_mod_converse(
                                i,
                                4,
                                p,
                                i - 4 * p,
                            );
                        }
                    }
                }
            }
            x = x + 1;
        }
        y = y + 1;
        proof {
            assert(y * w == (y - 1) * w + w) by {
                vstd::arithmetic::mul::lemma_mul_is_distributive_sub_other_way(w as int, y as int, 1);
            }
        }
    }
    proof {
        assert(out@.len() == 4 * ((height as int) * (width as int)));
        assert forall|x: int, y: int| 0 <= x < width && 0 <= y < height implies pix4(
            out@,
            width as int,
            x,
            y,
        ) == i8_pixel(bits@, width as int, x, y) by {
            lemma_pix_in_range(x, y, width as int, height as int);
            lemma_linear_index(x, y, width as int);
            let p = y * (width as int) + x;
            assert forall|k: int| 0 <= k < 4 implies out@[4 * p + k] == byte_of(
                i8_pixel(bits@, width as int, x, y),
                k,
            ) by {
                vstd::arithmetic::div_mod::lemma_fundamental_div_mod_converse(4 * p + k, 4, p, k);
            }
        }
    }
    out
}

/// The byte length an I4 bitstream must have: 8x8 blocks of 32 bytes.
pub open spec fn i4_req(w: int, h: int) -> int {
    req_bytes(w, h, 8, 8, 32)
}

/// The bitstream byte holding pixel (x, y) of an I4 image: two pixels
/// share one byte.
pub open spec fn i4_off(w: int, x: int, y: int) -> int {
    block_index(w, x, y, 8, 8) * 32 + block_pos(x, y, 8, 8) / 2
}

/// The decoded pixel: the 4-bit sample (high nibble at even x, low nibble
/// at odd x) widened by `* 0x11` and replicated across all four channels.
pub open spec fn i4_pixel(bits: Seq<u8>, w: int, x: int, y: int) -> (u8, u8, u8, u8) {
    let d = bits[i4_off(w, x, y)];
    let n = if x % 2 == 0 {
        (d & 0xF0) >> 4
    } else {
        d & 0x0F
    };
    let v = (n * 0x11) as u8;
    (v, v, v, v)
}

/// Byte `i` of the raster buffer an I4 bitstream decodes to.
pub open spec fn i4_byte(bits: Seq<u8>, w: int, i: int) -> u8 {
    byte_of(i4_pixel(bits, w, (i / 4) % w, (i / 4) / w), i % 4)
}

proof fn lemma_i4_off_bound(w: int, h: int, x: int, y: int)
    requires
        0 <= x < w,
        0 <= y < h,
    ensures
        0 <= i4_off(w, x, y),
        i4_off(w, x, y) < i4_req(w, h),
        block_index(w, x, y, 8, 8) * 32 + 32 <= i4_req(w, h),
        0 <= block_pos(x, y, 8, 8) / 2 < 32,
{
    lemma_block_byte_bound(x, y, w, h, 8, 8, 32);
    vstd::arithmetic::div_mod::lemma_mod_bound(y, 8);
    vstd::arithmetic::div_mod::lemma_mod_bound(x, 8);
    vstd::arithmetic::div_mod::lemma_div_is_ordered(block_pos(x, y, 8, 8), 63, 2);
    vstd::arithmetic::div_mod::lemma_div_pos_is_pos(block_pos(x, y, 8, 8), 2);
}

/// Decodes an I4 bitstream: two 4-bit luminance samples per byte, 8x8
/// blocks, each sample widened and replicated across all four channels.
#[verifier::loop_isolation(false)]
pub fn decodei4(bits: &Vec<u8>, width: u16, height: u16) -> (r: Vec<u8>)
    requires
        i4_req(width as int, height as int) <= bits@.len(),
        4 * (width as int) * (height as int) <= usize::MAX,
    ensures
        r@.len() == 4 * (width as int) * (height as int),
        forall|x: int, y: int|
            0 <= x < width && 0 <= y < height ==> pix4(r@, width as int, x, y) == i4_pixel(
                bits@,
                width as int,
                x,
                y,
            ),
{
    let w = width as usize;
    let h = height as usize;
    let nbw: usize = (w + 7) / 8;
    let mut out: Vec<u8> = Vec::new();
    let mut y: usize = 0;
    proof {
        vstd::std_specs::vec::axiom_spec_len(bits);
        vstd::arithmetic::mul::lemma_mul_nonnegative(h as int, w as int);
        assert(4 * (width as int) * (height as int) == 4 * ((height as int) * (width as int)))
            by {
            vstd::arithmetic::mul::lemma_mul_is_commutative(width as int, height as int);
            vstd::arithmetic::mul::lemma_mul_is_associative(4, width as int, height as int);
        }
    }
    while y < h
        invariant
            y <= h,
            out@.len() == 4 * (y * w),
            forall|i: int| 0 <= i < out@.len() ==> out@[i] == i4_byte(bits@, w as int, i),
        decreases h - y,
    {
        let mut x: usize = 0;
        while x < w
            invariant
                x <= w,
                out@.len() == 4 * (y * w + x),
                forall|i: int| 0 <= i < out@.len() ==> out@[i] == i4_byte(bits@, w as int, i),
            decreases w - x,
        {
            proof {
                vstd::std_specs::vec::axiom_spec_len(bits);
                lemma_i4_off_bound(w as int, h as int, x as int, y as int);
                lemma_pix_in_range(x as int, y as int, w as int, h as int);
            }
            let bi: usize = (y / 8) * nbw + x / 8;
            let off: usize = bi * 32 + ((y % 8) * 8 + x % 8) / 2;
            proof {
                assert(off as int == i4_off(w as int, x as int, y as int));
            }
            let d = bits[off];
            proof {
                assert((d & 0xF0) >> 4 < 16 && d & 0x0F < 16) by (bit_vector);
            }
            let n: u8 = if x % 2 == 0 {
                (d & 0xF0) >> 4
            } else {
                d & 0x0F
            };
            let v: u8 = n * 0x11;
            let ghost p = (y * w + x) as int;
            out.push(v);
            out.push(v);
            out.push(v);
            out.push(v);
            proof {
                lemma_linear_index(x as int, y as int, w as int);
                assert forall|i: int| 0 <= i < out@.len() implies out@[i] == i4_byte(
                    bits@,
                    w as int,
                    i,
                ) by {
                    if i >= 4 * p {
                        vstd::arithmetic::div_mod::lemma_fundamental_div_mod_converse(
                            i,
                            4,
                            p,
                            i - 4 * p,
                        );
                    }
                }
            }
            x = x + 1;
        }
        y = y + 1;
        proof {
            assert(y * w == (y - 1) * w + w) by {
                vstd::arithmetic::mul::lemma_mul_is_distributive_sub_other_way(w as int, y as int, 1);
            }
        }
    }
    proof {
        assert forall|x: int, y: int| 0 <= x < width && 0 <= y < height implies pix4(
            out@,
            width as int,
            x,
            y,
        ) == i4_pixel(bits@, width as int, x, y) by {
            lemma_pix_in_range(x, y, width as int, height as int);
            lemma_linear_index(x, y, width as int);
            let p = y * (width as int) + x;
            assert forall|k: int| 0 <= k < 4 implies out@[4 * p + k] == byte_of(
                i4_pixel(bits@, width as int, x, y),
                k,
            ) by {
                vstd::arithmetic::div_mod::lemma_fundamental_div_mod_converse(4 * p + k, 4, p, k);
            }
        }
    }
    out
}

/// The byte length an IA4 bitstream must have: 8x4 blocks of 32 bytes.
pub open spec fn ia4_req(w: int, h: int) -> int {
    req_bytes(w, h, 8, 4, 32)
}

/// The bitstream byte holding pixel (x, y) of an IA4 image.
pub open spec fn ia4_off(w: int, x: int, y: int) -> int {
    block_index(w, x, y, 8, 4) * 32 + block_pos(x, y, 8, 4)
}

/// The decoded pixel: high nibble alpha, low nibble luminance, each
/// widened by `* 0x11`; the luminance fills B, G and R.
pub open spec fn ia4_pixel(bits: Seq<u8>, w: int, x: int, y: int) -> (u8, u8, u8, u8) {
    let d = bits[ia4_off(w, x, y)];
    let lum = ((d & 0x0F) * 0x11) as u8;
    let alpha = (((d & 0xF0) >> 4) * 0x11) as u8;
    (lum, lum, lum, alpha)
}

/// Byte `i` of the raster buffer an IA4 bitstream decodes to.
pub open spec fn ia4_byte(bits: Seq<u8>, w: int, i: int) -> u8 {
    byte_of(ia4_pixel(bits, w, (i / 4) % w, (i / 4) / w), i % 4)
}

proof fn lemma_ia4_off_bound(w: int, h: int, x: int, y: int)
    requires
        0 <= x < w,
        0 <= y < h,
    ensures
        0 <= ia4_off(w, x, y),
        ia4_off(w, x, y) < ia4_req(w, h),
        block_index(w, x, y, 8, 4) * 32 + 32 <= ia4_req(w, h),
{
    lemma_block_byte_bound(x, y, w, h, 8, 4, 32);
    vstd::arithmetic::div_mod::lemma_mod_bound(y, 4);
    vstd::arithmetic::div_mod::lemma_mod_bound(x, 8);
}

/// Decodes an IA4 bitstream: one byte per pixel, 8x4 blocks, alpha in the
/// high nibble and luminance in the low nibble.
#[verifier::loop_isolation(false)]
pub fn decodeia4(bits: &Vec<u8>, width: u16, height: u16) -> (r: Vec<u8>)
    requires
        ia4_req(width as int, height as int) <= bits@.len(),
        4 * (width as int) * (height as int) <= usize::MAX,
    ensures
        r@.len() == 4 * (width as int) * (height as int),
        forall|x: int, y: int|
            0 <= x < width && 0 <= y < height ==> pix4(r@, width as int, x, y) == ia4_pixel(
                bits@,
                width as int,
                x,
                y,
            ),
{
    let w = width as usize;
    let h = height as usize;
    let nbw: usize = (w + 7) / 8;
    let mut out: Vec<u8> = Vec::new();
    let mut y: usize = 0;
    proof {
        vstd::std_specs::vec::axiom_spec_len(bits);
        vstd::arithmetic::mul::lemma_mul_nonnegative(h as int, w as int);
        assert(4 * (width as int) * (height as int) == 4 * ((height as int) * (width as int)))
            by {
            vstd::arithmetic::mul::lemma_mul_is_commutative(width as int, height as int);
            vstd::arithmetic::mul::lemma_mul_is_associative(4, width as int, height as int);
        }
    }
    while y < h
        invariant
            y <= h,
            out@.len() == 4 * (y * w),
            forall|i: int| 0 <= i < out@.len() ==> out@[i] == ia4_byte(bits@, w as int, i),
        decreases h - y,
    {
        let mut x: usize = 0;
        while x < w
            invariant
                x <= w,
                out@.len() == 4 * (y * w + x),
                forall|i: int| 0 <= i < out@.len() ==> out@[i] == ia4_byte(bits@, w as int, i),
            decreases w - x,
        {
            proof {
                vstd::std_specs::vec::axiom_spec_len(bits);
                lemma_ia4_off_bound(w as int, h as int, x as int, y as int);
                lemma_pix_in_range(x as int, y as int, w as int, h as int);
            }
            let bi: usize = (y / 4) * nbw + x / 8;
            let off: usize = bi * 32 + (y % 4) * 8 + x % 8;
            proof {
                assert(off as int == ia4_off(w as int, x as int, y as int));
            }
            let d = bits[off];
            proof {
                assert((d & 0xF0) >> 4 < 16 && d & 0x0F < 16) by (bit_vector);
            }
            let lum: u8 = (d & 0x0F) * 0x11;
            let alpha: u8 = ((d & 0xF0) >> 4) * 0x11;
            let ghost p = (y * w + x) as int;
            out.push(lum);
            out.push(lum);
            out.push(lum);
            out.push(alpha);
            proof {
                lemma_linear_index(x as int, y as int, w as int);
                assert forall|i: int| 0 <= i < out@.len() implies out@[i] == ia4_byte(
                    bits@,
                    w as int,
                    i,
                ) by {
                    if i >= 4 * p {
                        vstd::arithmetic::div_mod::lemma_fundamental_div_mod_converse(
                            i,
                            4,
                            p,
                            i - 4 * p,
                        );
                    }
                }
            }
            x = x + 1;
        }
        y = y + 1;
        proof {
            assert(y * w == (y - 1) * w + w) by {
                vstd::arithmetic::mul::lemma_mul_is_distributive_sub_other_way(w as int, y as int, 1);
            }
        }
    }
    proof {
        assert forall|x: int, y: int| 0 <= x < width && 0 <= y < height implies pix4(
            out@,
            width as int,
            x,
            y,
        ) == ia4_pixel(bits@, width as int, x, y) by {
            lemma_pix_in_range(x, y, width as int, height as int);
            lemma_linear_index(x, y, width as int);
            let p = y * (width as int) + x;
            assert forall|k: int| 0 <= k < 4 implies out@[4 * p + k] == byte_of(
                ia4_pixel(bits@, width as int, x, y),
                k,
            ) by {
                vstd::arithmetic::div_mod::lemma_fundamental_div_mod_converse(4 * p + k, 4, p, k);
            }
        }
    }
    out
}

/// The byte length an IA8 bitstream must have: 4x4 blocks of 32 bytes.
pub open spec fn ia8_req(w: int, h: int) -> int {
    req_bytes(w, h, 4, 4, 32)
}

/// The first of the two bitstream bytes holding pixel (x, y) of an IA8
/// image.
pub open spec fn ia8_off(w: int, x: int, y: int) -> int {
    block_index(w, x, y, 4, 4) * 32 + 2 * block_pos(x, y, 4, 4)
}

/// The decoded pixel: byte 0 is alpha, byte 1 a luminance replicated
/// across B, G and R.
pub open spec fn ia8_pixel(bits: Seq<u8>, w: int, x: int, y: int) -> (u8, u8, u8, u8) {
    let a = bits[ia8_off(w, x, y)];
    let lum = bits[ia8_off(w, x, y) + 1];
    (lum, lum, lum, a)
}

/// Byte `i` of the raster buffer an IA8 bitstream decodes to.
pub open spec fn ia8_byte(bits: Seq<u8>, w: int, i: int) -> u8 {
    byte_of(ia8_pixel(bits, w, (i / 4) % w, (i / 4) / w), i % 4)
}

proof fn lemma_ia8_off_bound(w: int, h: int, x: int, y: int)
    requires
        0 <= x < w,
        0 <= y < h,
    ensures
        0 <= ia8_off(w, x, y),
        ia8_off(w, x, y) + 2 <= ia8_req(w, h),
        block_index(w, x, y, 4, 4) * 32 + 32 <= ia8_req(w, h),
{
    lemma_block_byte_bound(x, y, w, h, 4, 4, 32);
    vstd::arithmetic::div_mod::lemma_mod_bound(y, 4);
    vstd::arithmetic::div_mod::lemma_mod_bound(x, 4);
}

/// Decodes an IA8 bitstream: two bytes per pixel, 4x4 blocks, alpha first
/// then a luminance replicated across B, G and R.
#[verifier::loop_isolation(false)]
pub fn decodeia8(bits: &Vec<u8>, width: u16, height: u16) -> (r: Vec<u8>)
    requires
        ia8_req(width as int, height as int) <= bits@.len(),
        4 * (width as int) * (height as int) <= usize::MAX,
    ensures
        r@.len() == 4 * (width as int) * (height as int),
        forall|x: int, y: int|
            0 <= x < width && 0 <= y < height ==> pix4(r@, width as int, x, y) == ia8_pixel(
                bits@,
                width as int,
                x,
                y,
            ),
{
    let w = width as usize;
    let h = height as usize;
    let nbw: usize = (w + 3) / 4;
    let mut out: Vec<u8> = Vec::new();
    let mut y: usize = 0;
    proof {
        vstd::std_specs::vec::axiom_spec_len(bits);
        vstd::arithmetic::mul::lemma_mul_nonnegative(h as int, w as int);
        assert(4 * (width as int) * (height as int) == 4 * ((height as int) * (width as int)))
            by {
            vstd::arithmetic::mul::lemma_mul_is_commutative(width as int, height as int);
            vstd::arithmetic::mul::lemma_mul_is_associative(4, width as int, height as int);
        }
    }
    while y < h
        invariant
            y <= h,
            out@.len() == 4 * (y * w),
            forall|i: int| 0 <= i < out@.len() ==> out@[i] == ia8_byte(bits@, w as int, i),
        decreases h - y,
    {
        let mut x: usize = 0;
        while x < w
            invariant
                x <= w,
                out@.len() == 4 * (y * w + x),
                forall|i: int| 0 <= i < out@.len() ==> out@[i] == ia8_byte(bits@, w as int, i),
            decreases w - x,
        {
            proof {
                vstd::std_specs::vec::axiom_spec_len(bits);
                lemma_ia8_off_bound(w as int, h as int, x as int, y as int);
                lemma_pix_in_range(x as int, y as int, w as int, h as int);
            }
            let bi: usize = (y / 4) * nbw + x / 4;
            let off: usize = bi * 32 + 2 * ((y % 4) * 4 + x % 4);
            proof {
                assert(off as int == ia8_off(w as int, x as int, y as int));
            }
            let a = bits[off];
            let lum = bits[off + 1];
            let ghost p = (y * w + x) as int;
            out.push(lum);
            out.push(lum);
            out.push(lum);
            out.push(a);
            proof {
                lemma_linear_index(x as int, y as int, w as int);
                assert forall|i: int| 0 <= i < out@.len() implies out@[i] == ia8_byte(
                    bits@,
                    w as int,
                    i,
                ) by {
                    if i >= 4 * p {
                        vstd::arithmetic::div_mod::lemma_fundamental_div_mod_converse(
                            i,
                            4,
                            p,
                            i - 4 * p,
                        );
                    }
                }
            }
            x = x + 1;
        }
        y = y + 1;
        proof {
            assert(y * w == (y - 1) * w + w) by {
                vstd::arithmetic::mul::lemma_mul_is_distributive_sub_other_way(w as int, y as int, 1);
            }
        }
    }
    proof {
        assert forall|x: int, y: int| 0 <= x < width && 0 <= y < height implies pix4(
            out@,
            width as int,
            x,
            y,
        ) == ia8_pixel(bits@, width as int, x, y) by {
            lemma_pix_in_range(x, y, width as int, height as int);
            lemma_linear_index(x, y, width as int);
            let p = y * (width as int) + x;
            assert forall|k: int| 0 <= k < 4 implies out@[4 * p + k] == byte_of(
                ia8_pixel(bits@, width as int, x, y),
                k,
            ) by {
                vstd::arithmetic::div_mod::lemma_fundamental_div_mod_converse(4 * p + k, 4, p, k);
            }
        }
    }
    out
}

/// The byte length an RGB565 bitstream must have: 4x4 blocks of 32 bytes.
pub open spec fn rgb565_req(w: int, h: int) -> int {
    req_bytes(w, h, 4, 4, 32)
}

/// The first of the two bitstream bytes holding pixel (x, y) of an RGB565
/// image.
pub open spec fn rgb565_off(w: int, x: int, y: int) -> int {
    block_index(w, x, y, 4, 4) * 32 + 2 * block_pos(x, y, 4, 4)
}

/// The decoded pixel: the big-endian RGB565 word expanded by bit
/// replication, alpha forced opaque.
pub open spec fn rgb565_dec_pixel(bits: Seq<u8>, w: int, x: int, y: int) -> (u8, u8, u8, u8) {
    rgb565_pixel(be16(bits, rgb565_off(w, x, y)))
}

/// Byte `i` of the raster buffer an RGB565 bitstream decodes to.
pub open spec fn rgb565_byte(bits: Seq<u8>, w: int, i: int) -> u8 {
    byte_of(rgb565_dec_pixel(bits, w, (i / 4) % w, (i / 4) / w), i % 4)
}

proof fn lemma_rgb565_off_bound(w: int, h: int, x: int, y: int)
    requires
        0 <= x < w,
        0 <= y < h,
    ensures
        0 <= rgb565_off(w, x, y),
        rgb565_off(w, x, y) + 2 <= rgb565_req(w, h),
        block_index(w, x, y, 4, 4) * 32 + 32 <= rgb565_req(w, h),
{
    lemma_block_byte_bound(x, y, w, h, 4, 4, 32);
    vstd::arithmetic::div_mod::lemma_mod_bound(y, 4);
    vstd::arithmetic::div_mod::lemma_mod_bound(x, 4);
}

/// Decodes an RGB565 bitstream: one big-endian 16-bit word per pixel, 4x4
/// blocks.
#[verifier::loop_isolation(false)]
pub fn decodergb565(bits: &Vec<u8>, width: u16, height: u16) -> (r: Vec<u8>)
    requires
        rgb565_req(width as int, height as int) <= bits@.len(),
        4 * (width as int) * (height as int) <= usize::MAX,
    ensures
        r@.len() == 4 * (width as int) * (height as int),
        forall|x: int, y: int|
            0 <= x < width && 0 <= y < height ==> pix4(r@, width as int, x, y) == rgb565_dec_pixel(
                bits@,
                width as int,
                x,
                y,
            ),
{
    let w = width as usize;
    let h = height as usize;
    let nbw: usize = (w + 3) / 4;
    let mut out: Vec<u8> = Vec::new();
    let mut y: usize = 0;
    proof {
        vstd::std_specs::vec::axiom_spec_len(bits);
        vstd::arithmetic::mul::lemma_mul_nonnegative(h as int, w as int);
        assert(4 * (width as int) * (height as int) == 4 * ((height as int) * (width as int)))
            by {
            vstd::arithmetic::mul::lemma_mul_is_commutative(width as int, height as int);
            vstd::arithmetic::mul::lemma_mul_is_associative(4, width as int, height as int);
        }
    }
    while y < h
        invariant
            y <= h,
            out@.len() == 4 * (y * w),
            forall|i: int| 0 <= i < out@.len() ==> out@[i] == rgb565_byte(bits@, w as int, i),
        decreases h - y,
    {
        let mut x: usize = 0;
        while x < w
            invariant
                x <= w,
                out@.len() == 4 * (y * w + x),
                forall|i: int| 0 <= i < out@.len() ==> out@[i] == rgb565_byte(bits@, w as int, i),
            decreases w - x,
        {
            proof {
                vstd::std_specs::vec::axiom_spec_len(bits);
                lemma_rgb565_off_bound(w as int, h as int, x as int, y as int);
                lemma_pix_in_range(x as int, y as int, w as int, h as int);
            }
            let bi: usize = (y / 4) * nbw + x / 4;
            let off: usize = bi * 32 + 2 * ((y % 4) * 4 + x % 4);
            proof {
                assert(off as int == rgb565_off(w as int, x as int, y as int));
            }
            let sourcepixel = crate::pixel::read_be16(bits, off);
            let (b, g, rr, a) = crate::pixel::rgb565_bytes(sourcepixel);
            let ghost p = (y * w + x) as int;
            out.push(b);
            out.push(g);
            out.push(rr);
            out.push(a);
            proof {
                lemma_linear_index(x as int, y as int, w as int);
                assert forall|i: int| 0 <= i < out@.len() implies out@[i] == rgb565_byte(
                    bits@,
                    w as int,
                    i,
                ) by {
                    if i >= 4 * p {
                        vstd::arithmetic::div_mod::lemma_fundamental_div_mod_converse(
                            i,
                            4,
                            p,
                            i - 4 * p,
                        );
                    }
                }
            }
            x = x + 1;
        }
        y = y + 1;
        proof {
            assert(y * w == (y - 1) * w + w) by {
                vstd::arithmetic::mul::lemma_mul_is_distributive_sub_other_way(w as int, y as int, 1);
            }
        }
    }
    proof {
        assert forall|x: int, y: int| 0 <= x < width && 0 <= y < height implies pix4(
            out@,
            width as int,
            x,
            y,
        ) == rgb565_dec_pixel(bits@, width as int, x, y) by {
            lemma_pix_in_range(x, y, width as int, height as int);
            lemma_linear_index(x, y, width as int);
            let p = y * (width as int) + x;
            assert forall|k: int| 0 <= k < 4 implies out@[4 * p + k] == byte_of(
                rgb565_dec_pixel(bits@, width as int, x, y),
                k,
            ) by {
                vstd::arithmetic::div_mod::lemma_fundamental_div_mod_converse(4 * p + k, 4, p, k);
            }
        }
    }
    out
}

/// The byte length an RGB5A3 bitstream must have: 4x4 blocks of 32 bytes.
pub open spec fn rgb5a3_req(w: int, h: int) -> int {
    req_bytes(w, h, 4, 4, 32)
}

/// The first of the two bitstream bytes holding pixel (x, y) of an RGB5A3
/// image.
pub open spec fn rgb5a3_off(w: int, x: int, y: int) -> int {
    block_index(w, x, y, 4, 4) * 32 + 2 * block_pos(x, y, 4, 4)
}

/// The decoded pixel: the big-endian RGB5A3 word expanded by bit
/// replication.
pub open spec fn rgb5a3_dec_pixel(bits: Seq<u8>, w: int, x: int, y: int) -> (u8, u8, u8, u8) {
    crate::pixel::rgb5a3_pixel(be16(bits, rgb5a3_off(w, x, y)))
}

/// Byte `i` of the raster buffer an RGB5A3 bitstream decodes to.
pub open spec fn rgb5a3_byte(bits: Seq<u8>, w: int, i: int) -> u8 {
    byte_of(rgb5a3_dec_pixel(bits, w, (i / 4) % w, (i / 4) / w), i % 4)
}

/// Decodes an RGB5A3 bitstream: one big-endian 16-bit word per pixel, 4x4
/// blocks, opaque 5/5/5 color or translucent 3/4/4/4 color by the top bit.
#[verifier::loop_isolation(false)]
pub fn decodergb5a3(bits: &Vec<u8>, width: u16, height: u16) -> (r: Vec<u8>)
    requires
        rgb5a3_req(width as int, height as int) <= bits@.len(),
        4 * (width as int) * (height as int) <= usize::MAX,
    ensures
        r@.len() == 4 * (width as int) * (height as int),
        forall|x: int, y: int|
            0 <= x < width && 0 <= y < height ==> pix4(r@, width as int, x, y) == rgb5a3_dec_pixel(
                bits@,
                width as int,
                x,
                y,
            ),
{
    let w = width as usize;
    let h = height as usize;
    let nbw: usize = (w + 3) / 4;
    let mut out: Vec<u8> = Vec::new();
    let mut y: usize = 0;
    proof {
        vstd::std_specs::vec::axiom_spec_len(bits);
        vstd::arithmetic::mul::lemma_mul_nonnegative(h as int, w as int);
        assert(4 * (width as int) * (height as int) == 4 * ((height as int) * (width as int)))
            by {
            vstd::arithmetic::mul::lemma_mul_is_commutative(width as int, height as int);
            vstd::arithmetic::mul::lemma_mul_is_associative(4, width as int, height as int);
        }
    }
    while y < h
        invariant
            y <= h,
            out@.len() == 4 * (y * w),
            forall|i: int| 0 <= i < out@.len() ==> out@[i] == rgb5a3_byte(bits@, w as int, i),
        decreases h - y,
    {
        let mut x: usize = 0;
        while x < w
            invariant
                x <= w,
                out@.len() == 4 * (y * w + x),
                forall|i: int| 0 <= i < out@.len() ==> out@[i] == rgb5a3_byte(bits@, w as int, i),
            decreases w - x,
        {
            proof {
                vstd::std_specs::vec::axiom_spec_len(bits);
                lemma_rgb565_off_bound(w as int, h as int, x as int, y as int);
                lemma_pix_in_range(x as int, y as int, w as int, h as int);
            }
            let bi: usize = (y / 4) * nbw + x / 4;
            let off: usize = bi * 32 + 2 * ((y % 4) * 4 + x % 4);
            proof {
                assert(off as int == rgb5a3_off(w as int, x as int, y as int));
            }
            let sourcepixel = crate::pixel::read_be16(bits, off);
            let (b, g, rr, a) = crate::pixel::rgb5a3_bytes(sourcepixel);
            let ghost p = (y * w + x) as int;
            out.push(b);
            out.push(g);
            out.push(rr);
            out.push(a);
            proof {
                lemma_linear_index(x as int, y as int, w as int);
                assert forall|i: int| 0 <= i < out@.len() implies out@[i] == rgb5a3_byte(
                    bits@,
                    w as int,
                    i,
                ) by {
                    if i >= 4 * p {
                        vstd::arithmetic::div_mod::lemma_fundamental_div_mod_converse(
                            i,
                            4,
                            p,
                            i - 4 * p,
                        );
                    }
                }
            }
            x = x + 1;
        }
        y = y + 1;
        proof {
            assert(y * w == (y - 1) * w + w) by {
                vstd::arithmetic::mul::lemma_mul_is_distributive_sub_other_way(w as int, y as int, 1);
            }
        }
    }
    proof {
        assert forall|x: int, y: int| 0 <= x < width && 0 <= y < height implies pix4(
            out@,
            width as int,
            x,
            y,
        ) == rgb5a3_dec_pixel(bits@, width as int, x, y) by {
            lemma_pix_in_range(x, y, width as int, height as int);
            lemma_linear_index(x, y, width as int);
            let p = y * (width as int) + x;
            assert forall|k: int| 0 <= k < 4 implies out@[4 * p + k] == byte_of(
                rgb5a3_dec_pixel(bits@, width as int, x, y),
                k,
            ) by {
                vstd::arithmetic::div_mod::lemma_fundamental_div_mod_converse(4 * p + k, 4, p, k);
            }
        }
    }
    out
}

/// The byte length an RGBA32 bitstream must have: 4x4 blocks of 64 bytes.
pub open spec fn rgba32_req(w: int, h: int) -> int {
    req_bytes(w, h, 4, 4, 64)
}

/// The first byte of the block holding pixel (x, y) of an RGBA32 image.
pub open spec fn rgba32_base(w: int, x: int, y: int) -> int {
    block_index(w, x, y, 4, 4) * 64
}

/// The decoded pixel: each block stores an alpha-red plane of 32 bytes,
/// then a green-blue plane of 32 bytes, both in block pixel order.
pub open spec fn rgba32_pixel(bits: Seq<u8>, w: int, x: int, y: int) -> (u8, u8, u8, u8) {
    let base = rgba32_base(w, x, y);
    let pos = block_pos(x, y, 4, 4);
    (bits[base + 32 + 2 * pos + 1], bits[base + 32 + 2 * pos], bits[base + 2 * pos + 1], bits[base
        + 2 * pos])
}

/// Byte `i` of the raster buffer an RGBA32 bitstream decodes to.
pub open spec fn rgba32_byte(bits: Seq<u8>, w: int, i: int) -> u8 {
    byte_of(rgba32_pixel(bits, w, (i / 4) % w, (i / 4) / w), i % 4)
}

proof fn lemma_rgba32_off_bound(w: int, h: int, x: int, y: int)
    requires
        0 <= x < w,
        0 <= y < h,
    ensures
        0 <= rgba32_base(w, x, y),
        rgba32_base(w, x, y) + 64 <= rgba32_req(w, h),
        0 <= block_pos(x, y, 4, 4) < 16,
{
    lemma_block_byte_bound(x, y, w, h, 4, 4, 64);
    vstd::arithmetic::div_mod::lemma_mod_bound(y, 4);
    vstd::arithmetic::div_mod::lemma_mod_bound(x, 4);
}

/// Decodes an RGBA32 bitstream: 4x4 blocks of 64 bytes split into an AR
/// plane then a GB plane, two bytes per pixel in each plane.
#[verifier::loop_isolation(false)]
pub fn decodergba32(bits: &Vec<u8>, width: u16, height: u16) -> (r: Vec<u8>)
    requires
        rgba32_req(width as int, height as int) <= bits@.len(),
        4 * (width as int) * (height as int) <= usize::MAX,
    ensures
        r@.len() == 4 * (width as int) * (height as int),
        forall|x: int, y: int|
            0 <= x < width && 0 <= y < height ==> pix4(r@, width as int, x, y) == rgba32_pixel(
                bits@,
                width as int,
                x,
                y,
            ),
{
    let w = width as usize;
    let h = height as usize;
    let nbw: usize = (w + 3) / 4;
    let mut out: Vec<u8> = Vec::new();
    let mut y: usize = 0;
    proof {
        vstd::std_specs::vec::axiom_spec_len(bits);
        vstd::arithmetic::mul::lemma_mul_nonnegative(h as int, w as int);
        assert(4 * (width as int) * (height as int) == 4 * ((height as int) * (width as int)))
            by {
            vstd::arithmetic::mul::lemma_mul_is_commutative(width as int, height as int);
            vstd::arithmetic::mul::lemma_mul_is_associative(4, width as int, height as int);
        }
    }
    while y < h
        invariant
            y <= h,
            out@.len() == 4 * (y * w),
            forall|i: int| 0 <= i < out@.len() ==> out@[i] == rgba32_byte(bits@, w as int, i),
        decreases h - y,
    {
        let mut x: usize = 0;
        while x < w
            invariant
                x <= w,
                out@.len() == 4 * (y * w + x),
                forall|i: int| 0 <= i < out@.len() ==> out@[i] == rgba32_byte(bits@, w as int, i),
            decreases w - x,
        {
            proof {
                vstd::std_specs::vec::axiom_spec_len(bits);
                lemma_rgba32_off_bound(w as int, h as int, x as int, y as int);
                lemma_pix_in_range(x as int, y as int, w as int, h as int);
            }
            let bi: usize = (y / 4) * nbw + x / 4;
            let base: usize = bi * 64;
            let pos: usize = (y % 4) * 4 + x % 4;
            proof {
                assert(base as int == rgba32_base(w as int, x as int, y as int));
                assert(pos as int == block_pos(x as int, y as int, 4, 4));
            }
            let a = bits[base + 2 * pos];
            let rr = bits[base + 2 * pos + 1];
            let g = bits[base + 32 + 2 * pos];
            let b = bits[base + 32 + 2 * pos + 1];
            let ghost p = (y * w + x) as int;
            out.push(b);
            out.push(g);
            out.push(rr);
            out.push(a);
            proof {
                lemma_linear_index(x as int, y as int, w as int);
                assert forall|i: int| 0 <= i < out@.len() implies out@[i] == rgba32_byte(
                    bits@,
                    w as int,
                    i,
                ) by {
                    if i >= 4 * p {
                        vstd::arithmetic::div_mod::lemma_fundamental_div_mod_converse(
                            i,
                            4,
                            p,
                            i - 4 * p,
                        );
                    }
                }
            }
            x = x + 1;
        }
        y = y + 1;
        proof {
            assert(y * w == (y - 1) * w + w) by {
                vstd::arithmetic::mul::lemma_mul_is_distributive_sub_other_way(w as int, y as int, 1);
            }
        }
    }
    proof {
        assert forall|x: int, y: int| 0 <= x < width && 0 <= y < height implies pix4(
            out@,
            width as int,
            x,
            y,
        ) == rgba32_pixel(bits@, width as int, x, y) by {
            lemma_pix_in_range(x, y, width as int, height as int);
            lemma_linear_index(x, y, width as int);
            let p = y * (width as int) + x;
            assert forall|k: int| 0 <= k < 4 implies out@[4 * p + k] == byte_of(
                rgba32_pixel(bits@, width as int, x, y),
                k,
            ) by {
                vstd::arithmetic::div_mod::lemma_fundamental_div_mod_converse(4 * p + k, 4, p, k);
            }
        }
    }
    out
}

/// Unpacks palette entry `pallidx` into the four pixel bytes.
fn palette_pixel_bytes(palettedata: &Vec<u8>, pallidx: usize, format: PaletteFormats) -> (r: (
    u8,
    u8,
    u8,
    u8,
))
    requires
        2 * pallidx + 2 <= palettedata@.len(),
    ensures
        r == palette_entry_pixel(palettedata@, pallidx as int, format),
{
    proof {
        vstd::std_specs::vec::axiom_spec_len(palettedata);
    }
    match format {
        PaletteFormats::IA8 => {
            let a = palettedata[2 * pallidx];
            let lum = palettedata[2 * pallidx + 1];
            (lum, lum, lum, a)
        },
        PaletteFormats::RGB565 => {
            let p = crate::pixel::read_be16(palettedata, 2 * pallidx);
            crate::pixel::rgb565_bytes(p)
        },
        PaletteFormats::RGB5A3 => {
            let p = crate::pixel::read_be16(palettedata, 2 * pallidx);
            crate::pixel::rgb5a3_bytes(p)
        },
    }
}

/// Writes the pixel that palette entry `pallidx` unpacks to at `destoff`;
/// the rest of the buffer is untouched.
pub fn unpackpixelfrompalette(
    pallidx: usize,
    finaldest: &mut Vec<u8>,
    destoff: usize,
    palettedata: &Vec<u8>,
    format: PaletteFormats,
)
    requires
        2 * pallidx + 2 <= palettedata@.len(),
        destoff + 4 <= old(finaldest)@.len(),
    ensures
        final(finaldest)@.len() == old(finaldest)@.len(),
        final(finaldest)@[destoff as int] == palette_entry_pixel(
            palettedata@,
            pallidx as int,
            format,
        ).0,
        final(finaldest)@[destoff + 1] == palette_entry_pixel(
            palettedata@,
            pallidx as int,
            format,
        ).1,
        final(finaldest)@[destoff + 2] == palette_entry_pixel(
            palettedata@,
            pallidx as int,
            format,
        ).2,
        final(finaldest)@[destoff + 3] == palette_entry_pixel(
            palettedata@,
            pallidx as int,
            format,
        ).3,
        forall|i: int|
            0 <= i < old(finaldest)@.len() && !(destoff <= i < destoff + 4) ==> final(finaldest)@[i]
                == old(finaldest)@[i],
{
    proof {
        vstd::std_specs::vec::axiom_spec_len(finaldest);
    }
    let (b, g, r, a) = palette_pixel_bytes(palettedata, pallidx, format);
    finaldest.set(destoff, b);
    finaldest.set(destoff + 1, g);
    finaldest.set(destoff + 2, r);
    finaldest.set(destoff + 3, a);
}

/// The byte length a C4 bitstream must have: 8x8 blocks of 32 bytes.
pub open spec fn c4_req(w: int, h: int) -> int {
    req_bytes(w, h, 8, 8, 32)
}

/// The 4-bit palette index of pixel (x, y) in a C4 bitstream: high nibble
/// at even x, low nibble at odd x.
pub open spec fn c4_index(bits: Seq<u8>, w: int, x: int, y: int) -> u8 {
    let d = bits[i4_off(w, x, y)];
    if x % 2 == 0 {
        (d & 0xF0) >> 4
    } else {
        d & 0x0F
    }
}

/// Every C4 palette index of the image fits inside the palette buffer.
pub open spec fn c4_ok(bits: Seq<u8>, pal: Seq<u8>, w: int, h: int) -> bool {
    forall|x: int, y: int|
        0 <= x < w && 0 <= y < h ==> 2 * (#[trigger] c4_index(bits, w, x, y) as int) + 2
            <= pal.len()
}

/// The decoded pixel: the indexed palette entry, unpacked.
pub open spec fn c4_pixel(bits: Seq<u8>, pal: Seq<u8>, f: PaletteFormats, w: int, x: int, y: int) -> (
    u8,
    u8,
    u8,
    u8,
) {
    palette_entry_pixel(pal, c4_index(bits, w, x, y) as int, f)
}

/// Byte `i` of the raster buffer a C4 bitstream decodes to.
pub open spec fn c4_byte(bits: Seq<u8>, pal: Seq<u8>, f: PaletteFormats, w: int, i: int) -> u8 {
    byte_of(c4_pixel(bits, pal, f, w, (i / 4) % w, (i / 4) / w), i % 4)
}

/// Checks that every C4 palette index of the image fits inside the
/// palette buffer.
#[verifier::loop_isolation(false)]
pub fn c4_indices_ok(bits: &Vec<u8>, width: u16, height: u16, palettedata: &Vec<u8>) -> (r: bool)
    requires
        c4_req(width as int, height as int) <= bits@.len(),
    ensures
        r == c4_ok(bits@, palettedata@, width as int, height as int),
{
    let w = width as usize;
    let h = height as usize;
    let nbw: usize = (w + 7) / 8;
    let pallen = palettedata.len();
    let mut y: usize = 0;
    proof {
        vstd::std_specs::vec::axiom_spec_len(bits);
    }
    while y < h
        invariant
            y <= h,
            forall|xx: int, yy: int|
                0 <= xx < w && 0 <= yy < y ==> 2 * (#[trigger] c4_index(bits@, w as int, xx, yy)
                    as int) + 2 <= palettedata@.len(),
        decreases h - y,
    {
        let mut x: usize = 0;
        while x < w
            invariant
                x <= w,
                forall|xx: int, yy: int|
                    (0 <= xx < w && 0 <= yy < y) || (yy == y && 0 <= xx < x) ==> 2 * (
                    #[trigger] c4_index(bits@, w as int, xx, yy) as int) + 2 <= palettedata@.len(),
            decreases w - x,
        {
            proof {
                lemma_i4_off_bound(w as int, h as int, x as int, y as int);
            }
            let bi: usize = (y / 8) * nbw + x / 8;
            let off: usize = bi * 32 + ((y % 8) * 8 + x % 8) / 2;
            proof {
                assert(off as int == i4_off(w as int, x as int, y as int));
            }
            let d = bits[off];
            proof {
                assert((d & 0xF0) >> 4 < 16 && d & 0x0F < 16) by (bit_vector);
            }
            let idx: u8 = if x % 2 == 0 {
                (d & 0xF0) >> 4
            } else {
                d & 0x0F
            };
            if 2 * (idx as usize) + 2 > pallen {
                proof {
                    assert(c4_index(bits@, w as int, x as int, y as int) == idx);
                }
                return false;
            }
            x = x + 1;
        }
        y = y + 1;
    }
    true
}

/// Decodes a C4 bitstream: 4-bit palette indices in 8x8 blocks, each
/// resolved through the palette.
#[verifier::loop_isolation(false)]
pub fn decodec4(
    bits: &Vec<u8>,
    width: u16,
    height: u16,
    pallete: &Palette,
    format: PaletteFormats,
) -> (r: Vec<u8>)
    requires
        c4_req(width as int, height as int) <= bits@.len(),
        4 * (width as int) * (height as int) <= usize::MAX,
        c4_ok(bits@, pallete.palettedata@, width as int, height as int),
    ensures
        r@.len() == 4 * (width as int) * (height as int),
        forall|x: int, y: int|
            0 <= x < width && 0 <= y < height ==> pix4(r@, width as int, x, y) == c4_pixel(
                bits@,
                pallete.palettedata@,
                format,
                width as int,
                x,
                y,
            ),
{
    let w = width as usize;
    let h = height as usize;
    let nbw: usize = (w + 7) / 8;
    let mut out: Vec<u8> = Vec::new();
    let mut y: usize = 0;
    proof {
        vstd::std_specs::vec::axiom_spec_len(bits);
        vstd::arithmetic::mul::lemma_mul_nonnegative(h as int, w as int);
        assert(4 * (width as int) * (height as int) == 4 * ((height as int) * (width as int)))
            by {
            vstd::arithmetic::mul::lemma_mul_is_commutative(width as int, height as int);
            vstd::arithmetic::mul::lemma_mul_is_associative(4, width as int, height as int);
        }
    }
    while y < h
        invariant
            y <= h,
            out@.len() == 4 * (y * w),
            forall|i: int|
                0 <= i < out@.len() ==> out@[i] == c4_byte(
                    bits@,
                    pallete.palettedata@,
                    format,
                    w as int,
                    i,
                ),
        decreases h - y,
    {
        let mut x: usize = 0;
        while x < w
            invariant
                x <= w,
                out@.len() == 4 * (y * w + x),
                forall|i: int|
                    0 <= i < out@.len() ==> out@[i] == c4_byte(
                        bits@,
                        pallete.palettedata@,
                        format,
                        w as int,
                        i,
                    ),
            decreases w - x,
        {
            proof {
                vstd::std_specs::vec::axiom_spec_len(bits);
                lemma_i4_off_bound(w as int, h as int, x as int, y as int);
                lemma_pix_in_range(x as int, y as int, w as int, h as int);
            }
            let bi: usize = (y / 8) * nbw + x / 8;
            let off: usize = bi * 32 + ((y % 8) * 8 + x % 8) / 2;
            proof {
                assert(off as int == i4_off(w as int, x as int, y as int));
            }
            let d = bits[off];
            proof {
                assert((d & 0xF0) >> 4 < 16 && d & 0x0F < 16) by (bit_vector);
            }
            let idx: u8 = if x % 2 == 0 {
                (d & 0xF0) >> 4
            } else {
                d & 0x0F
            };
            proof {
                assert(c4_index(bits@, w as int, x as int, y as int) == idx);
                assert(2 * (idx as int) + 2 <= pallete.palettedata@.len());
            }
            let (b, g, rr, a) = palette_pixel_bytes(&pallete.palettedata, idx as usize, format);
            let ghost p = (y * w + x) as int;
            out.push(b);
            out.push(g);
            out.push(rr);
            out.push(a);
            proof {
                lemma_linear_index(x as int, y as int, w as int);
                assert forall|i: int| 0 <= i < out@.len() implies out@[i] == c4_byte(
                    bits@,
                    pallete.palettedata@,
                    format,
                    w as int,
                    i,
                ) by {
                    if i >= 4 * p {
                        vstd::arithmetic::div_mod::lemma_fundamental_div_mod_converse(
                            i,
                            4,
                            p,
                            i - 4 * p,
                        );
                    }
                }
            }
            x = x + 1;
        }
        y = y + 1;
        proof {
            assert(y * w == (y - 1) * w + w) by {
                vstd::arithmetic::mul::lemma_mul_is_distributive_sub_other_way(w as int, y as int, 1);
            }
        }
    }
    proof {
        assert forall|x: int, y: int| 0 <= x < width && 0 <= y < height implies pix4(
            out@,
            width as int,
            x,
            y,
        ) == c4_pixel(bits@, pallete.palettedata@, format, width as int, x, y) by {
            lemma_pix_in_range(x, y, width as int, height as int);
            lemma_linear_index(x, y, width as int);
            let p = y * (width as int) + x;
            assert forall|k: int| 0 <= k < 4 implies out@[4 * p + k] == byte_of(
                c4_pixel(bits@, pallete.palettedata@, format, width as int, x, y),
                k,
            ) by {
                vstd::arithmetic::div_mod::lemma_fundamental_div_mod_converse(4 * p + k, 4, p, k);
            }
        }
    }
    out
}

/// The byte length a C8 bitstream must have: 8x4 blocks of 32 bytes.
pub open spec fn c8_req(w: int, h: int) -> int {
    req_bytes(w, h, 8, 4, 32)
}

/// The 8-bit palette index of pixel (x, y) in a C8 bitstream.
pub open spec fn c8_index(bits: Seq<u8>, w: int, x: int, y: int) -> u8 {
    bits[i8_off(w, x, y)]
}

/// Every C8 palette index of the image fits inside the palette buffer.
pub open spec fn c8_ok(bits: Seq<u8>, pal: Seq<u8>, w: int, h: int) -> bool {
    forall|x: int, y: int|
        0 <= x < w && 0 <= y < h ==> 2 * (#[trigger] c8_index(bits, w, x, y) as int) + 2
            <= pal.len()
}

/// The decoded pixel: the indexed palette entry, unpacked.
pub open spec fn c8_pixel(bits: Seq<u8>, pal: Seq<u8>, f: PaletteFormats, w: int, x: int, y: int) -> (
    u8,
    u8,
    u8,
    u8,
) {
    palette_entry_pixel(pal, c8_index(bits, w, x, y) as int, f)
}

/// Byte `i` of the raster buffer a C8 bitstream decodes to.
pub open spec fn c8_byte(bits: Seq<u8>, pal: Seq<u8>, f: PaletteFormats, w: int, i: int) -> u8 {
    byte_of(c8_pixel(bits, pal, f, w, (i / 4) % w, (i / 4) / w), i % 4)
}

/// Checks that every C8 palette index of the image fits inside the
/// palette buffer.
#[verifier::loop_isolation(false)]
pub fn c8_indices_ok(bits: &Vec<u8>, width: u16, height: u16, palettedata: &Vec<u8>) -> (r: bool)
    requires
        c8_req(width as int, height as int) <= bits@.len(),
    ensures
        r == c8_ok(bits@, palettedata@, width as int, height as int),
{
    let w = width as usize;
    let h = height as usize;
    let nbw: usize = (w + 7) / 8;
    let pallen = palettedata.len();
    let mut y: usize = 0;
    proof {
        vstd::std_specs::vec::axiom_spec_len(bits);
    }
    while y < h
        invariant
            y <= h,
            forall|xx: int, yy: int|
                0 <= xx < w && 0 <= yy < y ==> 2 * (#[trigger] c8_index(bits@, w as int, xx, yy)
                    as int) + 2 <= palettedata@.len(),
        decreases h - y,
    {
        let mut x: usize = 0;
        while x < w
            invariant
                x <= w,
                forall|xx: int, yy: int|
                    (0 <= xx < w && 0 <= yy < y) || (yy == y && 0 <= xx < x) ==> 2 * (
                    #[trigger] c8_index(bits@, w as int, xx, yy) as int) + 2 <= palettedata@.len(),
            decreases w - x,
        {
            proof {
                lemma_i8_off_bound(w as int, h as int, x as int, y as int);
            }
            let bi: usize = (y / 4) * nbw + x / 8;
            let off: usize = bi * 32 + (y % 4) * 8 + x % 8;
            proof {
                assert(off as int == i8_off(w as int, x as int, y as int));
            }
            let idx = bits[off];
            if 2 * (idx as usize) + 2 > pallen {
                proof {
                    assert(c8_index(bits@, w as int, x as int, y as int) == idx);
                }
                return false;
            }
            x = x + 1;
        }
        y = y + 1;
    }
    true
}

/// Decodes a C8 bitstream: one palette index byte per pixel in 8x4
/// blocks, each resolved through the palette.
#[verifier::loop_isolation(false)]
pub fn decodec8(
    bits: &Vec<u8>,
    width: u16,
    height: u16,
    pallete: &Palette,
    format: PaletteFormats,
) -> (r: Vec<u8>)
    requires
        c8_req(width as int, height as int) <= bits@.len(),
        4 * (width as int) * (height as int) <= usize::MAX,
        c8_ok(bits@, pallete.palettedata@, width as int, height as int),
    ensures
        r@.len() == 4 * (width as int) * (height as int),
        forall|x: int, y: int|
            0 <= x < width && 0 <= y < height ==> pix4(r@, width as int, x, y) == c8_pixel(
                bits@,
                pallete.palettedata@,
                format,
                width as int,
                x,
                y,
            ),
{
    let w = width as usize;
    let h = height as usize;
    let nbw: usize = (w + 7) / 8;
    let mut out: Vec<u8> = Vec::new();
    let mut y: usize = 0;
    proof {
        vstd::std_specs::vec::axiom_spec_len(bits);
        vstd::arithmetic::mul::lemma_mul_nonnegative(h as int, w as int);
        assert(4 * (width as int) * (height as int) == 4 * ((height as int) * (width as int)))
            by {
            vstd::arithmetic::mul::lemma_mul_is_commutative(width as int, height as int);
            vstd::arithmetic::mul::lemma_mul_is_associative(4, width as int, height as int);
        }
    }
    while y < h
        invariant
            y <= h,
            out@.len() == 4 * (y * w),
            forall|i: int|
                0 <= i < out@.len() ==> out@[i] == c8_byte(
                    bits@,
                    pallete.palettedata@,
                    format,
                    w as int,
                    i,
                ),
        decreases h - y,
    {
        let mut x: usize = 0;
        while x < w
            invariant
                x <= w,
                out@.len() == 4 * (y * w + x),
                forall|i: int|
                    0 <= i < out@.len() ==> out@[i] == c8_byte(
                        bits@,
                        pallete.palettedata@,
                        format,
                        w as int,
                        i,
                    ),
            decreases w - x,
        {
            proof {
                vstd::std_specs::vec::axiom_spec_len(bits);
                lemma_i8_off_bound(w as int, h as int, x as int, y as int);
                lemma_pix_in_range(x as int, y as int, w as int, h as int);
            }
            let bi: usize = (y / 4) * nbw + x / 8;
            let off: usize = bi * 32 + (y % 4) * 8 + x % 8;
            proof {
                assert(off as int == i8_off(w as int, x as int, y as int));
            }
            let idx = bits[off];
            proof {
                assert(c8_index(bits@, w as int, x as int, y as int) == idx);
                assert(2 * (idx as int) + 2 <= pallete.palettedata@.len());
            }
            let (b, g, rr, a) = palette_pixel_bytes(&pallete.palettedata, idx as usize, format);
            let ghost p = (y * w + x) as int;
            out.push(b);
            out.push(g);
            out.push(rr);
            out.push(a);
            proof {
                lemma_linear_index(x as int, y as int, w as int);
                assert forall|i: int| 0 <= i < out@.len() implies out@[i] == c8_byte(
                    bits@,
                    pallete.palettedata@,
                    format,
                    w as int,
                    i,
                ) by {
                    if i >= 4 * p {
                        vstd::arithmetic::div_mod::lemma_fundamental_div_mod_converse(
                            i,
                            4,
                            p,
                            i - 4 * p,
                        );
                    }
                }
            }
            x = x + 1;
        }
        y = y + 1;
        proof {
            assert(y * w == (y - 1) * w + w) by {
                vstd::arithmetic::mul::lemma_mul_is_distributive_sub_other_way(w as int, y as int, 1);
            }
        }
    }
    proof {
        assert forall|x: int, y: int| 0 <= x < width && 0 <= y < height implies pix4(
            out@,
            width as int,
            x,
            y,
        ) == c8_pixel(bits@, pallete.palettedata@, format, width as int, x, y) by {
            lemma_pix_in_range(x, y, width as int, height as int);
            lemma_linear_index(x, y, width as int);
            let p = y * (width as int) + x;
            assert forall|k: int| 0 <= k < 4 implies out@[4 * p + k] == byte_of(
                c8_pixel(bits@, pallete.palettedata@, format, width as int, x, y),
                k,
            ) by {
                vstd::arithmetic::div_mod::lemma_fundamental_div_mod_converse(4 * p + k, 4, p, k);
            }
        }
    }
    out
}

/// The 2:1 weighted average the four-color CMPR mode uses for its third
/// and fourth palette entries.
pub open spec fn mix23(a: u8, b: u8) -> u8 {
    ((2 * a + b) / 3) as u8
}

/// The plain average the three-color CMPR mode uses for its third palette
/// entry.
pub open spec fn mix_avg(a: u8, b: u8) -> u8 {
    ((a + b) / 2) as u8
}

/// The color a two-bit CMPR index selects, given the two endpoint words:
/// with `c1 > c2` the four-color mode interpolates at 1/3 and 2/3, both
/// opaque; otherwise the third entry is the average and the fourth fully
/// transparent black.
pub open spec fn cmpr_color(c1: u16, c2: u16, si: int) -> (u8, u8, u8, u8) {
    let p0 = rgb565_pixel(c1);
    let p1 = rgb565_pixel(c2);
    if si == 0 {
        p0
    } else if si == 1 {
        p1
    } else if c1 > c2 {
        if si == 2 {
            (mix23(p0.0, p1.0), mix23(p0.1, p1.1), mix23(p0.2, p1.2), 0xFF)
        } else {
            (mix23(p1.0, p0.0), mix23(p1.1, p0.1), mix23(p1.2, p0.2), 0xFF)
        }
    } else {
        if si == 2 {
            (mix_avg(p0.0, p1.0), mix_avg(p0.1, p1.1), mix_avg(p0.2, p1.2), 0xFF)
        } else {
            (0, 0, 0, 0)
        }
    }
}

/// The two-bit index of pixel `i` (row-major, 0..15) in a subblock's
/// 32-bit index table: pixel 0 sits in the two most significant bits.
pub open spec fn cmpr_index(tbl: u32, i: int) -> u32 {
    (tbl >> (((15 - i) * 2) as u32)) & 3
}

/// The byte length a CMPR bitstream must have: 8x8 macroblocks of 32
/// bytes.
pub open spec fn cmpr_req(w: int, h: int) -> int {
    req_bytes(w, h, 8, 8, 32)
}

/// The first byte of the eight-byte subblock holding pixel (x, y): the
/// four 4x4 subblocks of a macroblock come in TL, TR, BL, BR order.
pub open spec fn cmpr_sub_off(w: int, x: int, y: int) -> int {
    block_index(w, x, y, 8, 8) * 32 + (((y % 8) / 4) * 2 + (x % 8) / 4) * 8
}

/// The decoded pixel of a CMPR bitstream.
#[verifier::opaque]
pub open spec fn cmpr_pixel(bits: Seq<u8>, w: int, x: int, y: int) -> (u8, u8, u8, u8) {
    let so = cmpr_sub_off(w, x, y);
    cmpr_color(
        be16(bits, so),
        be16(bits, so + 2),
        cmpr_index(crate::pixel::be32(bits, so + 4), (y % 4) * 4 + x % 4) as int,
    )
}

/// Byte `i` of the raster buffer a CMPR bitstream decodes to.
pub open spec fn cmpr_byte(bits: Seq<u8>, w: int, i: int) -> u8 {
    byte_of(cmpr_pixel(bits, w, (i / 4) % w, (i / 4) / w), i % 4)
}

proof fn lemma_cmpr_off_bound(w: int, h: int, x: int, y: int)
    requires
        0 <= x < w,
        0 <= y < h,
    ensures
        0 <= cmpr_sub_off(w, x, y),
        cmpr_sub_off(w, x, y) + 8 <= cmpr_req(w, h),
        0 <= (y % 4) * 4 + x % 4 < 16,
{
    lemma_block_byte_bound(x, y, w, h, 8, 8, 32);
    vstd::arithmetic::div_mod::lemma_mod_bound(y, 8);
    vstd::arithmetic::div_mod::lemma_mod_bound(x, 8);
    vstd::arithmetic::div_mod::lemma_mod_bound(y, 4);
    vstd::arithmetic::div_mod::lemma_mod_bound(x, 4);
    vstd::arithmetic::div_mod::lemma_div_is_ordered(y % 8, 7, 4);
    vstd::arithmetic::div_mod::lemma_div_is_ordered(x % 8, 7, 4);
    vstd::arithmetic::div_mod::lemma_div_pos_is_pos(y % 8, 4);
    vstd::arithmetic::div_mod::lemma_div_pos_is_pos(x % 8, 4);
}

/// The color a two-bit CMPR index selects, computed from the endpoint
/// words.
fn cmpr_color_bytes(c1: u16, c2: u16, si: u32) -> (r: (u8, u8, u8, u8))
    requires
        si < 4,
    ensures
        r == cmpr_color(c1, c2, si as int),
{
    let p0 = crate::pixel::rgb565_bytes(c1);
    let p1 = crate::pixel::rgb565_bytes(c2);
    if si == 0 {
        p0
    } else if si == 1 {
        p1
    } else if c1 > c2 {
        if si == 2 {
            (
                ((2 * (p0.0 as u16) + (p1.0 as u16)) / 3) as u8,
                ((2 * (p0.1 as u16) + (p1.1 as u16)) / 3) as u8,
                ((2 * (p0.2 as u16) + (p1.2 as u16)) / 3) as u8,
                0xFF,
            )
        } else {
            (
                ((2 * (p1.0 as u16) + (p0.0 as u16)) / 3) as u8,
                ((2 * (p1.1 as u16) + (p0.1 as u16)) / 3) as u8,
                ((2 * (p1.2 as u16) + (p0.2 as u16)) / 3) as u8,
                0xFF,
            )
        }
    } else {
        if si == 2 {
            (
                (((p0.0 as u16) + (p1.0 as u16)) / 2) as u8,
                (((p0.1 as u16) + (p1.1 as u16)) / 2) as u8,
                (((p0.2 as u16) + (p1.2 as u16)) / 2) as u8,
                0xFF,
            )
        } else {
            (0, 0, 0, 0)
        }
    }
}

/// Decodes the eight-byte CMPR subblock at `off`: two big-endian endpoint
/// words, then a 32-bit index table selecting one of the four derived
/// colors for each of the 16 pixels, returned as a 4x4 B, G, R, A tile.
#[verifier::loop_isolation(false)]
pub fn decodecmprsubblock(bits: &Vec<u8>, off: usize) -> (r: Vec<u8>)
    requires
        off + 8 <= bits@.len(),
    ensures
        r@.len() == 64,
        forall|i: int|
            0 <= i < 16 ==> (#[trigger] r@[4 * i], r@[4 * i + 1], r@[4 * i + 2], r@[4 * i + 3])
                == cmpr_color(
                be16(bits@, off as int),
                be16(bits@, off as int + 2),
                cmpr_index(crate::pixel::be32(bits@, off as int + 4), i) as int,
            ),
{
    proof {
        vstd::std_specs::vec::axiom_spec_len(bits);
    }
    let color1 = crate::pixel::read_be16(bits, off);
    let color2 = crate::pixel::read_be16(bits, off + 2);
    let tbl = crate::pixel::read_be32(bits, off + 4);
    let mut out: Vec<u8> = Vec::new();
    let mut i: usize = 0;
    while i < 16
        invariant
            i <= 16,
            out@.len() == 4 * i,
            forall|j: int|
                0 <= j < i ==> (
                #[trigger] out@[4 * j],
                out@[4 * j + 1],
                out@[4 * j + 2],
                out@[4 * j + 3],
                ) == cmpr_color(
                    be16(bits@, off as int),
                    be16(bits@, off as int + 2),
                    cmpr_index(crate::pixel::be32(bits@, off as int + 4), j) as int,
                ),
        decreases 16 - i,
    {
        let shift: u32 = (15 - i as u32) * 2;
        let si: u32 = (tbl >> shift) & 3;
        proof {
            assert((tbl >> shift) & 3 < 4) by (bit_vector);
            assert(si == cmpr_index(tbl, i as int));
        }
        let (b, g, r, a) = cmpr_color_bytes(color1, color2, si);
        out.push(b);
        out.push(g);
        out.push(r);
        out.push(a);
        i = i + 1;
    }
    out
}

/// Decodes a CMPR bitstream: 8x8 macroblocks of four independently
/// compressed 4x4 subblocks.
#[verifier::loop_isolation(false)]
#[verifier::rlimit(100)]
pub fn decodecmpr(bits: &Vec<u8>, width: u32, height: u32) -> (r: Vec<u8>)
    requires
        cmpr_req(width as int, height as int) <= bits@.len(),
        4 * (width as int) * (height as int) <= usize::MAX,
    ensures
        r@.len() == 4 * (width as int) * (height as int),
        forall|x: int, y: int|
            0 <= x < width && 0 <= y < height ==> pix4(r@, width as int, x, y) == cmpr_pixel(
                bits@,
                width as int,
                x,
                y,
            ),
{
    let w = width as usize;
    let h = height as usize;
    if w == 0 || h == 0 {
        proof {
            vstd::arithmetic::mul::lemma_mul_by_zero_is_zero(height as int);
            vstd::arithmetic::mul::lemma_mul_by_zero_is_zero(4 * (width as int));
        }
        return Vec::new();
    }
    proof {
        assert(1 * (4 * (w as int)) <= (h as int) * (4 * (w as int))) by {
            vstd::arithmetic::mul::lemma_mul_inequality(1, h as int, 4 * (w as int));
        }
        assert((h as int) * (4 * (w as int)) == 4 * (w as int) * (h as int)) by {
            vstd::arithmetic::mul::lemma_mul_is_commutative(h as int, 4 * (w as int));
            vstd::arithmetic::mul::lemma_mul_is_associative(4, w as int, h as int);
        }
    }
    let nbw: usize = (w + 7) / 8;
    let mut out: Vec<u8> = Vec::new();
    let mut y: usize = 0;
    proof {
        vstd::std_specs::vec::axiom_spec_len(bits);
        vstd::arithmetic::mul::lemma_mul_nonnegative(h as int, w as int);
        assert(4 * (width as int) * (height as int) == 4 * ((height as int) * (width as int)))
            by {
            vstd::arithmetic::mul::lemma_mul_is_commutative(width as int, height as int);
            vstd::arithmetic::mul::lemma_mul_is_associative(4, width as int, height as int);
        }
    }
    while y < h
        invariant
            y <= h,
            out@.len() == 4 * (y * w),
            forall|i: int| 0 <= i < out@.len() ==> out@[i] == cmpr_byte(bits@, w as int, i),
        decreases h - y,
    {
        let mut x: usize = 0;
        while x < w
            invariant
                x <= w,
                out@.len() == 4 * (y * w + x),
                forall|i: int| 0 <= i < out@.len() ==> out@[i] == cmpr_byte(bits@, w as int, i),
            decreases w - x,
        {
            proof {
                vstd::std_specs::vec::axiom_spec_len(bits);
                lemma_cmpr_off_bound(w as int, h as int, x as int, y as int);
                lemma_pix_in_range(x as int, y as int, w as int, h as int);
            }
            let bi: usize = (y / 8) * nbw + x / 8;
            let so: usize = bi * 32 + (((y % 8) / 4) * 2 + (x % 8) / 4) * 8;
            proof {
                assert(so as int == cmpr_sub_off(w as int, x as int, y as int));
            }
            let c1 = crate::pixel::read_be16(bits, so);
            let c2 = crate::pixel::read_be16(bits, so + 2);
            let tbl = crate::pixel::read_be32(bits, so + 4);
            let i: usize = (y % 4) * 4 + x % 4;
            let shift: u32 = (15 - i as u32) * 2;
            let si: u32 = (tbl >> shift) & 3;
            proof {
                assert((tbl >> shift) & 3 < 4) by (bit_vector);
                assert(si == cmpr_index(tbl, i as int));
            }
            let (b, g, rr, a) = cmpr_color_bytes(c1, c2, si);
            proof {
                assert(cmpr_pixel(bits@, w as int, x as int, y as int) == (b, g, rr, a)) by {
                    reveal(cmpr_pixel);
                }
            }
            let ghost p = (y * w + x) as int;
            out.push(b);
            out.push(g);
            out.push(rr);
            out.push(a);
            proof {
                lemma_linear_index(x as int, y as int, w as int);
                assert forall|i: int| 0 <= i < out@.len() implies out@[i] == cmpr_byte(
                    bits@,
                    w as int,
                    i,
                ) by {
                    if i >= 4 * p {
                        vstd::arithmetic::div_mod::lemma_fundamental_div_mod_converse(
                            i,
                            4,
                            p,
                            i - 4 * p,
                        );
                    }
                }
            }
            x = x + 1;
        }
        y = y + 1;
        proof {
            assert(y * w == (y - 1) * w + w) by {
                vstd::arithmetic::mul::lemma_mul_is_distributive_sub_other_way(w as int, y as int, 1);
            }
        }
    }
    proof {
        assert forall|x: int, y: int| 0 <= x < width && 0 <= y < height implies pix4(
            out@,
            width as int,
            x,
            y,
        ) == cmpr_pixel(bits@, width as int, x, y) by {
            lemma_pix_in_range(x, y, width as int, height as int);
            lemma_linear_index(x, y, width as int);
            let p = y * (width as int) + x;
            assert forall|k: int| 0 <= k < 4 implies out@[4 * p + k] == byte_of(
                cmpr_pixel(bits@, width as int, x, y),
                k,
            ) by {
                vstd::arithmetic::div_mod::lemma_fundamental_div_mod_converse(4 * p + k, 4, p, k);
            }
        }
    }
    out
}

/// The byte length a bitstream must have for each decodable format; the
/// undecodable C14X2 needs nothing.
pub open spec fn decode_req_len(f: TextureFormats, w: int, h: int) -> int {
    match f {
        TextureFormats::I4 => i4_req(w, h),
        TextureFormats::I8 => i8_req(w, h),
        TextureFormats::IA4 => ia4_req(w, h),
        TextureFormats::IA8 => ia8_req(w, h),
        TextureFormats::RGB565 => rgb565_req(w, h),
        TextureFormats::RGB5A3 => rgb5a3_req(w, h),
        TextureFormats::RGBA32 => rgba32_req(w, h),
        TextureFormats::C4 => c4_req(w, h),
        TextureFormats::C8 => c8_req(w, h),
        TextureFormats::C14X2 => 0,
        TextureFormats::CMPR => cmpr_req(w, h),
    }
}

/// The palette bytes handed to `decode`, or empty where none was given.
pub open spec fn pal_seq(palette: Option<&Palette>) -> Seq<u8> {
    match palette {
        Some(p) => p.palettedata@,
        None => Seq::empty(),
    }
}

/// When `decode` succeeds: the format has a decoder, a paletted format
/// comes with a palette, the bitstream covers the required length, and
/// every palette index of a paletted bitstream fits inside the palette.
pub open spec fn decode_ok(
    f: TextureFormats,
    bits: Seq<u8>,
    palette_given: bool,
    pal: Seq<u8>,
    w: int,
    h: int,
) -> bool {
    &&& f != TextureFormats::C14X2
    &&& ((f == TextureFormats::C4 || f == TextureFormats::C8) ==> palette_given)
    &&& decode_req_len(f, w, h) <= bits.len()
    &&& (f == TextureFormats::C4 ==> c4_ok(bits, pal, w, h))
    &&& (f == TextureFormats::C8 ==> c8_ok(bits, pal, w, h))
}

/// Which error `decode` reports, by priority: unrecognized decoder first,
/// then a missing palette, then a short bitstream, then an out-of-range
/// palette index.
pub open spec fn decode_err(
    f: TextureFormats,
    bits: Seq<u8>,
    palette_given: bool,
    w: int,
    h: int,
) -> CodecError {
    if f == TextureFormats::C14X2 {
        CodecError::UnsupportedFormat
    } else if (f == TextureFormats::C4 || f == TextureFormats::C8) && !palette_given {
        CodecError::MissingPalette
    } else if bits.len() < decode_req_len(f, w, h) {
        CodecError::MalformedInput
    } else {
        CodecError::PaletteIndexOutOfRange
    }
}

/// The pixel each decodable format produces at (x, y).
pub open spec fn decode_pixel(
    f: TextureFormats,
    bits: Seq<u8>,
    pal: Seq<u8>,
    pf: PaletteFormats,
    w: int,
    x: int,
    y: int,
) -> (u8, u8, u8, u8) {
    match f {
        TextureFormats::I4 => i4_pixel(bits, w, x, y),
        TextureFormats::I8 => i8_pixel(bits, w, x, y),
        TextureFormats::IA4 => ia4_pixel(bits, w, x, y),
        TextureFormats::IA8 => ia8_pixel(bits, w, x, y),
        TextureFormats::RGB565 => rgb565_dec_pixel(bits, w, x, y),
        TextureFormats::RGB5A3 => rgb5a3_dec_pixel(bits, w, x, y),
        TextureFormats::RGBA32 => rgba32_pixel(bits, w, x, y),
        TextureFormats::C4 => c4_pixel(bits, pal, pf, w, x, y),
        TextureFormats::C8 => c8_pixel(bits, pal, pf, w, x, y),
        TextureFormats::C14X2 => (0, 0, 0, 0),
        TextureFormats::CMPR => cmpr_pixel(bits, w, x, y),
    }
}

/// A required byte length grows with the image dimensions.
pub proof fn lemma_req_bytes_mono(w: int, h: int, bw: int, bh: int, stride: int, wb: int, hb: int)
    requires
        0 <= w <= wb,
        0 <= h <= hb,
        0 < bw,
        0 < bh,
        0 < stride,
    ensures
        0 <= req_bytes(w, h, bw, bh, stride) <= req_bytes(wb, hb, bw, bh, stride),
{
    let nw = blocks_ceil(w, bw);
    let nh = blocks_ceil(h, bh);
    let nwb = blocks_ceil(wb, bw);
    let nhb = blocks_ceil(hb, bh);
    vstd::arithmetic::div_mod::lemma_div_is_ordered(w + bw - 1, wb + bw - 1, bw);
    vstd::arithmetic::div_mod::lemma_div_is_ordered(h + bh - 1, hb + bh - 1, bh);
    vstd::arithmetic::div_mod::lemma_div_pos_is_pos(w + bw - 1, bw);
    vstd::arithmetic::div_mod::lemma_div_pos_is_pos(h + bh - 1, bh);
    vstd::arithmetic::mul::lemma_mul_upper_bound(nw, nwb, nh, nhb);
    vstd::arithmetic::mul::lemma_mul_nonnegative(nw, nh);
    vstd::arithmetic::mul::lemma_mul_inequality(nw * nh, nwb * nhb, stride);
    vstd::arithmetic::mul::lemma_mul_nonnegative(nw * nh, stride);
}

/// Computes the required byte length of a block-tiled bitstream.
fn req_bytes_exec(w: u64, h: u64, bw: u64, bh: u64, stride: u64) -> (r: u64)
    requires
        0 < bw,
        0 < bh,
        0 < stride,
        w + bw <= u64::MAX,
        h + bh <= u64::MAX,
        req_bytes(w as int, h as int, bw as int, bh as int, stride as int) <= u64::MAX,
    ensures
        r as int == req_bytes(w as int, h as int, bw as int, bh as int, stride as int),
{
    let nbw: u64 = (w + bw - 1) / bw;
    let nbh: u64 = (h + bh - 1) / bh;
    proof {
        vstd::arithmetic::mul::lemma_mul_nonnegative(nbw as int, nbh as int);
        assert(1 * ((nbw as int) * (nbh as int)) <= (stride as int) * ((nbw as int) * (nbh as int)))
            by {
            vstd::arithmetic::mul::lemma_mul_inequality(
                1,
                stride as int,
                (nbw as int) * (nbh as int),
            );
        }
        assert((stride as int) * ((nbw as int) * (nbh as int)) == (nbw as int) * (nbh as int) * (
        stride as int)) by {
            vstd::arithmetic::mul::lemma_mul_is_commutative(
                stride as int,
                (nbw as int) * (nbh as int),
            );
        }
    }
    nbw * nbh * stride
}

/// Decodes a bitstream in any supported format into a B, G, R, A raster
/// buffer of exactly `width * height * 4` bytes. Fails for the C14X2
/// identifier, for a paletted format without a palette, for a bitstream
/// shorter than the format requires, and for a palette index past the end
/// of the palette — and succeeds otherwise.
pub fn decode(
    format: TextureFormats,
    width: u16,
    height: u16,
    bitstream: &Vec<u8>,
    palette: Option<&Palette>,
    paletteformat: PaletteFormats,
) -> (r: Result<Vec<u8>, CodecError>)
    requires
        4 * (width as int) * (height as int) <= usize::MAX,
    ensures
        (r is Ok) == decode_ok(
            format,
            bitstream@,
            palette is Some,
            pal_seq(palette),
            width as int,
            height as int,
        ),
        r matches Ok(v) ==> v@.len() == 4 * (width as int) * (height as int) && forall|
            x: int,
            y: int,
        |
            0 <= x < width && 0 <= y < height ==> pix4(v@, width as int, x, y) == decode_pixel(
                format,
                bitstream@,
                pal_seq(palette),
                paletteformat,
                width as int,
                x,
                y,
            ),
        r matches Err(e) ==> e == decode_err(
            format,
            bitstream@,
            palette is Some,
            width as int,
            height as int,
        ),
{
    proof {
        vstd::std_specs::vec::axiom_spec_len(bitstream);
        lemma_req_bytes_mono(width as int, height as int, 4, 4, 64, 65535, 65535);
        lemma_req_bytes_mono(width as int, height as int, 4, 4, 32, 65535, 65535);
        lemma_req_bytes_mono(width as int, height as int, 8, 4, 32, 65535, 65535);
        lemma_req_bytes_mono(width as int, height as int, 8, 8, 32, 65535, 65535);
        assert(blocks_ceil(65535, 8) == 8192);
        assert(blocks_ceil(65535, 4) == 16384);
        assert(req_bytes(65535, 65535, 8, 8, 32) == 8192 * 8192 * 32);
        assert(req_bytes(65535, 65535, 8, 4, 32) == 8192 * 16384 * 32);
        assert(req_bytes(65535, 65535, 4, 4, 32) == 16384 * 16384 * 32);
        assert(req_bytes(65535, 65535, 4, 4, 64) == 16384 * 16384 * 64);
    }
    let w64 = width as u64;
    let h64 = height as u64;
    let len64 = bitstream.len() as u64;
    match format {
        TextureFormats::I4 => {
            if len64 < req_bytes_exec(w64, h64, 8, 8, 32) {
                Err(CodecError::MalformedInput)
            } else {
                Ok(decodei4(bitstream, width, height))
            }
        },
        TextureFormats::I8 => {
            if len64 < req_bytes_exec(w64, h64, 8, 4, 32) {
                Err(CodecError::MalformedInput)
            } else {
                Ok(decodei8(bitstream, width, height))
            }
        },
        TextureFormats::IA4 => {
            if len64 < req_bytes_exec(w64, h64, 8, 4, 32) {
                Err(CodecError::MalformedInput)
            } else {
                Ok(decodeia4(bitstream, width, height))
            }
        },
        TextureFormats::IA8 => {
            if len64 < req_bytes_exec(w64, h64, 4, 4, 32) {
                Err(CodecError::MalformedInput)
            } else {
                Ok(decodeia8(bitstream, width, height))
            }
        },
        TextureFormats::RGB565 => {
            if len64 < req_bytes_exec(w64, h64, 4, 4, 32) {
                Err(CodecError::MalformedInput)
            } else {
                Ok(decodergb565(bitstream, width, height))
            }
        },
        TextureFormats::RGB5A3 => {
            if len64 < req_bytes_exec(w64, h64, 4, 4, 32) {
                Err(CodecError::MalformedInput)
            } else {
                Ok(decodergb5a3(bitstream, width, height))
            }
        },
        TextureFormats::RGBA32 => {
            if len64 < req_bytes_exec(w64, h64, 4, 4, 64) {
                Err(CodecError::MalformedInput)
            } else {
                Ok(decodergba32(bitstream, width, height))
            }
        },
        TextureFormats::C4 => {
            match palette {
                None => Err(CodecError::MissingPalette),
                Some(pal) => {
                    if len64 < req_bytes_exec(w64, h64, 8, 8, 32) {
                        Err(CodecError::MalformedInput)
                    } else if !c4_indices_ok(bitstream, width, height, &pal.palettedata) {
                        Err(CodecError::PaletteIndexOutOfRange)
                    } else {
                        Ok(decodec4(bitstream, width, height, pal, paletteformat))
                    }
                },
            }
        },
        TextureFormats::C8 => {
            match palette {
                None => Err(CodecError::MissingPalette),
                Some(pal) => {
                    if len64 < req_bytes_exec(w64, h64, 8, 4, 32) {
                        Err(CodecError::MalformedInput)
                    } else if !c8_indices_ok(bitstream, width, height, &pal.palettedata) {
                        Err(CodecError::PaletteIndexOutOfRange)
                    } else {
                        Ok(decodec8(bitstream, width, height, pal, paletteformat))
                    }
                },
            }
        },
        TextureFormats::C14X2 => Err(CodecError::UnsupportedFormat),
        TextureFormats::CMPR => {
            if len64 < req_bytes_exec(w64, h64, 8, 8, 32) {
                Err(CodecError::MalformedInput)
            } else {
                Ok(decodecmpr(bitstream, width as u32, height as u32))
            }
        },
    }
}

} // verus!
