//! Decoder behaviour on hand-constructed bitstreams.

use libbti::decoders::decode;
use libbti::decoders::decodec4;
use libbti::decoders::decodec8;
use libbti::decoders::decodecmpr;
use libbti::decoders::decodecmprsubblock;
use libbti::decoders::decodei4;
use libbti::decoders::decodei8;
use libbti::decoders::decodeia4;
use libbti::decoders::decodeia8;
use libbti::decoders::decodergb565;
use libbti::decoders::decodergb5a3;
use libbti::decoders::decodergba32;
use libbti::enums::PaletteFormats;
use libbti::enums::TextureFormats;
use libbti::palette::Palette;
use libbti::CodecError;

fn pixel(out: &[u8], w: usize, x: usize, y: usize) -> (u8, u8, u8, u8) {
    let i = 4 * (y * w + x);
    (out[i], out[i + 1], out[i + 2], out[i + 3])
}

#[test]
fn i4_expands_nibbles() {
    let mut bits = vec![0u8; 32];
    bits[0] = 0x5A;
    let out = decodei4(&bits, 8, 8);
    assert_eq!(out.len(), 8 * 8 * 4);
    assert_eq!(pixel(&out, 8, 0, 0), (85, 85, 85, 85));
    assert_eq!(pixel(&out, 8, 1, 0), (170, 170, 170, 170));
    assert_eq!(pixel(&out, 8, 2, 0), (0, 0, 0, 0));
}

#[test]
fn i8_replicates_luminance() {
    let mut bits = vec![0u8; 32];
    bits[0] = 0x42;
    bits[9] = 0x17;
    let out = decodei8(&bits, 8, 4);
    assert_eq!(out.len(), 8 * 4 * 4);
    assert_eq!(pixel(&out, 8, 0, 0), (0x42, 0x42, 0x42, 0x42));
    // byte 9 of the block is row 1, column 1
    assert_eq!(pixel(&out, 8, 1, 1), (0x17, 0x17, 0x17, 0x17));
}

#[test]
fn ia4_splits_alpha_and_luminance() {
    let mut bits = vec![0u8; 32];
    bits[0] = 0xF3;
    let out = decodeia4(&bits, 8, 4);
    assert_eq!(pixel(&out, 8, 0, 0), (51, 51, 51, 255));
}

#[test]
fn ia8_is_alpha_then_luminance() {
    let mut bits = vec![0u8; 32];
    bits[0] = 0xAA;
    bits[1] = 0xBB;
    let out = decodeia8(&bits, 4, 4);
    assert_eq!(pixel(&out, 4, 0, 0), (0xBB, 0xBB, 0xBB, 0xAA));
}

#[test]
fn rgb565_pure_channels() {
    let mut bits = vec![0u8; 32];
    // pixel 0: 0xF800 = pure red
    bits[0] = 0xF8;
    bits[1] = 0x00;
    // pixel 1: 0x07E0 = pure green
    bits[2] = 0x07;
    bits[3] = 0xE0;
    // pixel 2: 0x001F = pure blue
    bits[4] = 0x00;
    bits[5] = 0x1F;
    let out = decodergb565(&bits, 4, 4);
    assert_eq!(pixel(&out, 4, 0, 0), (0, 0, 255, 255));
    assert_eq!(pixel(&out, 4, 1, 0), (0, 255, 0, 255));
    assert_eq!(pixel(&out, 4, 2, 0), (255, 0, 0, 255));
}

#[test]
fn rgb565_bit_replication() {
    let mut bits = vec![0u8; 32];
    // r5 = 16: expands to (16 << 3) | (16 >> 2) = 132
    let p: u16 = 16 << 11;
    bits[0] = (p >> 8) as u8;
    bits[1] = (p & 0xFF) as u8;
    let out = decodergb565(&bits, 4, 4);
    assert_eq!(pixel(&out, 4, 0, 0), (0, 0, 132, 255));
}

#[test]
fn rgb5a3_both_branches() {
    let mut bits = vec![0u8; 32];
    // pixel 0: top bit set, 5-bit blue all ones
    bits[0] = 0x80;
    bits[1] = 0x1F;
    // pixel 1: translucent, alpha 7, all color nibbles 15
    bits[2] = 0x7F;
    bits[3] = 0xFF;
    let out = decodergb5a3(&bits, 4, 4);
    assert_eq!(pixel(&out, 4, 0, 0), (255, 0, 0, 255));
    assert_eq!(pixel(&out, 4, 1, 0), (255, 255, 255, 255));
}

#[test]
fn rgb5a3_transparent_black() {
    let bits = vec![0u8; 32];
    let out = decodergb5a3(&bits, 4, 4);
    assert_eq!(pixel(&out, 4, 0, 0), (0, 0, 0, 0));
}

#[test]
fn rgba32_planes() {
    let mut bits = vec![0u8; 64];
    // AR plane, pixel 0: alpha then red
    bits[0] = 1;
    bits[1] = 2;
    // GB plane, pixel 0: green then blue
    bits[32] = 3;
    bits[33] = 4;
    let out = decodergba32(&bits, 4, 4);
    assert_eq!(pixel(&out, 4, 0, 0), (4, 3, 2, 1));
}

#[test]
fn c4_resolves_ia8_palette_entry_zero() {
    let bits = vec![0u8; 32];
    let pal = Palette { palettedata: vec![0xAA, 0xBB] };
    let out = decodec4(&bits, 8, 8, &pal, PaletteFormats::IA8);
    assert_eq!(out.len(), 8 * 8 * 4);
    for y in 0..8 {
        for x in 0..8 {
            assert_eq!(pixel(&out, 8, x, y), (0xBB, 0xBB, 0xBB, 0xAA));
        }
    }
}

#[test]
fn c8_resolves_ia8_palette_entry_zero() {
    let bits = vec![0u8; 32];
    let pal = Palette { palettedata: vec![0xAA, 0xBB] };
    let out = decodec8(&bits, 8, 4, &pal, PaletteFormats::IA8);
    assert_eq!(out.len(), 8 * 4 * 4);
    for y in 0..4 {
        for x in 0..8 {
            assert_eq!(pixel(&out, 8, x, y), (0xBB, 0xBB, 0xBB, 0xAA));
        }
    }
}

#[test]
fn c8_resolves_rgb565_palette() {
    let mut bits = vec![0u8; 32];
    bits[0] = 1;
    let pal = Palette { palettedata: vec![0x00, 0x00, 0xF8, 0x00] };
    let out = decodec8(&bits, 8, 4, &pal, PaletteFormats::RGB565);
    assert_eq!(pixel(&out, 8, 0, 0), (0, 0, 255, 255));
    assert_eq!(pixel(&out, 8, 1, 0), (0, 0, 0, 255));
}

#[test]
fn cmpr_subblock_four_color_white() {
    let bits = vec![0xFF, 0xFF, 0x00, 0x00, 0x00, 0x00, 0x00, 0x00];
    let out = decodecmprsubblock(&bits, 0);
    assert_eq!(out.len(), 64);
    for i in 0..16 {
        assert_eq!(&out[4 * i..4 * i + 4], &[255, 255, 255, 255]);
    }
}

#[test]
fn cmpr_subblock_equal_black_endpoints() {
    // c1 == c2 == 0: three-color mode; indices 0..2 give opaque black.
    let bits = vec![0x00, 0x00, 0x00, 0x00, 0x00, 0x00, 0x00, 0x00];
    let out = decodecmprsubblock(&bits, 0);
    for i in 0..16 {
        assert_eq!(&out[4 * i..4 * i + 4], &[0, 0, 0, 255]);
    }
    // index 3 is fully transparent black
    let bits = vec![0x00, 0x00, 0x00, 0x00, 0xFF, 0xFF, 0xFF, 0xFF];
    let out = decodecmprsubblock(&bits, 0);
    for i in 0..16 {
        assert_eq!(&out[4 * i..4 * i + 4], &[0, 0, 0, 0]);
    }
}

#[test]
fn cmpr_subblock_interpolants() {
    // c1 = pure red 0xF800 > c2 = 0: four-color mode.
    // index 2 = (2*255 + 0) / 3 = 170; index 3 = (255 + 0*2)... = 85.
    let bits = vec![0xF8, 0x00, 0x00, 0x00, 0xAA, 0xAA, 0xAA, 0xAA];
    let out = decodecmprsubblock(&bits, 0);
    for i in 0..16 {
        assert_eq!(&out[4 * i..4 * i + 4], &[0, 0, 170, 255]);
    }
    let bits = vec![0xF8, 0x00, 0x00, 0x00, 0xFF, 0xFF, 0xFF, 0xFF];
    let out = decodecmprsubblock(&bits, 0);
    for i in 0..16 {
        assert_eq!(&out[4 * i..4 * i + 4], &[0, 0, 85, 255]);
    }
}

#[test]
fn cmpr_full_image_first_subblock() {
    let mut bits = vec![0u8; 32];
    bits[0] = 0xFF;
    bits[1] = 0xFF;
    let out = decodecmpr(&bits, 4, 4);
    assert_eq!(out.len(), 4 * 4 * 4);
    for y in 0..4 {
        for x in 0..4 {
            assert_eq!(pixel(&out, 4, x, y), (255, 255, 255, 255));
        }
    }
}

#[test]
fn cmpr_subblock_order_in_macroblock() {
    // Mark the top-right subblock (bytes 8..16) white; the rest black.
    let mut bits = vec![0u8; 32];
    bits[8] = 0xFF;
    bits[9] = 0xFF;
    let out = decodecmpr(&bits, 8, 8);
    assert_eq!(pixel(&out, 8, 4, 0), (255, 255, 255, 255));
    assert_eq!(pixel(&out, 8, 0, 0), (0, 0, 0, 255));
    assert_eq!(pixel(&out, 8, 0, 4), (0, 0, 0, 255));
    assert_eq!(pixel(&out, 8, 4, 4), (0, 0, 0, 255));
}

#[test]
fn decode_length_for_every_supported_format() {
    // 5 x 5: every decoder must produce exactly 5 * 5 * 4 bytes.
    let cases: Vec<(TextureFormats, usize)> = vec![
        (TextureFormats::I4, 32),
        (TextureFormats::I8, 64),
        (TextureFormats::IA4, 64),
        (TextureFormats::IA8, 128),
        (TextureFormats::RGB565, 128),
        (TextureFormats::RGB5A3, 128),
        (TextureFormats::RGBA32, 256),
        (TextureFormats::C4, 32),
        (TextureFormats::C8, 64),
        (TextureFormats::CMPR, 32),
    ];
    let pal = Palette { palettedata: vec![0x00, 0x00] };
    for (format, req) in cases {
        let bits = vec![0u8; req];
        let out = decode(format, 5, 5, &bits, Some(&pal), PaletteFormats::IA8).unwrap();
        assert_eq!(out.len(), 5 * 5 * 4);
    }
}

#[test]
fn edge_blocks_consume_exactly_the_padded_length() {
    // 5 x 5 in a 4x4-block format covers 2 x 2 blocks = 128 bytes.
    let bits = vec![0u8; 128];
    assert!(decode(TextureFormats::RGB565, 5, 5, &bits, None, PaletteFormats::IA8).is_ok());
    let short = vec![0u8; 127];
    assert_eq!(
        decode(TextureFormats::RGB565, 5, 5, &short, None, PaletteFormats::IA8),
        Err(CodecError::MalformedInput)
    );
}

#[test]
fn decode_rejects_c14x2() {
    let bits = vec![0u8; 1024];
    assert_eq!(
        decode(TextureFormats::C14X2, 4, 4, &bits, None, PaletteFormats::IA8),
        Err(CodecError::UnsupportedFormat)
    );
}

#[test]
fn decode_rejects_paletted_without_palette() {
    let bits = vec![0u8; 1024];
    assert_eq!(
        decode(TextureFormats::C4, 8, 8, &bits, None, PaletteFormats::IA8),
        Err(CodecError::MissingPalette)
    );
    assert_eq!(
        decode(TextureFormats::C8, 8, 4, &bits, None, PaletteFormats::IA8),
        Err(CodecError::MissingPalette)
    );
}

#[test]
fn decode_rejects_out_of_range_palette_index() {
    let mut bits = vec![0u8; 32];
    bits[0] = 5;
    // Palette of one entry: index 5 is out of range.
    let pal = Palette { palettedata: vec![0xAA, 0xBB] };
    assert_eq!(
        decode(TextureFormats::C8, 8, 4, &bits, Some(&pal), PaletteFormats::IA8),
        Err(CodecError::PaletteIndexOutOfRange)
    );
}

#[test]
fn decode_dispatches_like_the_decoders() {
    let mut bits = vec![0u8; 32];
    bits[0] = 0x42;
    let via_dispatch =
        decode(TextureFormats::I8, 8, 4, &bits, None, PaletteFormats::IA8).unwrap();
    let direct = decodei8(&bits, 8, 4);
    assert_eq!(via_dispatch, direct);
}
