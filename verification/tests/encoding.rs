//! Encoder behaviour: the CMPR compressor, the tiling driver, format
//! detection and the small helpers.

use libbti::decoders::decode;
use libbti::decoders::decodecmpr;
use libbti::encoders::convblocktoquatercmpr;
use libbti::encoders::decectandsetsittingformat;
use libbti::encoders::distance;
use libbti::encoders::encode;
use libbti::encoders::leastdistance;
use libbti::encoders::CMPR;
use libbti::encoders::I4;
use libbti::enums::PaletteFormats;
use libbti::enums::TextureFormats;
use libbti::imagedataformat::convertto;
use libbti::imagedataformat::Converter;
use libbti::CodecError;

fn solid_raster(w: usize, h: usize, px: [u8; 4]) -> Vec<u8> {
    let mut v = Vec::new();
    for _ in 0..w * h {
        v.extend_from_slice(&px);
    }
    v
}

#[test]
fn encode_rejects_wrong_raster_length() {
    let raster = vec![0u8; 10];
    assert_eq!(
        encode(TextureFormats::CMPR, 8, 8, &raster),
        Err(CodecError::MalformedInput)
    );
}

#[test]
fn encode_rejects_formats_without_encoder() {
    let raster = solid_raster(8, 8, [0, 0, 0, 255]);
    assert_eq!(
        encode(TextureFormats::I4, 8, 8, &raster),
        Err(CodecError::UnsupportedFormat)
    );
    assert_eq!(
        encode(TextureFormats::C14X2, 8, 8, &raster),
        Err(CodecError::UnsupportedFormat)
    );
}

#[test]
fn encode_cmpr_solid_color_round_trips_within_bounds() {
    // A solid color: the two endpoints collapse onto it, so the decoded
    // image differs from the original only by the 5/6/5 quantization,
    // at most 8 per channel.
    let px = [10u8, 20, 200, 255];
    let raster = solid_raster(8, 8, px);
    let bits = encode(TextureFormats::CMPR, 8, 8, &raster).unwrap();
    assert_eq!(bits.len(), 32);
    let back = decodecmpr(&bits, 8, 8);
    assert_eq!(back.len(), raster.len());
    for i in 0..64 {
        for k in 0..3 {
            let a = raster[4 * i + k] as i32;
            let b = back[4 * i + k] as i32;
            assert!((a - b).abs() <= 8, "channel {} off by more than 8", k);
        }
        assert_eq!(back[4 * i + 3], 255);
    }
}

#[test]
fn encode_cmpr_black_is_exact() {
    let raster = solid_raster(8, 8, [0, 0, 0, 255]);
    let bits = encode(TextureFormats::CMPR, 8, 8, &raster).unwrap();
    let back = decodecmpr(&bits, 8, 8);
    assert_eq!(back, raster);
}

#[test]
fn encode_cmpr_transparent_pixels_stay_transparent() {
    // A tile of transparent pixels encodes in three-color mode with
    // every index pointing at the transparent slot.
    let raster = solid_raster(8, 8, [50, 60, 70, 0]);
    let bits = encode(TextureFormats::CMPR, 8, 8, &raster).unwrap();
    let back = decodecmpr(&bits, 8, 8);
    for i in 0..64 {
        assert_eq!(back[4 * i + 3], 0);
    }
}

#[test]
fn quarter_cmpr_solid_color_exact_bytes() {
    // Solid (b 10, g 20, r 200): endpoints quantize equal and not black,
    // so the second endpoint is forced to black; four-color mode keeps
    // c1 > c2 without a swap; every pixel matches endpoint 0 exactly.
    let mut block = Vec::new();
    for _ in 0..16 {
        block.extend_from_slice(&[10u8, 20, 200, 255]);
    }
    let out = convblocktoquatercmpr(&block);
    assert_eq!(out, vec![200, 161, 0, 0, 0, 0, 0, 0]);
}

#[test]
fn quarter_cmpr_fully_transparent_block() {
    let mut block = Vec::new();
    for _ in 0..16 {
        block.extend_from_slice(&[1u8, 2, 3, 4]);
    }
    let out = convblocktoquatercmpr(&block);
    assert_eq!(out.len(), 8);
    // Three-color mode: c1 <= c2, and every index is 3 (transparent).
    let c1 = u16::from_be_bytes([out[0], out[1]]);
    let c2 = u16::from_be_bytes([out[2], out[3]]);
    assert!(c1 <= c2);
    assert_eq!(&out[4..8], &[0xFF, 0xFF, 0xFF, 0xFF]);
}

#[test]
fn convertto_stub_formats_emit_zeroed_streams() {
    let raster = solid_raster(8, 8, [1, 2, 3, 255]);
    let out = convertto::<I4>(&raster, 8, 8);
    assert_eq!(out.len(), 32);
    assert!(out.iter().all(|&b| b == 0));
}

#[test]
fn stub_formats_do_not_round_trip() {
    // The non-compressed encoders are unimplemented stubs, so encoding
    // and decoding again does not reproduce the raster.
    let raster = solid_raster(8, 4, [70, 70, 70, 255]);
    let bits = convertto::<libbti::encoders::I8>(&raster, 8, 4);
    assert_eq!(bits.len(), 32);
    let back = decode(TextureFormats::I8, 8, 4, &bits, None, PaletteFormats::IA8).unwrap();
    assert_ne!(back, raster);
}

#[test]
fn convertto_pads_edge_blocks() {
    // 5 x 5 pixels in 8x8 blocks: still one 32-byte CMPR block, encoded
    // from a zero-padded tile.
    let raster = solid_raster(5, 5, [0, 0, 0, 255]);
    let out = convertto::<CMPR>(&raster, 5, 5);
    assert_eq!(out.len(), 32);
}

#[test]
fn converter_descriptors_match_the_table() {
    let f = <CMPR as Converter>::format();
    assert_eq!(f.bitsperpixel, 4);
    assert_eq!(f.blockwidth, 8);
    assert_eq!(f.blockheight, 8);
    assert_eq!(f.blockstride, 32);
    assert!(f.iscompressed);
    let g = <I4 as Converter>::format();
    assert_eq!(g.bitsperpixel, 4);
    assert_eq!(g.blockstride, 32);
    assert!(!g.iscompressed);
}

#[test]
fn stub_convblock_is_empty() {
    let block = solid_raster(8, 8, [9, 9, 9, 255]);
    assert_eq!(<I4 as Converter>::convblock(&block), Vec::<u8>::new());
}

#[test]
fn detect_gray_image() {
    let raster = solid_raster(4, 4, [7, 7, 7, 255]);
    assert_eq!(
        decectandsetsittingformat(&raster),
        (TextureFormats::I8, 0)
    );
}

#[test]
fn detect_translucent_image() {
    let mut raster = solid_raster(4, 4, [1, 2, 3, 255]);
    raster[7] = 128;
    assert_eq!(
        decectandsetsittingformat(&raster),
        (TextureFormats::RGB5A3, 1)
    );
}

#[test]
fn detect_color_image_with_cutout_alpha() {
    let mut raster = solid_raster(4, 4, [1, 2, 3, 255]);
    raster[7] = 0;
    assert_eq!(
        decectandsetsittingformat(&raster),
        (TextureFormats::CMPR, 1)
    );
}

#[test]
fn detect_opaque_color_image() {
    let raster = solid_raster(4, 4, [1, 2, 3, 255]);
    assert_eq!(
        decectandsetsittingformat(&raster),
        (TextureFormats::CMPR, 0)
    );
}

#[test]
fn distance_is_squared_rgb() {
    let a = vec![0u8, 0, 0, 255];
    let b = vec![3u8, 4, 0, 255];
    assert_eq!(distance(&a, 0, &b, 0), 25);
    assert_eq!(distance(&a, 0, &a, 0), 0);
}

#[test]
fn leastdistance_picks_nearest_opaque_entry() {
    let palette = vec![
        vec![0u8, 0, 0, 255],
        vec![100u8, 100, 100, 255],
        vec![200u8, 200, 200, 255],
        vec![0u8, 0, 0, 0],
    ];
    let near_gray = vec![90u8, 90, 90, 255];
    assert_eq!(leastdistance(&palette, &near_gray, 0), 1);
    let transparent = vec![90u8, 90, 90, 5];
    assert_eq!(leastdistance(&palette, &transparent, 0), 3);
}

#[test]
fn leastdistance_stops_at_non_opaque_entry() {
    let palette = vec![
        vec![0u8, 0, 0, 255],
        vec![100u8, 100, 100, 0],
        vec![90u8, 90, 90, 255],
        vec![0u8, 0, 0, 0],
    ];
    // Entry 2 would match exactly, but the scan stops at entry 1.
    let c = vec![90u8, 90, 90, 255];
    assert_eq!(leastdistance(&palette, &c, 0), 0);
}

#[test]
fn encode_then_decode_two_tone_tile() {
    // Two colors far apart, no transparency: both survive as endpoints
    // and every pixel decodes within quantization error.
    let mut raster = Vec::new();
    for i in 0..64 {
        if i % 2 == 0 {
            raster.extend_from_slice(&[0u8, 0, 0, 255]);
        } else {
            raster.extend_from_slice(&[255u8, 255, 255, 255]);
        }
    }
    let bits = encode(TextureFormats::CMPR, 8, 8, &raster).unwrap();
    let back = decode(TextureFormats::CMPR, 8, 8, &bits, None, PaletteFormats::IA8).unwrap();
    for i in 0..64 {
        for k in 0..3 {
            let a = raster[4 * i + k] as i32;
            let b = back[4 * i + k] as i32;
            assert!((a - b).abs() <= 8);
        }
    }
}
