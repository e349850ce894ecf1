//! The small building blocks: pixel conversions, the palette store, the
//! stepped range, format identifiers and descriptors.

use libbti::decoders::unpackpixelfrompalette;
use libbti::enums::PaletteFormats;
use libbti::enums::TextureFormats;
use libbti::imagedataformat::ImageDataFormat;
use libbti::palette::Palette;
use libbti::pixel::read_be16;
use libbti::pixel::read_be32;
use libbti::pixel::rgb565_bytes;
use libbti::pixel::rgb565torgba8;
use libbti::pixel::rgb5a3torgba8;
use libbti::range::NRange;

#[test]
fn be_readers() {
    let v = vec![0x12u8, 0x34, 0x56, 0x78, 0x9A];
    assert_eq!(read_be16(&v, 0), 0x1234);
    assert_eq!(read_be16(&v, 3), 0x789A);
    assert_eq!(read_be32(&v, 1), 0x3456789A);
}

#[test]
fn rgb565_expansion_requantizes_to_itself() {
    for v in 0u16..32 {
        let (_, _, r, _) = rgb565_bytes(v << 11);
        assert_eq!(r >> 3, v as u8);
        let (b, _, _, _) = rgb565_bytes(v);
        assert_eq!(b >> 3, v as u8);
    }
    for v in 0u16..64 {
        let (_, g, _, _) = rgb565_bytes(v << 5);
        assert_eq!(g >> 2, v as u8);
    }
}

#[test]
fn rgb565_writes_in_place_and_leaves_the_rest() {
    let mut buf = vec![9u8; 8];
    rgb565torgba8(0xF800, &mut buf, 2);
    assert_eq!(buf, vec![9, 9, 0, 0, 255, 255, 9, 9]);
}

#[test]
fn rgb5a3_writes_in_place() {
    let mut buf = vec![0u8; 4];
    rgb5a3torgba8(0x801F, &mut buf, 0);
    assert_eq!(buf, vec![255, 0, 0, 255]);
    rgb5a3torgba8(0x7FFF, &mut buf, 0);
    assert_eq!(buf, vec![255, 255, 255, 255]);
}

#[test]
fn palette_read_takes_a_prefix() {
    let data = vec![1u8, 2, 3, 4, 5];
    let p = Palette::read(&data, 4);
    assert_eq!(p.palettedata, vec![1, 2, 3, 4]);
    assert_eq!(p.entry_count(), 2);
}

#[test]
fn unpack_ia8_entry() {
    let pal = vec![0xAAu8, 0xBB, 0x11, 0x22];
    let mut dest = vec![0u8; 8];
    unpackpixelfrompalette(1, &mut dest, 4, &pal, PaletteFormats::IA8);
    assert_eq!(dest, vec![0, 0, 0, 0, 0x22, 0x22, 0x22, 0x11]);
}

#[test]
fn unpack_rgb565_entry() {
    let pal = vec![0xF8u8, 0x00];
    let mut dest = vec![0u8; 4];
    unpackpixelfrompalette(0, &mut dest, 0, &pal, PaletteFormats::RGB565);
    assert_eq!(dest, vec![0, 0, 255, 255]);
}

#[test]
fn unpack_rgb5a3_entry() {
    let pal = vec![0x80u8, 0x1F];
    let mut dest = vec![0u8; 4];
    unpackpixelfrompalette(0, &mut dest, 0, &pal, PaletteFormats::RGB5A3);
    assert_eq!(dest, vec![255, 0, 0, 255]);
}

#[test]
fn stepped_range_yields_increments_up_to_end() {
    let mut r = NRange::new(0, 8, 2);
    assert_eq!(r.next(), Some(2));
    assert_eq!(r.next(), Some(4));
    assert_eq!(r.next(), Some(6));
    assert_eq!(r.next(), Some(8));
    assert_eq!(r.next(), None);
    assert_eq!(r.next(), None);
}

#[test]
fn texture_format_codes_round_trip() {
    let all = vec![
        TextureFormats::I4,
        TextureFormats::I8,
        TextureFormats::IA4,
        TextureFormats::IA8,
        TextureFormats::RGB565,
        TextureFormats::RGB5A3,
        TextureFormats::RGBA32,
        TextureFormats::C4,
        TextureFormats::C8,
        TextureFormats::C14X2,
        TextureFormats::CMPR,
    ];
    for f in all {
        assert_eq!(TextureFormats::from_code(f.code()), Some(f));
    }
    assert_eq!(TextureFormats::CMPR.code(), 0x0E);
    assert_eq!(TextureFormats::from_code(0x07), None);
}

#[test]
fn palette_format_codes_round_trip() {
    let all = vec![PaletteFormats::IA8, PaletteFormats::RGB565, PaletteFormats::RGB5A3];
    for f in all {
        assert_eq!(PaletteFormats::from_code(f.code()), Some(f));
    }
    assert_eq!(PaletteFormats::from_code(3), None);
}

#[test]
fn round_up_to_block_multiples() {
    let f = ImageDataFormat::new("I4", "I4", 4, 0, 8, 8, 32, false, false, false, false, 0, 0);
    assert_eq!(f.roundwidth(0), 0);
    assert_eq!(f.roundwidth(5), 8);
    assert_eq!(f.roundwidth(8), 8);
    assert_eq!(f.roundheight(9), 16);
}
