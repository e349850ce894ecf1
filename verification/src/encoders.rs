//! Encoders: the block-tiling driver, the per-format block encoders, and
//! the CMPR block compressor with its endpoint selection, quantization
//! and index assignment.

use vstd::prelude::*;
use crate::CodecError;
use crate::enums::TextureFormats;
use crate::imagedataformat::Converter;
use crate::imagedataformat::ImageDataFormat;

verus! {

/// The squared RGB distance between the pixels at `o1` of `c1` and `o2`
/// of `c2` (alpha ignored).
pub open spec fn sq_dist(c1: Seq<u8>, o1: int, c2: Seq<u8>, o2: int) -> int {
    let d0 = c1[o1] - c2[o2];
    let d1 = c1[o1 + 1] - c2[o2 + 1];
    let d2 = c1[o1 + 2] - c2[o2 + 2];
    d0 * d0 + d1 * d1 + d2 * d2
}

/// The squared RGB distance between two pixels, each four bytes starting
/// at its offset.
pub fn distance(color1: &Vec<u8>, off1: usize, color2: &Vec<u8>, off2: usize) -> (r: i32)
    requires
        off1 + 3 <= color1@.len(),
        off2 + 3 <= color2@.len(),
    ensures
        r == sq_dist(color1@, off1 as int, color2@, off2 as int),
        0 <= r <= 195075,
{
    proof {
        vstd::std_specs::vec::axiom_spec_len(color1);
        vstd::std_specs::vec::axiom_spec_len(color2);
    }
    let d0 = color1[off1] as i32 - color2[off2] as i32;
    let d1 = color1[off1 + 1] as i32 - color2[off2 + 1] as i32;
    let d2 = color1[off1 + 2] as i32 - color2[off2 + 2] as i32;
    proof {
        lemma_square_bound(d0 as int);
        lemma_square_bound(d1 as int);
        lemma_square_bound(d2 as int);
    }
    d0 * d0 + d1 * d1 + d2 * d2
}

/// The views of the rows of a vector of byte vectors.
pub open spec fn rows_view(p: Seq<Vec<u8>>) -> Seq<Seq<u8>> {
    Seq::new(p.len(), |i: int| p[i]@)
}

/// The entry the index scan settles on, walking entries `i` and up while
/// carrying the best distance and entry so far: a non-opaque entry stops
/// the scan, an exact match wins at once, and otherwise the first
/// strictly smaller distance wins.
pub open spec fn scan_pal(
    pal: Seq<Seq<u8>>,
    c: Seq<u8>,
    off: int,
    i: int,
    dist: int,
    best: int,
) -> int
    decreases 4 - i,
{
    if i < 0 || i >= 4 {
        best
    } else if pal[i][3] != 0xFF {
        best
    } else {
        let t = sq_dist(pal[i], 0, c, off);
        if t < dist {
            if t == 0 {
                i
            } else {
                scan_pal(pal, c, off, i + 1, t, i)
            }
        } else {
            scan_pal(pal, c, off, i + 1, dist, best)
        }
    }
}

/// The palette entry closest to the pixel at `off`: a pixel with alpha
/// below 8 takes entry 3 outright; otherwise the entries are scanned in
/// order.
pub open spec fn spec_leastdistance(pal: Seq<Seq<u8>>, c: Seq<u8>, off: int) -> int {
    if c[off + 3] < 8 {
        3
    } else {
        scan_pal(pal, c, off, 0, 0x7fff_ffff, 0)
    }
}

/// The index of the four-entry palette row closest in squared RGB
/// distance to the pixel at `off` of `color`.
#[verifier::loop_isolation(false)]
pub fn leastdistance(palette: &Vec<Vec<u8>>, color: &Vec<u8>, off: usize) -> (r: i32)
    requires
        palette@.len() == 4,
        forall|i: int| 0 <= i < 4 ==> (#[trigger] palette@[i])@.len() == 4,
        off + 4 <= color@.len(),
    ensures
        r == spec_leastdistance(rows_view(palette@), color@, off as int),
        0 <= r < 4,
{
    proof {
        vstd::std_specs::vec::axiom_spec_len(color);
    }
    let ghost palv = rows_view(palette@);
    let ghost goal = scan_pal(palv, color@, off as int, 0, 0x7fff_ffff, 0);
    if color[off + 3] < 8 {
        return 3;
    }
    let mut dist: i32 = i32::MAX;
    let mut best: i32 = 0;
    let mut i: usize = 0;
    while i < 4
        invariant
            i <= 4,
            0 <= best < 4,
            0 < dist <= 0x7fff_ffff,
            scan_pal(palv, color@, off as int, i as int, dist as int, best as int) == goal,
        decreases 4 - i,
    {
        let ghost d0 = dist as int;
        let ghost b0 = best as int;
        proof {
            assert(palv[i as int] == palette@[i as int]@);
        }
        if palette[i][3] != 0xFF {
            return best;
        }
        let temp = distance(&palette[i], 0, color, off);
        if temp < dist {
            if temp == 0 {
                return i as i32;
            }
            dist = temp;
            best = i as i32;
        }
        proof {
            assert(scan_pal(palv, color@, off as int, i as int, d0, b0) == scan_pal(
                palv,
                color@,
                off as int,
                i as int + 1,
                dist as int,
                best as int,
            ));
        }
        i = i + 1;
    }
    best
}

/// Copies `len` elements from `src` at `sidx` into `dest` at `didx`; the
/// rest of `dest` is untouched.
#[verifier::loop_isolation(false)]
pub fn arrcopy<T: Copy>(src: &Vec<T>, sidx: usize, dest: &mut Vec<T>, didx: usize, len: usize)
    requires
        sidx + len <= src@.len(),
        didx + len <= old(dest)@.len(),
    ensures
        final(dest)@.len() == old(dest)@.len(),
        forall|j: int|
            didx <= j < didx + len ==> #[trigger] final(dest)@[j] == src@[sidx + (j - didx)],
        forall|i: int|
            0 <= i < old(dest)@.len() && !(didx <= i < didx + len) ==> final(dest)@[i] == old(
                dest,
            )@[i],
{
    proof {
        vstd::std_specs::vec::axiom_spec_len(src);
        vstd::std_specs::vec::axiom_spec_len(dest);
    }
    let mut i: usize = 0;
    while i < len
        invariant
            i <= len,
            dest@.len() == old(dest)@.len(),
            forall|j: int| didx <= j < didx + i ==> #[trigger] dest@[j] == src@[sidx + (j - didx)],
            forall|j: int|
                0 <= j < old(dest)@.len() && !(didx <= j < didx + i) ==> dest@[j] == old(dest)@[j],
        decreases len - i,
    {
        let v = src[sidx + i];
        dest.set(didx + i, v);
        i = i + 1;
    }
}

/// A raster buffer whose first three channels agree on every pixel.
pub open spec fn all_gray(d: Seq<u8>) -> bool {
    forall|i: int|
        0 <= i < d.len() / 4 ==> #[trigger] d[4 * i] == d[4 * i + 1] && d[4 * i + 1] == d[4 * i + 2]
}

/// A raster buffer holding some pixel that is not fully opaque.
pub open spec fn has_any_alpha(d: Seq<u8>) -> bool {
    exists|i: int| 0 <= i < d.len() / 4 && #[trigger] d[4 * i + 3] != 255
}

/// A raster buffer holding some pixel that is neither fully opaque nor
/// fully transparent.
pub open spec fn has_translucent_alpha(d: Seq<u8>) -> bool {
    exists|i: int| 0 <= i < d.len() / 4 && #[trigger] d[4 * i + 3] != 255 && d[4 * i + 3] != 0
}

/// The format a raster buffer is best stored in: grayscale images as I8,
/// images with partial transparency as RGB5A3, the rest as CMPR.
pub open spec fn detected_format(d: Seq<u8>) -> TextureFormats {
    if all_gray(d) {
        TextureFormats::I8
    } else if has_translucent_alpha(d) {
        TextureFormats::RGB5A3
    } else {
        TextureFormats::CMPR
    }
}

/// Picks the texture format a raster buffer is best stored in, and
/// whether its alpha channel carries information (1) or not (0).
#[verifier::loop_isolation(false)]
pub fn decectandsetsittingformat(rgbaimagedata: &Vec<u8>) -> (r: (TextureFormats, u8))
    ensures
        r.0 == detected_format(rgbaimagedata@),
        r.1 == if has_any_alpha(rgbaimagedata@) {
            1u8
        } else {
            0u8
        },
{
    proof {
        vstd::std_specs::vec::axiom_spec_len(rgbaimagedata);
    }
    let n = rgbaimagedata.len() / 4;
    let mut is_gray = true;
    let mut complex_alpha = false;
    let mut has_alpha = false;
    let mut i: usize = 0;
    proof {
        assert(4 * (n as int) <= rgbaimagedata@.len()) by {
            vstd::arithmetic::div_mod::lemma_fundamental_div_mod(rgbaimagedata@.len() as int, 4);
            vstd::arithmetic::div_mod::lemma_mod_bound(rgbaimagedata@.len() as int, 4);
        }
    }
    while i < n
        invariant
            i <= n,
            4 * (n as int) <= rgbaimagedata@.len(),
            n == rgbaimagedata@.len() / 4,
            is_gray == (forall|j: int|
                0 <= j < i ==> #[trigger] rgbaimagedata@[4 * j] == rgbaimagedata@[4 * j + 1]
                    && rgbaimagedata@[4 * j + 1] == rgbaimagedata@[4 * j + 2]),
            has_alpha == (exists|j: int| 0 <= j < i && #[trigger] rgbaimagedata@[4 * j + 3] != 255),
            complex_alpha == (exists|j: int|
                0 <= j < i && #[trigger] rgbaimagedata@[4 * j + 3] != 255 && rgbaimagedata@[4 * j
                    + 3] != 0),
        decreases n - i,
    {
        let cb = rgbaimagedata[4 * i];
        let cg = rgbaimagedata[4 * i + 1];
        let cr = rgbaimagedata[4 * i + 2];
        let ca = rgbaimagedata[4 * i + 3];
        if is_gray && (cb != cg || cg != cr || cr != cb) {
            is_gray = false;
        }
        if ca != 255 {
            has_alpha = true;
            if ca != 0 {
                complex_alpha = true;
            }
        }
        i = i + 1;
    }
    let format = if is_gray {
        TextureFormats::I8
    } else if complex_alpha {
        TextureFormats::RGB5A3
    } else {
        TextureFormats::CMPR
    };
    let alphasetting: u8 = if has_alpha {
        1
    } else {
        0
    };
    (format, alphasetting)
}

/// The square of a channel difference stays within a small fixed bound.
proof fn lemma_square_bound(d: int)
    requires
        -255 <= d <= 255,
    ensures
        0 <= d * d <= 65025,
{
    assert(0 <= d * d <= 65025) by (nonlinear_arith)
        requires
            -255 <= d <= 255,
    ;
}

/// Whether any pixel of the 4x4 tile counts as transparent for mode
/// selection (alpha below 16).
pub open spec fn cmpr_has_transparent(b: Seq<u8>) -> bool {
    exists|i: int| 0 <= i < 16 && #[trigger] b[4 * i + 3] < 16
}

/// One row of the endpoint pair search: walks partners `j` and up for
/// pixel `i`, keeping the pair with the smallest squared RGB distance;
/// transparent partners are skipped.
pub open spec fn search_j(b: Seq<u8>, i: int, j: int, st: (int, int, int)) -> (int, int, int)
    decreases 16 - j,
{
    if j < 0 || j >= 16 {
        st
    } else {
        let st2 = if b[4 * j + 3] >= 16 {
            let t = sq_dist(b, 4 * i, b, 4 * j);
            if t < st.0 {
                (t, i, j)
            } else {
                st
            }
        } else {
            st
        };
        search_j(b, i, j + 1, st2)
    }
}

/// The endpoint pair search: over all pairs `i < j` of non-transparent
/// pixels, the pair with the smallest squared RGB distance, as
/// `(distance, first, second)`; `(0x7FFFFFFF, -1, -1)` when no pair
/// exists.
pub open spec fn search_i(b: Seq<u8>, i: int, st: (int, int, int)) -> (int, int, int)
    decreases 16 - i,
{
    if i < 0 || i >= 16 {
        st
    } else {
        let st2 = if b[4 * i + 3] >= 16 {
            search_j(b, i, i + 1, st)
        } else {
            st
        };
        search_i(b, i + 1, st2)
    }
}

/// The chosen endpoint pair of a 4x4 tile.
pub open spec fn cmpr_best_pair(b: Seq<u8>) -> (int, int, int) {
    search_i(b, 0, (0x7fff_ffff, -1, -1))
}

/// Whether two pixels quantize to the same RGB565 word.
pub open spec fn quant_eq(p: (u8, u8, u8, u8), q: (u8, u8, u8, u8)) -> bool {
    p.0 >> 3 == q.0 >> 3 && p.1 >> 2 == q.1 >> 2 && p.2 >> 3 == q.2 >> 3
}

/// Whether a pixel quantizes to RGB565 black.
pub open spec fn quant_black(p: (u8, u8, u8, u8)) -> bool {
    p.0 >> 3 == 0 && p.1 >> 2 == 0 && p.2 >> 3 == 0
}

/// The two endpoint pixels before ordering: the closest pair of the
/// search (opaque black and transparent black for a tile with no pair),
/// with the second endpoint forced to white or black when both quantize
/// to the same RGB565 word.
#[verifier::opaque]
pub open spec fn cmpr_endpoints(b: Seq<u8>) -> ((u8, u8, u8, u8), (u8, u8, u8, u8)) {
    let st = cmpr_best_pair(b);
    if st.1 < 0 {
        ((0, 0, 0, 0xFF), (0, 0, 0, 0))
    } else {
        let p0 = (b[4 * st.1], b[4 * st.1 + 1], b[4 * st.1 + 2], 0xFFu8);
        let p1 = (b[4 * st.2], b[4 * st.2 + 1], b[4 * st.2 + 2], 0xFFu8);
        if quant_eq(p0, p1) {
            if quant_black(p0) {
                (p0, (0xFF, 0xFF, 0xFF, 0xFF))
            } else {
                (p0, (0, 0, 0, 0xFF))
            }
        } else {
            (p0, p1)
        }
    }
}

/// The high byte of a pixel's packed big-endian RGB565 word.
pub open spec fn pack565_hi(p: (u8, u8, u8, u8)) -> u8 {
    (p.2 & 0xF8) | (p.1 >> 5)
}

/// The low byte of a pixel's packed big-endian RGB565 word.
pub open spec fn pack565_lo(p: (u8, u8, u8, u8)) -> u8 {
    ((p.1 << 3) & 0xE0) | (p.0 >> 3)
}

/// Whether the two endpoints must swap so that the packed `c1 > c2` test
/// of the decoder lands in the mode the tile's alpha demands: four-color
/// for a fully opaque tile, three-color otherwise.
#[verifier::opaque]
pub open spec fn cmpr_swap(b: Seq<u8>) -> bool {
    let p = cmpr_endpoints(b);
    ((pack565_hi(p.0) > pack565_hi(p.1)) || (pack565_hi(p.0) == pack565_hi(p.1) && pack565_lo(p.0)
        >= pack565_lo(p.1))) == cmpr_has_transparent(b)
}

/// The first endpoint as emitted.
#[verifier::opaque]
pub open spec fn cmpr_c1(b: Seq<u8>) -> (u8, u8, u8, u8) {
    if cmpr_swap(b) {
        cmpr_endpoints(b).1
    } else {
        cmpr_endpoints(b).0
    }
}

/// The second endpoint as emitted.
#[verifier::opaque]
pub open spec fn cmpr_c2(b: Seq<u8>) -> (u8, u8, u8, u8) {
    if cmpr_swap(b) {
        cmpr_endpoints(b).0
    } else {
        cmpr_endpoints(b).1
    }
}

/// The four-entry palette the index assignment scans: the two ordered
/// endpoints, then the 1/3-2/3 interpolants (four-color mode) or the
/// average and transparent black (three-color mode).
#[verifier::opaque]
pub open spec fn cmpr_enc_pal(b: Seq<u8>) -> Seq<Seq<u8>> {
    let q0 = cmpr_c1(b);
    let q1 = cmpr_c2(b);
    let row2 = if cmpr_has_transparent(b) {
        seq![
            crate::decoders::mix_avg(q0.0, q1.0),
            crate::decoders::mix_avg(q0.1, q1.1),
            crate::decoders::mix_avg(q0.2, q1.2),
            0xFFu8,
        ]
    } else {
        seq![
            crate::decoders::mix23(q0.0, q1.0),
            crate::decoders::mix23(q0.1, q1.1),
            crate::decoders::mix23(q0.2, q1.2),
            0xFFu8,
        ]
    };
    let row3 = if cmpr_has_transparent(b) {
        seq![0u8, 0u8, 0u8, 0u8]
    } else {
        seq![
            crate::decoders::mix23(q1.0, q0.0),
            crate::decoders::mix23(q1.1, q0.1),
            crate::decoders::mix23(q1.2, q0.2),
            0xFFu8,
        ]
    };
    seq![seq![q0.0, q0.1, q0.2, q0.3], seq![q1.0, q1.1, q1.2, q1.3], row2, row3]
}

/// Index byte `row` of the encoded subblock: the four two-bit indices of
/// one pixel row, most significant pixel first.
#[verifier::opaque]
pub open spec fn cmpr_enc_byte(b: Seq<u8>, row: int) -> u8 {
    let pal = cmpr_enc_pal(b);
    (spec_leastdistance(pal, b, 16 * row) * 64 + spec_leastdistance(pal, b, 16 * row + 4) * 16
        + spec_leastdistance(pal, b, 16 * row + 8) * 4 + spec_leastdistance(pal, b, 16 * row + 12))
        as u8
}

/// The eight bytes a 4x4 tile compresses to: the two packed endpoint
/// words, big-endian, then the four index bytes.
#[verifier::opaque]
pub open spec fn spec_quarter_cmpr(b: Seq<u8>) -> Seq<u8> {
    seq![
        pack565_hi(cmpr_c1(b)),
        pack565_lo(cmpr_c1(b)),
        pack565_hi(cmpr_c2(b)),
        pack565_lo(cmpr_c2(b)),
        cmpr_enc_byte(b, 0),
        cmpr_enc_byte(b, 1),
        cmpr_enc_byte(b, 2),
        cmpr_enc_byte(b, 3),
    ]
}

/// A four-byte vector from its bytes.
fn row4(a: u8, b: u8, c: u8, d: u8) -> (r: Vec<u8>)
    ensures
        r@ =~= seq![a, b, c, d],
{
    let mut v: Vec<u8> = Vec::new();
    v.push(a);
    v.push(b);
    v.push(c);
    v.push(d);
    v
}

/// Whether any pixel of the tile counts as transparent for mode
/// selection.
#[verifier::loop_isolation(false)]
fn has_transparent_exec(block: &Vec<u8>) -> (r: bool)
    requires
        block@.len() == 64,
    ensures
        r == cmpr_has_transparent(block@),
{
    let mut alpha = false;
    let mut i: usize = 0;
    while i < 16
        invariant
            i <= 16,
            alpha == (exists|j: int| 0 <= j < i && #[trigger] block@[4 * j + 3] < 16),
        decreases 16 - i,
    {
        if block[4 * i + 3] < 16 {
            alpha = true;
        }
        i = i + 1;
    }
    alpha
}

/// The endpoint pair search over all pairs of non-transparent pixels.
#[verifier::loop_isolation(false)]
fn best_pair_exec(block: &Vec<u8>) -> (r: (i32, i32, i32))
    requires
        block@.len() == 64,
    ensures
        (r.0 as int, r.1 as int, r.2 as int) == cmpr_best_pair(block@),
        (r.1 == -1 && r.2 == -1 && r.0 == 0x7fff_ffff) || (0 <= r.1 < 16 && 0 <= r.2 < 16 && 0
            <= r.0 <= 195075),
{
    let ghost st0: (int, int, int) = (0x7fff_ffff, -1, -1);
    let ghost goal = search_i(block@, 0, st0);
    let mut dist: i32 = i32::MAX;
    let mut col1: i32 = -1;
    let mut col2: i32 = -1;
    let mut i: usize = 0;
    while i < 16
        invariant
            i <= 16,
            search_i(block@, i as int, (dist as int, col1 as int, col2 as int)) == goal,
            (col1 == -1 && col2 == -1 && dist == 0x7fff_ffff) || (0 <= col1 < 16 && 0 <= col2 < 16
                && 0 <= dist <= 195075),
        decreases 16 - i,
    {
        let ghost stA: (int, int, int) = (dist as int, col1 as int, col2 as int);
        if block[4 * i + 3] >= 16 {
            let mut j: usize = i + 1;
            while j < 16
                invariant
                    i + 1 <= j <= 16,
                    search_i(
                        block@,
                        i as int + 1,
                        search_j(block@, i as int, j as int, (dist as int, col1 as int, col2 as int)),
                    ) == goal,
                    (col1 == -1 && col2 == -1 && dist == 0x7fff_ffff) || (0 <= col1 < 16 && 0
                        <= col2 < 16 && 0 <= dist <= 195075),
                decreases 16 - j,
            {
                let ghost stB: (int, int, int) = (dist as int, col1 as int, col2 as int);
                if block[4 * j + 3] >= 16 {
                    let temp = distance(block, 4 * i, block, 4 * j);
                    if temp < dist {
                        dist = temp;
                        col1 = i as i32;
                        col2 = j as i32;
                    }
                }
                proof {
                    assert(search_j(block@, i as int, j as int, stB) == search_j(
                        block@,
                        i as int,
                        j as int + 1,
                        (dist as int, col1 as int, col2 as int),
                    ));
                }
                j = j + 1;
            }
            proof {
                assert(search_i(block@, i as int, stA) == search_i(
                    block@,
                    i as int + 1,
                    search_j(block@, i as int, i as int + 1, stA),
                ));
            }
        } else {
            proof {
                assert(search_i(block@, i as int, stA) == search_i(block@, i as int + 1, stA));
            }
        }
        i = i + 1;
    }
    (dist, col1, col2)
}

/// The two endpoints in emitted order, each as a four-byte pixel row.
#[verifier::loop_isolation(false)]
#[verifier::rlimit(100)]
fn ordered_endpoints_exec(block: &Vec<u8>) -> (r: (Vec<u8>, Vec<u8>))
    requires
        block@.len() == 64,
    ensures
        r.0@ =~= seq![
            cmpr_c1(block@).0,
            cmpr_c1(block@).1,
            cmpr_c1(block@).2,
            cmpr_c1(block@).3,
        ],
        r.1@ =~= seq![
            cmpr_c2(block@).0,
            cmpr_c2(block@).1,
            cmpr_c2(block@).2,
            cmpr_c2(block@).3,
        ],
{
    proof {
        vstd::std_specs::vec::axiom_spec_len(block);
    }
    let alpha = has_transparent_exec(block);
    let (dist, col1, col2) = best_pair_exec(block);
    proof {
        assert((dist as int, col1 as int, col2 as int) == cmpr_best_pair(block@));
    }
    // Quantization and the degeneracy guard: identical quantized
    // endpoints are forced apart so the ordering test can still pick the
    // mode.
    let (e0, e1): (Vec<u8>, Vec<u8>) = if col1 < 0 {
        (row4(0, 0, 0, 0xFF), row4(0, 0, 0, 0))
    } else {
        let c1o = 4 * (col1 as usize);
        let c2o = 4 * (col2 as usize);
        let p0 = row4(block[c1o], block[c1o + 1], block[c1o + 2], 0xFF);
        let mut p1 = row4(block[c2o], block[c2o + 1], block[c2o + 2], 0xFF);
        if p0[0] >> 3 == p1[0] >> 3 && p0[1] >> 2 == p1[1] >> 2 && p0[2] >> 3 == p1[2] >> 3 {
            if p0[0] >> 3 == 0 && p0[1] >> 2 == 0 && p0[2] >> 3 == 0 {
                p1 = row4(0xFF, 0xFF, 0xFF, 0xFF);
            } else {
                p1 = row4(0, 0, 0, 0xFF);
            }
        }
        (p0, p1)
    };
    proof {
        reveal(cmpr_endpoints);
        assert(e0@ =~= seq![
            cmpr_endpoints(block@).0.0,
            cmpr_endpoints(block@).0.1,
            cmpr_endpoints(block@).0.2,
            cmpr_endpoints(block@).0.3,
        ]);
        assert(e1@ =~= seq![
            cmpr_endpoints(block@).1.0,
            cmpr_endpoints(block@).1.1,
            cmpr_endpoints(block@).1.2,
            cmpr_endpoints(block@).1.3,
        ]);
    }
    // Mode-consistent endpoint ordering.
    let hi0: u8 = (e0[2] & 0xF8) | (e0[1] >> 5);
    let lo0: u8 = ((e0[1] << 3) & 0xE0) | (e0[0] >> 3);
    let hi1: u8 = (e1[2] & 0xF8) | (e1[1] >> 5);
    let lo1: u8 = ((e1[1] << 3) & 0xE0) | (e1[0] >> 3);
    let swap = ((hi0 > hi1) || (hi0 == hi1 && lo0 >= lo1)) == alpha;
    proof {
        reveal(cmpr_swap);
        assert(swap == cmpr_swap(block@));
        reveal(cmpr_c1);
        reveal(cmpr_c2);
    }
    if swap {
        (e1, e0)
    } else {
        (e0, e1)
    }
}

/// Compresses one 4x4 tile (64 bytes, B, G, R, A) into its eight-byte
/// CMPR subblock encoding.
#[verifier::loop_isolation(false)]
#[verifier::rlimit(100)]
pub fn convblocktoquatercmpr(block: &Vec<u8>) -> (r: Vec<u8>)
    requires
        block@.len() == 64,
    ensures
        r@.len() == 8,
        r@ == spec_quarter_cmpr(block@),
{
    proof {
        vstd::std_specs::vec::axiom_spec_len(block);
    }
    let alpha = has_transparent_exec(block);
    let (q0, q1) = ordered_endpoints_exec(block);
    // Interpolated palette entries.
    let (row2, row3): (Vec<u8>, Vec<u8>) = if !alpha {
        (
            row4(
                ((2 * (q0[0] as u16) + (q1[0] as u16)) / 3) as u8,
                ((2 * (q0[1] as u16) + (q1[1] as u16)) / 3) as u8,
                ((2 * (q0[2] as u16) + (q1[2] as u16)) / 3) as u8,
                0xFF,
            ),
            row4(
                ((2 * (q1[0] as u16) + (q0[0] as u16)) / 3) as u8,
                ((2 * (q1[1] as u16) + (q0[1] as u16)) / 3) as u8,
                ((2 * (q1[2] as u16) + (q0[2] as u16)) / 3) as u8,
                0xFF,
            ),
        )
    } else {
        (
            row4(
                (((q0[0] as u16) + (q1[0] as u16)) / 2) as u8,
                (((q0[1] as u16) + (q1[1] as u16)) / 2) as u8,
                (((q0[2] as u16) + (q1[2] as u16)) / 2) as u8,
                0xFF,
            ),
            row4(0, 0, 0, 0),
        )
    };
    // Serialize: packed endpoints, then the two-bit index of each pixel.
    let mut result: Vec<u8> = Vec::new();
    result.push((q0[2] & 0xF8) | (q0[1] >> 5));
    result.push(((q0[1] << 3) & 0xE0) | (q0[0] >> 3));
    result.push((q1[2] & 0xF8) | (q1[1] >> 5));
    result.push(((q1[1] << 3) & 0xE0) | (q1[0] >> 3));
    proof {
        assert(result@[0] == pack565_hi(cmpr_c1(block@)));
        assert(result@[1] == pack565_lo(cmpr_c1(block@)));
        assert(result@[2] == pack565_hi(cmpr_c2(block@)));
        assert(result@[3] == pack565_lo(cmpr_c2(block@)));
    }
    let mut palette: Vec<Vec<u8>> = Vec::new();
    palette.push(q0);
    palette.push(q1);
    palette.push(row2);
    palette.push(row3);
    proof {
        reveal(cmpr_enc_pal);
        assert(rows_view(palette@) =~~= cmpr_enc_pal(block@));
    }
    let mut row: usize = 0;
    while row < 4
        invariant
            row <= 4,
            result@.len() == 4 + row,
            result@[0] == pack565_hi(cmpr_c1(block@)),
            result@[1] == pack565_lo(cmpr_c1(block@)),
            result@[2] == pack565_hi(cmpr_c2(block@)),
            result@[3] == pack565_lo(cmpr_c2(block@)),
            forall|k: int| 0 <= k < row ==> result@[4 + k] == cmpr_enc_byte(block@, k),
            palette@.len() == 4,
            forall|k: int| 0 <= k < 4 ==> (#[trigger] palette@[k])@.len() == 4,
            rows_view(palette@) == cmpr_enc_pal(block@),
        decreases 4 - row,
    {
        let n0 = leastdistance(&palette, block, 16 * row);
        let n1 = leastdistance(&palette, block, 16 * row + 4);
        let n2 = leastdistance(&palette, block, 16 * row + 8);
        let n3 = leastdistance(&palette, block, 16 * row + 12);
        let num: i32 = n0 * 64 + n1 * 16 + n2 * 4 + n3;
        result.push(num as u8);
        proof {
            reveal(cmpr_enc_byte);
            assert(result@[4 + row as int] == cmpr_enc_byte(block@, row as int));
        }
        row = row + 1;
    }
    proof {
        reveal(spec_quarter_cmpr);
        assert(result@ =~= spec_quarter_cmpr(block@));
    }
    result
}


/// The 4x4 quarter `q` (TL, TR, BL, BR) of an 8x8 pixel tile of four
/// bytes per pixel.
pub open spec fn cmpr_subtile(b: Seq<u8>, q: int) -> Seq<u8> {
    Seq::new(64, |k: int| b[(q / 2) * 128 + (q % 2) * 16 + (k / 16) * 32 + k % 16])
}

/// The 32 bytes an 8x8 tile compresses to: its four quarters, each as one
/// eight-byte subblock.
pub open spec fn spec_cmpr_convblock(b: Seq<u8>) -> Seq<u8> {
    Seq::new(32, |m: int| spec_quarter_cmpr(cmpr_subtile(b, m / 8))[m % 8])
}

/// The I4 block encoder; left unimplemented, it encodes every block to
/// nothing.
pub struct I4;

/// The I8 block encoder; left unimplemented.
pub struct I8;

/// The IA4 block encoder; left unimplemented.
pub struct IA4;

/// The IA8 block encoder; left unimplemented.
pub struct IA8;

/// The RGB565 block encoder; left unimplemented.
pub struct RGB565;

/// The RGB5A3 block encoder; left unimplemented.
pub struct RGB5A3;

/// The RGBA32 block encoder; left unimplemented.
pub struct RGBA32;

/// The CMPR block encoder.
pub struct CMPR;

impl Converter for I4 {
    open spec fn spec_format() -> ImageDataFormat {
        ImageDataFormat {
            name: "I4",
            desc: "I4",
            bitsperpixel: 4,
            alphadepth: 0,
            blockwidth: 8,
            blockheight: 8,
            blockstride: 32,
            hascolor: false,
            iscompressed: false,
            lossy: false,
            palette: false,
            palettesize: 0,
            palettebitsperentry: 0,
        }
    }

    open spec fn spec_convblock(block: Seq<u8>) -> Seq<u8> {
        Seq::empty()
    }

    proof fn format_facts() {
    }

    fn format() -> (r: ImageDataFormat) {
        ImageDataFormat::new("I4", "I4", 4, 0, 8, 8, 32, false, false, false, false, 0, 0)
    }

    fn convblock(block: &Vec<u8>) -> (r: Vec<u8>) {
        Vec::new()
    }
}

impl Converter for I8 {
    open spec fn spec_format() -> ImageDataFormat {
        ImageDataFormat {
            name: "I8",
            desc: "I8",
            bitsperpixel: 8,
            alphadepth: 0,
            blockwidth: 8,
            blockheight: 4,
            blockstride: 32,
            hascolor: false,
            iscompressed: false,
            lossy: false,
            palette: false,
            palettesize: 0,
            palettebitsperentry: 0,
        }
    }

    open spec fn spec_convblock(block: Seq<u8>) -> Seq<u8> {
        Seq::empty()
    }

    proof fn format_facts() {
    }

    fn format() -> (r: ImageDataFormat) {
        ImageDataFormat::new("I8", "I8", 8, 0, 8, 4, 32, false, false, false, false, 0, 0)
    }

    fn convblock(block: &Vec<u8>) -> (r: Vec<u8>) {
        Vec::new()
    }
}

impl Converter for IA4 {
    open spec fn spec_format() -> ImageDataFormat {
        ImageDataFormat {
            name: "IA4",
            desc: "IA4",
            bitsperpixel: 8,
            alphadepth: 4,
            blockwidth: 8,
            blockheight: 4,
            blockstride: 32,
            hascolor: false,
            iscompressed: false,
            lossy: false,
            palette: false,
            palettesize: 0,
            palettebitsperentry: 0,
        }
    }

    open spec fn spec_convblock(block: Seq<u8>) -> Seq<u8> {
        Seq::empty()
    }

    proof fn format_facts() {
    }

    fn format() -> (r: ImageDataFormat) {
        ImageDataFormat::new("IA4", "IA4", 8, 4, 8, 4, 32, false, false, false, false, 0, 0)
    }

    fn convblock(block: &Vec<u8>) -> (r: Vec<u8>) {
        Vec::new()
    }
}

impl Converter for IA8 {
    open spec fn spec_format() -> ImageDataFormat {
        ImageDataFormat {
            name: "IA8",
            desc: "IA8",
            bitsperpixel: 16,
            alphadepth: 8,
            blockwidth: 4,
            blockheight: 4,
            blockstride: 32,
            hascolor: false,
            iscompressed: false,
            lossy: false,
            palette: false,
            palettesize: 0,
            palettebitsperentry: 0,
        }
    }

    open spec fn spec_convblock(block: Seq<u8>) -> Seq<u8> {
        Seq::empty()
    }

    proof fn format_facts() {
    }

    fn format() -> (r: ImageDataFormat) {
        ImageDataFormat::new("IA8", "IA8", 16, 8, 4, 4, 32, false, false, false, false, 0, 0)
    }

    fn convblock(block: &Vec<u8>) -> (r: Vec<u8>) {
        Vec::new()
    }
}

impl Converter for RGB565 {
    open spec fn spec_format() -> ImageDataFormat {
        ImageDataFormat {
            name: "RGB565",
            desc: "RGB565",
            bitsperpixel: 16,
            alphadepth: 0,
            blockwidth: 4,
            blockheight: 4,
            blockstride: 32,
            hascolor: true,
            iscompressed: false,
            lossy: false,
            palette: false,
            palettesize: 0,
            palettebitsperentry: 0,
        }
    }

    open spec fn spec_convblock(block: Seq<u8>) -> Seq<u8> {
        Seq::empty()
    }

    proof fn format_facts() {
    }

    fn format() -> (r: ImageDataFormat) {
        ImageDataFormat::new("RGB565", "RGB565", 16, 0, 4, 4, 32, true, false, false, false, 0, 0)
    }

    fn convblock(block: &Vec<u8>) -> (r: Vec<u8>) {
        Vec::new()
    }
}

impl Converter for RGB5A3 {
    open spec fn spec_format() -> ImageDataFormat {
        ImageDataFormat {
            name: "RGB5A3",
            desc: "RGB5A3",
            bitsperpixel: 16,
            alphadepth: 3,
            blockwidth: 4,
            blockheight: 4,
            blockstride: 32,
            hascolor: true,
            iscompressed: false,
            lossy: false,
            palette: false,
            palettesize: 0,
            palettebitsperentry: 0,
        }
    }

    open spec fn spec_convblock(block: Seq<u8>) -> Seq<u8> {
        Seq::empty()
    }

    proof fn format_facts() {
    }

    fn format() -> (r: ImageDataFormat) {
        ImageDataFormat::new("RGB5A3", "RGB5A3", 16, 3, 4, 4, 32, true, false, false, false, 0, 0)
    }

    fn convblock(block: &Vec<u8>) -> (r: Vec<u8>) {
        Vec::new()
    }
}

impl Converter for RGBA32 {
    open spec fn spec_format() -> ImageDataFormat {
        ImageDataFormat {
            name: "RGBA32",
            desc: "RGBA32",
            bitsperpixel: 32,
            alphadepth: 8,
            blockwidth: 4,
            blockheight: 4,
            blockstride: 64,
            hascolor: true,
            iscompressed: false,
            lossy: false,
            palette: false,
            palettesize: 0,
            palettebitsperentry: 0,
        }
    }

    open spec fn spec_convblock(block: Seq<u8>) -> Seq<u8> {
        Seq::empty()
    }

    proof fn format_facts() {
    }

    fn format() -> (r: ImageDataFormat) {
        ImageDataFormat::new("RGBA32", "RGBA32", 32, 8, 4, 4, 64, true, false, false, false, 0, 0)
    }

    fn convblock(block: &Vec<u8>) -> (r: Vec<u8>) {
        Vec::new()
    }
}

impl Converter for CMPR {
    open spec fn spec_format() -> ImageDataFormat {
        ImageDataFormat {
            name: "CMPR",
            desc: "CMPR",
            bitsperpixel: 4,
            alphadepth: 1,
            blockwidth: 8,
            blockheight: 8,
            blockstride: 32,
            hascolor: true,
            iscompressed: true,
            lossy: true,
            palette: false,
            palettesize: 0,
            palettebitsperentry: 0,
        }
    }

    open spec fn spec_convblock(block: Seq<u8>) -> Seq<u8> {
        spec_cmpr_convblock(block)
    }

    proof fn format_facts() {
        assert forall|b: Seq<u8>| (#[trigger] Self::spec_convblock(b)).len() <= 32 by {
            assert(spec_cmpr_convblock(b).len() == 32);
        }
    }

    fn format() -> (r: ImageDataFormat) {
        ImageDataFormat::new("CMPR", "CMPR", 4, 1, 8, 8, 32, true, true, true, false, 0, 0)
    }

    #[verifier::loop_isolation(false)]
    fn convblock(block: &Vec<u8>) -> (r: Vec<u8>) {
        proof {
            vstd::std_specs::vec::axiom_spec_len(block);
        }
        let mut result: Vec<u8> = Vec::new();
        let mut q: usize = 0;
        while q < 4
            invariant
                q <= 4,
                result@.len() == 8 * q,
                forall|m: int|
                    0 <= m < 8 * q ==> #[trigger] result@[m] == spec_cmpr_convblock(block@)[m],
            decreases 4 - q,
        {
            let base: usize = (q / 2) * 128 + (q % 2) * 16;
            let mut subblock: Vec<u8> = Vec::new();
            let mut k: usize = 0;
            while k < 64
                invariant
                    k <= 64,
                    q < 4,
                    base == (q as int / 2) * 128 + (q as int % 2) * 16,
                    subblock@.len() == k,
                    forall|m: int|
                        0 <= m < k ==> #[trigger] subblock@[m] == block@[base + (m / 16) * 32 + m
                            % 16],
                decreases 64 - k,
            {
                let v = block[base + (k / 16) * 32 + k % 16];
                subblock.push(v);
                k = k + 1;
            }
            proof {
                assert(subblock@ =~= cmpr_subtile(block@, q as int));
            }
            let temp = convblocktoquatercmpr(&subblock);
            let mut t: usize = 0;
            while t < 8
                invariant
                    t <= 8,
                    q < 4,
                    temp@ == spec_quarter_cmpr(cmpr_subtile(block@, q as int)),
                    result@.len() == 8 * q + t,
                    forall|m: int|
                        0 <= m < 8 * q + t ==> #[trigger] result@[m] == spec_cmpr_convblock(
                            block@,
                        )[m],
                decreases 8 - t,
            {
                result.push(temp[t]);
                proof {
                    let m = 8 * (q as int) + t as int;
                    vstd::arithmetic::div_mod::lemma_fundamental_div_mod_converse(
                        m,
                        8,
                        q as int,
                        t as int,
                    );
                    assert(result@[m] == spec_cmpr_convblock(block@)[m]);
                }
                t = t + 1;
            }
            q = q + 1;
        }
        proof {
            assert(result@ =~= spec_cmpr_convblock(block@));
        }
        result
    }
}

/// Encodes a raster buffer into a format's bitstream. Only the
/// compressed format has an encoder; every other format reports that it
/// is unimplemented. Fails first when the raster buffer's length is not
/// `width * height * 4`.
pub fn encode(format: TextureFormats, width: u16, height: u16, raster: &Vec<u8>) -> (r: Result<
    Vec<u8>,
    CodecError,
>)
    ensures
        (r is Ok) == (raster@.len() == 4 * (width as int) * (height as int) && format
            == TextureFormats::CMPR),
        r matches Err(e) ==> e == (if raster@.len() != 4 * (width as int) * (height as int) {
            CodecError::MalformedInput
        } else {
            CodecError::UnsupportedFormat
        }),
        r matches Ok(v) ==> v@.len() == crate::decoders::cmpr_req(width as int, height as int)
            && forall|i: int|
            0 <= i < v@.len() ==> v@[i] == crate::imagedataformat::spec_convertto_byte::<CMPR>(
                raster@,
                width as int,
                height as int,
                i,
            ),
{
    proof {
        vstd::std_specs::vec::axiom_spec_len(raster);
        vstd::arithmetic::mul::lemma_mul_upper_bound(
            4 * (width as int),
            262140,
            height as int,
            65535,
        );
        vstd::arithmetic::mul::lemma_mul_nonnegative(4 * (width as int), height as int);
    }
    let expected: u64 = 4 * (width as u64) * (height as u64);
    if (raster.len() as u64) != expected {
        return Err(CodecError::MalformedInput);
    }
    match format {
        TextureFormats::CMPR => {
            proof {
                crate::decoders::lemma_req_bytes_mono(
                    width as int,
                    height as int,
                    8,
                    8,
                    32,
                    65535,
                    65535,
                );
                assert(crate::decoders::blocks_ceil(65535, 8) == 8192);
                assert(crate::decoders::req_bytes(65535, 65535, 8, 8, 32) == 8192 * 8192 * 32);
            }
            Ok(crate::imagedataformat::convertto::<CMPR>(raster, width as i32, height as i32))
        },
        _ => Err(CodecError::UnsupportedFormat),
    }
}

} // verus!
