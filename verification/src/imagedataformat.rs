//! Per-format static metadata and the interface that block encoders
//! implement.

use vstd::prelude::*;

verus! {

/// Static metadata of one pixel format: bit depths, block geometry and the
/// byte stride of one encoded block.
#[derive(Clone, Copy, Debug)]
pub struct ImageDataFormat {
    pub name: &'static str,
    pub desc: &'static str,
    pub bitsperpixel: i32,
    pub alphadepth: i32,
    pub blockwidth: i32,
    pub blockheight: i32,
    pub blockstride: i32,
    pub hascolor: bool,
    pub iscompressed: bool,
    pub lossy: bool,
    pub palette: bool,
    pub palettesize: i32,
    pub palettebitsperentry: i32,
}

/// A descriptor is well formed when its block geometry is positive and its
/// stride is exactly the bytes one block of pixels packs to.
pub open spec fn format_wf(f: ImageDataFormat) -> bool {
    &&& 0 < f.bitsperpixel
    &&& 0 < f.blockwidth
    &&& 0 < f.blockheight
    &&& f.blockstride == (f.bitsperpixel * f.blockwidth * f.blockheight + 7) / 8
}

impl ImageDataFormat {
    /// A descriptor built from its fields.
    #[allow(clippy::too_many_arguments)]
    pub fn new(
        name: &'static str,
        desc: &'static str,
        bitsperpixel: i32,
        alphadepth: i32,
        blockwidth: i32,
        blockheight: i32,
        blockstride: i32,
        hascolor: bool,
        iscompressed: bool,
        lossy: bool,
        palette: bool,
        palettesize: i32,
        palettebitsperentry: i32,
    ) -> (r: Self)
        ensures
            r == (ImageDataFormat {
                name,
                desc,
                bitsperpixel,
                alphadepth,
                blockwidth,
                blockheight,
                blockstride,
                hascolor,
                iscompressed,
                lossy,
                palette,
                palettesize,
                palettebitsperentry,
            }),
    {
        Self {
            name,
            desc,
            bitsperpixel,
            alphadepth,
            blockwidth,
            blockheight,
            blockstride,
            hascolor,
            iscompressed,
            lossy,
            palette,
            palettesize,
            palettebitsperentry,
        }
    }

    /// `width` rounded up to the next multiple of the block width.
    pub fn roundwidth(&self, width: i32) -> (r: i32)
        requires
            0 < self.blockwidth,
            0 <= width,
            width + self.blockwidth <= i32::MAX,
        ensures
            r == width + ((self.blockwidth - width % self.blockwidth) as int) % (
            self.blockwidth as int),
            r as int % (self.blockwidth as int) == 0,
            width <= r < width + self.blockwidth,
    {
        proof {
            lemma_round_up(width as int, self.blockwidth as int);
        }
        width + ((self.blockwidth - (width % self.blockwidth)) % self.blockwidth)
    }

    /// `height` rounded up to the next multiple of the block height.
    pub fn roundheight(&self, height: i32) -> (r: i32)
        requires
            0 < self.blockheight,
            0 <= height,
            height + self.blockheight <= i32::MAX,
        ensures
            r == height + ((self.blockheight - height % self.blockheight) as int) % (
            self.blockheight as int),
            r as int % (self.blockheight as int) == 0,
            height <= r < height + self.blockheight,
    {
        proof {
            lemma_round_up(height as int, self.blockheight as int);
        }
        height + ((self.blockheight - (height % self.blockheight)) % self.blockheight)
    }
}

/// A per-format block encoder: its descriptor, and the conversion of one
/// zero-padded block-sized pixel tile into encoded bytes.
pub trait Converter {
    /// The format's descriptor.
    spec fn spec_format() -> ImageDataFormat;

    /// The bytes one tile encodes to.
    spec fn spec_convblock(block: Seq<u8>) -> Seq<u8>;

    /// The descriptor is well formed and no tile encodes past the block
    /// stride.
    proof fn format_facts()
        ensures
            format_wf(Self::spec_format()),
            forall|b: Seq<u8>|
                (#[trigger] Self::spec_convblock(b)).len() <= Self::spec_format().blockstride,
    ;

    /// The format's descriptor.
    fn format() -> (r: ImageDataFormat)
        ensures
            r == Self::spec_format(),
    ;

    /// Encodes one `blockwidth` x `blockheight` pixel tile of four bytes
    /// per pixel.
    fn convblock(block: &Vec<u8>) -> (r: Vec<u8>)
        requires
            block@.len() == 4 * (Self::spec_format().blockwidth as int) * (
            Self::spec_format().blockheight as int),
        ensures
            r@ == Self::spec_convblock(block@),
    ;
}

/// The zero-padded `bw` x `bh` pixel tile at block position (bx, by) of a
/// raster buffer: four bytes per pixel, row-major inside the tile, zero
/// where the tile overhangs the image.
pub open spec fn tile(
    data: Seq<u8>,
    w: int,
    h: int,
    bx: int,
    by: int,
    bw: int,
    bh: int,
) -> Seq<u8> {
    Seq::new(
        (4 * bw * bh) as nat,
        |k: int|
            {
                let p = k / 4;
                let dy = p / bw;
                let dx = p % bw;
                let sx = bx * bw + dx;
                let sy = by * bh + dy;
                if sx < w && sy < h {
                    data[4 * (sy * w + sx) + k % 4]
                } else {
                    0u8
                }
            },
    )
}

/// Byte `i` of the bitstream the tiling driver assembles for encoder `C`:
/// the block's encoded bytes at the block's fixed-stride offset, zero
/// padding after them.
pub open spec fn spec_convertto_byte<C: Converter>(data: Seq<u8>, w: int, h: int, i: int) -> u8 {
    let f = C::spec_format();
    let stride = f.blockstride as int;
    let nbw = crate::decoders::blocks_ceil(w, f.blockwidth as int);
    let bi = i / stride;
    let o = i % stride;
    let enc = C::spec_convblock(
        tile(data, w, h, bi % nbw, bi / nbw, f.blockwidth as int, f.blockheight as int),
    );
    if o < enc.len() {
        enc[o]
    } else {
        0u8
    }
}

/// A vector of `n` zero bytes.
fn zero_vec(n: usize) -> (r: Vec<u8>)
    ensures
        r@.len() == n,
        forall|i: int| 0 <= i < n ==> r@[i] == 0u8,
{
    let mut v: Vec<u8> = Vec::new();
    let mut i: usize = 0;
    while i < n
        invariant
            i <= n,
            v@.len() == i,
            forall|j: int| 0 <= j < i ==> v@[j] == 0u8,
        decreases n - i,
    {
        v.push(0);
        i = i + 1;
    }
    v
}

/// How a ceiling block count relates to the dimension it covers.
proof fn lemma_blocks_facts(d: int, b: int)
    requires
        0 <= d,
        0 < b,
    ensures
        0 <= crate::decoders::blocks_ceil(d, b),
        d == 0 ==> crate::decoders::blocks_ceil(d, b) == 0,
        d > 0 ==> crate::decoders::blocks_ceil(d, b) == (d - 1) / b + 1,
        d > 0 ==> (crate::decoders::blocks_ceil(d, b) - 1) * b <= d - 1,
        crate::decoders::blocks_ceil(d, b) <= d,
{
    if d == 0 {
        vstd::arithmetic::div_mod::lemma_basic_div(b - 1, b);
    } else {
        vstd::arithmetic::div_mod::lemma_div_plus_one(d - 1, b);
        vstd::arithmetic::div_mod::lemma_div_pos_is_pos(d - 1, b);
        let q = (d - 1) / b;
        vstd::arithmetic::div_mod::lemma_fundamental_div_mod(d - 1, b);
        vstd::arithmetic::div_mod::lemma_mod_bound(d - 1, b);
        assert(q * b <= d - 1) by {
            vstd::arithmetic::mul::lemma_mul_is_commutative(q, b);
        }
        assert(q + 1 <= d) by {
            if q + 1 > d {
                assert(q >= d);
                vstd::arithmetic::mul::lemma_mul_inequality(d, q, b);
                assert(d * b <= q * b);
                assert(1 * d <= b * d) by {
                    vstd::arithmetic::mul::lemma_mul_inequality(1, b, d);
                }
                vstd::arithmetic::mul::lemma_mul_is_commutative(d, b);
            }
        }
    }
}

/// Assembles the encoded bitstream for encoder `C`: for each block
/// position of the image, in raster order, the encoding of its
/// zero-padded tile at the block's fixed-stride offset.
#[verifier::loop_isolation(false)]
#[verifier::rlimit(100)]
pub fn convertto<C: Converter>(data: &Vec<u8>, width: i32, height: i32) -> (r: Vec<u8>)
    requires
        0 <= width,
        0 <= height,
        data@.len() == 4 * (width as int) * (height as int),
        crate::decoders::req_bytes(
            width as int,
            height as int,
            C::spec_format().blockwidth as int,
            C::spec_format().blockheight as int,
            C::spec_format().blockstride as int,
        ) <= usize::MAX,
        4 * (C::spec_format().blockwidth as int) * (C::spec_format().blockheight as int)
            <= usize::MAX,
    ensures
        r@.len() == crate::decoders::req_bytes(
            width as int,
            height as int,
            C::spec_format().blockwidth as int,
            C::spec_format().blockheight as int,
            C::spec_format().blockstride as int,
        ),
        forall|i: int|
            0 <= i < r@.len() ==> r@[i] == spec_convertto_byte::<C>(
                data@,
                width as int,
                height as int,
                i,
            ),
{
    proof {
        C::format_facts();
        vstd::std_specs::vec::axiom_spec_len(data);
    }
    let f = C::format();
    let bw = f.blockwidth as usize;
    let bh = f.blockheight as usize;
    let stride = f.blockstride as usize;
    let w = width as usize;
    let h = height as usize;
    proof {
        assert(0 < f.bitsperpixel * f.blockwidth * f.blockheight) by {
            vstd::arithmetic::mul::lemma_mul_strictly_positive(
                f.bitsperpixel as int,
                f.blockwidth as int,
            );
            vstd::arithmetic::mul::lemma_mul_strictly_positive(
                (f.bitsperpixel * f.blockwidth) as int,
                f.blockheight as int,
            );
        }
        assert(0 < stride) by {
            vstd::arithmetic::div_mod::lemma_div_is_ordered(
                8,
                f.bitsperpixel * f.blockwidth * f.blockheight + 7,
                8,
            );
        }
        lemma_blocks_facts(w as int, bw as int);
        lemma_blocks_facts(h as int, bh as int);
    }
    let nbw: usize = if w == 0 {
        0
    } else {
        (w - 1) / bw + 1
    };
    let nbh: usize = if h == 0 {
        0
    } else {
        (h - 1) / bh + 1
    };
    let ghost nbwi = crate::decoders::blocks_ceil(w as int, bw as int);
    let ghost nbhi = crate::decoders::blocks_ceil(h as int, bh as int);
    let ghost ressizei = crate::decoders::req_bytes(
        w as int,
        h as int,
        bw as int,
        bh as int,
        stride as int,
    );
    proof {
        assert(nbw as int == nbwi && nbh as int == nbhi);
        vstd::arithmetic::mul::lemma_mul_nonnegative(nbwi, nbhi);
        assert(1 * (nbwi * nbhi) <= (stride as int) * (nbwi * nbhi)) by {
            vstd::arithmetic::mul::lemma_mul_inequality(1, stride as int, nbwi * nbhi);
        }
        assert((stride as int) * (nbwi * nbhi) == nbwi * nbhi * (stride as int)) by {
            vstd::arithmetic::mul::lemma_mul_is_commutative(stride as int, nbwi * nbhi);
        }
        assert(4 * (bw as int) <= 4 * (bw as int) * (bh as int)) by {
            vstd::arithmetic::mul::lemma_mul_inequality(1, bh as int, 4 * (bw as int));
            vstd::arithmetic::mul::lemma_mul_is_commutative(bh as int, 4 * (bw as int));
        }
    }
    let nb: usize = nbw * nbh;
    let ressize: usize = nb * stride;
    let tilelen: usize = 4 * bw * bh;
    let mut result = zero_vec(ressize);
    let mut by: usize = 0;
    while by < nbh
        invariant
            by <= nbh,
            result@.len() == ressizei,
            forall|i: int|
                0 <= i < ressizei ==> #[trigger] result@[i] == (if i / (stride as int) < by as int
                    * nbwi {
                    spec_convertto_byte::<C>(data@, w as int, h as int, i)
                } else {
                    0u8
                }),
        decreases nbh - by,
    {
        let mut bx: usize = 0;
        proof {
            vstd::arithmetic::mul::lemma_mul_nonnegative(by as int, nbwi);
            vstd::arithmetic::mul::lemma_mul_inequality(by as int + 1, nbhi, nbwi);
            vstd::arithmetic::mul::lemma_mul_is_distributive_add_other_way(nbwi, by as int, 1);
            vstd::arithmetic::mul::lemma_mul_is_commutative(nbhi, nbwi);
        }
        while bx < nbw
            invariant
                bx <= nbw,
                by < nbh,
                result@.len() == ressizei,
                (by as int + 1) * nbwi <= nbwi * nbhi,
                (by as int + 1) * nbwi == by as int * nbwi + nbwi,
                0 <= by as int * nbwi,
                forall|i: int|
                    0 <= i < ressizei ==> #[trigger] result@[i] == (if i / (stride as int) < by
                        as int * nbwi + bx as int {
                        spec_convertto_byte::<C>(data@, w as int, h as int, i)
                    } else {
                        0u8
                    }),
            decreases nbw - bx,
        {
            let mut blockv = zero_vec(tilelen);
            let ghost tl = tile(data@, w as int, h as int, bx as int, by as int, bw as int, bh as int);
            proof {
                if w > 0 && h > 0 {
                    crate::decoders::lemma_pix_in_range(
                        w as int - 1,
                        h as int - 1,
                        w as int,
                        h as int,
                    );
                }
                assert(4 * (w as int) * (h as int) == 4 * ((h as int) * (w as int))) by {
                    vstd::arithmetic::mul::lemma_mul_is_commutative(w as int, h as int);
                    vstd::arithmetic::mul::lemma_mul_is_associative(4, w as int, h as int);
                }
            }
            let mut dy: usize = 0;
            while dy < bh
                invariant
                    dy <= bh,
                    bx < nbw,
                    by < nbh,
                    blockv@.len() == tilelen,
                    forall|k: int|
                        0 <= k < tilelen ==> #[trigger] blockv@[k] == (if k / 4 / (bw as int) < dy
                            as int {
                            tl[k]
                        } else {
                            0u8
                        }),
                decreases bh - dy,
            {
                proof {
                    vstd::arithmetic::mul::lemma_mul_nonnegative(by as int, bh as int);
                    if h > 0 {
                        assert((nbhi - 1) * (bh as int) <= h as int - 1);
                        vstd::arithmetic::mul::lemma_mul_inequality(by as int, nbhi - 1, bh as int);
                    }
                    vstd::arithmetic::mul::lemma_mul_nonnegative(bx as int, bw as int);
                    if w > 0 {
                        assert((nbwi - 1) * (bw as int) <= w as int - 1);
                        vstd::arithmetic::mul::lemma_mul_inequality(bx as int, nbwi - 1, bw as int);
                    }
                }
                let sy = by * bh + dy;
                if sy < h {
                    let xbase = bx * bw;
                    let rowpx: usize = if w - xbase < bw {
                        w - xbase
                    } else {
                        bw
                    };
                    let copybytes: usize = 4 * rowpx;
                    proof {
                        assert(4 * (rowpx as int) <= 4 * (bw as int) * (bh as int)) by {
                            vstd::arithmetic::mul::lemma_mul_inequality(1, bh as int, 4 * (bw as int));
                            vstd::arithmetic::mul::lemma_mul_is_commutative(bh as int, 4 * (bw as int));
                        }
                        vstd::arithmetic::mul::lemma_mul_nonnegative(dy as int, 4 * (bw as int));
                        vstd::arithmetic::mul::lemma_mul_inequality(
                            dy as int + 1,
                            bh as int,
                            4 * (bw as int),
                        );
                        vstd::arithmetic::mul::lemma_mul_is_distributive_add_other_way(
                            4 * (bw as int),
                            dy as int,
                            1,
                        );
                        assert((bh as int) * (4 * (bw as int)) == 4 * (bw as int) * (bh as int)) by {
                            vstd::arithmetic::mul::lemma_mul_is_commutative(
                                bh as int,
                                4 * (bw as int),
                            );
                        }
                        crate::decoders::lemma_pix_in_range(
                            xbase as int,
                            sy as int,
                            w as int,
                            h as int,
                        );
                        assert(4 * ((sy as int) * (w as int) + xbase as int) + 4 * (rowpx as int)
                            <= data@.len()) by {
                            vstd::arithmetic::mul::lemma_mul_inequality(
                                sy as int + 1,
                                h as int,
                                w as int,
                            );
                            vstd::arithmetic::mul::lemma_mul_is_distributive_add_other_way(
                                w as int,
                                sy as int,
                                1,
                            );
                            vstd::arithmetic::mul::lemma_mul_is_distributive_add(
                                4,
                                (sy as int) * (w as int) + xbase as int,
                                rowpx as int,
                            );
                            vstd::arithmetic::mul::lemma_mul_is_commutative(h as int, w as int);
                        }
                    }
                    let didbase: usize = dy * (4 * bw);
                    let sidbase: usize = 4 * (sy * w + xbase);
                    let mut jj: usize = 0;
                    while jj < copybytes
                        invariant
                            jj <= copybytes,
                            copybytes == 4 * rowpx,
                            rowpx <= bw,
                            xbase == bx as int * (bw as int),
                            rowpx as int == if w as int - xbase < bw as int {
                                w as int - xbase as int
                            } else {
                                bw as int
                            },
                            sy < h,
                            sy == by as int * (bh as int) + dy as int,
                            dy < bh,
                            bx < nbw,
                            by < nbh,
                            didbase == dy as int * (4 * bw as int),
                            didbase + copybytes <= tilelen,
                            sidbase == 4 * (sy as int * w as int + xbase as int),
                            sidbase + copybytes <= data@.len(),
                            blockv@.len() == tilelen,
                            forall|k: int|
                                0 <= k < tilelen ==> #[trigger] blockv@[k] == (if k / 4 / (
                                bw as int) < dy as int || (didbase <= k < didbase + jj) {
                                    tl[k]
                                } else {
                                    0u8
                                }),
                        decreases copybytes - jj,
                    {
                        let v = data[sidbase + jj];
                        blockv.set(didbase + jj, v);
                        proof {
                            let k = didbase + jj as int;
                            let p = k / 4;
                            vstd::arithmetic::div_mod::lemma_fundamental_div_mod(jj as int, 4);
                            vstd::arithmetic::div_mod::lemma_mod_bound(jj as int, 4);
                            let jq = jj as int / 4;
                            let jr = jj as int % 4;
                            assert(k == 4 * ((dy as int) * (bw as int) + jq) + jr) by {
                                vstd::arithmetic::mul::lemma_mul_is_distributive_add(
                                    4,
                                    (dy as int) * (bw as int),
                                    jq,
                                );
                                assert((dy as int) * (4 * (bw as int)) == 4 * ((dy as int) * (
                                bw as int))) by {
                                    vstd::arithmetic::mul::lemma_mul_is_associative(
                                        dy as int,
                                        4,
                                        bw as int,
                                    );
                                    vstd::arithmetic::mul::lemma_mul_is_associative(
                                        4,
                                        dy as int,
                                        bw as int,
                                    );
                                    vstd::arithmetic::mul::lemma_mul_is_commutative(dy as int, 4);
                                }
                            }
                            vstd::arithmetic::div_mod::lemma_fundamental_div_mod_converse(
                                k,
                                4,
                                (dy as int) * (bw as int) + jq,
                                jr,
                            );
                            assert(p == (dy as int) * (bw as int) + jq);
                            vstd::arithmetic::div_mod::lemma_fundamental_div_mod_converse(
                                p,
                                bw as int,
                                dy as int,
                                jq,
                            );
                            assert(p / (bw as int) == dy as int && p % (bw as int) == jq);
                            assert(4 * ((sy as int) * (w as int) + (xbase as int + jq)) + jr
                                == sidbase + jj as int) by {
                                vstd::arithmetic::mul::lemma_mul_is_distributive_add(
                                    4,
                                    (sy as int) * (w as int) + xbase as int,
                                    jq,
                                );
                            }
                            assert(blockv@[k] == tl[k]);
                        }
                        jj = jj + 1;
                    }
                    proof {
                        assert forall|k: int|
                            0 <= k < tilelen implies #[trigger] blockv@[k] == (if k / 4 / (
                        bw as int) < dy as int + 1 {
                            tl[k]
                        } else {
                            0u8
                        }) by {
                            let p = k / 4;
                            let kb = p / (bw as int);
                            vstd::arithmetic::div_mod::lemma_fundamental_div_mod(k, 4);
                            vstd::arithmetic::div_mod::lemma_mod_bound(k, 4);
                            vstd::arithmetic::div_mod::lemma_fundamental_div_mod(p, bw as int);
                            vstd::arithmetic::div_mod::lemma_mod_bound(p, bw as int);
                            vstd::arithmetic::div_mod::lemma_div_pos_is_pos(k, 4);
                            vstd::arithmetic::div_mod::lemma_div_pos_is_pos(p, bw as int);
                            let dx = p % (bw as int);
                            assert(k == 4 * (kb * (bw as int) + dx) + k % 4) by {
                                vstd::arithmetic::mul::lemma_mul_is_distributive_add(
                                    4,
                                    kb * (bw as int),
                                    dx,
                                );
                                vstd::arithmetic::mul::lemma_mul_is_commutative(bw as int, kb);
                            }
                            assert((dy as int) * (4 * (bw as int)) == 4 * ((dy as int) * (
                            bw as int))) by {
                                vstd::arithmetic::mul::lemma_mul_is_associative(
                                    dy as int,
                                    4,
                                    bw as int,
                                );
                                vstd::arithmetic::mul::lemma_mul_is_associative(4, dy as int, bw as int);
                                vstd::arithmetic::mul::lemma_mul_is_commutative(dy as int, 4);
                            }
                            if kb > dy as int {
                                assert((dy as int + 1) * (bw as int) <= kb * (bw as int)) by {
                                    vstd::arithmetic::mul::lemma_mul_inequality(
                                        dy as int + 1,
                                        kb,
                                        bw as int,
                                    );
                                }
                                assert((dy as int + 1) * (bw as int) == (dy as int) * (bw as int)
                                    + bw as int) by {
                                    vstd::arithmetic::mul::lemma_mul_is_distributive_add_other_way(
                                        bw as int,
                                        dy as int,
                                        1,
                                    );
                                }
                                assert(k >= didbase + 4 * (bw as int));
                                assert(blockv@[k] == 0);
                            }
                            if kb == dy as int {
                                assert(didbase <= k);
                                if k < didbase + copybytes {
                                    assert(blockv@[k] == tl[k]);
                                } else {
                                    assert(4 * (rowpx as int) <= 4 * dx + k % 4);
                                    assert(rowpx <= dx);
                                    assert(dx < bw as int);
                                    assert(rowpx as int == w as int - xbase as int);
                                    assert(bx as int * (bw as int) + dx >= w as int);
                                    assert(tl[k] == 0);
                                    assert(blockv@[k] == 0);
                                }
                            }
                        }
                    }
                } else {
                    proof {
                        assert forall|k: int|
                            0 <= k < tilelen implies (if k / 4 / (bw as int) == dy as int {
                            tl[k] == 0
                        } else {
                            true
                        }) by {
                            if k / 4 / (bw as int) == dy as int {
                                vstd::arithmetic::div_mod::lemma_div_pos_is_pos(k / 4, bw as int);
                            }
                        }
                    }
                }
                dy = dy + 1;
            }
            proof {
                assert forall|k: int| 0 <= k < tilelen implies blockv@[k] == tl[k] by {
                    vstd::arithmetic::div_mod::lemma_div_pos_is_pos(k, 4);
                    vstd::arithmetic::div_mod::lemma_div_pos_is_pos(k / 4, bw as int);
                    assert(k / 4 < (bw as int) * (bh as int)) by {
                        vstd::arithmetic::div_mod::lemma_div_is_ordered(k, tilelen as int - 1, 4);
                        assert((4 * (bw as int) * (bh as int) - 1) / 4 < (bw as int) * (bh as int))
                            by {
                            vstd::arithmetic::mul::lemma_mul_is_associative(4, bw as int, bh as int);
                            vstd::arithmetic::div_mod::lemma_fundamental_div_mod_converse(
                                4 * ((bw as int) * (bh as int)) - 1,
                                4,
                                (bw as int) * (bh as int) - 1,
                                3,
                            );
                        }
                    }
                    assert(k / 4 / (bw as int) < bh as int) by {
                        vstd::arithmetic::div_mod::lemma_div_is_ordered(
                            k / 4,
                            (bw as int) * (bh as int) - 1,
                            bw as int,
                        );
                        vstd::arithmetic::div_mod::lemma_fundamental_div_mod(
                            (bw as int) * (bh as int) - 1,
                            bw as int,
                        );
                        vstd::arithmetic::div_mod::lemma_mod_bound(
                            (bw as int) * (bh as int) - 1,
                            bw as int,
                        );
                        assert(((bw as int) * (bh as int) - 1) / (bw as int) <= bh as int - 1) by {
                            if ((bw as int) * (bh as int) - 1) / (bw as int) > bh as int - 1 {
                                vstd::arithmetic::mul::lemma_mul_inequality(
                                    bh as int,
                                    ((bw as int) * (bh as int) - 1) / (bw as int),
                                    bw as int,
                                );
                                vstd::arithmetic::mul::lemma_mul_is_commutative(
                                    bh as int,
                                    bw as int,
                                );
                                vstd::arithmetic::mul::lemma_mul_is_commutative(
                                    ((bw as int) * (bh as int) - 1) / (bw as int),
                                    bw as int,
                                );
                            }
                        }
                    }
                }
                assert(blockv@ =~= tl);
            }
            let temp = C::convblock(&blockv);
            proof {
                assert(blockv@ =~= tl);
                assert(temp@.len() <= stride);
            }
            let bi: usize = by * nbw + bx;
            proof {
                assert(bi as int + 1 <= nbwi * nbhi);
                vstd::arithmetic::mul::lemma_mul_inequality(bi as int + 1, nbwi * nbhi, stride as int);
                vstd::arithmetic::mul::lemma_mul_is_distributive_add_other_way(
                    stride as int,
                    bi as int,
                    1,
                );
                vstd::arithmetic::mul::lemma_mul_nonnegative(bi as int, stride as int);
                vstd::arithmetic::div_mod::lemma_fundamental_div_mod_converse(
                    bi as int,
                    nbwi,
                    by as int,
                    bx as int,
                );
            }
            let sidx: usize = bi * stride;
            let tlen = temp.len();
            let mut jj: usize = 0;
            while jj < tlen
                invariant
                    jj <= tlen,
                    tlen == temp@.len(),
                    temp@.len() <= stride,
                    temp@ == C::spec_convblock(tl),
                    bi == by as int * nbwi + bx as int,
                    bi as int % nbwi == bx as int,
                    bi as int / nbwi == by as int,
                    sidx == bi as int * (stride as int),
                    sidx + stride <= ressizei,
                    bx < nbw,
                    by < nbh,
                    result@.len() == ressizei,
                    forall|i: int|
                        0 <= i < ressizei ==> #[trigger] result@[i] == (if i / (stride as int) < bi
                            as int {
                            spec_convertto_byte::<C>(data@, w as int, h as int, i)
                        } else if sidx <= i < sidx + jj {
                            temp@[i - sidx]
                        } else {
                            0u8
                        }),
                decreases tlen - jj,
            {
                let v = temp[jj];
                result.set(sidx + jj, v);
                proof {
                    vstd::arithmetic::div_mod::lemma_fundamental_div_mod_converse(
                        sidx as int + jj as int,
                        stride as int,
                        bi as int,
                        jj as int,
                    );
                }
                jj = jj + 1;
            }
            proof {
                assert forall|i: int| 0 <= i < ressizei implies #[trigger] result@[i] == (if i / (
                stride as int) < bi as int + 1 {
                    spec_convertto_byte::<C>(data@, w as int, h as int, i)
                } else {
                    0u8
                }) by {
                    if sidx <= i < sidx + stride {
                        vstd::arithmetic::div_mod::lemma_fundamental_div_mod_converse(
                            i,
                            stride as int,
                            bi as int,
                            i - sidx,
                        );
                        assert(i / (stride as int) == bi as int && i % (stride as int) == i - sidx);
                        assert(tile(
                            data@,
                            w as int,
                            h as int,
                            bi as int % nbwi,
                            bi as int / nbwi,
                            bw as int,
                            bh as int,
                        ) == tl);
                        assert(spec_convertto_byte::<C>(data@, w as int, h as int, i) == (if i - sidx
                            < temp@.len() {
                            temp@[i - sidx]
                        } else {
                            0u8
                        }));
                    } else {
                        vstd::arithmetic::div_mod::lemma_fundamental_div_mod(i, stride as int);
                        vstd::arithmetic::div_mod::lemma_mod_bound(i, stride as int);
                        vstd::arithmetic::div_mod::lemma_div_pos_is_pos(i, stride as int);
                        vstd::arithmetic::mul::lemma_mul_is_commutative(
                            stride as int,
                            i / (stride as int),
                        );
                        if i / (stride as int) > bi as int {
                            assert((bi as int + 1) * (stride as int) <= (i / (stride as int)) * (
                            stride as int)) by {
                                vstd::arithmetic::mul::lemma_mul_inequality(
                                    bi as int + 1,
                                    i / (stride as int),
                                    stride as int,
                                );
                            }
                            assert((bi as int + 1) * (stride as int) == bi as int * (stride as int)
                                + stride as int) by {
                                vstd::arithmetic::mul::lemma_mul_is_distributive_add_other_way(
                                    stride as int,
                                    bi as int,
                                    1,
                                );
                            }
                            assert(i >= sidx + stride);
                            assert(result@[i] == 0);
                        }
                    }
                }
            }
            bx = bx + 1;
        }
        by = by + 1;
    }
    proof {
        assert forall|i: int| 0 <= i < ressizei implies result@[i] == spec_convertto_byte::<C>(
            data@,
            w as int,
            h as int,
            i,
        ) by {
            assert(i / (stride as int) < nbhi * nbwi) by {
                vstd::arithmetic::div_mod::lemma_div_is_ordered(i, ressizei - 1, stride as int);
                vstd::arithmetic::mul::lemma_mul_is_distributive_sub_other_way(
                    stride as int,
                    nbwi * nbhi,
                    1,
                );
                vstd::arithmetic::mul::lemma_mul_is_commutative(nbwi * nbhi, stride as int);
                vstd::arithmetic::mul::lemma_mul_is_commutative(nbhi, nbwi);
                vstd::arithmetic::div_mod::lemma_fundamental_div_mod_converse(
                    nbwi * nbhi * (stride as int) - 1,
                    stride as int,
                    nbwi * nbhi - 1,
                    stride as int - 1,
                );
            }
            vstd::arithmetic::mul::lemma_mul_is_commutative(nbhi, nbwi);
        }
    }
    result
}

/// Adding `(b - d % b) % b` to `d` lands on the next multiple of `b`.
proof fn lemma_round_up(d: int, b: int)
    requires
        0 <= d,
        0 < b,
    ensures
        0 <= (b - d % b) % b < b,
        (d + (b - d % b) % b) % b == 0,
{
    let m = d % b;
    vstd::arithmetic::div_mod::lemma_mod_bound(d, b);
    if m == 0 {
        vstd::arithmetic::div_mod::lemma_mod_self_0(b);
        assert((b - m) % b == 0) by {
            vstd::arithmetic::div_mod::lemma_mod_self_0(b);
        }
        vstd::arithmetic::div_mod::lemma_mod_twice(d, b);
        assert((d + 0) % b == 0) by {
            assert(d % b == 0);
            vstd::arithmetic::div_mod::lemma_mod_twice(d, b);
        }
    } else {
        vstd::arithmetic::div_mod::lemma_small_mod((b - m) as nat, b as nat);
        assert((b - m) % b == b - m);
        vstd::arithmetic::div_mod::lemma_add_mod_noop(d, b - m, b);
        assert((d + (b - m)) % b == (m + (b - m) % b) % b) by {
            vstd::arithmetic::div_mod::lemma_mod_twice(d, b);
            vstd::arithmetic::div_mod::lemma_add_mod_noop(d, b - m, b);
        }
        assert((m + (b - m)) % b == 0) by {
            vstd::arithmetic::div_mod::lemma_mod_self_0(b);
        }
    }
}

} // verus!
