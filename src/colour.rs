//! Colours with four 8-bit channels, their luma, and alpha compositing.
use vstd::prelude::*;

use image::Pixel;

verus! {

/// A colour with 8-bit red, green, blue and alpha channels (alpha 255 is opaque).
#[derive(Clone, Copy, Debug, PartialEq, Eq, Structural)]
pub struct Rgba8 {
    pub r: u8,
    pub g: u8,
    pub b: u8,
    pub a: u8,
}

impl Rgba8 {
    /// A colour from its four channels.
    pub fn new(r: u8, g: u8, b: u8, a: u8) -> (c: Rgba8)
        ensures
            c == (Rgba8 { r, g, b, a }),
    {
        Rgba8 { r, g, b, a }
    }
}

/// The channel `k` of `c`: 0 red, 1 green, 2 blue, 3 alpha.
pub open spec fn channel(c: Rgba8, k: int) -> int {
    if k == 0 {
        c.r as int
    } else if k == 1 {
        c.g as int
    } else if k == 2 {
        c.b as int
    } else {
        c.a as int
    }
}

/// The luma (perceptual brightness) that the image crate gives to an RGB triple.
pub uninterp spec fn luma_of(r: u8, g: u8, b: u8) -> u8;

/// Relies on `image::Pixel::to_luma` for `Rgba<u8>`: a weighted sum of red,
/// green and blue cast to `u8`, which reads neither alpha nor anything else.
#[verifier::external_body]
pub(crate) fn luma(c: Rgba8) -> (l: u8)
    ensures
        l == luma_of(c.r, c.g, c.b),
{
    image::Rgba([c.r, c.g, c.b, c.a]).to_luma().0[0]
}

/// Alpha of `src` drawn over `dst`, scaled by 255.
pub open spec fn over_weight(dst: Rgba8, src: Rgba8) -> int {
    src.a * 255 + dst.a * (255 - src.a)
}

/// One colour channel of `src` drawn over `dst`: the alpha-weighted mean of
/// the two channel values (0 where both are fully transparent).
pub open spec fn over_channel(dst: Rgba8, src: Rgba8, k: int) -> int {
    let w = over_weight(dst, src);
    if w == 0 {
        0
    } else {
        (channel(src, k) * src.a * 255 + channel(dst, k) * dst.a * (255 - src.a)) / w
    }
}

/// Straight-alpha "source over destination" compositing of `src` onto `dst`.
pub open spec fn over(dst: Rgba8, src: Rgba8) -> Rgba8 {
    Rgba8 {
        r: over_channel(dst, src, 0) as u8,
        g: over_channel(dst, src, 1) as u8,
        b: over_channel(dst, src, 2) as u8,
        a: (over_weight(dst, src) / 255) as u8,
    }
}

proof fn lemma_over_channel_bounds(dst: Rgba8, src: Rgba8, k: int)
    ensures
        0 <= over_weight(dst, src) <= 255 * 255,
        0 <= over_channel(dst, src, k) <= 255,
{
    let sa = src.a as int;
    let da = dst.a as int;
    let sc = channel(src, k);
    let dc = channel(dst, k);
    let w = over_weight(dst, src);
    assert(0 <= w <= 255 * 255) by (nonlinear_arith)
        requires
            w == sa * 255 + da * (255 - sa),
            0 <= sa <= 255,
            0 <= da <= 255,
    ;
    if w != 0 {
        let n = sc * sa * 255 + dc * da * (255 - sa);
        assert(0 <= n <= 255 * w) by (nonlinear_arith)
            requires
                n == sc * sa * 255 + dc * da * (255 - sa),
                w == sa * 255 + da * (255 - sa),
                0 <= sa <= 255,
                0 <= da <= 255,
                0 <= sc <= 255,
                0 <= dc <= 255,
        ;
        assert(0 <= n / w <= 255) by (nonlinear_arith)
            requires
                0 <= n <= 255 * w,
                w > 0,
        ;
    }
}

/// Compositing an opaque colour gives that colour, and compositing a fully
/// transparent one over a visible pixel leaves the pixel as it was.
pub proof fn lemma_over_opaque_and_clear(dst: Rgba8, src: Rgba8)
    ensures
        src.a == 255 ==> over(dst, src) == src,
        src.a == 0 && dst.a > 0 ==> over(dst, src) == dst,
{
    if src.a == 255 {
        assert forall|k: int| 0 <= k < 4 implies over_channel(dst, src, k) == channel(src, k) by {
            let c = channel(src, k);
            let d = channel(dst, k) * dst.a;
            assert((c * 255 * 255 + d * 0) / (255 * 255 as int) == c) by (nonlinear_arith);
        }
        assert(over_channel(dst, src, 0) == src.r);
        assert(over_channel(dst, src, 1) == src.g);
        assert(over_channel(dst, src, 2) == src.b);
    }
    if src.a == 0 && dst.a > 0 {
        let da = dst.a as int;
        assert forall|k: int| 0 <= k < 4 implies over_channel(dst, src, k) == channel(dst, k) by {
            let c = channel(dst, k);
            assert((channel(src, k) * 0 * 255 + c * da * 255) / (da * 255) == c) by (nonlinear_arith)
                requires
                    da > 0,
            ;
        }
        assert(over_channel(dst, src, 0) == dst.r);
        assert(over_channel(dst, src, 1) == dst.g);
        assert(over_channel(dst, src, 2) == dst.b);
    }
}

fn blend_channel(dc: u8, da: u8, sc: u8, sa: u8, w: u32) -> (c: u8)
    requires
        w == sa * 255 + da * (255 - sa),
    ensures
        c == over_channel(
            Rgba8 { r: dc, g: 0, b: 0, a: da },
            Rgba8 { r: sc, g: 0, b: 0, a: sa },
            0,
        ),
{
    let ghost d = Rgba8 { r: dc, g: 0, b: 0, a: da };
    let ghost s = Rgba8 { r: sc, g: 0, b: 0, a: sa };
    proof {
        lemma_over_channel_bounds(d, s, 0);
    }
    if w == 0 {
        0
    } else {
        assert((sc as u32) * (sa as u32) <= 255 * 255) by (nonlinear_arith)
            requires
                sc <= 255,
                sa <= 255,
        ;
        assert((dc as u32) * (da as u32) <= 255 * 255) by (nonlinear_arith)
            requires
                dc <= 255,
                da <= 255,
        ;
        let a: u32 = (sc as u32) * (sa as u32) * 255;
        let dd: u32 = (dc as u32) * (da as u32);
        let inv: u32 = 255 - sa as u32;
        assert(dd * inv <= 255 * 255 * 255) by (nonlinear_arith)
            requires
                dd <= 255 * 255,
                inv <= 255,
        ;
        let b: u32 = dd * inv;
        assert(a + b <= 255 * 255 * 255 * 2) by (nonlinear_arith)
            requires
                a == sc * sa * 255,
                b == dc * da * (255 - sa),
                sc <= 255,
                sa <= 255,
                dc <= 255,
                da <= 255,
        ;
        ((a + b) / w) as u8
    }
}

/// Composites `src` over `dst` with straight alpha ("source over").
pub fn blend(dst: Rgba8, src: Rgba8) -> (c: Rgba8)
    ensures
        c == over(dst, src),
{
    proof {
        lemma_over_channel_bounds(dst, src, 0);
    }
    let w: u32 = (src.a as u32) * 255 + (dst.a as u32) * (255 - src.a as u32);
    let r = blend_channel(dst.r, dst.a, src.r, src.a, w);
    let g = blend_channel(dst.g, dst.a, src.g, src.a, w);
    let b = blend_channel(dst.b, dst.a, src.b, src.a, w);
    Rgba8 { r, g, b, a: (w / 255) as u8 }
}

} // verus!
