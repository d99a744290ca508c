//! Averaging rectangular blocks of pixels.
use vstd::prelude::*;

use crate::colour::{channel, Rgba8};
use crate::raster::{lemma_index_in_bounds, pixel_at, RgbaBuffer};

verus! {

/// Sum of channel `k` over the `n` pixels `(x0, y) .. (x0 + n - 1, y)`.
pub open spec fn row_sum(pixels: Seq<Rgba8>, w: int, x0: int, y: int, n: int, k: int) -> int
    decreases n,
{
    if n <= 0 {
        0
    } else {
        row_sum(pixels, w, x0, y, n - 1, k) + channel(pixel_at(pixels, w, x0 + n - 1, y), k)
    }
}

/// Sum of channel `k` over the block of `rows` rows of `bw` pixels whose
/// top-left pixel is `(x0, y0)`.
pub open spec fn block_sum(
    pixels: Seq<Rgba8>,
    w: int,
    x0: int,
    y0: int,
    bw: int,
    rows: int,
    k: int,
) -> int
    decreases rows,
{
    if rows <= 0 {
        0
    } else {
        block_sum(pixels, w, x0, y0, bw, rows - 1, k) + row_sum(pixels, w, x0, y0 + rows - 1, bw, k)
    }
}

/// Channel `k` of the mean colour of the `bw` x `bh` block at `(x0, y0)`:
/// the exact channel sum divided once by the pixel count.
pub open spec fn mean_channel(pixels: Seq<Rgba8>, w: int, x0: int, y0: int, bw: int, bh: int, k: int) -> int {
    block_sum(pixels, w, x0, y0, bw, bh, k) / (bw * bh)
}

/// The mean colour of the `bw` x `bh` block whose top-left pixel is `(x0, y0)`.
pub open spec fn block_mean(pixels: Seq<Rgba8>, w: int, x0: int, y0: int, bw: int, bh: int) -> Rgba8 {
    Rgba8 {
        r: mean_channel(pixels, w, x0, y0, bw, bh, 0) as u8,
        g: mean_channel(pixels, w, x0, y0, bw, bh, 1) as u8,
        b: mean_channel(pixels, w, x0, y0, bw, bh, 2) as u8,
        a: mean_channel(pixels, w, x0, y0, bw, bh, 3) as u8,
    }
}

/// The mean colour of the `bw` x `bh` block of `img` whose top-left pixel is
/// `(x0, y0)`, each channel summed exactly and divided once by `bw * bh`.
pub fn average_block(img: &RgbaBuffer, x0: usize, y0: usize, bw: usize, bh: usize) -> (c: Rgba8)
    requires
        img.wf(),
        bw > 0,
        bh > 0,
        x0 + bw <= img.width,
        y0 + bh <= img.height,
    ensures
        c == block_mean(img.pixels@, img.width as int, x0 as int, y0 as int, bw as int, bh as int),
        forall|k: int|
            0 <= k < 4 ==> channel(c, k) == mean_channel(
                img.pixels@,
                img.width as int,
                x0 as int,
                y0 as int,
                bw as int,
                bh as int,
                k,
            ),
{
    let ghost p = img.pixels@;
    let ghost w = img.width as int;
    let len = img.pixels.len();
    assert(bw * bh <= img.width * img.height) by (nonlinear_arith)
        requires
            0 < bw <= img.width,
            0 < bh <= img.height,
    ;
    let mut sr: u128 = 0;
    let mut sg: u128 = 0;
    let mut sb: u128 = 0;
    let mut sa: u128 = 0;
    let mut j: usize = 0;
    while j < bh
        invariant
            img.wf(),
            len == img.pixels@.len(),
            p == img.pixels@,
            w == img.width,
            bw > 0,
            bh > 0,
            x0 + bw <= img.width,
            y0 + bh <= img.height,
            j <= bh,
            sr == block_sum(p, w, x0 as int, y0 as int, bw as int, j as int, 0),
            sg == block_sum(p, w, x0 as int, y0 as int, bw as int, j as int, 1),
            sb == block_sum(p, w, x0 as int, y0 as int, bw as int, j as int, 2),
            sa == block_sum(p, w, x0 as int, y0 as int, bw as int, j as int, 3),
            sr <= 255 * bw * j,
            sg <= 255 * bw * j,
            sb <= 255 * bw * j,
            sa <= 255 * bw * j,
            bw * bh <= len,
        decreases bh - j,
    {
        let y = y0 + j;
        let mut rr: u128 = 0;
        let mut rg: u128 = 0;
        let mut rb: u128 = 0;
        let mut ra: u128 = 0;
        let mut i: usize = 0;
        assert(bw * j <= bw * bh) by (nonlinear_arith)
            requires
                j < bh,
                bw > 0,
        ;
        while i < bw
            invariant
                img.wf(),
                len == img.pixels@.len(),
                p == img.pixels@,
                w == img.width,
                x0 + bw <= img.width,
                y < img.height,
                i <= bw,
                rr == row_sum(p, w, x0 as int, y as int, i as int, 0),
                rg == row_sum(p, w, x0 as int, y as int, i as int, 1),
                rb == row_sum(p, w, x0 as int, y as int, i as int, 2),
                ra == row_sum(p, w, x0 as int, y as int, i as int, 3),
                rr <= 255 * i,
                rg <= 255 * i,
                rb <= 255 * i,
                ra <= 255 * i,
            decreases bw - i,
        {
            proof {
                lemma_index_in_bounds((x0 + i) as int, y as int, w, img.height as int);
            }
            let c = img.pixels[x0 + i + img.width * y];
            rr = rr + c.r as u128;
            rg = rg + c.g as u128;
            rb = rb + c.b as u128;
            ra = ra + c.a as u128;
            i = i + 1;
        }
        assert(255 * bw * j + 255 * bw == 255 * bw * (j + 1)) by (nonlinear_arith);
        assert(255 * bw * (j + 1) <= 255 * bw * bh) by (nonlinear_arith)
            requires
                j < bh,
                bw > 0,
        ;
        assert(255 * bw * bh <= 255 * len) by (nonlinear_arith)
            requires
                bw * bh <= len,
        ;
        assert(len <= usize::MAX);
        sr = sr + rr;
        sg = sg + rg;
        sb = sb + rb;
        sa = sa + ra;
        j = j + 1;
    }
    assert(0 < bw * bh <= usize::MAX) by (nonlinear_arith)
        requires
            bw > 0,
            bh > 0,
            bw * bh <= len,
            len <= usize::MAX,
    ;
    let count: u128 = (bw as u128) * (bh as u128);
    assert(255 * bw * bh == 255 * count) by (nonlinear_arith)
        requires
            count == bw * bh,
    ;
    proof {
        lemma_mean_le(sr as int, count as int);
        lemma_mean_le(sg as int, count as int);
        lemma_mean_le(sb as int, count as int);
        lemma_mean_le(sa as int, count as int);
    }
    Rgba8 {
        r: (sr / count) as u8,
        g: (sg / count) as u8,
        b: (sb / count) as u8,
        a: (sa / count) as u8,
    }
}

proof fn lemma_mean_le(s: int, n: int)
    requires
        0 <= s <= 255 * n,
        n > 0,
    ensures
        0 <= s / n <= 255,
{
    assert(0 <= s / n <= 255) by (nonlinear_arith)
        requires
            0 <= s <= 255 * n,
            n > 0,
    ;
}

proof fn lemma_uniform_row_sum(pixels: Seq<Rgba8>, w: int, x0: int, y: int, n: int, k: int, c: Rgba8)
    requires
        n >= 0,
        forall|x: int| x0 <= x < x0 + n ==> #[trigger] pixel_at(pixels, w, x, y) == c,
    ensures
        row_sum(pixels, w, x0, y, n, k) == n * channel(c, k),
    decreases n,
{
    if n > 0 {
        lemma_uniform_row_sum(pixels, w, x0, y, n - 1, k, c);
        assert(pixel_at(pixels, w, x0 + n - 1, y) == c);
        let ch = channel(c, k);
        assert((n - 1) * ch + ch == n * ch) by (nonlinear_arith);
        assert(row_sum(pixels, w, x0, y, n, k) == row_sum(pixels, w, x0, y, n - 1, k) + ch);
    } else {
        assert(n * channel(c, k) == 0) by (nonlinear_arith)
            requires
                n == 0,
        ;
    }
}

proof fn lemma_uniform_block_sum(
    pixels: Seq<Rgba8>,
    w: int,
    x0: int,
    y0: int,
    bw: int,
    rows: int,
    k: int,
    c: Rgba8,
)
    requires
        bw >= 0,
        rows >= 0,
        forall|x: int, y: int|
            x0 <= x < x0 + bw && y0 <= y < y0 + rows ==> #[trigger] pixel_at(pixels, w, x, y) == c,
    ensures
        block_sum(pixels, w, x0, y0, bw, rows, k) == rows * bw * channel(c, k),
    decreases rows,
{
    if rows > 0 {
        lemma_uniform_block_sum(pixels, w, x0, y0, bw, rows - 1, k, c);
        let y = y0 + rows - 1;
        assert forall|x: int| x0 <= x < x0 + bw implies #[trigger] pixel_at(pixels, w, x, y) == c by {}
        lemma_uniform_row_sum(pixels, w, x0, y, bw, k, c);
        let ch = channel(c, k);
        assert((rows - 1) * bw * ch + bw * ch == rows * bw * ch) by (nonlinear_arith);
        assert(block_sum(pixels, w, x0, y0, bw, rows, k) == block_sum(pixels, w, x0, y0, bw, rows - 1, k)
            + row_sum(pixels, w, x0, y, bw, k));
    } else {
        assert(rows * bw * channel(c, k) == 0) by (nonlinear_arith)
            requires
                rows == 0,
        ;
    }
}

/// A block whose pixels all have the colour `c` averages to exactly `c`,
/// whatever the block's size.
pub proof fn lemma_uniform_block_mean(
    pixels: Seq<Rgba8>,
    w: int,
    x0: int,
    y0: int,
    bw: int,
    bh: int,
    c: Rgba8,
)
    requires
        bw > 0,
        bh > 0,
        forall|x: int, y: int|
            x0 <= x < x0 + bw && y0 <= y < y0 + bh ==> #[trigger] pixel_at(pixels, w, x, y) == c,
    ensures
        block_mean(pixels, w, x0, y0, bw, bh) == c,
{
    assert forall|k: int| 0 <= k < 4 implies mean_channel(pixels, w, x0, y0, bw, bh, k) == channel(c, k) by {
        lemma_uniform_block_sum(pixels, w, x0, y0, bw, bh, k, c);
        let ch = channel(c, k);
        assert((bh * bw * ch) / (bw * bh) == ch) by (nonlinear_arith)
            requires
                bw > 0,
                bh > 0,
        ;
    }
    assert(mean_channel(pixels, w, x0, y0, bw, bh, 0) == channel(c, 0));
    assert(mean_channel(pixels, w, x0, y0, bw, bh, 1) == channel(c, 1));
    assert(mean_channel(pixels, w, x0, y0, bw, bh, 2) == channel(c, 2));
    assert(mean_channel(pixels, w, x0, y0, bw, bh, 3) == channel(c, 3));
}

/// Each averaged channel is the arithmetic mean of the block rounded down
/// once: `count * mean <= sum < count * (mean + 1)`. In particular a block
/// that is half 0 and half 255 in a channel averages to 127 there, whatever
/// its size.
pub proof fn lemma_mean_unbiased(
    pixels: Seq<Rgba8>,
    w: int,
    x0: int,
    y0: int,
    bw: int,
    bh: int,
    k: int,
)
    requires
        bw > 0,
        bh > 0,
    ensures
        ({
            let sum = block_sum(pixels, w, x0, y0, bw, bh, k);
            let m = mean_channel(pixels, w, x0, y0, bw, bh, k);
            &&& (bw * bh) * m <= sum < (bw * bh) * (m + 1)
            &&& (2 * sum == 255 * (bw * bh) ==> m == 127)
        }),
{
    let sum = block_sum(pixels, w, x0, y0, bw, bh, k);
    let n = bw * bh;
    assert(n > 0) by (nonlinear_arith)
        requires
            n == bw * bh,
            bw > 0,
            bh > 0,
    ;
    let m = sum / n;
    assert(n * m <= sum < n * (m + 1)) by (nonlinear_arith)
        requires
            n > 0,
            m == sum / n,
    ;
    if 2 * sum == 255 * n {
        assert(m == 127) by (nonlinear_arith)
            requires
                n > 0,
                n * m <= sum < n * (m + 1),
                2 * sum == 255 * n,
        ;
    }
}

} // verus!
