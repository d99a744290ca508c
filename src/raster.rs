//! Row-major RGBA pixel buffers: the images that art is sampled from and
//! composited into.
use vstd::prelude::*;

use crate::colour::{blend, over, Rgba8};

verus! {

/// A `width` x `height` image whose pixel `(x, y)` is `pixels[x + width * y]`.
#[derive(Debug)]
pub struct RgbaBuffer {
    pub width: usize,
    pub height: usize,
    pub pixels: Vec<Rgba8>,
}

/// `x + w * y` lies inside a `w` x `h` buffer when `(x, y)` does.
pub proof fn lemma_index_in_bounds(x: int, y: int, w: int, h: int)
    requires
        0 <= x < w,
        0 <= y < h,
    ensures
        0 <= x + w * y < w * h,
        w * y <= w * h,
{
    assert(0 <= x + w * y < w * h && w * y <= w * h) by (nonlinear_arith)
        requires
            0 <= x < w,
            0 <= y < h,
    ;
}

/// Pixel `(x, y)` of a row-major sequence of rows `w` wide.
pub open spec fn pixel_at(pixels: Seq<Rgba8>, w: int, x: int, y: int) -> Rgba8 {
    pixels[x + w * y]
}

/// `pixels` with `c` drawn over pixel `(x, y)` when it lies inside the
/// `w` x `h` area, and unchanged when it lies outside.
pub open spec fn blend_at(pixels: Seq<Rgba8>, w: int, h: int, x: int, y: int, c: Rgba8) -> Seq<
    Rgba8,
> {
    if 0 <= x < w && 0 <= y < h {
        pixels.update(x + w * y, over(pixels[x + w * y], c))
    } else {
        pixels
    }
}

impl RgbaBuffer {
    /// The pixel sequence holds exactly `width * height` pixels.
    pub open spec fn wf(&self) -> bool {
        self.pixels@.len() == self.width * self.height
    }

    /// Pixel `(x, y)`.
    pub open spec fn pixel(&self, x: int, y: int) -> Rgba8 {
        pixel_at(self.pixels@, self.width as int, x, y)
    }

    /// A `width` x `height` buffer with every pixel `colour`.
    pub fn from_pixel(width: usize, height: usize, colour: Rgba8) -> (b: RgbaBuffer)
        requires
            width * height <= usize::MAX,
        ensures
            b.wf(),
            b.width == width,
            b.height == height,
            forall|i: int| 0 <= i < b.pixels@.len() ==> b.pixels@[i] == colour,
    {
        let n: usize = width * height;
        let mut pixels: Vec<Rgba8> = Vec::with_capacity(n);
        let mut i: usize = 0;
        while i < n
            invariant
                i <= n,
                pixels@.len() == i,
                forall|j: int| 0 <= j < i ==> pixels@[j] == colour,
            decreases n - i,
        {
            pixels.push(colour);
            i = i + 1;
        }
        RgbaBuffer { width, height, pixels }
    }

    /// A fully transparent black `width` x `height` buffer.
    pub fn new(width: usize, height: usize) -> (b: RgbaBuffer)
        requires
            width * height <= usize::MAX,
        ensures
            b.wf(),
            b.width == width,
            b.height == height,
            forall|i: int| 0 <= i < b.pixels@.len() ==> b.pixels@[i] == (Rgba8 { r: 0, g: 0, b: 0, a: 0 }),
    {
        RgbaBuffer::from_pixel(width, height, Rgba8 { r: 0, g: 0, b: 0, a: 0 })
    }

    /// A buffer over `pixels`, or `None` when they are not `width * height` many.
    pub fn from_pixels(width: usize, height: usize, pixels: Vec<Rgba8>) -> (b: Option<RgbaBuffer>)
        ensures
            b is Some <==> pixels@.len() == width * height,
            b is Some ==> b->0.wf() && b->0.width == width && b->0.height == height
                && b->0.pixels@ == pixels@,
    {
        let len = pixels.len();
        match width.checked_mul(height) {
            Some(n) => {
                if n == len {
                    Some(RgbaBuffer { width, height, pixels })
                } else {
                    None
                }
            },
            None => None,
        }
    }

    /// Pixel `(x, y)`.
    pub fn get_pixel(&self, x: usize, y: usize) -> (c: Rgba8)
        requires
            self.wf(),
            x < self.width,
            y < self.height,
        ensures
            c == self.pixel(x as int, y as int),
    {
        // a Vec's length fits in usize, and so does every index below it
        let _ = self.pixels.len();
        proof {
            lemma_index_in_bounds(x as int, y as int, self.width as int, self.height as int);
        }
        self.pixels[x + self.width * y]
    }

    /// Draws `colour` over pixel `(x, y)` with alpha compositing; a position
    /// outside the buffer is ignored.
    pub fn blend_pixel(&mut self, x: usize, y: usize, colour: Rgba8)
        requires
            old(self).wf(),
        ensures
            final(self).wf(),
            final(self).width == old(self).width,
            final(self).height == old(self).height,
            final(self).pixels@ == blend_at(
                old(self).pixels@,
                old(self).width as int,
                old(self).height as int,
                x as int,
                y as int,
                colour,
            ),
    {
        if x < self.width && y < self.height {
            // a Vec's length fits in usize, and so does every index below it
        let _ = self.pixels.len();
            proof {
                lemma_index_in_bounds(x as int, y as int, self.width as int, self.height as int);
            }
            let i = x + self.width * y;
            let c = blend(self.pixels[i], colour);
            self.pixels[i] = c;
        }
    }
}

} // verus!
