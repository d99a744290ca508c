//! Rendering character art into a raster image from rasterized glyphs.
use vstd::prelude::*;

use vstd::arithmetic::div_mod::lemma_fundamental_div_mod_converse;

use crate::ascii_art::{AsciiArt, Cell};
use crate::colour::Rgba8;
use crate::error::AsciiError;
use crate::raster::{blend_at, RgbaBuffer};

verus! {

/// One pixel of a rasterized glyph: its offset from the glyph's drawing
/// origin, and its coverage as an alpha value (`round(255 * coverage)`).
#[derive(Clone, Copy, Debug, PartialEq, Eq, Structural)]
pub struct GlyphPixel {
    pub x: usize,
    pub y: usize,
    pub alpha: u8,
}

/// The coverage of one character rasterized at the cell size.
#[derive(Debug)]
pub struct Glyph {
    pub character: char,
    pub pixels: Vec<GlyphPixel>,
}

/// The index of the first glyph among the first `n` of `glyphs` drawn for `c`.
pub open spec fn first_glyph(glyphs: Seq<Glyph>, c: char, n: int) -> Option<int>
    decreases n,
{
    if n <= 0 {
        None
    } else {
        match first_glyph(glyphs, c, n - 1) {
            Some(i) => Some(i),
            None => if glyphs[n - 1].character == c {
                Some(n - 1)
            } else {
                None
            },
        }
    }
}

/// `colour` with its alpha replaced by `alpha`.
pub open spec fn with_alpha(colour: Rgba8, alpha: u8) -> Rgba8 {
    Rgba8 { a: alpha, ..colour }
}

/// The `w` x `h` pixels `canvas` after the first `n` pixels of a glyph with
/// origin `(ox, oy)` are drawn over it in `colour`, each with its coverage
/// as alpha; glyph pixels outside the canvas are dropped.
pub open spec fn paint_glyph(
    canvas: Seq<Rgba8>,
    w: int,
    h: int,
    ox: int,
    oy: int,
    colour: Rgba8,
    glyph: Seq<GlyphPixel>,
    n: int,
) -> Seq<Rgba8>
    decreases n,
{
    if n <= 0 {
        canvas
    } else {
        let p = glyph[n - 1];
        blend_at(
            paint_glyph(canvas, w, h, ox, oy, colour, glyph, n - 1),
            w,
            h,
            ox + p.x,
            oy + p.y,
            with_alpha(colour, p.alpha),
        )
    }
}

/// The `w` x `h` pixels `canvas` after the first `n` cells (row-major, `gw`
/// per row) are drawn, each with its glyph at `font_size` times its grid
/// position; a cell whose character has no glyph leaves the canvas as it is.
pub open spec fn paint_cells(
    canvas: Seq<Rgba8>,
    w: int,
    h: int,
    cells: Seq<Cell>,
    gw: int,
    glyphs: Seq<Glyph>,
    font_size: int,
    n: int,
) -> Seq<Rgba8>
    decreases n,
{
    if n <= 0 {
        canvas
    } else {
        let before = paint_cells(canvas, w, h, cells, gw, glyphs, font_size, n - 1);
        let cell = cells[n - 1];
        match first_glyph(glyphs, cell.character, glyphs.len() as int) {
            None => before,
            Some(g) => paint_glyph(
                before,
                w,
                h,
                ((n - 1) % gw) * font_size,
                ((n - 1) / gw) * font_size,
                cell.colour,
                glyphs[g].pixels@,
                glyphs[g].pixels@.len() as int,
            ),
        }
    }
}

/// The grid positions, in row-major order, of those of the first `n` cells
/// (`gw` per row) whose character has no glyph.
pub open spec fn cells_missing(cells: Seq<Cell>, gw: int, glyphs: Seq<Glyph>, n: int) -> Seq<(usize, usize)>
    decreases n,
{
    if n <= 0 {
        seq![]
    } else {
        let before = cells_missing(cells, gw, glyphs, n - 1);
        if first_glyph(glyphs, cells[n - 1].character, glyphs.len() as int) is None {
            before.push((((n - 1) % gw) as usize, ((n - 1) / gw) as usize))
        } else {
            before
        }
    }
}

/// The canvas a render starts from: `n` pixels of the background colour, or
/// of transparent black when there is none.
pub open spec fn blank_canvas(n: int, background_colour: Option<Rgba8>) -> Seq<Rgba8> {
    Seq::new(
        n as nat,
        |i: int|
            match background_colour {
                Some(c) => c,
                None => Rgba8 { r: 0, g: 0, b: 0, a: 0 },
            },
    )
}

/// Painting a glyph keeps the canvas size, and changes no pixel that no
/// glyph pixel lands on inside the canvas: coverage that falls outside is
/// dropped.
pub proof fn lemma_paint_glyph_frame(
    canvas: Seq<Rgba8>,
    w: int,
    h: int,
    ox: int,
    oy: int,
    colour: Rgba8,
    glyph: Seq<GlyphPixel>,
    n: int,
    i: int,
)
    requires
        canvas.len() == w * h,
        0 <= n <= glyph.len(),
        0 <= i < canvas.len(),
        forall|k: int|
            0 <= k < n ==> {
                let (px, py) = (ox + (#[trigger] glyph[k]).x, oy + glyph[k].y);
                !(0 <= px < w && 0 <= py < h && px + w * py == i)
            },
    ensures
        paint_glyph(canvas, w, h, ox, oy, colour, glyph, n).len() == canvas.len(),
        paint_glyph(canvas, w, h, ox, oy, colour, glyph, n)[i] == canvas[i],
    decreases n,
{
    if n > 0 {
        lemma_paint_glyph_frame(canvas, w, h, ox, oy, colour, glyph, n - 1, i);
        let p = glyph[n - 1];
        let prev = paint_glyph(canvas, w, h, ox, oy, colour, glyph, n - 1);
        let (px, py) = (ox + p.x, oy + p.y);
        if 0 <= px < w && 0 <= py < h {
            assert(0 <= px + w * py < w * h) by (nonlinear_arith)
                requires
                    0 <= px < w,
                    0 <= py < h,
            ;
        }
    }
}

fn find_glyph(glyphs: &Vec<Glyph>, c: char) -> (r: Option<usize>)
    ensures
        match r {
            Some(i) => i < glyphs@.len() && first_glyph(glyphs@, c, glyphs@.len() as int) == Some(i as int),
            None => first_glyph(glyphs@, c, glyphs@.len() as int) is None,
        },
{
    let mut i: usize = 0;
    while i < glyphs.len()
        invariant
            i <= glyphs@.len(),
            first_glyph(glyphs@, c, i as int) is None,
        decreases glyphs@.len() - i,
    {
        if glyphs[i].character == c {
            proof {
                lemma_first_glyph_found(glyphs@, c, i as int, glyphs@.len() as int);
            }
            return Some(i);
        }
        i = i + 1;
    }
    None
}

proof fn lemma_first_glyph_found(glyphs: Seq<Glyph>, c: char, i: int, n: int)
    requires
        0 <= i < n <= glyphs.len(),
        first_glyph(glyphs, c, i) is None,
        glyphs[i].character == c,
    ensures
        first_glyph(glyphs, c, n) == Some(i),
    decreases n,
{
    if n > i + 1 {
        lemma_first_glyph_found(glyphs, c, i, n - 1);
    }
}

/// Draws `glyph` in `colour` with its origin at `origin`: each glyph pixel
/// takes its coverage as alpha and is composited over the canvas pixel it
/// lands on; glyph pixels outside the canvas are dropped.
pub fn draw_glyph(canvas: &mut RgbaBuffer, origin: (usize, usize), colour: Rgba8, glyph: &Vec<GlyphPixel>)
    requires
        old(canvas).wf(),
    ensures
        final(canvas).wf(),
        final(canvas).width == old(canvas).width,
        final(canvas).height == old(canvas).height,
        final(canvas).pixels@ == paint_glyph(
            old(canvas).pixels@,
            old(canvas).width as int,
            old(canvas).height as int,
            origin.0 as int,
            origin.1 as int,
            colour,
            glyph@,
            glyph@.len() as int,
        ),
{
    let (ox, oy) = origin;
    let w = canvas.width;
    let h = canvas.height;
    let ghost start = canvas.pixels@;
    let mut k: usize = 0;
    while k < glyph.len()
        invariant
            canvas.wf(),
            canvas.width == w,
            canvas.height == h,
            k <= glyph@.len(),
            canvas.pixels@ == paint_glyph(start, w as int, h as int, ox as int, oy as int, colour, glyph@, k as int),
        decreases glyph@.len() - k,
    {
        let p = glyph[k];
        if ox < w && oy < h && p.x < w - ox && p.y < h - oy {
            canvas.blend_pixel(ox + p.x, oy + p.y, Rgba8 { a: p.alpha, ..colour });
        }
        k = k + 1;
    }
}

impl AsciiArt {
    /// The art rendered as a `dimensions.0 * font_size` x `dimensions.1 * font_size`
    /// image: starting from the background colour (transparent black when
    /// there is none), each cell's glyph is composited in the cell's colour,
    /// row by row, with its origin at `font_size` times the cell's position.
    /// A cell whose character has no glyph is left as background. A zero font
    /// size is refused.
    pub fn to_image(&self, glyphs: &Vec<Glyph>, font_size: usize, background_colour: Option<Rgba8>) -> (r:
        Result<RgbaBuffer, AsciiError>)
        requires
            self.wf(),
            self.dimensions.0 * font_size <= usize::MAX,
            self.dimensions.1 * font_size <= usize::MAX,
            (self.dimensions.0 * font_size) * (self.dimensions.1 * font_size) <= usize::MAX,
        ensures
            match r {
                Ok(img) => {
                    let w = self.dimensions.0 * font_size;
                    let h = self.dimensions.1 * font_size;
                    &&& font_size > 0
                    &&& img.wf()
                    &&& img.width == w
                    &&& img.height == h
                    &&& img.pixels@ == paint_cells(
                        blank_canvas(w * h, background_colour),
                        w as int,
                        h as int,
                        self.cells@,
                        self.dimensions.0 as int,
                        glyphs@,
                        font_size as int,
                        self.cells@.len() as int,
                    )
                },
                Err(e) => font_size == 0 && e == AsciiError::InvalidConfiguration,
            },
    {
        if font_size == 0 {
            return Err(AsciiError::InvalidConfiguration);
        }
        let gw = self.dimensions.0;
        let gh = self.dimensions.1;
        let w = gw * font_size;
        let h = gh * font_size;
        let mut canvas = match background_colour {
            Some(c) => RgbaBuffer::from_pixel(w, h, c),
            None => RgbaBuffer::new(w, h),
        };
        let ghost blank = blank_canvas(w * h, background_colour);
        assert(canvas.pixels@ =~= blank);
        let ghost cells = self.cells@;
        let ghost gs = glyphs@;
        let mut y: usize = 0;
        while y < gh
            invariant
                self.wf(),
                cells == self.cells@,
                gs == glyphs@,
                gw == self.dimensions.0,
                gh == self.dimensions.1,
                font_size > 0,
                w == gw * font_size,
                h == gh * font_size,
                canvas.wf(),
                canvas.width == w,
                canvas.height == h,
                y <= gh,
                canvas.pixels@ == paint_cells(blank, w as int, h as int, cells, gw as int, gs, font_size as int, (gw * y) as int),
            decreases gh - y,
        {
            let mut x: usize = 0;
            assert(y * font_size + font_size <= h) by (nonlinear_arith)
                requires
                    y < gh,
                    h == gh * font_size,
            ;
            while x < gw
                invariant
                    self.wf(),
                    cells == self.cells@,
                    gs == glyphs@,
                    gw == self.dimensions.0,
                    gh == self.dimensions.1,
                    font_size > 0,
                    w == gw * font_size,
                    h == gh * font_size,
                    canvas.wf(),
                    canvas.width == w,
                    canvas.height == h,
                    y < gh,
                    y * font_size + font_size <= h,
                    x <= gw,
                    canvas.pixels@ == paint_cells(blank, w as int, h as int, cells, gw as int, gs, font_size as int, (gw * y + x) as int),
                decreases gw - x,
            {
                assert(x * font_size + font_size <= w) by (nonlinear_arith)
                    requires
                        x < gw,
                        w == gw * font_size,
                ;
                proof {
                    assert(y as int * gw as int == gw as int * y as int) by (nonlinear_arith);
                    lemma_fundamental_div_mod_converse((gw * y + x) as int, gw as int, y as int, x as int);
                }
                let ghost n = (gw * y + x) as int;
                assert(0 <= n < gw * gh) by (nonlinear_arith)
                    requires
                        n == gw * y + x,
                        x < gw,
                        y < gh,
                ;
                let cell = self.index((x, y));
                assert(cell == cells[n]);
                assert((n % (gw as int)) * font_size == x * font_size);
                assert((n / (gw as int)) * font_size == y * font_size);
                match find_glyph(glyphs, cell.character) {
                    Some(g) => {
                        draw_glyph(&mut canvas, (x * font_size, y * font_size), cell.colour, &glyphs[g].pixels);
                    },
                    None => {},
                }
                assert(canvas.pixels@ == paint_cells(blank, w as int, h as int, cells, gw as int, gs, font_size as int, n + 1));
                x = x + 1;
            }
            assert(gw * y + gw == gw * (y + 1)) by (nonlinear_arith);
            y = y + 1;
        }
        assert(gw * gh == cells.len());
        Ok(canvas)
    }

    /// The positions of the cells that a render with `glyphs` leaves blank
    /// because their character has no glyph, in row-major order.
    pub fn missing_glyphs(&self, glyphs: &Vec<Glyph>) -> (r: Vec<(usize, usize)>)
        requires
            self.wf(),
        ensures
            r@ == cells_missing(self.cells@, self.dimensions.0 as int, glyphs@, self.cells@.len() as int),
    {
        let gw = self.dimensions.0;
        let gh = self.dimensions.1;
        let ghost cells = self.cells@;
        let mut out: Vec<(usize, usize)> = Vec::new();
        let mut y: usize = 0;
        while y < gh
            invariant
                self.wf(),
                cells == self.cells@,
                gw == self.dimensions.0,
                gh == self.dimensions.1,
                y <= gh,
                out@ == cells_missing(cells, gw as int, glyphs@, (gw * y) as int),
            decreases gh - y,
        {
            let mut x: usize = 0;
            while x < gw
                invariant
                    self.wf(),
                    cells == self.cells@,
                    gw == self.dimensions.0,
                    gh == self.dimensions.1,
                    y < gh,
                    x <= gw,
                    out@ == cells_missing(cells, gw as int, glyphs@, (gw * y + x) as int),
                decreases gw - x,
            {
                let ghost n = (gw * y + x) as int;
                assert(0 <= n < gw * gh) by (nonlinear_arith)
                    requires
                        n == gw * y + x,
                        x < gw,
                        y < gh,
                ;
                proof {
                    assert(y as int * gw as int == gw as int * y as int) by (nonlinear_arith);
                    lemma_fundamental_div_mod_converse(n, gw as int, y as int, x as int);
                }
                let cell = self.index((x, y));
                assert(cell == cells[n]);
                if find_glyph(glyphs, cell.character).is_none() {
                    out.push((x, y));
                }
                x = x + 1;
            }
            assert(gw * y + gw == gw * (y + 1)) by (nonlinear_arith);
            y = y + 1;
        }
        out
    }

    /// The art rendered as an image; the same as `to_image`.
    pub fn as_image(&self, glyphs: &Vec<Glyph>, font_size: usize, background_colour: Option<Rgba8>) -> (r:
        Result<RgbaBuffer, AsciiError>)
        requires
            self.wf(),
            self.dimensions.0 * font_size <= usize::MAX,
            self.dimensions.1 * font_size <= usize::MAX,
            (self.dimensions.0 * font_size) * (self.dimensions.1 * font_size) <= usize::MAX,
        ensures
            match r {
                Ok(img) => {
                    let w = self.dimensions.0 * font_size;
                    let h = self.dimensions.1 * font_size;
                    &&& font_size > 0
                    &&& img.wf()
                    &&& img.width == w
                    &&& img.height == h
                    &&& img.pixels@ == paint_cells(
                        blank_canvas(w * h, background_colour),
                        w as int,
                        h as int,
                        self.cells@,
                        self.dimensions.0 as int,
                        glyphs@,
                        font_size as int,
                        self.cells@.len() as int,
                    )
                },
                Err(e) => font_size == 0 && e == AsciiError::InvalidConfiguration,
            },
    {
        self.to_image(glyphs, font_size, background_colour)
    }
}

} // verus!
