//! Building character art from an image: block sampling and quantization.
use vstd::prelude::*;

use vstd::arithmetic::div_mod::lemma_fundamental_div_mod_converse;

use crate::ascii_art::{AsciiArt, Cell};
use crate::character_map::{bucket, CharacterMap};
use crate::colour::{luma, luma_of};
use crate::error::AsciiError;
use crate::raster::RgbaBuffer;
use crate::sampling::{average_block, block_mean};

verus! {

/// The side of the square sample block used unless another is chosen.
pub const DEFAULT_SAMPLE_SIDE: usize = 10;

/// Settings for turning one image into character art.
pub struct AsciiArtBuilder<'a> {
    pub image: &'a RgbaBuffer,
    /// Width and height in pixels of the block that becomes one cell.
    pub sample_dimensions: (usize, usize),
    pub character_map: CharacterMap,
}

/// The cell that block `(x, y)` of `img` becomes with `bw` x `bh` blocks and
/// the ramp `ramp`: the block's mean colour, and the ramp character of the
/// bucket of that colour's luma.
pub open spec fn sampled_cell(img: RgbaBuffer, bw: int, bh: int, ramp: Seq<char>, x: int, y: int) -> Cell {
    let c = block_mean(img.pixels@, img.width as int, x * bw, y * bh, bw, bh);
    Cell { character: ramp[bucket(luma_of(c.r, c.g, c.b) as int, ramp.len() as int)], colour: c }
}

/// Whether a block size and a ramp can be used: both sides positive and the ramp non-empty.
pub open spec fn valid_configuration(sample_dimensions: (usize, usize), ramp: Seq<char>) -> bool {
    sample_dimensions.0 > 0 && sample_dimensions.1 > 0 && ramp.len() > 0
}

/// `x * b + b <= n` for every block index `x` below `n / b`.
proof fn lemma_block_fits(x: int, b: int, n: int)
    requires
        b > 0,
        n >= 0,
        0 <= x < n / b,
    ensures
        0 <= x * b,
        x * b + b <= n,
{
    assert(0 <= x * b && x * b + b <= n) by (nonlinear_arith)
        requires
            b > 0,
            n >= 0,
            0 <= x < n / b,
    ;
}

impl<'a> AsciiArtBuilder<'a> {
    /// A builder for `image` with 10 x 10 blocks and the default ramp.
    pub fn from(image: &'a RgbaBuffer) -> (b: AsciiArtBuilder<'a>)
        ensures
            b.image == image,
            b.sample_dimensions == (DEFAULT_SAMPLE_SIDE, DEFAULT_SAMPLE_SIDE),
            b.character_map@ == crate::character_map::default_ramp(),
    {
        AsciiArtBuilder {
            image,
            sample_dimensions: (DEFAULT_SAMPLE_SIDE, DEFAULT_SAMPLE_SIDE),
            character_map: CharacterMap::default(),
        }
    }

    /// The same builder with blocks of `sample_dimensions` pixels.
    pub fn sample_dimensions(self, sample_dimensions: (usize, usize)) -> (b: AsciiArtBuilder<'a>)
        ensures
            b.image == self.image,
            b.sample_dimensions == sample_dimensions,
            b.character_map@ == self.character_map@,
    {
        AsciiArtBuilder { sample_dimensions, ..self }
    }

    /// The same builder with the ramp made of `char_map`.
    pub fn char_map(self, char_map: Vec<char>) -> (b: AsciiArtBuilder<'a>)
        ensures
            b.image == self.image,
            b.sample_dimensions == self.sample_dimensions,
            b.character_map@ == char_map@,
    {
        AsciiArtBuilder { character_map: CharacterMap(char_map), ..self }
    }

    /// The same builder with the ramp `character_map`.
    pub fn character_map(self, character_map: CharacterMap) -> (b: AsciiArtBuilder<'a>)
        ensures
            b.image == self.image,
            b.sample_dimensions == self.sample_dimensions,
            b.character_map@ == character_map@,
    {
        AsciiArtBuilder { character_map, ..self }
    }

    /// The art of the image: a `floor(width / bw)` x `floor(height / bh)` grid
    /// whose cell `(x, y)` stands for the block at `(x * bw, y * bh)`; the
    /// pixels right of and below the last whole block are left out. A zero
    /// block side or an empty ramp is refused before any sampling.
    pub fn build(self) -> (r: Result<AsciiArt, AsciiError>)
        requires
            self.image.wf(),
        ensures
            match r {
                Ok(art) => {
                    let (bw, bh) = self.sample_dimensions;
                    &&& valid_configuration(self.sample_dimensions, self.character_map@)
                    &&& art.wf()
                    &&& art.dimensions == (self.image.width / bw, self.image.height / bh)
                    &&& forall|x: int, y: int|
                        0 <= x < art.dimensions.0 && 0 <= y < art.dimensions.1 ==> #[trigger] art.cell(x, y)
                            == sampled_cell(*self.image, bw as int, bh as int, self.character_map@, x, y)
                },
                Err(e) => {
                    &&& !valid_configuration(self.sample_dimensions, self.character_map@)
                    &&& e == AsciiError::InvalidConfiguration
                },
            },
    {
        let (bw, bh) = self.sample_dimensions;
        if bw == 0 || bh == 0 || self.character_map.len() == 0 {
            return Err(AsciiError::InvalidConfiguration);
        }
        let img = self.image;
        let gw = img.width / bw;
        let gh = img.height / bh;
        let ghost ramp = self.character_map@;
        assert(gw * gh <= img.width * img.height) by (nonlinear_arith)
            requires
                bw > 0,
                bh > 0,
                gw == img.width / bw,
                gh == img.height / bh,
        ;
        let n_pixels = img.pixels.len();
        assert(gw * gh <= n_pixels);
        let mut cells: Vec<Cell> = Vec::new();
        let mut y: usize = 0;
        while y < gh
            invariant
                img.wf(),
                img == self.image,
                ramp == self.character_map@,
                ramp.len() > 0,
                bw > 0,
                bh > 0,
                gw == img.width / bw,
                gh == img.height / bh,
                gw * gh <= usize::MAX,
                y <= gh,
                cells@.len() == gw * y,
                forall|i: int|
                    0 <= i < cells@.len() ==> #[trigger] cells@[i] == sampled_cell(
                        *img,
                        bw as int,
                        bh as int,
                        ramp,
                        i % (gw as int),
                        i / (gw as int),
                    ),
            decreases gh - y,
        {
            let mut x: usize = 0;
            proof {
                lemma_block_fits(y as int, bh as int, img.height as int);
            }
            while x < gw
                invariant
                    img.wf(),
                    img == self.image,
                    ramp == self.character_map@,
                    ramp.len() > 0,
                    bw > 0,
                    bh > 0,
                    gw == img.width / bw,
                    gh == img.height / bh,
                    gw * gh <= usize::MAX,
                    y < gh,
                    y * bh + bh <= img.height,
                    x <= gw,
                    cells@.len() == gw * y + x,
                    forall|i: int|
                        0 <= i < cells@.len() ==> #[trigger] cells@[i] == sampled_cell(
                            *img,
                            bw as int,
                            bh as int,
                            ramp,
                            i % (gw as int),
                            i / (gw as int),
                        ),
                decreases gw - x,
            {
                proof {
                    lemma_block_fits(x as int, bw as int, img.width as int);
                }
                let colour = average_block(img, x * bw, y * bh, bw, bh);
                let character = self.character_map.index(luma(colour));
                proof {
                    lemma_fundamental_div_mod_converse((gw * y + x) as int, gw as int, y as int, x as int);
                    assert(gw * y + x < gw * gh) by (nonlinear_arith)
                        requires
                            x < gw,
                            y < gh,
                    ;
                }
                cells.push(Cell { character, colour });
                x = x + 1;
            }
            assert(gw * y + gw == gw * (y + 1)) by (nonlinear_arith);
            y = y + 1;
        }
        let art = AsciiArt { cells, dimensions: (gw, gh) };
        assert forall|x: int, y: int| 0 <= x < gw && 0 <= y < gh implies #[trigger] art.cell(x, y)
            == sampled_cell(*img, bw as int, bh as int, ramp, x, y) by {
            lemma_fundamental_div_mod_converse(x + gw * y, gw as int, y, x);
            assert(0 <= x + gw * y < gw * gh) by (nonlinear_arith)
                requires
                    0 <= x < gw,
                    0 <= y < gh,
            ;
        }
        Ok(art)
    }
}

} // verus!
