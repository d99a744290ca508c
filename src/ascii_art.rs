//! The character grid, with its text form and its terminal colour commands.
use vstd::prelude::*;

use crate::colour::Rgba8;
use crate::raster::lemma_index_in_bounds;

verus! {

/// One character of the art with the colour of the block it stands for.
#[derive(Clone, Copy, Debug, PartialEq, Eq, Structural)]
pub struct Cell {
    pub character: char,
    pub colour: Rgba8,
}

/// A `dimensions.0` x `dimensions.1` grid of cells in row-major order:
/// cell `(x, y)` is `cells[x + dimensions.0 * y]`.
#[derive(Debug)]
pub struct AsciiArt {
    pub cells: Vec<Cell>,
    pub dimensions: (usize, usize),
}

/// One step of drawing the art on a colour terminal.
#[derive(Clone, Copy, Debug, PartialEq, Eq, Structural)]
pub enum TerminalOp {
    /// Switch the foreground to this 24-bit colour.
    SetForeground(u8, u8, u8),
    /// Write one character.
    Character(char),
    /// End the current line.
    LineBreak,
    /// Restore the terminal's default colours.
    Reset,
}

/// The characters of the first `n` cells of row `y` of a grid `w` wide.
pub open spec fn row_chars(cells: Seq<Cell>, w: int, y: int, n: int) -> Seq<char>
    decreases n,
{
    if n <= 0 {
        seq![]
    } else {
        row_chars(cells, w, y, n - 1).push(cells[(n - 1) + w * y].character)
    }
}

/// The first `rows` rows of a grid `w` wide as text, each row followed by a line break.
pub open spec fn grid_text(cells: Seq<Cell>, w: int, rows: int) -> Seq<char>
    decreases rows,
{
    if rows <= 0 {
        seq![]
    } else {
        grid_text(cells, w, rows - 1) + row_chars(cells, w, rows - 1, w).push('\n')
    }
}

/// The commands that draw the first `n` cells of row `y`: for each, its colour then its character.
pub open spec fn row_ops(cells: Seq<Cell>, w: int, y: int, n: int) -> Seq<TerminalOp>
    decreases n,
{
    if n <= 0 {
        seq![]
    } else {
        let c = cells[(n - 1) + w * y];
        row_ops(cells, w, y, n - 1) + seq![
            TerminalOp::SetForeground(c.colour.r, c.colour.g, c.colour.b),
            TerminalOp::Character(c.character),
        ]
    }
}

/// The commands that draw the first `rows` rows, each followed by a line
/// break after its last column (rows of no columns give nothing).
pub open spec fn grid_ops(cells: Seq<Cell>, w: int, rows: int) -> Seq<TerminalOp>
    decreases rows,
{
    if rows <= 0 || w <= 0 {
        seq![]
    } else {
        grid_ops(cells, w, rows - 1) + row_ops(cells, w, rows - 1, w).push(TerminalOp::LineBreak)
    }
}

/// `s` without its line breaks.
pub open spec fn strip_newlines(s: Seq<char>) -> Seq<char>
    decreases s.len(),
{
    if s.len() == 0 {
        seq![]
    } else if s.last() == '\n' {
        strip_newlines(s.drop_last())
    } else {
        strip_newlines(s.drop_last()).push(s.last())
    }
}

/// The characters of `cells`, in order.
pub open spec fn cell_chars(cells: Seq<Cell>) -> Seq<char> {
    cells.map_values(|c: Cell| c.character)
}

/// Relies on `FromIterator<char>` for `String`: the string of these characters in order.
#[verifier::external_body]
fn string_of_chars(chars: Vec<char>) -> (s: String)
    ensures
        s@ == chars@,
{
    String::from_iter(chars)
}

impl AsciiArt {
    /// The cell sequence holds exactly one cell per grid position.
    pub open spec fn wf(&self) -> bool {
        self.cells@.len() == self.dimensions.0 * self.dimensions.1
    }

    /// Cell `(x, y)`.
    pub open spec fn cell(&self, x: int, y: int) -> Cell {
        self.cells@[x + self.dimensions.0 * y]
    }

    /// The art as text: each row's characters followed by a line break.
    pub open spec fn text(&self) -> Seq<char> {
        grid_text(self.cells@, self.dimensions.0 as int, self.dimensions.1 as int)
    }

    /// The terminal commands that draw the art, ending with a colour reset.
    pub open spec fn ops(&self) -> Seq<TerminalOp> {
        grid_ops(self.cells@, self.dimensions.0 as int, self.dimensions.1 as int).push(
            TerminalOp::Reset,
        )
    }

    /// Cell `(x, y)` of the grid.
    pub fn index(&self, position: (usize, usize)) -> (c: Cell)
        requires
            self.wf(),
            position.0 < self.dimensions.0,
            position.1 < self.dimensions.1,
        ensures
            c == self.cell(position.0 as int, position.1 as int),
    {
        let (x, y) = position;
        // a Vec's length fits in usize, and so does every index below it
        let _ = self.cells.len();
        proof {
            lemma_index_in_bounds(x as int, y as int, self.dimensions.0 as int, self.dimensions.1 as int);
        }
        self.cells[x + self.dimensions.0 * y]
    }

    /// Whether the grid has no cells, as when the image was smaller than one sample block.
    pub fn is_empty(&self) -> (r: bool)
        requires
            self.wf(),
        ensures
            r <==> self.dimensions.0 == 0 || self.dimensions.1 == 0,
    {
        proof {
            assert(self.dimensions.0 * self.dimensions.1 == 0 <==> self.dimensions.0 == 0
                || self.dimensions.1 == 0) by (nonlinear_arith);
        }
        self.cells.len() == 0
    }

    /// The art as text: each row's characters followed by a line break.
    pub fn to_string(&self) -> (s: String)
        requires
            self.wf(),
        ensures
            s@ == self.text(),
    {
        let w = self.dimensions.0;
        let h = self.dimensions.1;
        let ghost cells = self.cells@;
        let mut out: Vec<char> = Vec::new();
        let mut y: usize = 0;
        while y < h
            invariant
                self.wf(),
                w == self.dimensions.0,
                h == self.dimensions.1,
                cells == self.cells@,
                y <= h,
                out@ == grid_text(cells, w as int, y as int),
            decreases h - y,
        {
            let ghost before = out@;
            let mut x: usize = 0;
            while x < w
                invariant
                    self.wf(),
                    w == self.dimensions.0,
                    h == self.dimensions.1,
                    cells == self.cells@,
                    y < h,
                    x <= w,
                    before == grid_text(cells, w as int, y as int),
                    out@ == before + row_chars(cells, w as int, y as int, x as int),
                decreases w - x,
            {
                let c = self.index((x, y));
                out.push(c.character);
                assert(out@ =~= before + row_chars(cells, w as int, y as int, (x + 1) as int));
                x = x + 1;
            }
            out.push('\n');
            assert(out@ =~= grid_text(cells, w as int, (y + 1) as int));
            y = y + 1;
        }
        string_of_chars(out)
    }

    /// The commands that draw the art on a colour terminal: row by row, each
    /// cell's colour then its character, a line break after the last column
    /// of each row, and a colour reset at the end.
    pub fn terminal_ops(&self) -> (ops: Vec<TerminalOp>)
        requires
            self.wf(),
        ensures
            ops@ == self.ops(),
    {
        let w = self.dimensions.0;
        let h = self.dimensions.1;
        let ghost cells = self.cells@;
        let mut out: Vec<TerminalOp> = Vec::new();
        let mut y: usize = 0;
        while y < h
            invariant
                self.wf(),
                w == self.dimensions.0,
                h == self.dimensions.1,
                cells == self.cells@,
                y <= h,
                out@ == grid_ops(cells, w as int, y as int),
            decreases h - y,
        {
            let ghost before = out@;
            let mut x: usize = 0;
            while x < w
                invariant
                    self.wf(),
                    w == self.dimensions.0,
                    h == self.dimensions.1,
                    cells == self.cells@,
                    y < h,
                    x <= w,
                    before == grid_ops(cells, w as int, y as int),
                    out@ == before + row_ops(cells, w as int, y as int, x as int),
                decreases w - x,
            {
                let c = self.index((x, y));
                out.push(TerminalOp::SetForeground(c.colour.r, c.colour.g, c.colour.b));
                out.push(TerminalOp::Character(c.character));
                assert(out@ =~= before + row_ops(cells, w as int, y as int, (x + 1) as int));
                x = x + 1;
            }
            if w > 0 {
                out.push(TerminalOp::LineBreak);
            }
            assert(out@ =~= grid_ops(cells, w as int, (y + 1) as int));
            y = y + 1;
        }
        out.push(TerminalOp::Reset);
        out
    }
}

/// The characters of `text` without its line breaks: the grid's characters
/// read back from its text form.
pub fn parse_characters(text: &str) -> (chars: Vec<char>)
    ensures
        chars@ == strip_newlines(text@),
{
    let all = crate::character_map::chars_of(text);
    let mut out: Vec<char> = Vec::new();
    let mut i: usize = 0;
    while i < all.len()
        invariant
            all@ == text@,
            i <= all@.len(),
            out@ == strip_newlines(all@.subrange(0, i as int)),
        decreases all@.len() - i,
    {
        let c = all[i];
        assert(all@.subrange(0, (i + 1) as int).drop_last() =~= all@.subrange(0, i as int));
        if c != '\n' {
            out.push(c);
        }
        i = i + 1;
    }
    assert(all@.subrange(0, all@.len() as int) =~= all@);
    out
}

proof fn lemma_strip_concat(a: Seq<char>, b: Seq<char>)
    ensures
        strip_newlines(a + b) == strip_newlines(a) + strip_newlines(b),
    decreases b.len(),
{
    if b.len() == 0 {
        assert(a + b =~= a);
        assert(strip_newlines(a) + seq![] =~= strip_newlines(a));
    } else {
        lemma_strip_concat(a, b.drop_last());
        assert((a + b).drop_last() =~= a + b.drop_last());
        assert((a + b).last() == b.last());
        if b.last() != '\n' {
            assert(strip_newlines(a) + strip_newlines(b.drop_last()).push(b.last()) =~= (
            strip_newlines(a) + strip_newlines(b.drop_last())).push(b.last()));
        }
    }
}

proof fn lemma_row_chars_are_cells(cells: Seq<Cell>, w: int, y: int, n: int)
    requires
        0 <= n <= w,
        0 <= y,
        w * y + w <= cells.len(),
        forall|i: int| 0 <= i < cells.len() ==> (#[trigger] cells[i]).character != '\n',
    ensures
        row_chars(cells, w, y, n) == cell_chars(cells).subrange(w * y, w * y + n),
        strip_newlines(row_chars(cells, w, y, n)) == row_chars(cells, w, y, n),
    decreases n,
{
    assert(0 <= w * y) by (nonlinear_arith)
        requires
            0 <= n <= w,
            0 <= y,
    ;
    if n == 0 {
        assert(cell_chars(cells).subrange(w * y, w * y) =~= seq![]);
    } else {
        lemma_row_chars_are_cells(cells, w, y, n - 1);
        let r = row_chars(cells, w, y, n);
        assert(r.drop_last() =~= row_chars(cells, w, y, n - 1));
        assert(cell_chars(cells).subrange(w * y, w * y + n) =~= cell_chars(cells).subrange(
            w * y,
            w * y + n - 1,
        ).push(cells[(n - 1) + w * y].character));
        assert(r.last() == cells[(n - 1) + w * y].character);
    }
}

proof fn lemma_grid_text_strip(cells: Seq<Cell>, w: int, rows: int)
    requires
        0 <= w,
        0 <= rows,
        w * rows <= cells.len(),
        forall|i: int| 0 <= i < cells.len() ==> (#[trigger] cells[i]).character != '\n',
    ensures
        strip_newlines(grid_text(cells, w, rows)) == cell_chars(cells).subrange(0, w * rows),
    decreases rows,
{
    if rows == 0 {
        assert(w * rows == 0) by (nonlinear_arith)
            requires
                rows == 0,
        ;
        assert(cell_chars(cells).subrange(0, 0) =~= seq![]);
    } else {
        assert(w * (rows - 1) + w == w * rows && w * (rows - 1) >= 0) by (nonlinear_arith)
            requires
                0 <= w,
                rows >= 1,
        ;
        lemma_grid_text_strip(cells, w, rows - 1);
        let row = row_chars(cells, w, rows - 1, w);
        lemma_row_chars_are_cells(cells, w, rows - 1, w);
        lemma_strip_concat(grid_text(cells, w, rows - 1), row.push('\n'));
        assert(row.push('\n').drop_last() =~= row);
        assert(strip_newlines(row.push('\n')) == strip_newlines(row));
        assert(grid_text(cells, w, rows) == grid_text(cells, w, rows - 1) + row.push('\n'));
        assert(cell_chars(cells).subrange(0, w * rows) =~= cell_chars(cells).subrange(
            0,
            w * (rows - 1),
        ) + cell_chars(cells).subrange(w * (rows - 1), w * rows));
        assert(strip_newlines(grid_text(cells, w, rows)) == strip_newlines(grid_text(cells, w, rows - 1))
            + row);
    }
}

/// Reading the characters back from the art's text form, line breaks left
/// out, gives the cells' characters in row-major order, as long as no cell
/// holds a line break itself.
pub proof fn lemma_text_round_trip(art: &AsciiArt)
    requires
        art.wf(),
        forall|i: int| 0 <= i < art.cells@.len() ==> (#[trigger] art.cells@[i]).character != '\n',
    ensures
        strip_newlines(art.text()) == cell_chars(art.cells@),
{
    lemma_grid_text_strip(art.cells@, art.dimensions.0 as int, art.dimensions.1 as int);
    assert(cell_chars(art.cells@).subrange(0, art.cells@.len() as int) =~= cell_chars(art.cells@));
}

} // verus!
