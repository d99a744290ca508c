use rusciify::ascii_art::{parse_characters, AsciiArt, Cell, TerminalOp};
use rusciify::colour::{blend, Rgba8};
use rusciify::compositor::{draw_glyph, Glyph, GlyphPixel};
use rusciify::error::AsciiError;
use rusciify::raster::RgbaBuffer;

fn cell(c: char, r: u8) -> Cell {
    Cell { character: c, colour: Rgba8::new(r, 2 * r, 3, 255) }
}

fn small_art() -> AsciiArt {
    AsciiArt {
        cells: vec![cell('a', 1), cell('b', 2), cell('c', 3), cell('d', 4), cell('e', 5), cell('f', 6)],
        dimensions: (3, 2),
    }
}

#[test]
fn text_is_rows_with_line_breaks() {
    assert_eq!(small_art().to_string(), "abc\ndef\n");
}

#[test]
fn text_round_trips_to_cell_characters() {
    let art = small_art();
    let text = art.to_string();
    let chars = parse_characters(&text);
    let direct: Vec<char> = art.cells.iter().map(|c| c.character).collect();
    assert_eq!(chars, direct);
}

#[test]
fn parse_drops_only_line_breaks() {
    assert_eq!(parse_characters("a b\n\nc\u{e9}\n"), vec!['a', ' ', 'b', 'c', '\u{e9}']);
    assert!(parse_characters("").is_empty());
}

#[test]
fn terminal_ops_colour_each_character() {
    let art = AsciiArt { cells: vec![cell('x', 1), cell('y', 2)], dimensions: (1, 2) };
    assert_eq!(
        art.terminal_ops(),
        vec![
            TerminalOp::SetForeground(1, 2, 3),
            TerminalOp::Character('x'),
            TerminalOp::LineBreak,
            TerminalOp::SetForeground(2, 4, 3),
            TerminalOp::Character('y'),
            TerminalOp::LineBreak,
            TerminalOp::Reset,
        ]
    );
}

#[test]
fn terminal_ops_of_empty_art_only_reset() {
    let art = AsciiArt { cells: vec![], dimensions: (0, 4) };
    assert_eq!(art.terminal_ops(), vec![TerminalOp::Reset]);
}

#[test]
fn blend_extremes_and_half() {
    let black = Rgba8::new(0, 0, 0, 255);
    let white = Rgba8::new(255, 255, 255, 255);
    assert_eq!(blend(black, white), white);
    assert_eq!(blend(black, Rgba8::new(255, 255, 255, 0)), black);
    assert_eq!(blend(black, Rgba8::new(255, 255, 255, 128)), Rgba8::new(128, 128, 128, 255));
    assert_eq!(blend(Rgba8::new(0, 0, 0, 0), Rgba8::new(10, 20, 30, 0)), Rgba8::new(0, 0, 0, 0));
    assert_eq!(blend(Rgba8::new(0, 0, 0, 0), Rgba8::new(10, 20, 30, 100)), Rgba8::new(10, 20, 30, 100));
}

#[test]
fn glyph_overhang_is_dropped() {
    let mut canvas = RgbaBuffer::from_pixel(2, 2, Rgba8::new(0, 0, 0, 255));
    let glyph = vec![
        GlyphPixel { x: 0, y: 0, alpha: 255 },
        GlyphPixel { x: 1, y: 0, alpha: 255 },
        GlyphPixel { x: 5, y: 0, alpha: 255 },
        GlyphPixel { x: 0, y: 9, alpha: 255 },
        GlyphPixel { x: usize::MAX, y: usize::MAX, alpha: 255 },
    ];
    draw_glyph(&mut canvas, (1, 1), Rgba8::new(200, 100, 50, 255), &glyph);
    let black = Rgba8::new(0, 0, 0, 255);
    assert_eq!(canvas.pixels, vec![black, black, black, Rgba8::new(200, 100, 50, 255)]);
}

#[test]
fn to_image_composites_each_cell() {
    let art = AsciiArt {
        cells: vec![
            Cell { character: 'o', colour: Rgba8::new(255, 0, 0, 255) },
            Cell { character: 'z', colour: Rgba8::new(0, 255, 0, 255) },
        ],
        dimensions: (2, 1),
    };
    let glyphs = vec![Glyph {
        character: 'o',
        pixels: vec![GlyphPixel { x: 0, y: 0, alpha: 255 }, GlyphPixel { x: 1, y: 1, alpha: 128 }, GlyphPixel { x: 3, y: 0, alpha: 255 }],
    }];
    let bg = Rgba8::new(0, 0, 0, 255);
    let img = art.to_image(&glyphs, 2, Some(bg)).unwrap();
    assert_eq!((img.width, img.height), (4, 2));
    let red = Rgba8::new(255, 0, 0, 255);
    assert_eq!(img.pixels, vec![red, bg, bg, red, bg, Rgba8::new(128, 0, 0, 255), bg, bg]);
    assert_eq!(art.missing_glyphs(&glyphs), vec![(1, 0)]);
    let same = art.as_image(&glyphs, 2, Some(bg)).unwrap();
    assert_eq!(same.pixels, img.pixels);
}

#[test]
fn to_image_without_background_is_transparent() {
    let art = AsciiArt { cells: vec![cell(' ', 1)], dimensions: (1, 1) };
    let img = art.to_image(&vec![], 3, None).unwrap();
    assert_eq!(img.pixels, vec![Rgba8::new(0, 0, 0, 0); 9]);
    assert_eq!(art.missing_glyphs(&vec![]), vec![(0, 0)]);
}

#[test]
fn zero_font_size_is_invalid() {
    let art = small_art();
    assert_eq!(art.to_image(&vec![], 0, None).err(), Some(AsciiError::InvalidConfiguration));
}
