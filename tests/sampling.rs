use rusciify::ascii_art::AsciiArt;
use rusciify::builder::AsciiArtBuilder;
use rusciify::character_map::CharacterMap;
use rusciify::colour::Rgba8;
use rusciify::error::AsciiError;
use rusciify::raster::RgbaBuffer;

fn solid(w: usize, h: usize, c: Rgba8) -> RgbaBuffer {
    RgbaBuffer::from_pixel(w, h, c)
}

fn build(img: &RgbaBuffer, dims: (usize, usize), ramp: &str) -> Result<AsciiArt, AsciiError> {
    AsciiArtBuilder::from(img)
        .sample_dimensions(dims)
        .character_map(CharacterMap::from(ramp))
        .build()
}

#[test]
fn grid_dimensions_drop_the_remainder() {
    let img = solid(25, 13, Rgba8::new(1, 2, 3, 255));
    let art = build(&img, (10, 4), " .:").unwrap();
    assert_eq!(art.dimensions, (2, 3));
    assert_eq!(art.cells.len(), 6);
}

#[test]
fn uniform_block_averages_to_its_colour() {
    let c = Rgba8::new(12, 34, 56, 78);
    let img = solid(9, 10, c);
    let art = build(&img, (3, 5), "ab").unwrap();
    assert_eq!(art.dimensions, (3, 2));
    for cell in &art.cells {
        assert_eq!(cell.colour, c);
    }
}

#[test]
fn even_split_averages_to_true_mean() {
    let black = Rgba8::new(0, 0, 0, 0);
    let white = Rgba8::new(255, 255, 255, 255);
    let img = RgbaBuffer::from_pixels(4, 1, vec![black, black, white, white]).unwrap();
    let art = build(&img, (4, 1), "#").unwrap();
    assert_eq!(art.dimensions, (1, 1));
    // per-pixel truncated accumulation would give 63 + 63 = 126
    assert_eq!(art.cells[0].colour, Rgba8::new(127, 127, 127, 127));
}

#[test]
fn average_rounds_down_once() {
    let a = Rgba8::new(10, 0, 1, 255);
    let b = Rgba8::new(11, 0, 2, 255);
    let c = Rgba8::new(12, 3, 2, 255);
    let img = RgbaBuffer::from_pixels(3, 1, vec![a, b, c]).unwrap();
    let art = build(&img, (3, 1), "#").unwrap();
    assert_eq!(art.cells[0].colour, Rgba8::new(11, 1, 1, 255));
}

#[test]
fn blocks_are_taken_row_major() {
    let px: Vec<Rgba8> = (0..4u8).map(|i| Rgba8::new(i * 10, 0, 0, 255)).collect();
    let img = RgbaBuffer::from_pixels(2, 2, px).unwrap();
    let art = build(&img, (1, 1), "#").unwrap();
    assert_eq!(art.dimensions, (2, 2));
    assert_eq!(art.index((1, 0)).colour.r, 10);
    assert_eq!(art.index((0, 1)).colour.r, 20);
    assert_eq!(art.index((1, 1)).colour.r, 30);
}

#[test]
fn white_image_scenario() {
    let img = solid(20, 20, Rgba8::new(255, 255, 255, 255));
    let art = build(&img, (10, 10), " .:-=+*#%@").unwrap();
    assert_eq!(art.dimensions, (2, 2));
    for cell in &art.cells {
        assert_eq!(cell.character, '@');
        assert_eq!(cell.colour, Rgba8::new(255, 255, 255, 255));
    }
}

#[test]
fn white_image_with_default_settings() {
    let img = solid(20, 20, Rgba8::new(255, 255, 255, 255));
    let art = AsciiArtBuilder::from(&img).build().unwrap();
    assert_eq!(art.dimensions, (2, 2));
    assert!(art.cells.iter().all(|c| c.character == '@'));
}

#[test]
fn black_image_single_character_ramp() {
    let img = solid(10, 10, Rgba8::new(0, 0, 0, 255));
    let art = AsciiArtBuilder::from(&img)
        .sample_dimensions((10, 10))
        .char_map(vec!['#'])
        .build()
        .unwrap();
    assert_eq!(art.dimensions, (1, 1));
    assert_eq!(art.cells[0].character, '#');
    assert_eq!(art.cells[0].colour, Rgba8::new(0, 0, 0, 255));
}

#[test]
fn image_smaller_than_block_gives_empty_grid() {
    let img = solid(5, 7, Rgba8::new(9, 9, 9, 255));
    let art = build(&img, (10, 10), " #").unwrap();
    assert_eq!(art.dimensions, (0, 0));
    assert!(art.cells.is_empty());
    assert!(art.is_empty());
    assert_eq!(art.to_string(), "");
}

#[test]
fn zero_block_side_is_invalid() {
    let img = solid(5, 5, Rgba8::new(9, 9, 9, 255));
    assert_eq!(build(&img, (0, 1), "#").err(), Some(AsciiError::InvalidConfiguration));
    assert_eq!(build(&img, (1, 0), "#").err(), Some(AsciiError::InvalidConfiguration));
}

#[test]
fn empty_ramp_is_invalid() {
    let img = solid(5, 5, Rgba8::new(9, 9, 9, 255));
    assert_eq!(build(&img, (1, 1), "").err(), Some(AsciiError::InvalidConfiguration));
}

#[test]
fn luma_of_red_picks_its_bucket() {
    let ramp: Vec<char> = (0..256u32).map(|i| char::from_u32(0x100 + i).unwrap()).collect();
    let img = solid(1, 1, Rgba8::new(255, 0, 0, 255));
    let art = AsciiArtBuilder::from(&img)
        .sample_dimensions((1, 1))
        .char_map(ramp.clone())
        .build()
        .unwrap();
    // 0.2126 * 255 = 54.2
    assert_eq!(art.cells[0].character, ramp[54]);
}

#[test]
fn luma_ignores_alpha() {
    let ramp: Vec<char> = (0..256u32).map(|i| char::from_u32(0x100 + i).unwrap()).collect();
    let img = RgbaBuffer::from_pixels(2, 1, vec![Rgba8::new(0, 255, 0, 255), Rgba8::new(0, 255, 0, 0)]).unwrap();
    let art = AsciiArtBuilder::from(&img)
        .sample_dimensions((1, 1))
        .char_map(ramp.clone())
        .build()
        .unwrap();
    // 0.7152 * 255 = 182.4
    assert_eq!(art.cells[0].character, ramp[182]);
    assert_eq!(art.cells[1].character, ramp[182]);
}

#[test]
fn from_pixels_checks_the_count() {
    assert!(RgbaBuffer::from_pixels(2, 2, vec![Rgba8::new(0, 0, 0, 0); 3]).is_none());
    let b = RgbaBuffer::from_pixels(2, 2, vec![Rgba8::new(0, 0, 0, 0); 4]).unwrap();
    assert_eq!((b.width, b.height), (2, 2));
    assert_eq!(RgbaBuffer::new(3, 2).pixels, vec![Rgba8::new(0, 0, 0, 0); 6]);
}
