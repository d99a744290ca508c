//! Conversion of raster images into coloured character art, and rendering
//! of that art back into text, terminal colour commands or a raster image.
//!
//! An image (`raster::RgbaBuffer`) is cut into blocks whose mean colours
//! (`sampling`) are turned into characters of a ramp by their luma
//! (`character_map`), giving an `ascii_art::AsciiArt` grid (`builder`). The
//! grid renders as text or terminal commands (`ascii_art`), or, from
//! rasterized glyphs, as a new image (`compositor`).
pub mod ascii_art;
pub mod builder;
pub mod character_map;
pub mod colour;
pub mod compositor;
pub mod error;
pub mod raster;
pub mod sampling;
