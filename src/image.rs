//! Raster images embedded in a font, as plain values.
use vstd::prelude::*;

verus! {

/// Encodings a font may use for an embedded raster image.
#[derive(Clone, Copy, Debug, PartialEq, Eq, Structural)]
pub enum ImageFormat {
    Png,
    /// One bit per pixel, most significant bit first, each row padded to a byte boundary.
    BitmapMono,
    /// One bit per pixel, most significant bit first, rows packed with no padding.
    BitmapMonoPacked,
    BitmapGray2,
    BitmapGray2Packed,
    BitmapGray4,
    BitmapGray4Packed,
    BitmapGray8,
    BitmapPremulBgra32,
    /// A format this library does not know by name.
    Other,
}

/// A pre-rendered glyph image found in a font for one pixel size.
pub struct EmbeddedImage {
    pub format: ImageFormat,
    pub width: u16,
    pub height: u16,
    pub data: Vec<u8>,
}

} // verus!
