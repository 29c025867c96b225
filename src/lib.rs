//! Conversion of font glyphs into a monochrome PSF2 bitmap font.
//!
//! Glyphs are monochrome bitmaps with byte-aligned rows (`glyph`, `layout`, `bits`); they are
//! taken from a font's embedded images or drawn from its outlines (`ttf_parser`, `image`),
//! assembled into a glyph set of uniform size and written out with the PSF2 header and the
//! optional Unicode table (`psf2_writer`, `unicode_table`, `table_parser`).
pub mod bits;
pub mod chars;
pub mod errors;
pub mod glyph;
pub mod grapheme_info;
pub mod image;
pub mod layout;
pub mod psf2_writer;
pub mod report;
pub mod table_parser;
pub mod ttf_parser;
pub mod unicode_table;
