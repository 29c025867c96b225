//! Error types, one per stage of the conversion.
use crate::image::ImageFormat;
use vstd::prelude::*;

verus! {

/// Declares `std::io::Error`, carried opaquely by the I/O failure variants.
#[verifier::external_type_specification]
#[verifier::external_body]
pub struct ExIoError(std::io::Error);

/// Declares `ab_glyph::InvalidFont`, carried opaquely when font data cannot be parsed.
#[verifier::external_type_specification]
#[verifier::external_body]
pub struct ExInvalidFont(ab_glyph::InvalidFont);

/// Failures of the operations on a single glyph bitmap.
#[derive(Debug)]
pub enum GlyphError {
    /// The two glyphs of an overlay differ in height or width.
    WrongDimensions { height: u32, width: u32, expected_height: u32, expected_width: u32 },
    /// The two glyphs of an overlay differ in the length of their data.
    WrongLength { length: usize, expected_length: usize },
    /// A glyph cannot be padded to a size smaller than its own.
    PadTooSmall { height: u32, width: u32, pad_height: u32, pad_width: u32 },
    /// An embedded image is in a format that cannot be turned into a monochrome bitmap.
    FormatUnsupported { format: ImageFormat },
    /// A grapheme without any codepoint cannot be rendered.
    EmptyString,
}

/// Failures of assembling glyphs into a glyph set.
#[derive(Debug)]
pub enum GlyphSetError {
    InconsistentDimensions { height: u32, width: u32, expected_height: u32, expected_width: u32 },
    InconsistentLengths { length: usize, expected_length: usize },
    EmptyString,
}

/// Failures of loading a Unicode table.
#[derive(Debug)]
pub enum UnicodeTableError {
    /// The table file could not be read.
    IoError { error: std::io::Error },
    /// The text does not follow the table grammar; `line` and `column` count from 1.
    ParseError { line: usize, column: usize },
    /// A `U+` token names a value that is not a Unicode scalar value.
    InvalidCodepoint { codepoint: u32 },
    /// The hexadecimal digits of the `U+` token starting at `line`, `column` overflow 32 bits.
    IntParseError { line: usize, column: usize },
}

/// Failures of loading a font.
#[derive(Debug)]
#[allow(inconsistent_fields)]
pub enum TtfParserError {
    IoError { error: std::io::Error },
    FontCreationError { error: ab_glyph::InvalidFont },
}

impl GlyphSetError {
    /// Carries a glyph failure over to the glyph set, where the glyph set has a counterpart for
    /// it; hands the glyph failure back otherwise.
    pub fn from_glyph_error(e: GlyphError) -> (r: Result<GlyphSetError, GlyphError>)
        ensures
            match e {
                GlyphError::EmptyString => r == Ok::<GlyphSetError, GlyphError>(
                    GlyphSetError::EmptyString,
                ),
                GlyphError::WrongDimensions { height, width, expected_height, expected_width } =>
                    r == Ok::<GlyphSetError, GlyphError>(
                    GlyphSetError::InconsistentDimensions {
                        height,
                        width,
                        expected_height,
                        expected_width,
                    },
                ),
                GlyphError::WrongLength { length, expected_length } => r == Ok::<
                    GlyphSetError,
                    GlyphError,
                >(GlyphSetError::InconsistentLengths { length, expected_length }),
                _ => r == Err::<GlyphSetError, GlyphError>(e),
            },
    {
        match e {
            GlyphError::EmptyString => Ok(GlyphSetError::EmptyString),
            GlyphError::WrongDimensions { height, width, expected_height, expected_width } => Ok(
                GlyphSetError::InconsistentDimensions {
                    height,
                    width,
                    expected_height,
                    expected_width,
                },
            ),
            GlyphError::WrongLength { length, expected_length } => Ok(
                GlyphSetError::InconsistentLengths { length, expected_length },
            ),
            other => Err(other),
        }
    }
}

} // verus!
