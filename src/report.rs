//! What kind of glyph a font has for a character, for reporting.
use crate::image::ImageFormat;
use vstd::prelude::*;

verus! {

/// A character that no font defines; characters that resolve to its glyph are missing.
pub const MISSING_GLYPH_CHAR: char = '\u{03a2}';

/// How a font provides the glyph of a character.
#[derive(Clone, Copy, Debug, PartialEq, Eq, Structural)]
pub enum GlyphType {
    /// A pre-rendered image in the given format.
    EmbeddedBitmap { format: ImageFormat },
    /// A vector outline, to be rasterized.
    Vector,
    /// The font has no glyph for the character.
    Undefined,
}

/// The kind and canvas size of the glyph of one character.
#[derive(Clone, Copy, Debug, PartialEq, Eq, Structural)]
pub struct GlyphReport {
    pub character: char,
    pub glyph_type: GlyphType,
    pub height: u32,
    pub width: u32,
}

impl GlyphReport {
    pub fn new(character: char, glyph_type: GlyphType, height: u32, width: u32) -> (r: Self)
        ensures
            r == (GlyphReport { character, glyph_type, height, width }),
    {
        GlyphReport { character, glyph_type, height, width }
    }
}

/// Whether `character` is undefined in a font: it is not the missing-glyph character itself but
/// resolves to the same glyph.
pub open spec fn is_undefined(character: char, glyph_id: u16, missing_glyph_id: u16) -> bool {
    character != MISSING_GLYPH_CHAR && glyph_id == missing_glyph_id
}

/// Classifies the glyph of `character` from its glyph id, the id of the missing-glyph character,
/// and the format and size of its embedded image if there is one. Without an image the glyph is
/// a vector outline with the given canvas size.
pub fn classify_glyph(
    character: char,
    glyph_id: u16,
    missing_glyph_id: u16,
    embedded: Option<(ImageFormat, u16, u16)>,
    vector_height: u32,
    vector_width: u32,
) -> (r: GlyphReport)
    ensures
        r.character == character,
        is_undefined(character, glyph_id, missing_glyph_id) ==> r.glyph_type == GlyphType::Undefined,
        embedded matches Some(e) ==> r.height == e.2 && r.width == e.1 && (!is_undefined(
            character,
            glyph_id,
            missing_glyph_id,
        ) ==> r.glyph_type == GlyphType::EmbeddedBitmap { format: e.0 }),
        embedded is None ==> r.height == vector_height && r.width == vector_width && (
        !is_undefined(character, glyph_id, missing_glyph_id) ==> r.glyph_type == GlyphType::Vector),
{
    let undefined = character != MISSING_GLYPH_CHAR && glyph_id == missing_glyph_id;
    match embedded {
        Some((format, width, height)) => {
            let glyph_type = if undefined {
                GlyphType::Undefined
            } else {
                GlyphType::EmbeddedBitmap { format }
            };
            GlyphReport::new(character, glyph_type, height as u32, width as u32)
        },
        None => {
            let glyph_type = if undefined {
                GlyphType::Undefined
            } else {
                GlyphType::Vector
            };
            GlyphReport::new(character, glyph_type, vector_height, vector_width)
        },
    }
}

} // verus!
