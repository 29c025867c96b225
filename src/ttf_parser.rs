//! Glyph extraction from a TTF/OTF font: the font's embedded image when it has a usable one,
//! otherwise a rasterized outline.
use crate::bits::{
    aligned_len, bit_of, lemma_row_index, lemma_split_index, packed_len, row_bytes, row_bytes_of,
    set_bit,
};
use crate::chars::string_of_char;
use crate::errors::{GlyphError, TtfParserError};
use crate::glyph::Glyph;
use crate::image::{EmbeddedImage, ImageFormat};
use crate::layout::aligned_from_packed;
use crate::report::{classify_glyph, GlyphReport, GlyphType, MISSING_GLYPH_CHAR};
use ab_glyph::{Font, FontVec, GlyphId, GlyphImageFormat, InvalidFont};
use vstd::prelude::*;

verus! {

/// Declares `ab_glyph::FontVec`, a parsed font held opaquely.
#[verifier::external_type_specification]
#[verifier::external_body]
pub struct ExFontVec(ab_glyph::FontVec);

/// Relies on `ab_glyph::FontVec::try_from_vec_and_index`: parses the first face of the font
/// data, or reports that the data is no font.
#[verifier::external_body]
fn font_from_data(data: Vec<u8>) -> (r: Result<FontVec, InvalidFont>) {
    FontVec::try_from_vec_and_index(data, 0)
}

/// Relies on `ab_glyph::Font::glyph_id`: the id of the font's glyph for a character.
#[verifier::external_body]
fn glyph_id(font: &FontVec, c: char) -> (r: u16) {
    font.glyph_id(c).0
}

/// Relies on `ab_glyph::Font::glyph_raster_image2`: the image the font embeds for a glyph at a
/// pixel size, if any, with its format, size and data copied out.
#[verifier::external_body]
fn raster_image(font: &FontVec, id: u16, pixel_size: u16) -> (r: Option<EmbeddedImage>) {
    let img = font.glyph_raster_image2(GlyphId(id), pixel_size)?;
    let format = match img.format {
        GlyphImageFormat::Png => ImageFormat::Png,
        GlyphImageFormat::BitmapMono => ImageFormat::BitmapMono,
        GlyphImageFormat::BitmapMonoPacked => ImageFormat::BitmapMonoPacked,
        GlyphImageFormat::BitmapGray2 => ImageFormat::BitmapGray2,
        GlyphImageFormat::BitmapGray2Packed => ImageFormat::BitmapGray2Packed,
        GlyphImageFormat::BitmapGray4 => ImageFormat::BitmapGray4,
        GlyphImageFormat::BitmapGray4Packed => ImageFormat::BitmapGray4Packed,
        GlyphImageFormat::BitmapGray8 => ImageFormat::BitmapGray8,
        GlyphImageFormat::BitmapPremulBgra32 => ImageFormat::BitmapPremulBgra32,
        _ => ImageFormat::Other,
    };
    Some(EmbeddedImage { format, width: img.width, height: img.height, data: img.data.to_vec() })
}

/// The outcome of looking for a usable embedded image.
pub enum Extraction {
    /// The glyph made from the embedded image.
    Embedded(Glyph),
    /// The outline has to be rasterized; the diagnostic says why an image that was found could
    /// not be used.
    Fallback { diagnostic: Option<GlyphError> },
}

/// What becomes of the embedded image `img` found for `character`: a glyph of its pixels when it
/// is monochrome and its data fits its size, a fallback with the reason otherwise.
pub open spec fn embedded_outcome(img: EmbeddedImage, character: char, r: Extraction) -> bool {
    let (h, w) = (img.height as nat, img.width as nat);
    if img.format != ImageFormat::BitmapMono && img.format != ImageFormat::BitmapMonoPacked {
        r == (Extraction::Fallback {
            diagnostic: Some(GlyphError::FormatUnsupported { format: img.format }),
        })
    } else if img.format == ImageFormat::BitmapMono && img.data.len() != aligned_len(h, w) {
        r == (Extraction::Fallback {
            diagnostic: Some(
                GlyphError::WrongLength {
                    length: img.data.len(),
                    expected_length: aligned_len(h, w) as usize,
                },
            ),
        })
    } else if img.format == ImageFormat::BitmapMonoPacked && img.data.len() < packed_len(h, w) {
        r == (Extraction::Fallback {
            diagnostic: Some(
                GlyphError::WrongLength {
                    length: img.data.len(),
                    expected_length: packed_len(h, w) as usize,
                },
            ),
        })
    } else {
        &&& r matches Extraction::Embedded(g)
        &&& r->Embedded_0.wf()
        &&& r->Embedded_0.height == img.height
        &&& r->Embedded_0.width == img.width
        &&& r->Embedded_0.grapheme@ == seq![character]
        &&& r->Embedded_0.data@ == if img.format == ImageFormat::BitmapMono {
            img.data@
        } else {
            aligned_from_packed(img.data@, h, w)
        }
    }
}

/// Decides between the embedded image found for `character`, if any, and rasterization: an
/// image that is not monochrome, or whose data does not fit its size, gives way to
/// rasterization with a diagnostic, never an error.
pub fn extract_embedded(image: Option<EmbeddedImage>, character: char) -> (r: Extraction)
    ensures
        image is None ==> r == (Extraction::Fallback { diagnostic: None }),
        image matches Some(img) ==> embedded_outcome(img, character, r),
{
    match image {
        None => Extraction::Fallback { diagnostic: None },
        Some(img) => match Glyph::from_glyph_image(img, character) {
            Ok(g) => Extraction::Embedded(g),
            Err(e) => Extraction::Fallback { diagnostic: Some(e) },
        },
    }
}

/// A pixel reported while drawing an outline: its position aligned to the font's baseline,
/// whether its coverage reaches one half, and whether the coverage is exactly 0 or 1.
#[derive(Clone, Copy, Debug, PartialEq, Eq, Structural)]
pub struct OutlinePixel {
    pub x: i32,
    pub y: i32,
    pub covered: bool,
    pub exact: bool,
}

/// Whether a pixel lies on a canvas of `height` rows of `width` pixels.
pub open spec fn on_canvas(p: OutlinePixel, height: nat, width: nat) -> bool {
    0 <= p.x < width && 0 <= p.y < height
}

/// Whether some covered pixel of `pixels` on the canvas lies in row `r`, column `c`.
pub open spec fn lit(pixels: Seq<OutlinePixel>, height: nat, width: nat, r: int, c: int) -> bool {
    exists|j: int|
        0 <= j < pixels.len() && (#[trigger] pixels[j]).covered && on_canvas(pixels[j], height, width)
            && pixels[j].y == r && pixels[j].x == c
}

/// The pixels of `pixels` that fall off the canvas, in order.
pub open spec fn off_canvas(pixels: Seq<OutlinePixel>, height: nat, width: nat) -> Seq<OutlinePixel>
    decreases pixels.len(),
{
    if pixels.len() == 0 {
        seq![]
    } else if on_canvas(pixels.last(), height, width) {
        off_canvas(pixels.drop_last(), height, width)
    } else {
        off_canvas(pixels.drop_last(), height, width).push(pixels.last())
    }
}

/// A rasterized glyph with what was noticed while drawing it.
pub struct Rasterized {
    pub glyph: Glyph,
    /// The pixels that fell off the canvas and were dropped.
    pub dropped: Vec<OutlinePixel>,
    /// Whether every pixel had a coverage of exactly 0 or 1.
    pub pixel_perfect: bool,
}

/// Draws the pixels of an outline onto a canvas of `height` rows of `width` pixels: a pixel is
/// set where a pixel of at least half coverage lies; pixels off the canvas are dropped and
/// listed.
pub fn rasterize_pixels(
    character: char,
    height: u32,
    width: u32,
    pixels: &Vec<OutlinePixel>,
) -> (r: Rasterized)
    requires
        aligned_len(height as nat, width as nat) <= u32::MAX,
    ensures
        r.glyph.wf(),
        r.glyph.clean_padding(),
        r.glyph.height == height,
        r.glyph.width == width,
        r.glyph.grapheme@ == seq![character],
        forall|row: int, col: int|
            0 <= row < height && 0 <= col < width ==> #[trigger] r.glyph.pixel(row, col) == lit(
                pixels@,
                height as nat,
                width as nat,
                row,
                col,
            ),
        r.dropped@ == off_canvas(pixels@, height as nat, width as nat),
        r.pixel_perfect == forall|j: int| 0 <= j < pixels@.len() ==> (#[trigger] pixels@[j]).exact,
{
    let row = row_bytes_of(width);
    let total = height as u64 * row;
    let ghost (h, w, s) = (height as nat, width as nat, row as int);
    let mut data: Vec<u8> = vec![0u8; total as usize];
    let mut dropped: Vec<OutlinePixel> = Vec::new();
    let mut pixel_perfect = true;
    assert(forall|x: u8| !bit_of(0u8, x)) by (bit_vector);
    let mut i: usize = 0;
    while i < pixels.len()
        invariant
            row == row_bytes(w),
            total == aligned_len(h, w),
            total <= u32::MAX,
            h == height,
            w == width,
            s == row,
            i <= pixels@.len(),
            data@.len() == total,
            forall|t: int, k: u8|
                0 <= t < total && k < 8 ==> #[trigger] bit_of(data@[t], k) == (8 * (t % s) + k < w
                    && lit(pixels@.take(i as int), h, w, t / s, 8 * (t % s) + k)),
            dropped@ == off_canvas(pixels@.take(i as int), h, w),
            pixel_perfect == forall|j: int| 0 <= j < i ==> (#[trigger] pixels@[j]).exact,
        decreases pixels@.len() - i,
    {
        let p = pixels[i];
        let ghost before = data@;
        let ghost prev = pixels@.take(i as int);
        let ghost next = pixels@.take(i + 1);
        assert(next.drop_last() =~= prev);
        assert(next.last() == p);
        assert forall|r2: int, c2: int| #[trigger] lit(next, h, w, r2, c2) == (lit(prev, h, w, r2, c2)
            || (p.covered && on_canvas(p, h, w) && p.y == r2 && p.x == c2)) by {
            if lit(next, h, w, r2, c2) {
                let j = choose|j: int|
                    0 <= j < next.len() && (#[trigger] next[j]).covered && on_canvas(next[j], h, w)
                        && next[j].y == r2 && next[j].x == c2;
                if j < prev.len() {
                    assert(prev[j] == next[j]);
                }
            }
            if lit(prev, h, w, r2, c2) {
                let j = choose|j: int|
                    0 <= j < prev.len() && (#[trigger] prev[j]).covered && on_canvas(prev[j], h, w)
                        && prev[j].y == r2 && prev[j].x == c2;
                assert(next[j] == prev[j]);
            }
            if p.covered && on_canvas(p, h, w) && p.y == r2 && p.x == c2 {
                assert(next[i as int] == p);
            }
        }
        if !p.exact {
            pixel_perfect = false;
        }
        let inside = p.x >= 0 && p.y >= 0 && (p.x as u32) < width && (p.y as u32) < height;
        if !inside {
            dropped.push(p);
        } else if p.covered {
            let x = p.x as u64;
            let y = p.y as u64;
            proof {
                lemma_row_index(y as int, x as int / 8, s, h as int);
            }
            let idx = (y * row + x / 8) as usize;
            let kb = (x % 8) as u8;
            let old_byte = data[idx];
            let new_byte = set_bit(old_byte, kb);
            data.set(idx, new_byte);
            proof {
                assert forall|t: int, k: u8|
                    0 <= t < total && k < 8 implies #[trigger] bit_of(data@[t], k) == (8 * (t % s) + k
                        < w && lit(next, h, w, t / s, 8 * (t % s) + k)) by {
                    lemma_split_index(t, s, h as int);
                    let c = 8 * (t % s) + k;
                    vstd::arithmetic::div_mod::lemma_fundamental_div_mod_converse(
                        c,
                        8,
                        t % s,
                        k as int,
                    );
                    if p.y == t / s && p.x == c {
                        assert(t == idx);
                        assert(k == kb);
                    }
                    if t == idx && k == kb {
                        assert(t / s == y && t % s == x / 8);
                    }
                }
            }
        }
        proof {
            if !(inside && p.covered) {
                assert forall|t: int, k: u8|
                    0 <= t < total && k < 8 implies #[trigger] bit_of(data@[t], k) == (8 * (t % s) + k
                        < w && lit(next, h, w, t / s, 8 * (t % s) + k)) by {
                    assert(bit_of(before[t], k) == bit_of(data@[t], k));
                }
            }
        }
        i = i + 1;
    }
    assert(pixels@.take(i as int) =~= pixels@);
    let glyph = Glyph { height, width, data, grapheme: string_of_char(character) };
    assert forall|row_i: int, col: int|
        0 <= row_i < height && 0 <= col < 8 * s implies #[trigger] glyph.pixel(row_i, col) == (col < w && lit(
        pixels@,
        h,
        w,
        row_i,
        col,
    )) by {
        lemma_row_index(row_i, col / 8, s, h as int);
        let t = row_i * s + col / 8;
        vstd::arithmetic::div_mod::lemma_fundamental_div_mod(col, 8);
        assert(bit_of(glyph.data@[t], (col % 8) as u8) == (8 * (t % s) + (col % 8) < w && lit(
            pixels@,
            h,
            w,
            t / s,
            8 * (t % s) + (col % 8),
        )));
    }
    Rasterized { glyph, dropped, pixel_perfect }
}

/// A font scaled to a pixel height, from which glyphs are extracted.
pub struct TtfParser {
    font: FontVec,
    height: u32,
}

impl TtfParser {
    /// Loads a font from the contents of a TTF/OTF file, for glyphs `height` pixels high.
    pub fn from_font_data(data: Vec<u8>, height: u32) -> (r: Result<TtfParser, TtfParserError>)
        ensures
            r matches Ok(p) ==> p.height() == height,
            r matches Err(e) ==> e is FontCreationError,
    {
        match font_from_data(data) {
            Ok(font) => Ok(TtfParser { font, height }),
            Err(error) => Err(TtfParserError::FontCreationError { error }),
        }
    }

    pub closed spec fn height(&self) -> u32 {
        self.height
    }

    /// The pixel height glyphs are extracted for.
    pub fn pixel_height(&self) -> (r: u32)
        ensures
            r == self.height(),
    {
        self.height
    }

    /// The font itself, for drawing outlines.
    pub fn font(&self) -> &FontVec {
        &self.font
    }

    /// The pixel size of embedded images to look for: the pixel height, as far as 16 bits reach.
    pub fn pixel_size(&self) -> (r: u16)
        ensures
            r == if self.height() > 0xffff {
                0xffff
            } else {
                self.height()
            },
    {
        if self.height > 0xffff {
            0xffff
        } else {
            self.height as u16
        }
    }

    /// Looks for a usable embedded image of `character` at the parser's pixel size.
    pub fn find_embedded_bitmap(&self, character: char) -> (r: Extraction)
        ensures
            r matches Extraction::Embedded(g) ==> g.wf() && g.grapheme@ == seq![character],
    {
        let id = glyph_id(&self.font, character);
        let image = raster_image(&self.font, id, self.pixel_size());
        extract_embedded(image, character)
    }

    /// Reports how the font provides the glyph of `character`; a vector glyph is reported with
    /// the given canvas size.
    pub fn report_char(&self, character: char, vector_height: u32, vector_width: u32) -> (r:
        GlyphReport)
        ensures
            r.character == character,
            character == MISSING_GLYPH_CHAR ==> r.glyph_type != GlyphType::Undefined,
    {
        let id = glyph_id(&self.font, character);
        let missing = glyph_id(&self.font, MISSING_GLYPH_CHAR);
        let embedded = match raster_image(&self.font, id, self.pixel_size()) {
            Some(img) => Some((img.format, img.width, img.height)),
            None => None,
        };
        classify_glyph(character, id, missing, embedded, vector_height, vector_width)
    }
}

} // verus!
