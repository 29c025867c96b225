//! Monochrome glyph bitmaps and the operations that build them.
use crate::bits::{
    aligned_len, bit_of, lemma_row_index, lemma_split_index, packed_len, row_bytes, row_bytes_of,
};
use crate::chars::string_of_char;
use crate::errors::GlyphError;
use crate::image::{EmbeddedImage, ImageFormat};
use crate::layout::{aligned_from_packed, packed_to_byte_aligned};
use vstd::prelude::*;
use vstd::string::*;

verus! {

/// A glyph bitmap in PSF2 style: one bit per pixel, most significant bit first, rows stored top
/// to bottom, each row padded to a whole number of bytes.
pub struct Glyph {
    pub height: u32,
    pub width: u32,
    pub data: Vec<u8>,
    /// The codepoints this bitmap was rendered from.
    pub grapheme: String,
}

/// The byte-wise OR of two byte sequences of equal length.
pub open spec fn overlay_bytes(a: Seq<u8>, b: Seq<u8>) -> Seq<u8> {
    Seq::new(a.len(), |i: int| a[i] | b[i])
}

/// Whether the pixel in row `r`, column `c` of byte-aligned `data` with rows of `width` pixels
/// is set.
pub open spec fn aligned_pixel(data: Seq<u8>, width: nat, r: int, c: int) -> bool {
    bit_of(data[r * row_bytes(width) + c / 8], (c % 8) as u8)
}

/// The data of a bitmap of `height` rows of `width` pixels enlarged to `new_height` rows of
/// `new_width` pixels: each old row is followed by zero bytes up to the new row length, and zero
/// rows are added at the bottom.
pub open spec fn padded_bytes(
    data: Seq<u8>,
    height: nat,
    width: nat,
    new_height: nat,
    new_width: nat,
) -> Seq<u8> {
    Seq::new(
        aligned_len(new_height, new_width),
        |i: int|
            {
                let r = i / row_bytes(new_width) as int;
                let j = i % row_bytes(new_width) as int;
                if r < height && j < row_bytes(width) {
                    data[r * row_bytes(width) + j]
                } else {
                    0u8
                }
            },
    )
}

impl Glyph {
    /// The data holds exactly one byte-aligned row per pixel row, and its size fits the 32-bit
    /// glyph size of the container.
    pub open spec fn wf(&self) -> bool {
        &&& self.data@.len() == aligned_len(self.height as nat, self.width as nat)
        &&& self.data@.len() <= u32::MAX
    }

    /// Whether the pixel in row `r`, column `c` is set.
    pub open spec fn pixel(&self, r: int, c: int) -> bool {
        aligned_pixel(self.data@, self.width as nat, r, c)
    }

    /// Whether every bit right of the last column of each row is clear.
    pub open spec fn clean_padding(&self) -> bool {
        forall|r: int, c: int|
            0 <= r < self.height && self.width <= c < 8 * row_bytes(self.width as nat) ==> !#[trigger] self.pixel(r, c)
    }

    /// Overlays `other` on `self`: the result has the pixels set in either bitmap, and the
    /// grapheme of `self` followed by that of `other`. Intended for stacking combining marks
    /// on a base character.
    pub fn add(self, other: Self) -> (r: Result<Self, GlyphError>)
        ensures
            (self.height != other.height || self.width != other.width) ==> r == Err::<Glyph, GlyphError>(
                GlyphError::WrongDimensions {
                    height: self.height,
                    width: self.width,
                    expected_height: other.height,
                    expected_width: other.width,
                },
            ),
            (self.height == other.height && self.width == other.width && self.data.len()
                != other.data.len()) ==> r == Err::<Glyph, GlyphError>(
                GlyphError::WrongLength {
                    length: self.data.len(),
                    expected_length: other.data.len(),
                },
            ),
            (self.height == other.height && self.width == other.width && self.data.len()
                == other.data.len()) ==> (r matches Ok(g) && g.height == self.height && g.width
                == self.width && g.data@ == overlay_bytes(self.data@, other.data@) && g.grapheme@
                == self.grapheme@ + other.grapheme@),
    {
        if self.height != other.height || self.width != other.width {
            return Err(
                GlyphError::WrongDimensions {
                    height: self.height,
                    width: self.width,
                    expected_height: other.height,
                    expected_width: other.width,
                },
            );
        }
        if self.data.len() != other.data.len() {
            return Err(
                GlyphError::WrongLength {
                    length: self.data.len(),
                    expected_length: other.data.len(),
                },
            );
        }
        let mut grapheme = self.grapheme;
        grapheme.append(other.grapheme.as_str());
        let mut data: Vec<u8> = Vec::with_capacity(self.data.len());
        let mut i: usize = 0;
        while i < self.data.len()
            invariant
                i <= self.data.len() == other.data.len(),
                data@ == overlay_bytes(self.data@, other.data@).take(i as int),
            decreases self.data.len() - i,
        {
            data.push(self.data[i] | other.data[i]);
            i = i + 1;
            assert(data@ =~= overlay_bytes(self.data@, other.data@).take(i as int));
        }
        assert(data@ =~= overlay_bytes(self.data@, other.data@));
        Ok(Glyph { height: self.height, width: self.width, data, grapheme })
    }
}

impl Glyph {
    /// Enlarges the canvas to `new_height` rows of `new_width` pixels, keeping the bitmap in
    /// the top left corner: zero bytes are added at the end of each row, and zero rows at the
    /// bottom.
    pub fn pad(self, new_height: u32, new_width: u32) -> (r: Result<Self, GlyphError>)
        requires
            self.wf(),
            aligned_len(new_height as nat, new_width as nat) <= u32::MAX,
        ensures
            (self.height > new_height || self.width > new_width) ==> r == Err::<Glyph, GlyphError>(
                GlyphError::PadTooSmall {
                    height: self.height,
                    width: self.width,
                    pad_height: new_height,
                    pad_width: new_width,
                },
            ),
            (self.height <= new_height && self.width <= new_width) ==> (r matches Ok(g) && g.wf()
                && g.height == new_height && g.width == new_width && g.grapheme == self.grapheme
                && g.data@ == padded_bytes(
                self.data@,
                self.height as nat,
                self.width as nat,
                new_height as nat,
                new_width as nat,
            )),
    {
        if self.height > new_height || self.width > new_width {
            return Err(
                GlyphError::PadTooSmall {
                    height: self.height,
                    width: self.width,
                    pad_height: new_height,
                    pad_width: new_width,
                },
            );
        }
        let ghost spec_data = padded_bytes(
            self.data@,
            self.height as nat,
            self.width as nat,
            new_height as nat,
            new_width as nat,
        );
        let old_row = row_bytes_of(self.width);
        let new_row = row_bytes_of(new_width);
        let total = new_height as u64 * new_row;
        let mut data: Vec<u8> = Vec::new();
        let mut i: u64 = 0;
        while i < total
            invariant
                total == aligned_len(new_height as nat, new_width as nat),
                total <= u32::MAX,
                old_row == row_bytes(self.width as nat),
                new_row == row_bytes(new_width as nat),
                self.wf(),
                i <= total,
                spec_data.len() == total,
                spec_data == padded_bytes(
                    self.data@,
                    self.height as nat,
                    self.width as nat,
                    new_height as nat,
                    new_width as nat,
                ),
                data@ == spec_data.take(i as int),
            decreases total - i,
        {
            proof {
                lemma_split_index(i as int, new_row as int, new_height as int);
            }
            let r = i / new_row;
            let j = i % new_row;
            let byte = if r < self.height as u64 && j < old_row {
                proof {
                    lemma_row_index(r as int, j as int, old_row as int, self.height as int);
                }
                self.data[(r * old_row + j) as usize]
            } else {
                0u8
            };
            data.push(byte);
            i = i + 1;
            assert(data@ =~= spec_data.take(i as int));
        }
        assert(data@ =~= spec_data);
        Ok(Glyph { height: new_height, width: new_width, data, grapheme: self.grapheme })
    }
}

/// The failure of overlaying `g` on a glyph with the dimensions and data length of `base`, if
/// any.
pub open spec fn overlay_mismatch(base: Glyph, g: Glyph) -> Option<GlyphError> {
    if base.height != g.height || base.width != g.width {
        Some(
            GlyphError::WrongDimensions {
                height: base.height,
                width: base.width,
                expected_height: g.height,
                expected_width: g.width,
            },
        )
    } else if base.data.len() != g.data.len() {
        Some(GlyphError::WrongLength { length: base.data.len(), expected_length: g.data.len() })
    } else {
        None
    }
}

/// The first failure met when overlaying `gs[i]`, `gs[i + 1]`, ... one by one on `gs[0]`.
pub open spec fn first_overlay_mismatch(gs: Seq<Glyph>, i: int) -> Option<GlyphError>
    decreases gs.len() - i,
{
    if i < 1 || i >= gs.len() {
        None
    } else {
        match overlay_mismatch(gs[0], gs[i]) {
            Some(e) => Some(e),
            None => first_overlay_mismatch(gs, i + 1),
        }
    }
}

/// The bitmap data of all of `gs` overlaid on one another.
pub open spec fn overlay_all(gs: Seq<Glyph>) -> Seq<u8>
    decreases gs.len(),
{
    if gs.len() <= 1 {
        if gs.len() == 1 {
            gs[0].data@
        } else {
            seq![]
        }
    } else {
        overlay_bytes(overlay_all(gs.drop_last()), gs.last().data@)
    }
}

/// The graphemes of all of `gs`, one after the other.
pub open spec fn all_graphemes(gs: Seq<Glyph>) -> Seq<char>
    decreases gs.len(),
{
    if gs.len() == 0 {
        seq![]
    } else {
        all_graphemes(gs.drop_last()) + gs.last().grapheme@
    }
}

impl Glyph {
    /// Makes a glyph of a monochrome image embedded in a font, rendered for `grapheme`.
    /// Byte-aligned data is taken as it is; packed data is converted to the byte-aligned layout.
    /// Other formats are refused, as is data too short for the image size.
    pub fn from_glyph_image(image: EmbeddedImage, grapheme: char) -> (r: Result<Self, GlyphError>)
        ensures
            image.format != ImageFormat::BitmapMono && image.format != ImageFormat::BitmapMonoPacked
                ==> r == Err::<Glyph, GlyphError>(
                GlyphError::FormatUnsupported { format: image.format },
            ),
            image.format == ImageFormat::BitmapMono && image.data.len() != aligned_len(
                image.height as nat,
                image.width as nat,
            ) ==> r == Err::<Glyph, GlyphError>(
                GlyphError::WrongLength {
                    length: image.data.len(),
                    expected_length: aligned_len(image.height as nat, image.width as nat) as usize,
                },
            ),
            image.format == ImageFormat::BitmapMonoPacked && image.data.len() < packed_len(
                image.height as nat,
                image.width as nat,
            ) ==> r == Err::<Glyph, GlyphError>(
                GlyphError::WrongLength {
                    length: image.data.len(),
                    expected_length: packed_len(image.height as nat, image.width as nat) as usize,
                },
            ),
            image.format == ImageFormat::BitmapMono && image.data.len() == aligned_len(
                image.height as nat,
                image.width as nat,
            ) ==> (r matches Ok(g) && g.wf() && g.height == image.height && g.width == image.width
                && g.data@ == image.data@ && g.grapheme@ == seq![grapheme]),
            image.format == ImageFormat::BitmapMonoPacked && image.data.len() >= packed_len(
                image.height as nat,
                image.width as nat,
            ) ==> (r matches Ok(g) && g.wf() && g.height == image.height && g.width == image.width
                && g.data@ == aligned_from_packed(
                image.data@,
                image.height as nat,
                image.width as nat,
            ) && g.grapheme@ == seq![grapheme]),
    {
        let row = (image.width as u64 + 7) / 8;
        assert(image.height * row <= 0xffff * 0xffff) by (nonlinear_arith)
            requires
                image.height <= 0xffff,
                row <= 0xffff,
        ;
        assert(image.height * image.width <= 0xffff * 0xffff) by (nonlinear_arith)
            requires
                image.height <= 0xffff,
                image.width <= 0xffff,
        ;
        let aligned = image.height as u64 * row;
        match image.format {
            ImageFormat::BitmapMono => {
                if image.data.len() as u64 != aligned {
                    return Err(
                        GlyphError::WrongLength {
                            length: image.data.len(),
                            expected_length: aligned as usize,
                        },
                    );
                }
                Ok(
                    Glyph {
                        height: image.height as u32,
                        width: image.width as u32,
                        data: image.data,
                        grapheme: string_of_char(grapheme),
                    },
                )
            },
            ImageFormat::BitmapMonoPacked => {
                let packed = (image.height as u64 * image.width as u64 + 7) / 8;
                if (image.data.len() as u64) < packed {
                    return Err(
                        GlyphError::WrongLength {
                            length: image.data.len(),
                            expected_length: packed as usize,
                        },
                    );
                }
                let data = packed_to_byte_aligned(image.data.as_slice(), image.height, image.width);
                Ok(
                    Glyph {
                        height: image.height as u32,
                        width: image.width as u32,
                        data,
                        grapheme: string_of_char(grapheme),
                    },
                )
            },
            format => Err(GlyphError::FormatUnsupported { format }),
        }
    }

    /// Overlays the glyphs of the codepoints of one grapheme, in order, into one glyph.
    pub fn combine(glyphs: Vec<Glyph>) -> (r: Result<Glyph, GlyphError>)
        ensures
            glyphs.len() == 0 ==> r == Err::<Glyph, GlyphError>(GlyphError::EmptyString),
            glyphs.len() > 0 ==> match first_overlay_mismatch(glyphs@, 1) {
                Some(e) => r == Err::<Glyph, GlyphError>(e),
                None => r matches Ok(g) && g.height == glyphs@[0].height && g.width
                    == glyphs@[0].width && g.data.len() == glyphs@[0].data.len() && g.data@
                    == overlay_all(glyphs@) && g.grapheme@ == all_graphemes(glyphs@),
            },
    {
        let ghost gs = glyphs@;
        if glyphs.len() == 0 {
            return Err(GlyphError::EmptyString);
        }
        let mut rest = glyphs;
        let mut acc = rest.remove(0);
        proof {
            assert(gs.take(1).drop_last() =~= gs.take(0));
            assert(gs.take(1) =~= seq![gs[0]]);
            assert(all_graphemes(gs.take(0)) =~= Seq::<char>::empty());
            assert(all_graphemes(gs.take(1)) =~= gs[0].grapheme@);
        }
        let mut i: usize = 1;
        while rest.len() > 0
            invariant
                gs == glyphs@,
                gs.len() == glyphs.len(),
                1 <= i <= gs.len(),
                rest@ == gs.skip(i as int),
                acc.height == gs[0].height,
                acc.width == gs[0].width,
                acc.data.len() == gs[0].data.len(),
                acc.data@ == overlay_all(gs.take(i as int)),
                acc.grapheme@ == all_graphemes(gs.take(i as int)),
                first_overlay_mismatch(gs, 1) == first_overlay_mismatch(gs, i as int),
            decreases rest.len(),
        {
            let g = rest.remove(0);
            assert(g == gs[i as int]);
            assert(i < gs.len());
            assert(gs.take(i + 1).drop_last() =~= gs.take(i as int));
            match acc.add(g) {
                Ok(sum) => {
                    acc = sum;
                },
                Err(e) => {
                    return Err(e);
                },
            }
            i = i + 1;
            assert(rest@ =~= gs.skip(i as int));
        }
        assert(gs.take(i as int) =~= gs);
        Ok(acc)
    }
}

/// Padding `g` yields a bitmap of `new_height` rows of `new_width` pixels that keeps every pixel
/// of `g` in place and leaves every other bit clear, provided the rows of `g` carry no stray bits
/// right of their last column.
pub proof fn lemma_pad_keeps_pixels(g: Glyph, new_height: u32, new_width: u32)
    requires
        g.wf(),
        g.clean_padding(),
        g.height <= new_height,
        g.width <= new_width,
    ensures
        padded_bytes(
            g.data@,
            g.height as nat,
            g.width as nat,
            new_height as nat,
            new_width as nat,
        ).len() == new_height * row_bytes(new_width as nat),
        forall|r: int, c: int|
            0 <= r < new_height && 0 <= c < 8 * row_bytes(new_width as nat) ==> #[trigger] aligned_pixel(
                padded_bytes(
                    g.data@,
                    g.height as nat,
                    g.width as nat,
                    new_height as nat,
                    new_width as nat,
                ),
                new_width as nat,
                r,
                c,
            ) == (r < g.height && c < g.width && g.pixel(r, c)),
{
    let p = padded_bytes(g.data@, g.height as nat, g.width as nat, new_height as nat, new_width as nat);
    let s_old = row_bytes(g.width as nat) as int;
    let s_new = row_bytes(new_width as nat) as int;
    assert(forall|k: u8| !bit_of(0u8, k)) by (bit_vector);
    assert forall|r: int, c: int| 0 <= r < new_height && 0 <= c < 8 * s_new implies #[trigger] aligned_pixel(
        p,
        new_width as nat,
        r,
        c,
    ) == (r < g.height && c < g.width && g.pixel(r, c)) by {
        lemma_row_index(r, c / 8, s_new, new_height as int);
        if r < g.height && c / 8 < s_old {
            lemma_row_index(r, c / 8, s_old, g.height as int);
            if c >= g.width {
                assert(!g.pixel(r, c));
            }
        }
    }
}

/// Overlaying is symmetric in the bitmaps: only the order of the graphemes depends on which
/// glyph comes first.
pub proof fn lemma_overlay_commutes(a: Glyph, b: Glyph)
    requires
        a.height == b.height,
        a.width == b.width,
        a.data.len() == b.data.len(),
    ensures
        overlay_bytes(a.data@, b.data@) == overlay_bytes(b.data@, a.data@),
{
    assert forall|i: int| 0 <= i < a.data@.len() implies #[trigger] overlay_bytes(a.data@, b.data@)[i]
        == overlay_bytes(b.data@, a.data@)[i] by {
        let (x, y) = (a.data@[i], b.data@[i]);
        assert(x | y == y | x) by (bit_vector);
    }
    assert(overlay_bytes(a.data@, b.data@) =~= overlay_bytes(b.data@, a.data@));
}

} // verus!
