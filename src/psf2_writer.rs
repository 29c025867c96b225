//! The PSF2 container: header, glyph bitmaps and the optional Unicode table.
use crate::bits::aligned_len;
use crate::errors::GlyphSetError;
use crate::glyph::{padded_bytes, Glyph};
use crate::unicode_table::{append_bytes, table_bytes, UnicodeTable};
use vstd::prelude::*;

verus! {

/// The first field of every PSF2 file; stored little-endian it reads `72 B5 4A 86`.
pub const PSF2_MAGIC: u32 = 0x864A_B572;

/// The only version of the format.
pub const PSF2_VERSION: u32 = 0;

/// Size of the header in bytes.
pub const PSF2_HEADER_SIZE: u32 = 32;

/// The four bytes of `x`, least significant first.
pub open spec fn le_bytes(x: u32) -> Seq<u8> {
    seq![(x & 0xff) as u8, ((x >> 8) & 0xff) as u8, ((x >> 16) & 0xff) as u8, ((x >> 24) & 0xff) as u8]
}

/// Header information for a PSF2 font file.
pub struct Psf2Header {
    /// Whether a Unicode table follows the glyph bitmaps. Without one, the glyphs stand for
    /// the codepoints from U+0000 on, in order.
    pub unicode_table_exists: bool,
    /// The number of glyphs in the font.
    pub glyph_count: u32,
    /// The number of bytes of each glyph bitmap.
    pub glyph_size: u32,
    /// The height in pixels of each glyph.
    pub glyph_height: u32,
    /// The width in pixels of each glyph.
    pub glyph_width: u32,
}

/// The 32 header bytes: magic, version, header size, flags, glyph count, glyph size, height and
/// width, each a little-endian 32-bit field. Bit 0 of the flags tells whether a Unicode table
/// is present.
pub open spec fn header_bytes(h: Psf2Header) -> Seq<u8> {
    le_bytes(PSF2_MAGIC) + le_bytes(PSF2_VERSION) + le_bytes(PSF2_HEADER_SIZE) + le_bytes(
        if h.unicode_table_exists {
            1
        } else {
            0
        },
    ) + le_bytes(h.glyph_count) + le_bytes(h.glyph_size) + le_bytes(h.glyph_height) + le_bytes(
        h.glyph_width,
    )
}

/// Writes `x` little-endian into `out[at..at + 4]`.
fn put_le(out: &mut [u8; 32], at: usize, x: u32)
    requires
        at + 4 <= 32,
    ensures
        final(out)@ == old(out)@.take(at as int) + le_bytes(x) + old(out)@.skip(at + 4),
{
    out[at] = (x & 0xff) as u8;
    out[at + 1] = ((x >> 8) & 0xff) as u8;
    out[at + 2] = ((x >> 16) & 0xff) as u8;
    out[at + 3] = ((x >> 24) & 0xff) as u8;
    assert(out@ =~= old(out)@.take(at as int) + le_bytes(x) + old(out)@.skip(at + 4));
}

impl Psf2Header {
    /// A header with the given fields.
    pub fn new(
        unicode_table_exists: bool,
        glyph_count: u32,
        glyph_size: u32,
        glyph_height: u32,
        glyph_width: u32,
    ) -> (r: Psf2Header)
        ensures
            r == (Psf2Header {
                unicode_table_exists,
                glyph_count,
                glyph_size,
                glyph_height,
                glyph_width,
            }),
    {
        Psf2Header { unicode_table_exists, glyph_count, glyph_size, glyph_height, glyph_width }
    }

    /// Encodes the header as the first 32 bytes of a PSF2 file.
    pub fn write(self) -> (r: [u8; 32])
        ensures
            r@ == header_bytes(self),
    {
        let flags: u32 = if self.unicode_table_exists {
            1
        } else {
            0
        };
        let mut header = [0u8; 32];
        put_le(&mut header, 0, PSF2_MAGIC);
        put_le(&mut header, 4, PSF2_VERSION);
        put_le(&mut header, 8, PSF2_HEADER_SIZE);
        put_le(&mut header, 12, flags);
        put_le(&mut header, 16, self.glyph_count);
        put_le(&mut header, 20, self.glyph_size);
        put_le(&mut header, 24, self.glyph_height);
        put_le(&mut header, 28, self.glyph_width);
        assert(header@ =~= header_bytes(self));
        header
    }
}

/// The failure of putting `g` into a glyph set whose first glyph is `first`, if any.
pub open spec fn set_mismatch(first: Glyph, g: Glyph) -> Option<GlyphSetError> {
    if g.height != first.height || g.width != first.width {
        Some(
            GlyphSetError::InconsistentDimensions {
                height: g.height,
                width: g.width,
                expected_height: first.height,
                expected_width: first.width,
            },
        )
    } else if g.data.len() != first.data.len() {
        Some(
            GlyphSetError::InconsistentLengths {
                length: g.data.len(),
                expected_length: first.data.len(),
            },
        )
    } else {
        None
    }
}

/// The first failure met when checking `gs[i]`, `gs[i + 1]`, ... against `gs[0]`.
pub open spec fn first_set_mismatch(gs: Seq<Glyph>, i: int) -> Option<GlyphSetError>
    decreases gs.len() - i,
{
    if i < 1 || i >= gs.len() {
        None
    } else {
        match set_mismatch(gs[0], gs[i]) {
            Some(e) => Some(e),
            None => first_set_mismatch(gs, i + 1),
        }
    }
}

/// The largest height among `gs`, or 0 when there is none.
pub open spec fn max_height(gs: Seq<Glyph>) -> u32
    decreases gs.len(),
{
    if gs.len() == 0 {
        0
    } else if gs.last().height > max_height(gs.drop_last()) {
        gs.last().height
    } else {
        max_height(gs.drop_last())
    }
}

/// The largest width among `gs`, or 0 when there is none.
pub open spec fn max_width(gs: Seq<Glyph>) -> u32
    decreases gs.len(),
{
    if gs.len() == 0 {
        0
    } else if gs.last().width > max_width(gs.drop_last()) {
        gs.last().width
    } else {
        max_width(gs.drop_last())
    }
}

/// The bitmaps of `gs`, one after the other.
pub open spec fn glyph_bytes(gs: Seq<Glyph>) -> Seq<u8>
    decreases gs.len(),
{
    if gs.len() == 0 {
        seq![]
    } else {
        glyph_bytes(gs.drop_last()) + gs.last().data@
    }
}

/// No glyph is higher or wider than the maxima.
pub proof fn lemma_max_bounds(gs: Seq<Glyph>)
    ensures
        forall|k: int|
            0 <= k < gs.len() ==> (#[trigger] gs[k]).height <= max_height(gs) && gs[k].width
                <= max_width(gs),
        gs.len() > 0 ==> exists|k: int| 0 <= k < gs.len() && (#[trigger] gs[k]).height == max_height(gs),
        gs.len() > 0 ==> exists|k: int| 0 <= k < gs.len() && (#[trigger] gs[k]).width == max_width(gs),
    decreases gs.len(),
{
    if gs.len() > 0 {
        lemma_max_bounds(gs.drop_last());
        assert forall|k: int| 0 <= k < gs.len() - 1 implies #[trigger] gs[k] == gs.drop_last()[k] by {}
        if gs.len() > 1 {
            let kh = choose|k: int| 0 <= k < gs.len() - 1 && (#[trigger] gs.drop_last()[k]).height == max_height(gs.drop_last());
            let kw = choose|k: int| 0 <= k < gs.len() - 1 && (#[trigger] gs.drop_last()[k]).width == max_width(gs.drop_last());
            assert(gs[kh] == gs.drop_last()[kh]);
            assert(gs[kw] == gs.drop_last()[kw]);
        }
        assert(gs[gs.len() - 1] == gs.last());
    }
}

/// Glyphs that all share the dimensions and data length of the first pass the checks from any
/// position on.
proof fn lemma_uniform_no_mismatch(gs: Seq<Glyph>, i: int)
    requires
        forall|k: int|
            0 <= k < gs.len() ==> (#[trigger] gs[k]).height == gs[0].height && gs[k].width
                == gs[0].width && gs[k].data.len() == gs[0].data.len(),
    ensures
        first_set_mismatch(gs, i) is None,
    decreases gs.len() - i,
{
    if 1 <= i < gs.len() {
        assert(set_mismatch(gs[0], gs[i]) is None);
        lemma_uniform_no_mismatch(gs, i + 1);
    }
}

/// Glyphs that pass the checks from position `i` on share the dimensions and data length of the
/// first.
proof fn lemma_no_mismatch_uniform(gs: Seq<Glyph>, i: int)
    requires
        1 <= i,
        first_set_mismatch(gs, i) is None,
    ensures
        forall|k: int|
            i <= k < gs.len() ==> (#[trigger] gs[k]).height == gs[0].height && gs[k].width
                == gs[0].width && gs[k].data.len() == gs[0].data.len(),
    decreases gs.len() - i,
{
    if i < gs.len() {
        lemma_no_mismatch_uniform(gs, i + 1);
    }
}

/// Strict assembly refuses every list of glyphs in which two glyphs differ in height or width.
pub proof fn lemma_strict_rejects_mixed_dimensions(gs: Seq<Glyph>, a: int, b: int)
    requires
        0 <= a < gs.len(),
        0 <= b < gs.len(),
        gs[a].height != gs[b].height || gs[a].width != gs[b].width,
    ensures
        first_set_mismatch(gs, 1) is Some,
{
    if first_set_mismatch(gs, 1) is None {
        lemma_no_mismatch_uniform(gs, 1);
    }
}

/// A set of glyph bitmaps that all share one height, width and data length.
pub struct Psf2GlyphSet {
    /// The glyphs, in glyph order: the order of the Unicode table when there is one, otherwise
    /// that of the codepoints from U+0000 on.
    pub glyphs: Vec<Glyph>,
    /// The height of each glyph.
    pub height: u32,
    /// The width of each glyph.
    pub width: u32,
    /// The length of each glyph's data, in bytes.
    pub length: u32,
}

impl Psf2GlyphSet {
    /// The glyphs of the set, in order.
    pub open spec fn glyph_seq(&self) -> Seq<Glyph> {
        self.glyphs@
    }

    /// Every glyph has the height, width and data length of the set.
    pub open spec fn uniform(&self) -> bool {
        forall|k: int|
            0 <= k < self.glyph_seq().len() ==> (#[trigger] self.glyph_seq()[k]).height
                == self.height && self.glyph_seq()[k].width == self.width
                && self.glyph_seq()[k].data.len() == self.length
    }

    /// Assembles glyphs that must all have the height, width and data length of the first one.
    /// No glyph at all gives an empty set with all dimensions zero.
    pub fn from_vec_of_glyphs_strict(glyphs: Vec<Glyph>) -> (r: Result<Self, GlyphSetError>)
        requires
            glyphs.len() > 0 ==> glyphs@[0].data.len() <= u32::MAX,
        ensures
            glyphs.len() == 0 ==> (r matches Ok(s) && s.glyph_seq() == glyphs@ && s.height == 0
                && s.width == 0 && s.length == 0),
            glyphs.len() > 0 ==> match first_set_mismatch(glyphs@, 1) {
                Some(e) => r == Err::<Psf2GlyphSet, GlyphSetError>(e),
                None => r matches Ok(s) && s.glyph_seq() == glyphs@ && s.height
                    == glyphs@[0].height && s.width == glyphs@[0].width && s.length
                    == glyphs@[0].data.len() && s.uniform(),
            },
    {
        if glyphs.len() == 0 {
            return Ok(Psf2GlyphSet { glyphs, height: 0, width: 0, length: 0 });
        }
        let height = glyphs[0].height;
        let width = glyphs[0].width;
        let length = glyphs[0].data.len();
        let mut i: usize = 1;
        while i < glyphs.len()
            invariant
                1 <= i <= glyphs.len(),
                height == glyphs@[0].height,
                width == glyphs@[0].width,
                length == glyphs@[0].data.len(),
                first_set_mismatch(glyphs@, 1) == first_set_mismatch(glyphs@, i as int),
            decreases glyphs.len() - i,
        {
            let g = &glyphs[i];
            if g.height != height || g.width != width {
                return Err(
                    GlyphSetError::InconsistentDimensions {
                        height: g.height,
                        width: g.width,
                        expected_height: height,
                        expected_width: width,
                    },
                );
            } else if g.data.len() != length {
                return Err(
                    GlyphSetError::InconsistentLengths {
                        length: g.data.len(),
                        expected_length: length,
                    },
                );
            }
            i = i + 1;
        }
        proof {
            lemma_no_mismatch_uniform(glyphs@, 1);
        }
        Ok(Psf2GlyphSet { glyphs, height, width, length: length as u32 })
    }

    /// Pads every glyph to the largest height and the largest width among them, then assembles
    /// them as `from_vec_of_glyphs_strict` does, which cannot fail on the padded glyphs.
    pub fn from_vec_of_glyphs_pad(glyphs: Vec<Glyph>) -> (r: Result<Self, GlyphSetError>)
        requires
            forall|k: int| 0 <= k < glyphs.len() ==> (#[trigger] glyphs@[k]).wf(),
            aligned_len(max_height(glyphs@) as nat, max_width(glyphs@) as nat) <= u32::MAX,
        ensures
            r matches Ok(s) && s.height == max_height(glyphs@) && s.width == max_width(glyphs@)
                && s.length == aligned_len(s.height as nat, s.width as nat) && s.uniform()
                && s.glyph_seq().len() == glyphs.len() && forall|k: int|
                0 <= k < glyphs.len() ==> (#[trigger] s.glyph_seq()[k]).grapheme
                    == glyphs@[k].grapheme && s.glyph_seq()[k].data@ == padded_bytes(
                    glyphs@[k].data@,
                    glyphs@[k].height as nat,
                    glyphs@[k].width as nat,
                    s.height as nat,
                    s.width as nat,
                ),
    {
        let ghost gs = glyphs@;
        let mut max_h: u32 = 0;
        let mut max_w: u32 = 0;
        let mut i: usize = 0;
        while i < glyphs.len()
            invariant
                gs == glyphs@,
                i <= glyphs.len(),
                max_h == max_height(gs.take(i as int)),
                max_w == max_width(gs.take(i as int)),
            decreases glyphs.len() - i,
        {
            assert(gs.take(i + 1).drop_last() =~= gs.take(i as int));
            if glyphs[i].height > max_h {
                max_h = glyphs[i].height;
            }
            if glyphs[i].width > max_w {
                max_w = glyphs[i].width;
            }
            i = i + 1;
        }
        assert(gs.take(i as int) =~= gs);
        proof {
            lemma_max_bounds(gs);
        }
        let mut rest = glyphs;
        let mut padded: Vec<Glyph> = Vec::new();
        let mut j: usize = 0;
        while rest.len() > 0
            invariant
                gs.len() == j + rest.len(),
                gs.len() == glyphs.len(),
                rest@ == gs.skip(j as int),
                max_h == max_height(gs),
                max_w == max_width(gs),
                aligned_len(max_h as nat, max_w as nat) <= u32::MAX,
                forall|k: int| 0 <= k < gs.len() ==> (#[trigger] gs[k]).wf(),
                forall|k: int|
                    0 <= k < gs.len() ==> (#[trigger] gs[k]).height <= max_h && gs[k].width
                        <= max_w,
                padded.len() == j,
                forall|k: int|
                    0 <= k < j ==> (#[trigger] padded@[k]).height == max_h && padded@[k].width
                        == max_w && padded@[k].data.len() == aligned_len(max_h as nat, max_w as nat)
                        && padded@[k].grapheme == gs[k].grapheme && padded@[k].data@
                        == padded_bytes(
                        gs[k].data@,
                        gs[k].height as nat,
                        gs[k].width as nat,
                        max_h as nat,
                        max_w as nat,
                    ),
            decreases rest.len(),
        {
            let g = rest.remove(0);
            assert(g == gs[j as int]);
            if let Ok(p) = g.pad(max_h, max_w) {
                padded.push(p);
            }
            j = j + 1;
            assert(rest@ =~= gs.skip(j as int));
        }
        let ghost ps = padded@;
        proof {
            if ps.len() > 0 {
                lemma_uniform_no_mismatch(ps, 1);
            }
        }
        Self::from_vec_of_glyphs_strict(padded)
    }

    /// Assembles the glyphs, padding them first when `pad` is set.
    pub fn from_vec_of_glyphs(glyphs: Vec<Glyph>, pad: bool) -> (r: Result<Self, GlyphSetError>)
        requires
            pad ==> forall|k: int| 0 <= k < glyphs.len() ==> (#[trigger] glyphs@[k]).wf(),
            pad ==> aligned_len(max_height(glyphs@) as nat, max_width(glyphs@) as nat)
                <= u32::MAX,
            !pad ==> (glyphs.len() > 0 ==> glyphs@[0].data.len() <= u32::MAX),
        ensures
            pad ==> (r matches Ok(s) && s.height == max_height(glyphs@) && s.width == max_width(
                glyphs@,
            ) && s.length == aligned_len(s.height as nat, s.width as nat) && s.uniform()
                && s.glyph_seq().len() == glyphs.len() && forall|k: int|
                0 <= k < glyphs.len() ==> (#[trigger] s.glyph_seq()[k]).grapheme
                    == glyphs@[k].grapheme && s.glyph_seq()[k].data@ == padded_bytes(
                    glyphs@[k].data@,
                    glyphs@[k].height as nat,
                    glyphs@[k].width as nat,
                    s.height as nat,
                    s.width as nat,
                )),
            !pad && glyphs.len() > 0 ==> match first_set_mismatch(glyphs@, 1) {
                Some(e) => r == Err::<Psf2GlyphSet, GlyphSetError>(e),
                None => r matches Ok(s) && s.glyph_seq() == glyphs@ && s.uniform(),
            },
            !pad && glyphs.len() == 0 ==> (r matches Ok(s) && s.glyph_seq().len() == 0),
    {
        if pad {
            Self::from_vec_of_glyphs_pad(glyphs)
        } else {
            Self::from_vec_of_glyphs_strict(glyphs)
        }
    }

    /// The glyph bitmaps one after the other, in glyph order.
    pub fn write(self) -> (r: Vec<u8>)
        ensures
            r@ == glyph_bytes(self.glyph_seq()),
    {
        let ghost gs = self.glyphs@;
        let mut out: Vec<u8> = Vec::new();
        let mut i: usize = 0;
        while i < self.glyphs.len()
            invariant
                gs == self.glyphs@,
                i <= gs.len(),
                out@ == glyph_bytes(gs.take(i as int)),
            decreases gs.len() - i,
        {
            append_bytes(&mut out, self.glyphs[i].data.as_slice());
            assert(gs.take(i + 1).drop_last() =~= gs.take(i as int));
            i = i + 1;
        }
        assert(gs.take(i as int) =~= gs);
        out
    }
}

/// A complete PSF2 font: header, glyphs, and the Unicode table when there is one.
pub struct Psf2Font {
    pub header: Psf2Header,
    pub glyphs: Psf2GlyphSet,
    pub unicode_table: Option<UnicodeTable>,
}

impl Psf2Font {
    /// A font of `glyphs`, with a header that describes them and says whether `unicode_table`
    /// is present.
    pub fn new(glyphs: Psf2GlyphSet, unicode_table: Option<UnicodeTable>) -> (r: Psf2Font)
        requires
            glyphs.glyph_seq().len() <= u32::MAX,
        ensures
            r.header == (Psf2Header {
                unicode_table_exists: unicode_table is Some,
                glyph_count: glyphs.glyph_seq().len() as u32,
                glyph_size: glyphs.length,
                glyph_height: glyphs.height,
                glyph_width: glyphs.width,
            }),
            r.glyphs == glyphs,
            r.unicode_table == unicode_table,
    {
        let header = Psf2Header {
            unicode_table_exists: unicode_table.is_some(),
            glyph_count: glyphs.glyphs.len() as u32,
            glyph_size: glyphs.length,
            glyph_height: glyphs.height,
            glyph_width: glyphs.width,
        };
        Psf2Font { header, glyphs, unicode_table }
    }

    /// The bytes of the font file: header, glyph bitmaps, then the Unicode table if any.
    pub fn write(self) -> (r: Vec<u8>)
        ensures
            r@ == header_bytes(self.header) + glyph_bytes(self.glyphs.glyph_seq()) + match self.unicode_table {
                Some(t) => table_bytes(t.sets()),
                None => Seq::<u8>::empty(),
            },
    {
        let header = self.header.write();
        let mut font: Vec<u8> = Vec::new();
        append_bytes(&mut font, header.as_slice());
        let body = self.glyphs.write();
        append_bytes(&mut font, body.as_slice());
        match self.unicode_table {
            Some(t) => {
                let table = t.write();
                append_bytes(&mut font, table.as_slice());
            },
            None => {},
        }
        font
    }
}

} // verus!
