use ttf2psf::errors::{GlyphError, GlyphSetError};
use ttf2psf::glyph::Glyph;
use ttf2psf::image::{EmbeddedImage, ImageFormat};
use ttf2psf::layout::{byte_aligned_to_packed, packed_to_byte_aligned};

fn glyph(height: u32, width: u32, data: Vec<u8>, grapheme: &str) -> Glyph {
    Glyph { height, width, data, grapheme: grapheme.to_string() }
}

#[test]
fn add_overlays_bitmaps_and_joins_graphemes() {
    let a = glyph(2, 8, vec![0b1000_0000, 0b0000_0001], "B");
    let b = glyph(2, 8, vec![0b0100_0000, 0b0000_0001], "\u{301}");
    let sum = a.add(b).unwrap();
    assert_eq!(sum.data, vec![0b1100_0000, 0b0000_0001]);
    assert_eq!(sum.grapheme, "B\u{301}");
    assert_eq!((sum.height, sum.width), (2, 8));
}

#[test]
fn add_data_is_commutative() {
    let ab = glyph(2, 5, vec![0xA0, 0x18], "a").add(glyph(2, 5, vec![0x48, 0x80], "b")).unwrap();
    let ba = glyph(2, 5, vec![0x48, 0x80], "b").add(glyph(2, 5, vec![0xA0, 0x18], "a")).unwrap();
    assert_eq!(ab.data, ba.data);
    assert_eq!(ab.grapheme, "ab");
    assert_eq!(ba.grapheme, "ba");
}

#[test]
fn add_rejects_other_dimensions() {
    let r = glyph(2, 8, vec![0, 0], "a").add(glyph(3, 8, vec![0, 0, 0], "b"));
    assert!(matches!(
        r,
        Err(GlyphError::WrongDimensions { height: 2, width: 8, expected_height: 3, expected_width: 8 })
    ));
}

#[test]
fn add_rejects_other_lengths() {
    let r = glyph(2, 8, vec![0, 0], "a").add(glyph(2, 8, vec![0, 0, 0], "b"));
    assert!(matches!(r, Err(GlyphError::WrongLength { length: 2, expected_length: 3 })));
}

#[test]
fn pad_keeps_bitmap_in_top_left_corner() {
    // 2 rows of 3 pixels: 101 / 011
    let g = glyph(2, 3, vec![0b1010_0000, 0b0110_0000], "x");
    let p = g.pad(3, 10).unwrap();
    assert_eq!((p.height, p.width), (3, 10));
    assert_eq!(p.data.len(), 3 * 2);
    assert_eq!(p.data, vec![0b1010_0000, 0, 0b0110_0000, 0, 0, 0]);
    assert_eq!(p.grapheme, "x");
}

#[test]
fn pad_to_same_row_length_only_adds_rows() {
    let g = glyph(1, 5, vec![0xF8], "y");
    let p = g.pad(3, 8).unwrap();
    assert_eq!(p.data, vec![0xF8, 0, 0]);
}

#[test]
fn pad_rejects_smaller_size() {
    let r = glyph(2, 8, vec![0, 0], "a").pad(1, 8);
    assert!(matches!(
        r,
        Err(GlyphError::PadTooSmall { height: 2, width: 8, pad_height: 1, pad_width: 8 })
    ));
}

#[test]
fn combine_overlays_all_codepoints() {
    let parts = vec![
        glyph(1, 8, vec![0x01], "e"),
        glyph(1, 8, vec![0x10], "\u{301}"),
        glyph(1, 8, vec![0x80], "\u{323}"),
    ];
    let g = Glyph::combine(parts).unwrap();
    assert_eq!(g.data, vec![0x91]);
    assert_eq!(g.grapheme, "e\u{301}\u{323}");
}

#[test]
fn combine_of_nothing_is_empty_string_error() {
    assert!(matches!(Glyph::combine(vec![]), Err(GlyphError::EmptyString)));
}

#[test]
fn combine_reports_first_mismatch() {
    let parts = vec![glyph(1, 8, vec![0], "a"), glyph(1, 16, vec![0, 0], "b")];
    assert!(matches!(
        Glyph::combine(parts),
        Err(GlyphError::WrongDimensions { height: 1, width: 8, expected_height: 1, expected_width: 16 })
    ));
}

#[test]
fn packed_to_aligned_width_five() {
    // 3 rows of 5 pixels packed: 10101 11000 00111 -> 1010 1110 0000 0111 (+ padding bit)
    let packed = vec![0b1010_1110, 0b0000_1110];
    let aligned = packed_to_byte_aligned(&packed, 3, 5);
    assert_eq!(aligned, vec![0b1010_1000, 0b1100_0000, 0b0011_1000]);
}

#[test]
fn packed_round_trip_width_not_multiple_of_eight() {
    let packed = vec![0b1010_1110, 0b0000_1110];
    let aligned = packed_to_byte_aligned(&packed, 3, 5);
    assert_eq!(byte_aligned_to_packed(&aligned, 3, 5), packed);
}

#[test]
fn aligned_round_trip_width_multiple_of_eight() {
    let aligned = vec![0x12, 0x34, 0x56, 0x78];
    let packed = byte_aligned_to_packed(&aligned, 2, 16);
    assert_eq!(packed, aligned);
    assert_eq!(packed_to_byte_aligned(&packed, 2, 16), aligned);
}

#[test]
fn aligned_round_trip_width_eleven() {
    let aligned = vec![0xFF, 0xE0, 0x80, 0x20, 0x55, 0x40];
    let packed = byte_aligned_to_packed(&aligned, 3, 11);
    assert_eq!(packed.len(), 5);
    assert_eq!(packed_to_byte_aligned(&packed, 3, 11), aligned);
}

#[test]
fn glyph_from_packed_image_is_byte_aligned() {
    let image = EmbeddedImage {
        format: ImageFormat::BitmapMonoPacked,
        width: 5,
        height: 3,
        data: vec![0b1010_1110, 0b0000_1110],
    };
    let g = Glyph::from_glyph_image(image, 'k').unwrap();
    assert_eq!(g.data, vec![0b1010_1000, 0b1100_0000, 0b0011_1000]);
    assert_eq!(g.grapheme, "k");
}

#[test]
fn glyph_from_mono_image_keeps_data() {
    let image = EmbeddedImage { format: ImageFormat::BitmapMono, width: 9, height: 1, data: vec![0xFF, 0x80] };
    let g = Glyph::from_glyph_image(image, 'm').unwrap();
    assert_eq!((g.height, g.width, g.data.clone()), (1, 9, vec![0xFF, 0x80]));
}

#[test]
fn glyph_from_short_image_is_refused() {
    let image = EmbeddedImage { format: ImageFormat::BitmapMono, width: 9, height: 2, data: vec![0xFF, 0x80] };
    assert!(matches!(
        Glyph::from_glyph_image(image, 'm'),
        Err(GlyphError::WrongLength { length: 2, expected_length: 4 })
    ));
}

#[test]
fn glyph_from_color_image_is_unsupported() {
    let image = EmbeddedImage { format: ImageFormat::BitmapPremulBgra32, width: 1, height: 1, data: vec![0; 4] };
    assert!(matches!(
        Glyph::from_glyph_image(image, 'c'),
        Err(GlyphError::FormatUnsupported { format: ImageFormat::BitmapPremulBgra32 })
    ));
}

#[test]
fn glyph_errors_carry_over_to_glyph_sets() {
    assert!(matches!(
        GlyphSetError::from_glyph_error(GlyphError::EmptyString),
        Ok(GlyphSetError::EmptyString)
    ));
    assert!(matches!(
        GlyphSetError::from_glyph_error(GlyphError::WrongLength { length: 1, expected_length: 2 }),
        Ok(GlyphSetError::InconsistentLengths { length: 1, expected_length: 2 })
    ));
    assert!(matches!(
        GlyphSetError::from_glyph_error(GlyphError::PadTooSmall { height: 1, width: 1, pad_height: 0, pad_width: 0 }),
        Err(GlyphError::PadTooSmall { .. })
    ));
}

#[test]
fn zero_width_bitmaps_have_no_data() {
    assert!(packed_to_byte_aligned(&[], 4, 0).is_empty());
    assert!(byte_aligned_to_packed(&[], 4, 0).is_empty());
    let g = glyph(4, 0, vec![], "z").pad(5, 3).unwrap();
    assert_eq!(g.data, vec![0; 5]);
}
