use ttf2psf::errors::{GlyphError, TtfParserError};
use ttf2psf::grapheme_info::{char_info, seq_info};
use ttf2psf::image::{EmbeddedImage, ImageFormat};
use ttf2psf::report::{classify_glyph, GlyphType};
use ttf2psf::ttf_parser::{extract_embedded, rasterize_pixels, Extraction, OutlinePixel, TtfParser};

#[test]
fn grapheme_info_test_char_info() {
    let test_char = 'A';
    let output = char_info(test_char, charname::get_name(test_char as u32));
    println!("{output}");
}

#[test]
fn test_seq_info() {
    let test_seq = "AaBb";
    let output = seq_info(test_seq);
    println!("{output}");
}

#[test]
fn seq_info_names_each_codepoint() {
    let output = seq_info("Ab");
    assert_eq!(
        output,
        "'A' (U+41, LATIN CAPITAL LETTER A)\n + 'b' (U+62, LATIN SMALL LETTER B)"
    );
}

#[test]
fn seq_info_of_nothing_is_empty() {
    assert_eq!(seq_info(""), "");
}

#[test]
fn char_info_formats_hex_and_name() {
    assert_eq!(char_info('\u{301}', "COMBINING ACUTE ACCENT"), "'\u{301}' (U+301, COMBINING ACUTE ACCENT)");
    assert_eq!(char_info('\u{0}', "NULL"), "'\u{0}' (U+0, NULL)");
}

#[test]
fn unsupported_embedded_format_falls_back_with_diagnostic() {
    let image = EmbeddedImage { format: ImageFormat::BitmapGray8, width: 2, height: 2, data: vec![0; 4] };
    match extract_embedded(Some(image), 'g') {
        Extraction::Fallback { diagnostic: Some(GlyphError::FormatUnsupported { format }) } => {
            assert_eq!(format, ImageFormat::BitmapGray8)
        }
        _ => panic!("expected a fallback to rasterization"),
    }
}

#[test]
fn missing_embedded_image_falls_back_silently() {
    assert!(matches!(extract_embedded(None, 'g'), Extraction::Fallback { diagnostic: None }));
}

#[test]
fn mono_embedded_image_is_used() {
    let image = EmbeddedImage { format: ImageFormat::BitmapMono, width: 8, height: 2, data: vec![0x18, 0x3C] };
    match extract_embedded(Some(image), 'o') {
        Extraction::Embedded(g) => {
            assert_eq!(g.data, vec![0x18, 0x3C]);
            assert_eq!(g.grapheme, "o");
        }
        _ => panic!("expected the embedded image"),
    }
}

#[test]
fn rasterizing_sets_covered_pixels_and_drops_outside_ones() {
    let pixels = vec![
        OutlinePixel { x: 0, y: 0, covered: true, exact: true },
        OutlinePixel { x: 9, y: 1, covered: true, exact: true },
        OutlinePixel { x: 3, y: 1, covered: false, exact: false },
        OutlinePixel { x: 10, y: 0, covered: true, exact: true },
        OutlinePixel { x: -1, y: 2, covered: true, exact: true },
    ];
    let r = rasterize_pixels('r', 3, 10, &pixels);
    assert_eq!(r.glyph.data, vec![0x80, 0, 0, 0x40, 0, 0]);
    assert_eq!(r.dropped, vec![pixels[3], pixels[4]]);
    assert!(!r.pixel_perfect);
    assert_eq!(r.glyph.grapheme, "r");
}

#[test]
fn classification_marks_undefined_characters() {
    let r = classify_glyph('x', 0, 0, None, 16, 8);
    assert_eq!(r.glyph_type, GlyphType::Undefined);
    let r = classify_glyph('\u{3a2}', 0, 0, None, 16, 8);
    assert_eq!(r.glyph_type, GlyphType::Vector);
    assert_eq!((r.height, r.width), (16, 8));
    let r = classify_glyph('y', 5, 0, Some((ImageFormat::BitmapMono, 7, 13)), 16, 8);
    assert_eq!(r.glyph_type, GlyphType::EmbeddedBitmap { format: ImageFormat::BitmapMono });
    assert_eq!((r.height, r.width), (13, 7));
}

#[test]
fn garbage_is_no_font() {
    let r = TtfParser::from_font_data(vec![1, 2, 3, 4], 16);
    assert!(matches!(r, Err(TtfParserError::FontCreationError { .. })));
}
