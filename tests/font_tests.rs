use ttf2psf::errors::{GlyphSetError, UnicodeTableError};
use ttf2psf::glyph::Glyph;
use ttf2psf::psf2_writer::{Psf2Font, Psf2GlyphSet, Psf2Header};
use ttf2psf::unicode_table::{Psf2UnicodeTable, UnicodeTable};

fn blank(height: u32, width: u32, grapheme: &str) -> Glyph {
    let len = (height * ((width + 7) / 8)) as usize;
    Glyph { height, width, data: vec![0; len], grapheme: grapheme.to_string() }
}

#[test]
fn header_bytes_are_little_endian_fields() {
    let h = Psf2Header::new(true, 512, 32, 16, 9);
    let bytes = h.write();
    assert_eq!(
        bytes.to_vec(),
        vec![
            0x72, 0xB5, 0x4A, 0x86, 0, 0, 0, 0, 32, 0, 0, 0, 1, 0, 0, 0, 0, 2, 0, 0, 32, 0, 0, 0,
            16, 0, 0, 0, 9, 0, 0, 0
        ]
    );
}

#[test]
fn font_of_256_glyphs_without_table() {
    let glyphs: Vec<Glyph> = (0..256u32)
        .map(|i| blank(16, 16, &char::from_u32(i).unwrap().to_string()))
        .collect();
    let set = Psf2GlyphSet::from_vec_of_glyphs(glyphs, false).unwrap();
    assert_eq!((set.height, set.width, set.length), (16, 16, 32));
    let font = Psf2Font::new(set, None);
    assert_eq!(font.header.glyph_count, 256);
    assert_eq!(font.header.glyph_size, 32);
    assert_eq!(font.header.glyph_height, 16);
    assert_eq!(font.header.glyph_width, 16);
    assert!(!font.header.unicode_table_exists);
    let bytes = font.write();
    assert_eq!(bytes.len(), 32 + 256 * 32);
    assert_eq!(&bytes[12..16], &[0, 0, 0, 0]);
    assert_eq!(&bytes[16..20], &[0, 1, 0, 0]);
    assert_eq!(&bytes[20..24], &[32, 0, 0, 0]);
}

#[test]
fn font_with_table_ends_with_trailer() {
    let table = UnicodeTable::from_text("U+0041, U+0042 U+0301\n", None).unwrap();
    let mut g = blank(1, 8, "A");
    g.data = vec![0x3C];
    let set = Psf2GlyphSet::from_vec_of_glyphs(vec![g], false).unwrap();
    let bytes = Psf2Font::new(set, Some(table)).write();
    assert_eq!(bytes[12], 1);
    assert_eq!(&bytes[32..], &[0x3C, 0x41, 0xFE, 0x42, 0xCC, 0x81, 0xFF]);
}

#[test]
fn strict_assembly_rejects_mixed_dimensions() {
    let glyphs = vec![blank(16, 8, "a"), blank(16, 8, "b"), blank(14, 8, "c")];
    assert!(matches!(
        Psf2GlyphSet::from_vec_of_glyphs_strict(glyphs),
        Err(GlyphSetError::InconsistentDimensions { height: 14, width: 8, expected_height: 16, expected_width: 8 })
    ));
}

#[test]
fn strict_assembly_rejects_mixed_lengths() {
    let mut odd = blank(2, 8, "b");
    odd.data.push(0);
    let glyphs = vec![blank(2, 8, "a"), odd];
    assert!(matches!(
        Psf2GlyphSet::from_vec_of_glyphs_strict(glyphs),
        Err(GlyphSetError::InconsistentLengths { length: 3, expected_length: 2 })
    ));
}

#[test]
fn strict_assembly_of_nothing_is_empty() {
    let set = Psf2GlyphSet::from_vec_of_glyphs_strict(vec![]).unwrap();
    assert_eq!((set.height, set.width, set.length), (0, 0, 0));
    assert!(set.write().is_empty());
}

#[test]
fn pad_assembly_pads_to_largest_glyph() {
    let mut small = blank(10, 8, "s");
    small.data = vec![0xFF; 10];
    let big = Glyph { height: 12, width: 8, data: vec![0x81; 12], grapheme: "b".to_string() };
    let set = Psf2GlyphSet::from_vec_of_glyphs(vec![small, big], true).unwrap();
    assert_eq!((set.height, set.width, set.length), (12, 8, 12));
    let padded = &set.glyphs[0];
    assert_eq!((padded.height, padded.width), (12, 8));
    assert_eq!(&padded.data[..10], &[0xFF; 10]);
    assert_eq!(&padded.data[10..], &[0, 0]);
    assert_eq!(set.glyphs[1].data, vec![0x81; 12]);
}

#[test]
fn pad_assembly_takes_each_axis_maximum() {
    let glyphs = vec![blank(10, 12, "a"), blank(14, 6, "b")];
    let set = Psf2GlyphSet::from_vec_of_glyphs_pad(glyphs).unwrap();
    assert_eq!((set.height, set.width, set.length), (14, 12, 28));
}

#[test]
fn table_line_is_sorted_single_codepoints_first() {
    let table = UnicodeTable::from_text("U+0041, U+0042 U+0301", None).unwrap();
    assert_eq!(table.data, vec![vec!["A".to_string(), "B\u{301}".to_string()]]);
    assert_eq!(table.reference_graphemes(), vec!["A".to_string()]);
}

#[test]
fn table_sorting_moves_single_codepoints_forward() {
    let text = "# comment\n\nU+0042 U+0301, U+0041 , U+00C1\t# trailing\r\nU+61\n";
    let table = UnicodeTable::from_text(text, None).unwrap();
    assert_eq!(
        table.data,
        vec![
            vec!["A".to_string(), "\u{c1}".to_string(), "B\u{301}".to_string()],
            vec!["a".to_string()]
        ]
    );
}

#[test]
fn table_is_truncated_to_glyph_count() {
    let table = UnicodeTable::from_text("U+41\nU+42\nU+43\n", Some(2)).unwrap();
    assert_eq!(table.data.len(), 2);
    assert_eq!(table.data[1], vec!["B".to_string()]);
}

#[test]
fn table_syntax_error_has_position() {
    let r = UnicodeTable::from_text("U+41\nU+42 X\n", None);
    assert!(matches!(r, Err(UnicodeTableError::ParseError { line: 2, column: 6 })));
    let r = UnicodeTable::from_text("U+41,\n", None);
    assert!(matches!(r, Err(UnicodeTableError::ParseError { line: 1, column: 6 })));
    let r = UnicodeTable::from_text("U+", None);
    assert!(matches!(r, Err(UnicodeTableError::ParseError { line: 1, column: 3 })));
}

#[test]
fn table_rejects_surrogates() {
    let r = UnicodeTable::from_text("U+D800", None);
    assert!(matches!(r, Err(UnicodeTableError::InvalidCodepoint { codepoint: 0xD800 })));
}

#[test]
fn table_rejects_values_beyond_32_bits() {
    let r = UnicodeTable::from_text("U+41\nU+41, U+123456789", None);
    assert!(matches!(r, Err(UnicodeTableError::IntParseError { line: 2, column: 7 })));
}

#[test]
fn syntax_errors_come_before_codepoint_errors() {
    let r = UnicodeTable::from_text("U+D800\nU+41 ?", None);
    assert!(matches!(r, Err(UnicodeTableError::ParseError { line: 2, column: 6 })));
}

#[test]
fn table_trailer_bytes() {
    let table = UnicodeTable::from_text("U+41, U+C1\nU+42 U+301\n", None).unwrap();
    assert_eq!(table.write(), vec![0x41, 0xC3, 0x81, 0xFF, 0xFE, 0x42, 0xCC, 0x81, 0xFF]);
}

#[test]
fn table_trailer_lists_single_codepoints_first_in_any_table() {
    let table = UnicodeTable { data: vec![vec!["B\u{301}".to_string(), "A".to_string(), "C".to_string()]] };
    assert_eq!(table.write(), vec![0x41, 0x43, 0xFE, 0x42, 0xCC, 0x81, 0xFF]);
}

#[test]
fn minimal_table_lists_first_codepoints() {
    let table = Psf2UnicodeTable::new_minimal_table(3).unwrap();
    assert_eq!(
        table.data,
        vec![vec!["\u{0}".to_string()], vec!["\u{1}".to_string()], vec!["\u{2}".to_string()]]
    );
}

#[test]
fn minimal_table_stops_at_surrogates() {
    assert!(matches!(
        Psf2UnicodeTable::new_minimal_table(0xD801),
        Err(UnicodeTableError::InvalidCodepoint { codepoint: 0xD800 })
    ));
}

#[test]
fn empty_table_text_gives_empty_table() {
    let table = UnicodeTable::from_text("", None).unwrap();
    assert!(table.data.is_empty());
    assert!(table.write().is_empty());
    let table = UnicodeTable::from_text("# only a comment\n\n   \n", Some(5)).unwrap();
    assert!(table.data.is_empty());
}

#[test]
fn minimal_table_of_zero_codepoints_is_empty() {
    assert!(Psf2UnicodeTable::new_minimal_table(0).unwrap().data.is_empty());
}

#[test]
fn lowercase_hex_and_leading_zeros_are_accepted() {
    let table = UnicodeTable::from_text("U+00000000000061 U+0300", None).unwrap();
    assert_eq!(table.data, vec![vec!["a\u{300}".to_string()]]);
}
