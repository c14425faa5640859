use std::collections::HashMap;

use tterm::font_loader::{
    build_glyph_table, create_new_glyph, get_glyph_table, get_max_glyph_height, FontError, Glyph,
};
use tterm::name_table::{check_utf16, has_decodable_names};

// A TrueType font of four glyphs on a 1024-unit em: an empty glyph 0, an
// empty space, an 'A' that is a filled box of 320 by 448 units and an 'i'
// that is a filled box of 128 by 320 units.
const FONT: [u8; 352] = [
    0x00, 0x01, 0x00, 0x00, 0x00, 0x06, 0x00, 0x40, 0x00, 0x02, 0x00, 0x20, 0x63, 0x6d, 0x61, 0x70,
    0x00, 0x00, 0x00, 0x00, 0x00, 0x00, 0x00, 0x6c, 0x00, 0x00, 0x00, 0x40, 0x67, 0x6c, 0x79, 0x66,
    0x00, 0x00, 0x00, 0x00, 0x00, 0x00, 0x00, 0xac, 0x00, 0x00, 0x00, 0x44, 0x68, 0x65, 0x61, 0x64,
    0x00, 0x00, 0x00, 0x00, 0x00, 0x00, 0x00, 0xf0, 0x00, 0x00, 0x00, 0x36, 0x68, 0x68, 0x65, 0x61,
    0x00, 0x00, 0x00, 0x00, 0x00, 0x00, 0x01, 0x28, 0x00, 0x00, 0x00, 0x24, 0x6c, 0x6f, 0x63, 0x61,
    0x00, 0x00, 0x00, 0x00, 0x00, 0x00, 0x01, 0x4c, 0x00, 0x00, 0x00, 0x0a, 0x6d, 0x61, 0x78, 0x70,
    0x00, 0x00, 0x00, 0x00, 0x00, 0x00, 0x01, 0x58, 0x00, 0x00, 0x00, 0x06, 0x00, 0x00, 0x00, 0x01,
    0x00, 0x00, 0x00, 0x04, 0x00, 0x00, 0x00, 0x0c, 0x00, 0x0c, 0x00, 0x00, 0x00, 0x00, 0x00, 0x34,
    0x00, 0x00, 0x00, 0x00, 0x00, 0x00, 0x00, 0x03, 0x00, 0x00, 0x00, 0x20, 0x00, 0x00, 0x00, 0x20,
    0x00, 0x00, 0x00, 0x01, 0x00, 0x00, 0x00, 0x41, 0x00, 0x00, 0x00, 0x41, 0x00, 0x00, 0x00, 0x02,
    0x00, 0x00, 0x00, 0x69, 0x00, 0x00, 0x00, 0x69, 0x00, 0x00, 0x00, 0x03, 0x00, 0x01, 0x00, 0x00,
    0x00, 0x00, 0x01, 0x40, 0x01, 0xc0, 0x00, 0x03, 0x00, 0x00, 0x01, 0x01, 0x01, 0x01, 0x00, 0x00,
    0x00, 0x00, 0x01, 0x40, 0x00, 0x00, 0x00, 0x00, 0x01, 0xc0, 0x00, 0x00, 0xfe, 0x40, 0x00, 0x01,
    0x00, 0x00, 0x00, 0x00, 0x00, 0x80, 0x01, 0x40, 0x00, 0x03, 0x00, 0x00, 0x01, 0x01, 0x01, 0x01,
    0x00, 0x00, 0x00, 0x00, 0x00, 0x80, 0x00, 0x00, 0x00, 0x00, 0x01, 0x40, 0x00, 0x00, 0xfe, 0xc0,
    0x00, 0x01, 0x00, 0x00, 0x00, 0x01, 0x00, 0x00, 0x00, 0x00, 0x00, 0x00, 0x5f, 0x0f, 0x3c, 0xf5,
    0x00, 0x00, 0x04, 0x00, 0x00, 0x00, 0x00, 0x00, 0x00, 0x00, 0x00, 0x00, 0x00, 0x00, 0x00, 0x00,
    0x00, 0x00, 0x00, 0x00, 0x00, 0x00, 0x00, 0x00, 0x01, 0x40, 0x01, 0xc0, 0x00, 0x00, 0x00, 0x08,
    0x00, 0x02, 0x00, 0x00, 0x00, 0x00, 0x00, 0x00, 0x00, 0x01, 0x00, 0x00, 0x01, 0xc0, 0x00, 0x00,
    0x00, 0x00, 0x00, 0x00, 0x00, 0x00, 0x00, 0x00, 0x00, 0x00, 0x00, 0x00, 0x00, 0x00, 0x00, 0x00,
    0x00, 0x00, 0x00, 0x00, 0x00, 0x00, 0x00, 0x00, 0x00, 0x00, 0x00, 0x00, 0x00, 0x00, 0x00, 0x00,
    0x00, 0x00, 0x00, 0x11, 0x00, 0x22, 0x00, 0x00, 0x00, 0x00, 0x50, 0x00, 0x00, 0x04, 0x00, 0x00,
];

fn loaded(point_size: u16) -> HashMap<u32, Glyph> {
    match get_glyph_table(&FONT, point_size) {
        Ok(table) => table,
        Err(error) => panic!("the font did not load: {:?}", error),
    }
}

#[test]
fn table_has_one_entry_for_each_covered_character() {
    let table = loaded(16);
    let mut keys: Vec<u32> = table.keys().copied().collect();
    keys.sort();
    assert_eq!(keys, vec![' ' as u32, 'A' as u32, 'i' as u32]);
    assert!(!table.contains_key(&('B' as u32)));
    assert!(!table.contains_key(&0));
}

#[test]
fn boxes_are_rasterized_at_the_point_size() {
    let table = loaded(16);
    let a = &table[&('A' as u32)];
    assert_eq!((a.width, a.height), (5, 7));
    assert_eq!(a.bitmap.len(), 35);
    assert_eq!(a.bitmap, vec![255u8; 35]);
    let i = &table[&('i' as u32)];
    assert_eq!((i.width, i.height), (2, 5));
    assert_eq!(i.bitmap.len(), 10);
}

#[test]
fn every_glyph_but_the_space_has_a_byte_for_each_pixel() {
    for point_size in [0u16, 1, 7, 16, 33, 128] {
        let table = loaded(point_size);
        for (key, glyph) in table.iter() {
            if *key != ' ' as u32 {
                assert_eq!(glyph.bitmap.len(), glyph.width * glyph.height);
            }
        }
    }
}

#[test]
fn space_is_half_the_point_size_wide() {
    assert_eq!(loaded(128)[&(' ' as u32)].width, 64);
    assert_eq!(loaded(16)[&(' ' as u32)].width, 8);
    assert_eq!(loaded(17)[&(' ' as u32)].width, 8);
    assert_eq!(loaded(1)[&(' ' as u32)].width, 0);
    assert_eq!(loaded(0)[&(' ' as u32)].width, 0);
}

#[test]
fn space_keeps_the_height_and_bitmap_that_were_reported() {
    let table = loaded(16);
    let space = &table[&(' ' as u32)];
    assert_eq!(space.height, 0);
    assert!(space.bitmap.is_empty());
}

#[test]
fn rebuilding_the_table_gives_identical_glyphs() {
    assert_eq!(loaded(16), loaded(16));
    assert_eq!(loaded(128), loaded(128));
}

#[test]
fn point_size_scales_the_glyphs() {
    let table = loaded(32);
    let a = &table[&('A' as u32)];
    assert_eq!((a.width, a.height), (10, 14));
}

#[test]
fn tallest_glyph_of_the_font_is_the_a() {
    assert_eq!(get_max_glyph_height(&loaded(16)), 7);
    assert_eq!(get_max_glyph_height(&loaded(32)), 14);
}

fn rejected(reason: &str) -> FontError {
    FontError::Rejected {
        reason: String::from(reason),
    }
}

#[test]
fn data_that_is_no_font_is_rejected_with_the_reason() {
    assert_eq!(
        get_glyph_table(b"not a font at all", 16),
        Err(rejected(
            "Face data must start with 0x00010000, 0x74727565, 0x4F54544F or 0x74746366."
        ))
    );
    assert!(matches!(
        get_glyph_table(&[], 16),
        Err(FontError::Rejected { .. })
    ));
}

#[test]
fn font_without_its_tables_is_rejected_with_the_reason() {
    // The table directory of the font alone: every table it names lies
    // beyond the end of the data.
    assert_eq!(
        get_glyph_table(&FONT[..108], 16),
        Err(rejected("The head table is missing or malformed."))
    );
}

#[test]
fn truncated_directory_is_rejected_with_the_reason() {
    assert_eq!(
        get_glyph_table(&FONT[..40], 16),
        Err(rejected("An attempt to read out of bounds detected."))
    );
}

#[test]
fn table_can_be_built_from_a_parsed_font() {
    let font = fontdue::Font::from_bytes(&FONT[..], fontdue::FontSettings::default()).unwrap();
    let table = build_glyph_table(&font, 16).unwrap();
    assert_eq!(table.len(), font.chars().len());
    for character in font.chars().keys() {
        assert!(table.contains_key(&(*character as u32)));
        let metrics = font.metrics(*character, 16.0);
        let glyph = &table[&(*character as u32)];
        assert_eq!(glyph.height, metrics.height);
        assert_eq!(glyph.bitmap.len(), metrics.width * metrics.height);
        if *character != ' ' {
            assert_eq!(glyph.width, metrics.width);
        }
    }
    assert_eq!(table, loaded(16));
}

#[test]
fn glyph_too_large_to_rasterize_is_an_error() {
    // At 65535 pixels to the em the 'A' would be 20480 by 28672 pixels.
    assert_eq!(get_glyph_table(&FONT, 65535), Err(FontError::GlyphTooLarge));
    let font = fontdue::Font::from_bytes(&FONT[..], fontdue::FontSettings::default()).unwrap();
    assert_eq!(build_glyph_table(&font, 65535), Err(FontError::GlyphTooLarge));
}

#[test]
fn largest_raster_that_fits_is_made() {
    // At 8192 pixels to the em the 'A' is 2560 by 3584 pixels, the 'i' is
    // 1024 by 2560: both below 4096 by 4096.
    let table = loaded(8192);
    let a = &table[&('A' as u32)];
    assert_eq!((a.width, a.height), (2560, 3584));
    assert_eq!(a.bitmap.len(), 2560 * 3584);
    // At 16384 the 'A' is 5120 by 7168: too large.
    assert_eq!(get_glyph_table(&FONT, 16384), Err(FontError::GlyphTooLarge));
}

/// The font with a naming table added that holds one record: the given
/// bytes under the given platform, encoding and name id.
fn font_with_name(platform: u16, encoding: u16, name_id: u16, name: &[u8]) -> Vec<u8> {
    let mut table: Vec<u8> = Vec::new();
    for field in [0u16, 1, 18, platform, encoding, 0, name_id, name.len() as u16, 0] {
        table.extend_from_slice(&field.to_be_bytes());
    }
    table.extend_from_slice(name);
    let mut font: Vec<u8> = Vec::new();
    font.extend_from_slice(&FONT[..4]);
    font.extend_from_slice(&7u16.to_be_bytes());
    font.extend_from_slice(&FONT[6..12]);
    for record in 0..6 {
        let at = 12 + 16 * record;
        font.extend_from_slice(&FONT[at..at + 8]);
        let offset = u32::from_be_bytes([FONT[at + 8], FONT[at + 9], FONT[at + 10], FONT[at + 11]]);
        font.extend_from_slice(&(offset + 16).to_be_bytes());
        font.extend_from_slice(&FONT[at + 12..at + 16]);
    }
    font.extend_from_slice(b"name");
    font.extend_from_slice(&0u32.to_be_bytes());
    font.extend_from_slice(&(FONT.len() as u32 + 16).to_be_bytes());
    font.extend_from_slice(&(table.len() as u32).to_be_bytes());
    font.extend_from_slice(&FONT[108..]);
    font.extend_from_slice(&table);
    font
}

#[test]
fn font_with_a_well_formed_full_name_loads() {
    // "Aé" and a character beyond the basic plane, as UTF-16.
    let name = [0x00, 0x41, 0x00, 0xe9, 0xd8, 0x3d, 0xde, 0x00];
    for (platform, encoding) in [(0, 3), (3, 1), (3, 0)] {
        let font = font_with_name(platform, encoding, 4, &name);
        assert!(has_decodable_names(&font));
        let table = get_glyph_table(&font, 16).unwrap();
        assert_eq!(table, loaded(16));
        let parsed = fontdue::Font::from_bytes(&font[..], fontdue::FontSettings::default()).unwrap();
        assert_eq!(parsed.name(), Some("A\u{e9}\u{1F600}"));
    }
}

#[test]
fn full_name_of_odd_length_is_an_error() {
    let font = font_with_name(3, 1, 4, &[0x00, 0x41, 0x00]);
    assert!(!has_decodable_names(&font));
    assert_eq!(get_glyph_table(&font, 16), Err(FontError::UndecodableName));
}

#[test]
fn full_name_with_a_broken_surrogate_pair_is_an_error() {
    for name in [
        &[0x00, 0x41, 0xd8, 0x3d][..],
        &[0xd8, 0x3d, 0x00, 0x41][..],
        &[0xde, 0x00, 0xd8, 0x3d][..],
        &[0xdc, 0x00][..],
    ] {
        let font = font_with_name(0, 4, 4, name);
        assert!(!has_decodable_names(&font));
        assert_eq!(get_glyph_table(&font, 16), Err(FontError::UndecodableName));
    }
}

#[test]
fn names_that_are_not_decoded_may_hold_anything() {
    // Not the full name, or not in a Unicode encoding.
    for (platform, encoding, name_id) in [(3, 1, 1), (1, 0, 4), (3, 2, 4), (3, 10, 4)] {
        let font = font_with_name(platform, encoding, name_id, &[0x00, 0x41, 0x00]);
        assert!(has_decodable_names(&font));
        assert_eq!(get_glyph_table(&font, 16).unwrap(), loaded(16));
    }
}

#[test]
fn data_without_a_directory_holds_no_names() {
    assert!(has_decodable_names(&[]));
    assert!(has_decodable_names(b"abc"));
    assert!(has_decodable_names(&FONT));
    assert!(has_decodable_names(&FONT[..40]));
}

#[test]
fn utf16_is_checked_unit_by_unit() {
    let data = [0x00, 0x41, 0xd8, 0x3d, 0xde, 0x00, 0xdc, 0x00];
    assert!(check_utf16(&data, 0, 0));
    assert!(check_utf16(&data, 0, 2));
    assert!(check_utf16(&data, 0, 6));
    assert!(check_utf16(&data, 2, 6));
    assert!(!check_utf16(&data, 0, 1));
    assert!(!check_utf16(&data, 0, 4));
    assert!(!check_utf16(&data, 4, 6));
    assert!(!check_utf16(&data, 0, 8));
    assert!(!check_utf16(&data, 2, 5));
}

#[test]
fn new_glyph_keeps_what_was_reported() {
    let glyph = create_new_glyph('x', 128, (2, 3, vec![1, 2, 3, 4, 5, 6]));
    assert_eq!(
        glyph,
        Glyph {
            width: 2,
            height: 3,
            bitmap: vec![1, 2, 3, 4, 5, 6],
        }
    );
}

#[test]
fn new_glyph_of_the_space_gets_half_the_point_size() {
    let glyph = create_new_glyph(' ', 128, (0, 0, vec![]));
    assert_eq!(
        glyph,
        Glyph {
            width: 64,
            height: 0,
            bitmap: vec![],
        }
    );
    let odd = create_new_glyph(' ', 9, (3, 2, vec![0; 6]));
    assert_eq!((odd.width, odd.height, odd.bitmap.len()), (4, 2, 6));
}

#[test]
fn max_height_is_at_least_every_height_and_equal_to_one() {
    let mut table: HashMap<u32, Glyph> = HashMap::new();
    for (key, height) in [(1u32, 4usize), (2, 9), (3, 0), (4, 9), (5, 2)] {
        table.insert(
            key,
            Glyph {
                width: 1,
                height,
                bitmap: vec![0; height],
            },
        );
    }
    let tallest = get_max_glyph_height(&table);
    assert_eq!(tallest, 9);
    assert!(table.values().all(|glyph| glyph.height <= tallest));
    assert!(table.values().any(|glyph| glyph.height == tallest));
}

#[test]
fn max_height_of_a_single_flat_glyph_is_zero() {
    let mut table: HashMap<u32, Glyph> = HashMap::new();
    table.insert(
        32,
        Glyph {
            width: 64,
            height: 0,
            bitmap: vec![],
        },
    );
    assert_eq!(get_max_glyph_height(&table), 0);
}
