use font::atlas::{
    AtlasGeneratorError, AtlasGeneratorOption, FontAtlas, FontAtlasEntry, Padding,
};
use font::glyph::RawMetrics;
use font::node::{InsertFailure, NodeInsertError};
use font::pixel::{AtlasLoadMode, PixelBuffer, RawBitmap};
use font::{Glyph, GlyphMetrics, Rectangle};

/// A glyph whose image is of one colour.
fn glyph(width: u32, height: u32, level: u8) -> Glyph {
    let samples = vec![level; 3 * width as usize * height as usize];
    Glyph::new(
        GlyphMetrics::new(width, height, 0, height as i32, width as i32 + 1),
        PixelBuffer::from_vec(width, height, samples).unwrap(),
    )
}

fn overlap(a: &Rectangle, b: &Rectangle) -> bool {
    a.left < b.left + b.width && b.left < a.left + a.width && a.top < b.top + b.height
        && b.top < a.top + a.height
}

#[test]
fn padding_sums_its_margins() {
    let padding = Padding::new(1, 2, 3, 4);
    assert_eq!((padding.left, padding.right, padding.top, padding.bottom), (1, 2, 3, 4));
    assert_eq!(padding.horizontal, 3);
    assert_eq!(padding.vertical, 7);
    let widest = Padding::new(u32::MAX, 0, 0, u32::MAX);
    assert_eq!((widest.horizontal, widest.vertical), (u32::MAX, u32::MAX));
}

#[test]
fn options_keep_their_components() {
    let options = AtlasGeneratorOption::new(256, 128, 72, Padding::new(1, 1, 1, 1));
    assert_eq!(options.size, (256, 128));
    assert_eq!(options.dpi, 72);
    assert_eq!(options.padding, Padding::new(1, 1, 1, 1));
}

#[test]
fn entry_keeps_its_components() {
    let metrics = GlyphMetrics::new(3, 4, -1, 2, 5);
    let entry = FontAtlasEntry::new('x', 2, Rectangle::new(1, 2, 3, 4), metrics);
    assert_eq!(entry.character, 'x');
    assert_eq!(entry.page, 2);
    assert_eq!(entry.position, Rectangle::new(1, 2, 3, 4));
    assert_eq!(entry.metrics, metrics);
}

#[test]
fn metrics_keep_their_components() {
    let metrics = GlyphMetrics::new(3, 4, -1, 2, 5);
    assert_eq!(
        (metrics.width, metrics.height, metrics.bearing_x, metrics.bearing_y, metrics.advance),
        (3, 4, -1, 2, 5)
    );
}

#[test]
fn new_atlas_has_one_blank_page() {
    let atlas = FontAtlas::new((16, 8));
    assert_eq!((atlas.width, atlas.height), (16, 8));
    assert_eq!(atlas.pages.len(), 1);
    assert_eq!(atlas.pages[0].buffer.samples, vec![0u8; 3 * 16 * 8]);
    assert!(atlas.map.is_empty());
    assert_eq!(atlas.get('a'), None);
}

#[test]
fn glyph_without_room_on_the_page_overflows_to_a_second_page() {
    let mut atlas = FontAtlas::new((64, 64));
    let none = Padding::new(0, 0, 0, 0);
    assert_eq!(atlas.add_glyph('a', &glyph(10, 10, 1), &none), Ok(()));
    assert_eq!(atlas.add_glyph('b', &glyph(10, 10, 2), &none), Ok(()));
    assert_eq!(atlas.pages.len(), 1);
    // Spare width and height were equal, 54 and 54, so the first cut ran horizontally:
    // a strip 64 wide and 10 high holds both glyphs, and 64 by 54 pixels are left below.
    let a = atlas.get('a').unwrap();
    let b = atlas.get('b').unwrap();
    assert_eq!((a.page, a.position), (0, Rectangle::new(0, 0, 10, 10)));
    assert_eq!((b.page, b.position), (0, Rectangle::new(0, 10, 10, 10)));
    assert!(!overlap(&a.position, &b.position));
    assert_eq!(atlas.pages[0].root.first.as_ref().unwrap().rectangle, Rectangle::new(0, 0, 64, 10));
    assert_eq!(
        atlas.pages[0].root.second.as_ref().unwrap().rectangle,
        Rectangle::new(10, 0, 64, 54)
    );

    // 50 by 60 fits neither the strip nor the region below, but it fits a fresh page.
    assert_eq!(atlas.add_glyph('c', &glyph(50, 60, 3), &none), Ok(()));
    assert_eq!(atlas.pages.len(), 2);
    let c = atlas.get('c').unwrap();
    assert_eq!((c.page, c.position), (1, Rectangle::new(0, 0, 50, 60)));
    assert_eq!(a.character, 'a');
    assert_eq!(c.metrics, GlyphMetrics::new(50, 60, 0, 60, 51));

    // The glyphs were drawn where the entries say.
    assert_eq!(atlas.pages[0].buffer.get_pixel(0, 0), (1, 1, 1));
    assert_eq!(atlas.pages[0].buffer.get_pixel(9, 9), (1, 1, 1));
    assert_eq!(atlas.pages[0].buffer.get_pixel(10, 0), (2, 2, 2));
    assert_eq!(atlas.pages[0].buffer.get_pixel(19, 9), (2, 2, 2));
    assert_eq!(atlas.pages[0].buffer.get_pixel(20, 0), (0, 0, 0));
    assert_eq!(atlas.pages[0].buffer.get_pixel(0, 10), (0, 0, 0));
    assert_eq!(atlas.pages[1].buffer.get_pixel(49, 59), (3, 3, 3));
    assert_eq!(atlas.pages[1].buffer.get_pixel(50, 59), (0, 0, 0));

    // Later glyphs go to the last page, not back to the first.
    assert_eq!(atlas.add_glyph('d', &glyph(10, 10, 4), &none), Ok(()));
    assert_eq!(atlas.get('d').unwrap().page, 1);
    assert_eq!(atlas.pages.len(), 2);
}

#[test]
fn fifty_by_fifty_goes_below_the_first_strip() {
    let mut atlas = FontAtlas::new((64, 64));
    let none = Padding::new(0, 0, 0, 0);
    assert_eq!(atlas.add_glyph('a', &glyph(10, 10, 1), &none), Ok(()));
    assert_eq!(atlas.add_glyph('b', &glyph(10, 10, 2), &none), Ok(()));
    // The strip beside the two glyphs is 10 high, but the region below it is 64 by 54.
    assert_eq!(atlas.add_glyph('c', &glyph(50, 50, 3), &none), Ok(()));
    let c = atlas.get('c').unwrap();
    assert_eq!((c.page, c.position), (0, Rectangle::new(10, 0, 50, 50)));
    assert_eq!(atlas.pages.len(), 1);
    // A second one has no room there and goes to a second page.
    assert_eq!(atlas.add_glyph('d', &glyph(50, 50, 4), &none), Ok(()));
    let d = atlas.get('d').unwrap();
    assert_eq!((d.page, d.position), (1, Rectangle::new(0, 0, 50, 50)));
    assert_eq!(atlas.pages.len(), 2);
}

#[test]
fn margins_are_kept_free_and_stripped_from_the_entry() {
    let mut atlas = FontAtlas::new((32, 32));
    let padding = Padding::new(1, 2, 3, 4);
    assert_eq!(atlas.add_glyph('a', &glyph(5, 6, 9), &padding), Ok(()));
    assert_eq!(atlas.add_glyph('b', &glyph(5, 6, 8), &padding), Ok(()));
    let a = atlas.get('a').unwrap();
    let b = atlas.get('b').unwrap();
    // The reserved rectangles are 8 wide and 13 high, one below the other.
    assert_eq!(a.position, Rectangle::new(3, 1, 5, 6));
    assert_eq!(b.position, Rectangle::new(16, 1, 5, 6));
    let page = &atlas.pages[0].buffer;
    assert_eq!(page.get_pixel(1, 3), (9, 9, 9));
    assert_eq!(page.get_pixel(5, 8), (9, 9, 9));
    assert_eq!(page.get_pixel(0, 3), (0, 0, 0));
    assert_eq!(page.get_pixel(1, 2), (0, 0, 0));
    assert_eq!(page.get_pixel(6, 3), (0, 0, 0));
    assert_eq!(page.get_pixel(5, 9), (0, 0, 0));
    assert_eq!(page.get_pixel(1, 15), (0, 0, 0));
    assert_eq!(page.get_pixel(1, 16), (8, 8, 8));
    assert_eq!(page.get_pixel(5, 21), (8, 8, 8));
    assert_eq!(page.get_pixel(5, 22), (0, 0, 0));
}

#[test]
fn glyph_larger_than_a_page_is_an_error() {
    let mut atlas = FontAtlas::new((16, 16));
    let padding = Padding::new(1, 1, 1, 1);
    assert_eq!(atlas.add_glyph('a', &glyph(4, 4, 1), &padding), Ok(()));
    // 15 wide with a margin on both sides is 17.
    assert_eq!(
        atlas.add_glyph('W', &glyph(15, 4, 1), &padding),
        Err(AtlasGeneratorError::InsertError(
            'W',
            NodeInsertError {
                rectangle: Rectangle::new(0, 0, 17, 6),
                kind: InsertFailure::DoesNotFit
            }
        ))
    );
    assert_eq!(atlas.get('W'), None);
    assert!(atlas.get('a').is_some());
    assert_eq!(atlas.pages.len(), 2);
    assert_eq!(atlas.pages[1].buffer.samples, vec![0u8; 3 * 16 * 16]);
}

#[test]
fn glyph_of_the_size_of_a_page_fills_it() {
    let mut atlas = FontAtlas::new((8, 4));
    let none = Padding::new(0, 0, 0, 0);
    assert_eq!(atlas.add_glyph('a', &glyph(8, 4, 7), &none), Ok(()));
    assert_eq!(atlas.pages.len(), 1);
    assert_eq!(atlas.pages[0].buffer.samples, vec![7u8; 3 * 8 * 4]);
    assert!(atlas.pages[0].root.is_leaf());
    assert!(atlas.pages[0].root.occupied);
    assert_eq!(atlas.add_glyph('b', &glyph(1, 1, 5), &none), Ok(()));
    assert_eq!(atlas.get('b').unwrap().page, 1);
}

#[test]
fn margins_too_wide_to_be_counted_fit_nowhere() {
    let mut atlas = FontAtlas::new((16, 16));
    let padding = Padding::new(u32::MAX, 0, 0, 0);
    assert_eq!(
        atlas.add_glyph('a', &glyph(4, 4, 1), &padding),
        Err(AtlasGeneratorError::InsertError(
            'a',
            NodeInsertError {
                rectangle: Rectangle::new(0, 0, u32::MAX, 4),
                kind: InsertFailure::DoesNotFit
            }
        ))
    );
    assert_eq!(atlas.pages.len(), 2);
}

#[test]
fn empty_glyph_gets_an_entry_of_no_area() {
    let mut atlas = FontAtlas::new((16, 16));
    let none = Padding::new(0, 0, 0, 0);
    assert_eq!(atlas.add_glyph(' ', &glyph(0, 0, 0), &none), Ok(()));
    let space = atlas.get(' ').unwrap();
    assert_eq!((space.page, space.position), (0, Rectangle::new(0, 0, 0, 0)));
    assert_eq!(atlas.add_glyph('a', &glyph(16, 16, 3), &none), Ok(()));
    assert_eq!(atlas.get('a').unwrap().position, Rectangle::new(0, 0, 16, 16));
    assert_eq!(atlas.pages.len(), 1);
}

#[test]
fn later_glyph_of_a_character_replaces_the_entry() {
    let mut atlas = FontAtlas::new((32, 32));
    let none = Padding::new(0, 0, 0, 0);
    assert_eq!(atlas.add_glyph('a', &glyph(4, 4, 1), &none), Ok(()));
    assert_eq!(atlas.add_glyph('a', &glyph(5, 4, 2), &none), Ok(()));
    assert_eq!(atlas.map.len(), 1);
    let a = atlas.get('a').unwrap();
    assert_eq!(a.position, Rectangle::new(0, 4, 5, 4));
    assert_eq!(a.metrics.width, 5);
    // The first image stays on the page.
    assert_eq!(atlas.pages[0].buffer.get_pixel(0, 0), (1, 1, 1));
    assert_eq!(atlas.pages[0].buffer.get_pixel(4, 0), (2, 2, 2));
}

#[test]
fn every_glyph_lands_on_one_page_without_overlap() {
    let mut atlas = FontAtlas::new((40, 40));
    let padding = Padding::new(1, 1, 1, 1);
    let sizes: [(u32, u32); 12] = [
        (10, 12), (30, 8), (7, 7), (20, 20), (38, 38), (5, 30), (12, 3), (18, 18), (9, 9),
        (25, 10), (3, 3), (14, 22),
    ];
    let characters: Vec<char> = "abcdefghijkl".chars().collect();
    for (c, (w, h)) in characters.iter().zip(sizes.iter()) {
        assert_eq!(atlas.add_glyph(*c, &glyph(*w, *h, *c as u8), &padding), Ok(()));
    }
    assert!(atlas.pages.len() >= 2);
    assert_eq!(atlas.map.len(), 12);
    let entries: Vec<FontAtlasEntry> =
        characters.iter().map(|c| atlas.get(*c).unwrap()).collect();
    for (i, entry) in entries.iter().enumerate() {
        assert!(entry.page < atlas.pages.len());
        assert_eq!((entry.position.width, entry.position.height), sizes[i]);
        assert!(entry.position.left >= 1 && entry.position.top >= 1);
        assert!(entry.position.left + entry.position.width + 1 <= 40);
        assert!(entry.position.top + entry.position.height + 1 <= 40);
        for other in entries[..i].iter() {
            assert!(other.page != entry.page || !overlap(&other.position, &entry.position));
        }
        // The glyph's own colour is what the page shows at its corners.
        let page = &atlas.pages[entry.page].buffer;
        let level = entry.character as u8;
        let (l, t) = (entry.position.left, entry.position.top);
        let (r, b) = (l + entry.position.width - 1, t + entry.position.height - 1);
        assert_eq!(page.get_pixel(l, t), (level, level, level));
        assert_eq!(page.get_pixel(r, b), (level, level, level));
        assert_eq!(page.get_pixel(l - 1, t), (0, 0, 0));
        assert_eq!(page.get_pixel(r + 1, b), (0, 0, 0));
    }
}

#[test]
fn raw_metrics_are_rounded_towards_zero() {
    let raw = RawMetrics { width: 640, height: 1343, bearing_x: -65, bearing_y: 255, advance: -64 };
    assert_eq!(GlyphMetrics::from_raw(raw), Some(GlyphMetrics::new(10, 20, -1, 3, -1)));
    let small = RawMetrics { width: 63, height: 0, bearing_x: -63, bearing_y: 63, advance: 64 };
    assert_eq!(GlyphMetrics::from_raw(small), Some(GlyphMetrics::new(0, 0, 0, 0, 1)));
    let widest = RawMetrics {
        width: u32::MAX as i64,
        height: 64,
        bearing_x: i32::MIN as i64,
        bearing_y: i32::MAX as i64,
        advance: 0,
    };
    assert_eq!(
        GlyphMetrics::from_raw(widest),
        Some(GlyphMetrics::new(67108863, 1, -33554432, 33554431, 0))
    );
}

#[test]
fn raw_metrics_that_do_not_fit() {
    let good = RawMetrics { width: 64, height: 64, bearing_x: 0, bearing_y: 0, advance: 64 };
    assert!(GlyphMetrics::from_raw(good).is_some());
    assert_eq!(GlyphMetrics::from_raw(RawMetrics { width: -1, ..good }), None);
    assert_eq!(GlyphMetrics::from_raw(RawMetrics { height: -64, ..good }), None);
    assert_eq!(GlyphMetrics::from_raw(RawMetrics { width: u32::MAX as i64 + 1, ..good }), None);
    assert_eq!(GlyphMetrics::from_raw(RawMetrics { height: i64::MAX, ..good }), None);
    assert_eq!(GlyphMetrics::from_raw(RawMetrics { bearing_x: i32::MAX as i64 + 1, ..good }), None);
    assert_eq!(GlyphMetrics::from_raw(RawMetrics { bearing_y: i32::MIN as i64 - 1, ..good }), None);
    assert_eq!(GlyphMetrics::from_raw(RawMetrics { advance: i64::MIN, ..good }), None);
}

#[test]
fn glyph_from_what_the_rasterizer_gave() {
    let bitmap = RawBitmap { buffer: vec![10, 20, 30, 0, 40, 50, 60, 0], width: 3, rows: 2, pitch: 4 };
    let raw = RawMetrics { width: 64, height: 128, bearing_x: 64, bearing_y: 128, advance: 192 };
    let lcd = Glyph::from_raster(&bitmap, raw, AtlasLoadMode::LCD).unwrap();
    assert_eq!(lcd.metrics, GlyphMetrics::new(1, 2, 1, 2, 3));
    assert_eq!((lcd.bitmap.width, lcd.bitmap.height), (1, 2));
    assert_eq!(lcd.bitmap.samples, vec![10, 20, 30, 40, 50, 60]);
    let gray = Glyph::from_raster(&bitmap, raw, AtlasLoadMode::Gray).unwrap();
    assert_eq!((gray.bitmap.width, gray.bitmap.height), (3, 2));
    assert_eq!(gray.bitmap.get_pixel(2, 1), (60, 60, 60));

    let short = RawBitmap { buffer: vec![10, 20], width: 3, rows: 1, pitch: 3 };
    assert!(Glyph::from_raster(&short, raw, AtlasLoadMode::Gray).is_none());
    let negative = RawMetrics { width: -64, ..raw };
    assert!(Glyph::from_raster(&bitmap, negative, AtlasLoadMode::Gray).is_none());
}

#[test]
fn glyph_keeps_its_components() {
    let made = Glyph::new(GlyphMetrics::new(1, 1, 0, 1, 2), PixelBuffer::new(1, 1));
    assert_eq!(made.metrics, GlyphMetrics::new(1, 1, 0, 1, 2));
    assert_eq!(made.bitmap.samples, vec![0, 0, 0]);
}
