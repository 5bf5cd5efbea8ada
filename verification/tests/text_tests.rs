use font::atlas::{FontAtlas, Padding};
use font::pixel::PixelBuffer;
use font::text::{
    find_glyph, generate_buffers_from_text, generate_text_img, layout_text, GlyphQuad, PlacedGlyph,
};
use font::{Glyph, GlyphMetrics};

/// A glyph whose image is of one colour and `width` by `height` pixels.
fn glyph(width: u32, height: u32, level: u8, metrics: GlyphMetrics) -> Glyph {
    let samples = vec![level; 3 * width as usize * height as usize];
    Glyph::new(metrics, PixelBuffer::from_vec(width, height, samples).unwrap())
}

/// An atlas with `a` (2 by 2), `b` (1 by 3, set off to the right and hanging below the
/// line) and `j` (1 by 2, reaching back to the left of the pen).
fn atlas() -> FontAtlas {
    let mut atlas = FontAtlas::new((32, 32));
    let padding = Padding::new(1, 1, 1, 1);
    let a = glyph(2, 2, 10, GlyphMetrics::new(2, 2, 0, 2, 3));
    let b = glyph(1, 3, 20, GlyphMetrics::new(1, 3, 1, 1, 2));
    let j = glyph(1, 2, 30, GlyphMetrics::new(1, 2, -2, 2, 1));
    assert_eq!(atlas.add_glyph('a', &a, &padding), Ok(()));
    assert_eq!(atlas.add_glyph('b', &b, &padding), Ok(()));
    assert_eq!(atlas.add_glyph('j', &j, &padding), Ok(()));
    atlas
}

fn chars(text: &str) -> Vec<char> {
    text.chars().collect()
}

#[test]
fn find_glyph_falls_back() {
    let atlas = atlas();
    assert_eq!(find_glyph(&atlas, 'a', None), atlas.get('a'));
    assert_eq!(find_glyph(&atlas, 'a', Some('b')), atlas.get('a'));
    assert_eq!(find_glyph(&atlas, 'x', Some('b')), atlas.get('b'));
    assert_eq!(find_glyph(&atlas, 'x', None), None);
    assert_eq!(find_glyph(&atlas, 'x', Some('y')), None);
}

#[test]
fn layout_moves_the_pen_by_the_advances() {
    let atlas = atlas();
    let layout = layout_text(&chars("abba"), &atlas, None).unwrap();
    let a = atlas.get('a').unwrap();
    let b = atlas.get('b').unwrap();
    assert_eq!(
        layout,
        vec![
            PlacedGlyph { entry: a, pen: 0 },
            PlacedGlyph { entry: b, pen: 3 },
            PlacedGlyph { entry: b, pen: 5 },
            PlacedGlyph { entry: a, pen: 7 },
        ]
    );
    assert_eq!(layout_text(&Vec::new(), &atlas, None), Some(Vec::new()));
}

#[test]
fn layout_needs_a_glyph_for_every_character() {
    let atlas = atlas();
    assert_eq!(layout_text(&chars("abc"), &atlas, None), None);
    assert_eq!(layout_text(&chars("abc"), &atlas, Some(' ')), None);
    let with_fallback = layout_text(&chars("acb"), &atlas, Some('j')).unwrap();
    assert_eq!(with_fallback[1], PlacedGlyph { entry: atlas.get('j').unwrap(), pen: 3 });
    assert_eq!(with_fallback[2].pen, 4);
}

#[test]
fn layout_keeps_the_pen_in_range() {
    let mut atlas = FontAtlas::new((8, 8));
    let none = Padding::new(0, 0, 0, 0);
    let far = glyph(1, 1, 1, GlyphMetrics::new(1, 1, 0, 1, i32::MAX));
    let back = glyph(1, 1, 1, GlyphMetrics::new(1, 1, 0, 1, -1));
    assert_eq!(atlas.add_glyph('f', &far, &none), Ok(()));
    assert_eq!(atlas.add_glyph('b', &back, &none), Ok(()));
    assert_eq!(layout_text(&chars("bf"), &atlas, None).unwrap()[1].pen, -1);
    assert!(layout_text(&chars("f"), &atlas, None).is_some());
    assert!(layout_text(&chars("fb"), &atlas, None).is_some());
    // The pen would stand beyond the largest `i32` after the second glyph.
    assert_eq!(layout_text(&chars("ff"), &atlas, None), None);
    assert_eq!(generate_buffers_from_text(&chars("ff"), &atlas, 0, 0), None);
    assert_eq!(generate_text_img(&chars("ff"), &atlas).map(|p| p.samples), None);
}

#[test]
fn quads_follow_the_pen_and_the_bearings() {
    let atlas = atlas();
    let quads = generate_buffers_from_text(&chars("ab"), &atlas, 100, 50).unwrap();
    assert_eq!(
        quads,
        vec![
            GlyphQuad { left: 100, right: 102, top: 52, bottom: 50, entry: atlas.get('a').unwrap() },
            GlyphQuad { left: 104, right: 105, top: 51, bottom: 48, entry: atlas.get('b').unwrap() },
        ]
    );
    let back = generate_buffers_from_text(&chars("j"), &atlas, -5, -7).unwrap();
    assert_eq!(
        back,
        vec![GlyphQuad { left: -7, right: -6, top: -5, bottom: -7, entry: atlas.get('j').unwrap() }]
    );
}

#[test]
fn quads_show_an_unknown_character_as_a_space() {
    let mut atlas = atlas();
    assert_eq!(generate_buffers_from_text(&chars("a?b"), &atlas, 0, 0), None);
    let space = glyph(0, 0, 0, GlyphMetrics::new(0, 0, 0, 0, 4));
    assert_eq!(atlas.add_glyph(' ', &space, &Padding::new(1, 1, 1, 1)), Ok(()));
    let quads = generate_buffers_from_text(&chars("a?b"), &atlas, 0, 0).unwrap();
    assert_eq!(quads.len(), 3);
    assert_eq!(
        quads[1],
        GlyphQuad { left: 3, right: 3, top: 0, bottom: 0, entry: atlas.get(' ').unwrap() }
    );
    assert_eq!(quads[2].left, 8);
}

#[test]
fn quads_at_the_ends_of_the_range() {
    let mut atlas = FontAtlas::new((8, 8));
    let none = Padding::new(0, 0, 0, 0);
    let odd = glyph(1, 1, 1, GlyphMetrics::new(u32::MAX, u32::MAX, i32::MAX, i32::MIN, 0));
    assert_eq!(atlas.add_glyph('o', &odd, &none), Ok(()));
    let quads = generate_buffers_from_text(&chars("o"), &atlas, i32::MAX, i32::MIN).unwrap();
    assert_eq!(quads[0].left, 2 * (i32::MAX as i64));
    assert_eq!(quads[0].right, 2 * (i32::MAX as i64) + u32::MAX as i64);
    assert_eq!(quads[0].top, 2 * (i32::MIN as i64));
    assert_eq!(quads[0].bottom, 2 * (i32::MIN as i64) - u32::MAX as i64);
}

#[test]
fn picture_of_two_glyphs() {
    let atlas = atlas();
    let picture = generate_text_img(&chars("ab"), &atlas).unwrap();
    // The line reaches 2 up, 2 down, 0 to the left and 5 to the right.
    assert_eq!((picture.width, picture.height), (6, 5));
    let (o, a, b) = (0u8, 10u8, 20u8);
    let rows: [[u8; 6]; 5] = [
        [a, a, o, o, o, o],
        [a, a, o, o, b, o],
        [o, o, o, o, b, o],
        [o, o, o, o, b, o],
        [o, o, o, o, o, o],
    ];
    for (y, row) in rows.iter().enumerate() {
        for (x, level) in row.iter().enumerate() {
            assert_eq!(picture.get_pixel(x as u32, y as u32), (*level, *level, *level));
        }
    }
}

#[test]
fn picture_makes_room_to_the_left_of_the_pen() {
    let atlas = atlas();
    let picture = generate_text_img(&chars("ja"), &atlas).unwrap();
    // `j` begins two pixels to the left of the pen's start; `a` begins one to the right.
    assert_eq!((picture.width, picture.height), (6, 3));
    let (o, a, j) = (0u8, 10u8, 30u8);
    let rows: [[u8; 6]; 3] = [[j, o, o, a, a, o], [j, o, o, a, a, o], [o, o, o, o, o, o]];
    for (y, row) in rows.iter().enumerate() {
        for (x, level) in row.iter().enumerate() {
            assert_eq!(picture.get_pixel(x as u32, y as u32), (*level, *level, *level));
        }
    }
}

#[test]
fn later_glyph_is_drawn_over_an_earlier_one() {
    let mut atlas = FontAtlas::new((16, 16));
    let none = Padding::new(0, 0, 0, 0);
    let wide = glyph(3, 1, 7, GlyphMetrics::new(3, 1, 0, 1, 1));
    let dot = glyph(1, 1, 9, GlyphMetrics::new(1, 1, 0, 1, 1));
    assert_eq!(atlas.add_glyph('w', &wide, &none), Ok(()));
    assert_eq!(atlas.add_glyph('d', &dot, &none), Ok(()));
    let picture = generate_text_img(&chars("wd"), &atlas).unwrap();
    assert_eq!((picture.width, picture.height), (4, 2));
    assert_eq!(picture.samples[..12], [7, 7, 7, 9, 9, 9, 7, 7, 7, 0, 0, 0]);
    let picture = generate_text_img(&chars("dw"), &atlas).unwrap();
    assert_eq!((picture.width, picture.height), (5, 2));
    assert_eq!(picture.samples[..15], [9, 9, 9, 7, 7, 7, 7, 7, 7, 7, 7, 7, 0, 0, 0]);
}

#[test]
fn picture_of_no_text_is_one_black_pixel() {
    let atlas = atlas();
    let picture = generate_text_img(&Vec::new(), &atlas).unwrap();
    assert_eq!((picture.width, picture.height), (1, 1));
    assert_eq!(picture.samples, vec![0, 0, 0]);
}

#[test]
fn picture_needs_a_glyph_for_every_character() {
    let atlas = atlas();
    assert!(generate_text_img(&chars("a b"), &atlas).is_none());
}

#[test]
fn picture_needs_images_no_larger_than_the_metrics() {
    let mut atlas = FontAtlas::new((16, 16));
    let none = Padding::new(0, 0, 0, 0);
    // The image is one pixel wider than the metrics say: that is what the spare pixel
    // of the picture is for.
    let wider = glyph(3, 2, 5, GlyphMetrics::new(2, 1, 0, 1, 3));
    assert_eq!(atlas.add_glyph('w', &wider, &none), Ok(()));
    let picture = generate_text_img(&chars("w"), &atlas).unwrap();
    assert_eq!((picture.width, picture.height), (3, 2));
    assert_eq!(picture.samples, vec![5u8; 18]);
    // Two pixels wider reaches out of the picture.
    let widest = glyph(4, 2, 5, GlyphMetrics::new(2, 1, 0, 1, 3));
    assert_eq!(atlas.add_glyph('x', &widest, &none), Ok(()));
    assert!(generate_text_img(&chars("x"), &atlas).is_none());
    // Beside a wide glyph it has room.
    let broad = glyph(6, 2, 6, GlyphMetrics::new(6, 2, 0, 1, 0));
    assert_eq!(atlas.add_glyph('b', &broad, &none), Ok(()));
    assert!(generate_text_img(&chars("xb"), &atlas).is_some());
}

#[test]
fn picture_takes_glyphs_from_every_page() {
    let mut atlas = FontAtlas::new((4, 4));
    let none = Padding::new(0, 0, 0, 0);
    let first = glyph(4, 4, 1, GlyphMetrics::new(4, 4, 0, 4, 4));
    let second = glyph(4, 4, 2, GlyphMetrics::new(4, 4, 0, 4, 4));
    assert_eq!(atlas.add_glyph('p', &first, &none), Ok(()));
    assert_eq!(atlas.add_glyph('q', &second, &none), Ok(()));
    assert_eq!(atlas.get('q').unwrap().page, 1);
    let picture = generate_text_img(&chars("qp"), &atlas).unwrap();
    assert_eq!((picture.width, picture.height), (9, 5));
    assert_eq!(picture.get_pixel(0, 0), (2, 2, 2));
    assert_eq!(picture.get_pixel(3, 3), (2, 2, 2));
    assert_eq!(picture.get_pixel(4, 0), (1, 1, 1));
    assert_eq!(picture.get_pixel(7, 3), (1, 1, 1));
    assert_eq!(picture.get_pixel(8, 3), (0, 0, 0));
    assert_eq!(picture.get_pixel(0, 4), (0, 0, 0));
}
