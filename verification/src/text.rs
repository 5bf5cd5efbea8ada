use vstd::prelude::*;
use crate::atlas::{lemma_code_is_scalar_value, FontAtlas, FontAtlasEntry};
use crate::pixel::PixelBuffer;
use crate::rectangle::Rectangle;

verus! {

/// A glyph of a line of text: its entry in the atlas, and where the pen stands before
/// it, in pixels from the start of the line.
#[derive(Debug, Copy, Clone, PartialEq, Eq, Structural)]
pub struct PlacedGlyph {
    pub entry: FontAtlasEntry,
    pub pen: i32,
}

/// The box of a glyph of a line of text, and the glyph's entry in the atlas. The box is
/// in pixels, `top` above `bottom` on an axis that points up.
#[derive(Debug, Copy, Clone, PartialEq, Eq, Structural)]
pub struct GlyphQuad {
    pub left: i64,
    pub right: i64,
    pub top: i64,
    pub bottom: i64,
    pub entry: FontAtlasEntry,
}

/// The entry that stands for a character in a text: its own, or else that of the
/// fallback character, if there is one and it has an entry.
pub open spec fn glyph_for(atlas: FontAtlas, c: char, fallback: Option<char>) -> Option<
    FontAtlasEntry,
> {
    if atlas.entries().contains_key(c) {
        Some(atlas.entries()[c])
    } else if fallback.is_some() && atlas.entries().contains_key(fallback.unwrap()) {
        Some(atlas.entries()[fallback.unwrap()])
    } else {
        None
    }
}

/// Where the pen stands after a text: the sum of the advances of its glyphs. There is no
/// such place if a character has no glyph, or if the pen leaves the range of an `i32` on
/// the way.
pub open spec fn pen_after(atlas: FontAtlas, text: Seq<char>, fallback: Option<char>) -> Option<
    int,
>
    decreases text.len(),
{
    if text.len() == 0 {
        Some(0)
    } else {
        match (
            pen_after(atlas, text.drop_last(), fallback),
            glyph_for(atlas, text.last(), fallback),
        ) {
            (Some(pen), Some(glyph)) => if i32::MIN <= pen + glyph.metrics.advance <= i32::MAX {
                Some(pen + glyph.metrics.advance)
            } else {
                None
            },
            _ => None,
        }
    }
}

/// The box of a glyph when the line starts at (`x`, `y`) and the pen stands at `pen`.
pub open spec fn quad_of(x: i32, y: i32, pen: int, entry: FontAtlasEntry) -> GlyphQuad {
    GlyphQuad {
        left: (x + pen + entry.metrics.bearing_x) as i64,
        right: (x + pen + entry.metrics.bearing_x + entry.metrics.width) as i64,
        top: (y + entry.metrics.bearing_y) as i64,
        bottom: (y + entry.metrics.bearing_y - entry.metrics.height) as i64,
        entry,
    }
}

/// A text whose pen is defined to its end has it defined after each of its beginnings.
pub proof fn lemma_pen_of_prefix(atlas: FontAtlas, text: Seq<char>, fallback: Option<char>, n: int)
    requires
        0 <= n <= text.len(),
        pen_after(atlas, text, fallback).is_some(),
    ensures
        pen_after(atlas, text.take(n), fallback).is_some(),
        i32::MIN <= pen_after(atlas, text.take(n), fallback).unwrap() <= i32::MAX,
        n < text.len() ==> glyph_for(atlas, text[n], fallback).is_some(),
    decreases text.len(),
{
    if n == text.len() {
        assert(text.take(n) =~= text);
    } else {
        let shorter = text.drop_last();
        assert(shorter.take(n) =~= text.take(n));
        lemma_pen_of_prefix(atlas, shorter, fallback, n);
        if n < shorter.len() {
            assert(shorter[n] == text[n]);
        }
    }
}

/// Looks up the entry that stands for a character in a text.
pub fn find_glyph(atlas: &FontAtlas, c: char, fallback: Option<char>) -> (entry: Option<
    FontAtlasEntry,
>)
    ensures
        entry == glyph_for(*atlas, c, fallback),
{
    match atlas.get(c) {
        Some(entry) => Some(entry),
        None => match fallback {
            Some(other) => atlas.get(other),
            None => None,
        },
    }
}

/// Lays out a line of text: for each character its glyph and the pen's place before it.
/// There is no layout if a character has no glyph, or if the pen leaves the range of
/// an `i32`.
pub fn layout_text(text: &Vec<char>, atlas: &FontAtlas, fallback: Option<char>) -> (layout: Option<
    Vec<PlacedGlyph>,
>)
    ensures
        layout.is_some() == pen_after(*atlas, text@, fallback).is_some(),
        layout.is_some() ==> {
            &&& layout.unwrap()@.len() == text@.len()
            &&& forall|i: int|
                0 <= i < text@.len() ==> {
                    &&& Some((#[trigger] layout.unwrap()@[i]).entry) == glyph_for(
                        *atlas,
                        text@[i],
                        fallback,
                    )
                    &&& Some(layout.unwrap()@[i].pen as int) == pen_after(
                        *atlas,
                        text@.take(i),
                        fallback,
                    )
                }
        },
{
    let mut placed: Vec<PlacedGlyph> = Vec::new();
    let mut pen: i32 = 0;
    let mut i: usize = 0;
    while i < text.len()
        invariant
            0 <= i <= text@.len(),
            placed@.len() == i,
            pen_after(*atlas, text@.take(i as int), fallback) == Some(pen as int),
            forall|j: int|
                0 <= j < i ==> {
                    &&& Some((#[trigger] placed@[j]).entry) == glyph_for(*atlas, text@[j], fallback)
                    &&& Some(placed@[j].pen as int) == pen_after(*atlas, text@.take(j), fallback)
                },
        decreases text@.len() - i,
    {
        let c = text[i];
        proof {
            lemma_code_is_scalar_value(c);
            assert(text@.take(i + 1).drop_last() =~= text@.take(i as int));
            assert(text@.take(i + 1).last() == c);
            if pen_after(*atlas, text@, fallback).is_some() {
                lemma_pen_of_prefix(*atlas, text@, fallback, i + 1);
            }
        }
        let entry = match find_glyph(atlas, c, fallback) {
            Some(entry) => entry,
            None => {
                return None;
            },
        };
        placed.push(PlacedGlyph { entry, pen });
        pen = match pen.checked_add(entry.metrics.advance) {
            Some(next) => next,
            None => {
                return None;
            },
        };
        i += 1;
    }
    assert(text@.take(i as int) =~= text@);
    Some(placed)
}

/// Lays out a line of text that starts at (`x`, `y`) and gives the box of each glyph,
/// from which a renderer makes its vertices. A character without a glyph is shown as a
/// space. There is no layout if neither the character nor the space has a glyph, or if
/// the pen leaves the range of an `i32`.
pub fn generate_buffers_from_text(text: &Vec<char>, font_atlas: &FontAtlas, x: i32, y: i32) -> (quads:
    Option<Vec<GlyphQuad>>)
    ensures
        quads.is_some() == pen_after(*font_atlas, text@, Some(' ')).is_some(),
        quads.is_some() ==> {
            &&& quads.unwrap()@.len() == text@.len()
            &&& forall|i: int|
                0 <= i < text@.len() ==> #[trigger] quads.unwrap()@[i] == quad_of(
                    x,
                    y,
                    pen_after(*font_atlas, text@.take(i), Some(' ')).unwrap(),
                    glyph_for(*font_atlas, text@[i], Some(' ')).unwrap(),
                )
        },
{
    let layout = match layout_text(text, font_atlas, Some(' ')) {
        Some(layout) => layout,
        None => {
            return None;
        },
    };
    let mut quads: Vec<GlyphQuad> = Vec::new();
    let mut i: usize = 0;
    while i < layout.len()
        invariant
            0 <= i <= layout@.len(),
            layout@.len() == text@.len(),
            quads@.len() == i,
            forall|j: int|
                0 <= j < text@.len() ==> {
                    &&& Some((#[trigger] layout@[j]).entry) == glyph_for(
                        *font_atlas,
                        text@[j],
                        Some(' '),
                    )
                    &&& Some(layout@[j].pen as int) == pen_after(
                        *font_atlas,
                        text@.take(j),
                        Some(' '),
                    )
                },
            forall|j: int|
                0 <= j < i ==> #[trigger] quads@[j] == quad_of(
                    x,
                    y,
                    pen_after(*font_atlas, text@.take(j), Some(' ')).unwrap(),
                    glyph_for(*font_atlas, text@[j], Some(' ')).unwrap(),
                ),
        decreases layout@.len() - i,
    {
        let glyph = layout[i];
        let metrics = glyph.entry.metrics;
        let left: i64 = x as i64 + glyph.pen as i64 + metrics.bearing_x as i64;
        let top: i64 = y as i64 + metrics.bearing_y as i64;
        quads.push(
            GlyphQuad {
                left,
                right: left + metrics.width as i64,
                top,
                bottom: top - metrics.height as i64,
                entry: glyph.entry,
            },
        );
        i += 1;
    }
    Some(quads)
}

/// How far a line of text reaches from the point where its pen starts: up, down, to the
/// left and to the right, in pixels.
pub struct Extent {
    pub top: int,
    pub bottom: int,
    pub left: int,
    pub right: int,
}

/// The larger of two numbers.
pub open spec fn larger(a: int, b: int) -> int {
    if a >= b {
        a
    } else {
        b
    }
}

/// How far the first `n` glyphs of a layout reach: the largest bearing above the
/// baseline, the largest depth below it, the farthest that a glyph starts to the left of
/// the pen's start, and the farthest that one ends to the right of it, by its metrics.
pub open spec fn extent(layout: Seq<PlacedGlyph>, n: int) -> Extent
    decreases n,
{
    if n <= 0 {
        Extent { top: 0, bottom: 0, left: 0, right: 0 }
    } else {
        let before = extent(layout, n - 1);
        let glyph = layout[n - 1];
        let metrics = glyph.entry.metrics;
        Extent {
            top: larger(before.top, metrics.bearing_y as int),
            bottom: larger(before.bottom, metrics.height - metrics.bearing_y),
            left: larger(before.left, -(glyph.pen + metrics.bearing_x)),
            right: larger(before.right, glyph.pen + metrics.bearing_x + metrics.width),
        }
    }
}

/// Where the image of a glyph goes in the picture of a line that reaches as far as
/// `reach`: as large as the glyph's place in the atlas, with its corner where the pen
/// and the bearings put it.
pub open spec fn target(reach: Extent, glyph: PlacedGlyph) -> (int, int, int, int) {
    (
        reach.left + glyph.pen + glyph.entry.metrics.bearing_x,
        reach.top - glyph.entry.metrics.bearing_y,
        glyph.entry.position.width as int,
        glyph.entry.position.height as int,
    )
}

/// The picture is `width` by `height` pixels and the glyph's image lies within it.
pub open spec fn on_picture(reach: Extent, glyph: PlacedGlyph, width: int, height: int) -> bool {
    let (left, top, w, h) = target(reach, glyph);
    0 <= left && left + w <= width && 0 <= top && top + h <= height
}

/// The colour of a pixel of the picture once the first `n` glyphs are drawn: that of the
/// last of them whose image covers the pixel, taken from the glyph's page of the atlas,
/// and black if none does.
pub open spec fn painted(
    atlas: FontAtlas,
    layout: Seq<PlacedGlyph>,
    reach: Extent,
    n: int,
    x: int,
    y: int,
) -> (u8, u8, u8)
    decreases n,
{
    if n <= 0 {
        (0u8, 0u8, 0u8)
    } else {
        let glyph = layout[n - 1];
        let (left, top, w, h) = target(reach, glyph);
        if left <= x < left + w && top <= y < top + h {
            atlas.pages@[glyph.entry.page as int].pixel(
                glyph.entry.position.left + (x - left),
                glyph.entry.position.top + (y - top),
            )
        } else {
            painted(atlas, layout, reach, n - 1, x, y)
        }
    }
}

/// The layout of a text without a fallback character, if it has one.
pub open spec fn layout_of(atlas: FontAtlas, text: Seq<char>) -> Option<Seq<PlacedGlyph>> {
    if pen_after(atlas, text, None).is_some() {
        Some(
            Seq::new(
                text.len(),
                |i: int|
                    PlacedGlyph {
                        entry: glyph_for(atlas, text[i], None).unwrap(),
                        pen: pen_after(atlas, text.take(i), None).unwrap() as i32,
                    },
            ),
        )
    } else {
        None
    }
}

/// The width of the picture of a layout: its reach to both sides and one pixel more.
pub open spec fn picture_width(layout: Seq<PlacedGlyph>) -> int {
    let reach = extent(layout, layout.len() as int);
    reach.right + reach.left + 1
}

/// The height of the picture of a layout: its reach up and down and one pixel more.
pub open spec fn picture_height(layout: Seq<PlacedGlyph>) -> int {
    let reach = extent(layout, layout.len() as int);
    reach.top + reach.bottom + 1
}

/// The picture of the layout can be made: it fits in memory, and the image of every
/// glyph lies within it.
pub open spec fn drawable(layout: Seq<PlacedGlyph>) -> bool {
    let reach = extent(layout, layout.len() as int);
    let width = picture_width(layout);
    let height = picture_height(layout);
    &&& width <= u32::MAX
    &&& height <= u32::MAX
    &&& 3 * width * height <= usize::MAX
    &&& forall|i: int|
        0 <= i < layout.len() ==> on_picture(reach, #[trigger] layout[i], width, height)
}

/// The reach of a layout is not negative and stays far within the range of an `i64`,
/// and every glyph begins at or after the left edge and at or below the top edge of the
/// picture.
pub proof fn lemma_extent(layout: Seq<PlacedGlyph>, n: int, i: int)
    requires
        0 <= i < n <= layout.len(),
    ensures
        extent(layout, n).top >= 0,
        extent(layout, n).bottom >= 0,
        extent(layout, n).left >= 0,
        extent(layout, n).right >= 0,
        -0x2_0000_0000 <= extent(layout, n).top <= 0x2_0000_0000,
        -0x2_0000_0000 <= extent(layout, n).bottom <= 0x2_0000_0000,
        -0x2_0000_0000 <= extent(layout, n).left <= 0x2_0000_0000,
        -0x2_0000_0000 <= extent(layout, n).right <= 0x2_0000_0000,
        target(extent(layout, n), layout[i]).0 >= 0,
        target(extent(layout, n), layout[i]).1 >= 0,
    decreases n,
{
    if n > 1 {
        if i < n - 1 {
            lemma_extent(layout, n - 1, i);
        } else {
            lemma_extent(layout, n - 1, 0);
        }
    } else {
        assert(extent(layout, 0).top == 0 && extent(layout, 0).left == 0);
    }
}

/// Draws a line of text with the glyphs of the atlas, on black. The picture is as large
/// as the line reaches by its glyphs' metrics and one pixel more each way; glyphs are
/// drawn in the order of the text, a later one over an earlier one.
///
/// There is no picture if a character has no glyph, if the pen leaves the range of an
/// `i32`, if the picture does not fit in memory, or if the image of a glyph is larger
/// than its metrics say and so reaches out of the picture.
pub fn generate_text_img(s: &Vec<char>, font_atlas: &FontAtlas) -> (picture: Option<PixelBuffer>)
    requires
        font_atlas.wf(),
    ensures
        picture.is_some() == (layout_of(*font_atlas, s@).is_some() && drawable(
            layout_of(*font_atlas, s@).unwrap(),
        )),
        picture.is_some() ==> {
            let layout = layout_of(*font_atlas, s@).unwrap();
            let picture = picture.unwrap();
            &&& picture.wf()
            &&& picture.width == picture_width(layout)
            &&& picture.height == picture_height(layout)
            &&& forall|x: int, y: int|
                0 <= x < picture.width && 0 <= y < picture.height ==> #[trigger] picture.pixel(
                    x,
                    y,
                ) == painted(
                    *font_atlas,
                    layout,
                    extent(layout, layout.len() as int),
                    layout.len() as int,
                    x,
                    y,
                )
        },
{
    let layout = match layout_text(s, font_atlas, None) {
        Some(layout) => layout,
        None => {
            return None;
        },
    };
    assert(layout@ =~= layout_of(*font_atlas, s@).unwrap());
    let ghost count = layout@.len() as int;

    let mut top: i64 = 0;
    let mut bottom: i64 = 0;
    let mut left: i64 = 0;
    let mut right: i64 = 0;
    let mut i: usize = 0;
    while i < layout.len()
        invariant
            0 <= i <= layout@.len(),
            extent(layout@, i as int) == (Extent {
                top: top as int,
                bottom: bottom as int,
                left: left as int,
                right: right as int,
            }),
            -0x2_0000_0000 <= top <= 0x2_0000_0000,
            -0x2_0000_0000 <= bottom <= 0x2_0000_0000,
            -0x2_0000_0000 <= left <= 0x2_0000_0000,
            -0x2_0000_0000 <= right <= 0x2_0000_0000,
        decreases layout@.len() - i,
    {
        let glyph = layout[i];
        let metrics = glyph.entry.metrics;
        proof {
            lemma_extent(layout@, i + 1, 0);
        }
        let start: i64 = glyph.pen as i64 + metrics.bearing_x as i64;
        if metrics.bearing_y as i64 > top {
            top = metrics.bearing_y as i64;
        }
        if metrics.height as i64 - metrics.bearing_y as i64 > bottom {
            bottom = metrics.height as i64 - metrics.bearing_y as i64;
        }
        if -start > left {
            left = -start;
        }
        if start + metrics.width as i64 > right {
            right = start + metrics.width as i64;
        }
        i += 1;
    }
    let ghost reach = extent(layout@, count);
    proof {
        if count > 0 {
            lemma_extent(layout@, count, 0);
        }
    }

    let buffer_width: i64 = right + left + 1;
    let buffer_height: i64 = top + bottom + 1;
    if buffer_width > u32::MAX as i64 || buffer_height > u32::MAX as i64 {
        return None;
    }
    assert(0 <= buffer_width * buffer_height <= 0xffff_ffff * 0xffff_ffff) by (nonlinear_arith)
        requires
            0 <= buffer_width <= 0xffff_ffff,
            0 <= buffer_height <= 0xffff_ffff,
    ;
    assert(3 * buffer_width * buffer_height == 3 * (buffer_width * buffer_height))
        by (nonlinear_arith);
    if 3 * (buffer_width as u128 * buffer_height as u128) > usize::MAX as u128 {
        return None;
    }
    let mut picture = PixelBuffer::new(buffer_width as u32, buffer_height as u32);
    assert forall|x: int, y: int| 0 <= x < picture.width && 0 <= y < picture.height implies picture.pixel(
        x,
        y,
    ) == (0u8, 0u8, 0u8) by {
        crate::pixel::lemma_sample_offset_bound(
            picture.width as int,
            picture.height as int,
            x,
            y,
        );
    }

    let mut i: usize = 0;
    while i < layout.len()
        invariant
            0 <= i <= layout@.len(),
            font_atlas.wf(),
            count == layout@.len(),
            layout@ == layout_of(*font_atlas, s@).unwrap(),
            layout_of(*font_atlas, s@).is_some(),
            reach == extent(layout@, count),
            reach == (Extent {
                top: top as int,
                bottom: bottom as int,
                left: left as int,
                right: right as int,
            }),
            -0x2_0000_0000 <= top <= 0x2_0000_0000,
            -0x2_0000_0000 <= left <= 0x2_0000_0000,
            picture.wf(),
            picture.width == buffer_width == picture_width(layout@),
            picture.height == buffer_height == picture_height(layout@),
            3 * picture_width(layout@) * picture_height(layout@) <= usize::MAX,
            forall|j: int|
                0 <= j < i ==> on_picture(
                    reach,
                    #[trigger] layout@[j],
                    buffer_width as int,
                    buffer_height as int,
                ),
            forall|x: int, y: int|
                0 <= x < picture.width && 0 <= y < picture.height ==> #[trigger] picture.pixel(
                    x,
                    y,
                ) == painted(*font_atlas, layout@, reach, i as int, x, y),
        decreases layout@.len() - i,
    {
        let glyph = layout[i];
        let position = glyph.entry.position;
        proof {
            lemma_extent(layout@, count, i as int);
            let c = s@[i as int];
            lemma_pen_of_prefix(*font_atlas, s@, None, i as int);
            font_atlas.lemma_entry_in_range(c);
        }
        let dest_left: i64 = left + glyph.pen as i64 + glyph.entry.metrics.bearing_x as i64;
        let dest_top: i64 = top - glyph.entry.metrics.bearing_y as i64;
        if dest_left + position.width as i64 > buffer_width || dest_top + position.height as i64
            > buffer_height {
            assert(!on_picture(reach, layout@[i as int], buffer_width as int, buffer_height as int));
            return None;
        }
        let dest = Rectangle::new(
            dest_top as u32,
            dest_left as u32,
            position.width,
            position.height,
        );
        let ghost before = picture;
        picture.copy_region(&dest, &font_atlas.pages[glyph.entry.page].buffer, &position);
        proof {
            assert forall|x: int, y: int|
                0 <= x < picture.width && 0 <= y < picture.height implies #[trigger] picture.pixel(
                x,
                y,
            ) == painted(*font_atlas, layout@, reach, i + 1, x, y) by {
                assert(before.pixel(x, y) == painted(*font_atlas, layout@, reach, i as int, x, y));
            }
        }
        i += 1;
    }
    Some(picture)
}

} // verus!
