use std::collections::HashMap;
use vstd::prelude::*;
use crate::glyph::{Glyph, GlyphMetrics};
use crate::node::{
    first_accepting, free, leaves_after, lemma_single_leaf, placed_in, placement, InsertFailure,
    Leaf, NodeInsertError,
};
use crate::packing::{
    holds, lemma_first_accepting, lemma_insert_keeps_held, lemma_insert_places_apart,
    lemma_tree_packed, packed,
};
use crate::page::AtlasPage;
use crate::rectangle::Rectangle;

pub use crate::generator::AtlasGenerator;
pub use crate::pixel::AtlasLoadMode;
pub use crate::text::{generate_buffers_from_text, generate_text_img};

verus! {

/// Margins kept free around each glyph of an atlas.
#[derive(Debug, Copy, Clone, PartialEq, Eq, Structural)]
pub struct Padding {
    pub left: u32,
    pub right: u32,
    pub top: u32,
    pub bottom: u32,
    /// The sum of the left and right margins.
    pub horizontal: u32,
    /// The sum of the top and bottom margins.
    pub vertical: u32,
}

impl Padding {
    /// The two sums are what their names say.
    pub open spec fn wf(self) -> bool {
        self.horizontal == self.left + self.right && self.vertical == self.top + self.bottom
    }

    /// At least one margin is not zero.
    pub open spec fn nonzero(self) -> bool {
        self.left > 0 || self.right > 0 || self.top > 0 || self.bottom > 0
    }

    /// The width of a glyph of this width with its margins.
    pub open spec fn padded_width(self, width: u32) -> int {
        width + self.horizontal
    }

    /// The height of a glyph of this height with its margins.
    pub open spec fn padded_height(self, height: u32) -> int {
        height + self.vertical
    }

    /// What is left of a placed rectangle once the margins are taken off on all sides.
    pub open spec fn strip(self, placed: Rectangle) -> Rectangle {
        Rectangle {
            top: (placed.top + self.top) as u32,
            left: (placed.left + self.left) as u32,
            width: (placed.width - self.horizontal) as u32,
            height: (placed.height - self.vertical) as u32,
        }
    }

    /// Creates a Padding object from the padding on all sides.
    pub fn new(left: u32, right: u32, top: u32, bottom: u32) -> (padding: Self)
        requires
            left + right <= u32::MAX,
            top + bottom <= u32::MAX,
        ensures
            padding.wf(),
            padding.left == left,
            padding.right == right,
            padding.top == top,
            padding.bottom == bottom,
    {
        Self { left, right, top, bottom, horizontal: left + right, vertical: top + bottom }
    }
}

/// The options of an atlas generator: the resolution that glyphs are rendered at, the
/// size of a page in pixels, and the margins around each glyph.
#[derive(Debug, Copy, Clone)]
pub struct AtlasGeneratorOption {
    pub dpi: u32,
    pub size: (u32, u32),
    pub padding: Padding,
}

impl AtlasGeneratorOption {
    /// Creates an AtlasGeneratorOption object from its components.
    pub fn new(width: u32, height: u32, dpi: u32, padding: Padding) -> (options: Self)
        ensures
            options == (AtlasGeneratorOption { dpi, size: (width, height), padding }),
    {
        Self { dpi, size: (width, height), padding }
    }
}

/// Where a character's glyph lies in an atlas, and the glyph's metrics.
#[derive(Debug, Copy, Clone, PartialEq, Eq, Structural)]
pub struct FontAtlasEntry {
    pub character: char,
    /// The index of the page that holds the glyph.
    pub page: usize,
    /// The pixels of the glyph on that page, without margins.
    pub position: Rectangle,
    pub metrics: GlyphMetrics,
}

impl FontAtlasEntry {
    /// Creates an entry from the character, the glyph's page and position in an atlas,
    /// and the glyph's metrics.
    pub fn new(character: char, page: usize, position: Rectangle, metrics: GlyphMetrics) -> (entry: Self)
        ensures
            entry == (FontAtlasEntry { character, page, position, metrics }),
    {
        Self { character, page, position, metrics }
    }
}

/// All the errors that could happen using the generator.
#[derive(Debug, Copy, Clone, PartialEq, Eq, Structural)]
pub enum AtlasGeneratorError {
    /// The glyph of this character, with its margins, is too large for a page.
    InsertError(char, NodeInsertError),
    /// The rasterizer has no usable glyph for this character.
    LoadError(char),
    /// The font cannot be rendered at the size that was asked for.
    SizeError,
}

impl Padding {
    /// The rectangle that is asked of a page for a glyph of this size: the glyph with
    /// its margins. A side too long to be written as a `u32` is cut to the largest.
    pub open spec fn request(self, width: u32, height: u32) -> Rectangle {
        Rectangle {
            top: 0,
            left: 0,
            width: if self.padded_width(width) <= u32::MAX {
                self.padded_width(width) as u32
            } else {
                u32::MAX
            },
            height: if self.padded_height(height) <= u32::MAX {
                self.padded_height(height) as u32
            } else {
                u32::MAX
            },
        }
    }
}

/// The key that a character's entry stands under: the character's code.
pub open spec fn code(c: char) -> u32 {
    c as u32
}

/// The code of a character is its number: a Unicode scalar value.
pub proof fn lemma_code_is_scalar_value(c: char)
    ensures
        code(c) as int == c as int,
        0 <= c as int <= 0xD7FF || 0xE000 <= c as int <= 0x10FFFF,
{
}

/// Different characters have different codes.
pub proof fn lemma_code_injective(a: char, b: char)
    ensures
        code(a) == code(b) ==> a == b,
{
}

/// An atlas of the glyphs of a font: pages of equal size, and for each character that
/// was added the place of its glyph.
pub struct FontAtlas {
    /// The entries, each under the code of its character.
    pub map: HashMap<u32, FontAtlasEntry>,
    /// The pages, in the order in which they were made; glyphs go to the last.
    pub pages: Vec<AtlasPage>,
    /// The width of each page.
    pub width: u32,
    /// The height of each page.
    pub height: u32,
    /// For each entry the rectangle that its page reserved for it, with its margins.
    pub slots: Ghost<Map<u32, Rectangle>>,
}

impl FontAtlas {
    /// The area of each page.
    pub open spec fn area(self) -> Rectangle {
        Rectangle { top: 0, left: 0, width: self.width, height: self.height }
    }

    /// The entries by character.
    pub open spec fn entries(self) -> Map<char, FontAtlasEntry> {
        Map::new(|c: char| self.map@.contains_key(c as u32), |c: char| self.map@[c as u32])
    }

    /// A glyph of this size, with these margins, fits on an empty page.
    pub open spec fn has_room(self, padding: Padding, width: u32, height: u32) -> bool {
        padding.padded_width(width) <= self.width && padding.padded_height(height) <= self.height
    }

    /// The atlas is well formed.
    ///
    /// There is at least one page, and every page is well formed and of the atlas's
    /// size. Every entry stands under its own character, names a page that exists and
    /// lies within that page. The rectangle that was reserved for an entry contains it
    /// and is held by the tree of its page, and a line separates the reserved
    /// rectangles of any two entries on one page.
    pub open spec fn wf(self) -> bool {
        &&& self.pages@.len() >= 1
        &&& 3 * self.width * self.height <= usize::MAX
        &&& forall|i: int|
            0 <= i < self.pages@.len() ==> {
                &&& (#[trigger] self.pages@[i]).wf()
                &&& self.pages@[i].area() == self.area()
            }
        &&& self.slots@.dom() == self.map@.dom()
        &&& forall|k: u32| #[trigger]
            self.map@.contains_key(k) ==> {
                &&& self.map@[k].character as u32 == k
                &&& self.map@[k].page < self.pages@.len()
                &&& self.map@[k].position.within(self.slots@[k])
                &&& self.slots@[k].within(self.area())
                &&& holds(self.pages@[self.map@[k].page as int].root@, self.slots@[k])
            }
        &&& forall|j: u32, k: u32|
            #![trigger self.map@.contains_key(j), self.map@.contains_key(k)]
            self.map@.contains_key(j) && self.map@.contains_key(k) && j != k && self.map@[j].page
                == self.map@[k].page ==> self.slots@[j].separated(self.slots@[k])
    }

    /// Create a font atlas of given `atlas_size`, width first: one blank page and no
    /// entries.
    pub fn new(atlas_size: (u32, u32)) -> (atlas: Self)
        requires
            3 * atlas_size.0 * atlas_size.1 <= usize::MAX,
        ensures
            atlas.wf(),
            atlas.width == atlas_size.0,
            atlas.height == atlas_size.1,
            atlas.pages@.len() == 1,
            atlas.pages@[0].blank(),
            atlas.map@ == Map::<u32, FontAtlasEntry>::empty(),
    {
        let mut pages: Vec<AtlasPage> = Vec::new();
        pages.push(AtlasPage::new(atlas_size.0, atlas_size.1));
        let atlas = Self {
            map: HashMap::new(),
            pages,
            width: atlas_size.0,
            height: atlas_size.1,
            slots: Ghost(Map::empty()),
        };
        assert(atlas.slots@.dom() =~= atlas.map@.dom());
        atlas
    }

    /// Looks up the entry of a character.
    pub fn get(&self, c: char) -> (entry: Option<FontAtlasEntry>)
        ensures
            entry.is_some() == self.entries().contains_key(c),
            entry.is_some() ==> entry.unwrap() == self.entries()[c],
    {
        match self.map.get(&(c as u32)) {
            Some(entry) => Some(*entry),
            None => None,
        }
    }
}

impl FontAtlas {
    /// The last page takes this request.
    pub open spec fn last_page_takes(self, request: Rectangle) -> bool {
        placement(self.pages@.last().root@, request).is_some()
    }

    /// The index of the page that a request which fits on an empty page goes to: the
    /// last page if that takes it, and else a new page behind it.
    pub open spec fn target_page(self, request: Rectangle) -> int {
        if self.last_page_takes(request) {
            self.pages@.len() - 1
        } else {
            self.pages@.len() as int
        }
    }

    /// The rectangle that the target page reserves for the request.
    pub open spec fn target_slot(self, request: Rectangle) -> Rectangle {
        if self.last_page_takes(request) {
            placement(self.pages@.last().root@, request).unwrap()
        } else {
            placed_in(self.area(), request)
        }
    }

    /// The leaves of the target page before it takes the request.
    pub open spec fn target_leaves(self, request: Rectangle) -> Seq<Leaf> {
        if self.last_page_takes(request) {
            self.pages@.last().root@
        } else {
            seq![free(self.area())]
        }
    }

    /// The colour of a pixel of the target page before the glyph is drawn.
    pub open spec fn target_pixel(self, request: Rectangle, x: int, y: int) -> (u8, u8, u8) {
        if self.last_page_takes(request) {
            self.pages@.last().pixel(x, y)
        } else {
            (0u8, 0u8, 0u8)
        }
    }

    /// Packs the glyph of one character into the atlas.
    ///
    /// The glyph with its margins is offered to the last page. If that page has no room
    /// for it, a blank page is added and takes it. The glyph's image is drawn inside the
    /// reserved rectangle, the margins left out, and the character's entry is set,
    /// in place of an earlier entry of the same character if there is one.
    ///
    /// A glyph that with its margins is larger than a page fits nowhere: the error names
    /// the character, and the atlas is left with one blank page more and is of no further
    /// use.
    pub fn add_glyph(&mut self, c: char, glyph: &Glyph, padding: &Padding) -> (result: Result<
        (),
        AtlasGeneratorError,
    >)
        requires
            old(self).wf(),
            glyph.bitmap.wf(),
            padding.wf(),
        ensures
            final(self).wf(),
            final(self).width == old(self).width,
            final(self).height == old(self).height,
            result.is_ok() == old(self).has_room(*padding, glyph.bitmap.width, glyph.bitmap.height),
            forall|i: int|
                0 <= i < old(self).pages@.len() && i != old(self).target_page(
                    padding.request(glyph.bitmap.width, glyph.bitmap.height),
                ) ==> final(self).pages@[i] == old(self).pages@[i],
            match result {
                Ok(_) => {
                    let request = padding.request(glyph.bitmap.width, glyph.bitmap.height);
                    let page = old(self).target_page(request);
                    let slot = old(self).target_slot(request);
                    let position = padding.strip(slot);
                    &&& final(self).pages@.len() == page + 1
                    &&& final(self).map@ == old(self).map@.insert(
                        c as u32,
                        FontAtlasEntry {
                            character: c,
                            page: page as usize,
                            position,
                            metrics: glyph.metrics,
                        },
                    )
                    &&& final(self).pages@[page].root@ == leaves_after(
                        old(self).target_leaves(request),
                        request,
                    )
                    &&& forall|x: int, y: int|
                        0 <= x < old(self).width && 0 <= y < old(self).height
                            ==> #[trigger] final(self).pages@[page].pixel(x, y) == if position.covers(
                            x,
                            y,
                        ) {
                            glyph.bitmap.pixel(x - position.left, y - position.top)
                        } else {
                            old(self).target_pixel(request, x, y)
                        }
                },
                Err(e) => {
                    &&& e == AtlasGeneratorError::InsertError(
                        c,
                        NodeInsertError {
                            rectangle: padding.request(glyph.bitmap.width, glyph.bitmap.height),
                            kind: InsertFailure::DoesNotFit,
                        },
                    )
                    &&& final(self).map@ == old(self).map@
                    &&& final(self).pages@.len() == old(self).pages@.len() + 1
                    &&& final(self).pages@.last().blank()
                },
            },
    {
        let padded_width: u64 = glyph.bitmap.width as u64 + padding.horizontal as u64;
        let padded_height: u64 = glyph.bitmap.height as u64 + padding.vertical as u64;
        let request = Rectangle::new(
            0,
            0,
            if padded_width <= u32::MAX as u64 {
                padded_width as u32
            } else {
                u32::MAX
            },
            if padded_height <= u32::MAX as u64 {
                padded_height as u32
            } else {
                u32::MAX
            },
        );
        let last: usize = self.pages.len() - 1;
        let ghost area = self.area();
        proof {
            lemma_single_leaf(free(area), request);
            lemma_tree_packed(self.pages@[last as int].root);
        }
        if padded_width > self.width as u64 || padded_height > self.height as u64 {
            // Larger than a page: neither the last page nor a new one has room.
            proof {
                lemma_first_accepting(self.pages@[last as int].root@, request);
                if placement(self.pages@[last as int].root@, request).is_some() {
                    let i = first_accepting(self.pages@[last as int].root@, request);
                    assert(self.pages@[last as int].root@[i].rectangle.within(area));
                }
            }
            self.pages.push(AtlasPage::new(self.width, self.height));
            return Err(
                AtlasGeneratorError::InsertError(
                    c,
                    NodeInsertError { rectangle: request, kind: InsertFailure::DoesNotFit },
                ),
            );
        }
        let (page, inserted) = match self.pages[last].place(&request) {
            Ok(inserted) => (last, inserted),
            Err(_) => {
                self.pages.push(AtlasPage::new(self.width, self.height));
                match self.pages[last + 1].place(&request) {
                    Ok(inserted) => (last + 1, inserted),
                    Err(e) => {
                        return Err(AtlasGeneratorError::InsertError(c, e));
                    },
                }
            },
        };
        let ghost before = old(self).target_leaves(request);
        proof {
            assert(packed(before, area));
            lemma_insert_places_apart(before, area, request, inserted);
        }
        let position = Rectangle::new(
            inserted.top + padding.top,
            inserted.left + padding.left,
            inserted.width - padding.horizontal,
            inserted.height - padding.vertical,
        );
        let ghost base = self.pages@[page as int];
        self.pages[page].blit(&position, &glyph.bitmap);
        proof {
            assert forall|x: int, y: int|
                0 <= x < self.width && 0 <= y < self.height implies base.pixel(x, y) == old(
                self,
            ).target_pixel(request, x, y) by {
                if !old(self).last_page_takes(request) {
                    base.lemma_black(x, y);
                }
            }
        }
        let key: u32 = c as u32;
        self.map.insert(key, FontAtlasEntry::new(c, page, position, glyph.metrics));
        proof {
            self.slots@ = self.slots@.insert(key, inserted);
            assert(self.slots@.dom() =~= self.map@.dom());
            assert forall|k: u32| #[trigger] self.map@.contains_key(k) implies {
                &&& self.map@[k].character as u32 == k
                &&& self.map@[k].page < self.pages@.len()
                &&& self.map@[k].position.within(self.slots@[k])
                &&& self.slots@[k].within(self.area())
                &&& holds(self.pages@[self.map@[k].page as int].root@, self.slots@[k])
            } by {
                if k != key {
                    assert(old(self).map@.contains_key(k));
                    if old(self).map@[k].page == page {
                        lemma_insert_keeps_held(before, request, old(self).slots@[k]);
                    }
                }
            }
            assert forall|j: u32, k: u32|
                #![trigger self.map@.contains_key(j), self.map@.contains_key(k)]
                self.map@.contains_key(j) && self.map@.contains_key(k) && j != k
                    && self.map@[j].page == self.map@[k].page implies self.slots@[j].separated(
                self.slots@[k],
            ) by {
                if j == key {
                    assert(old(self).map@.contains_key(k));
                    lemma_insert_places_apart(before, area, request, old(self).slots@[k]);
                } else if k == key {
                    assert(old(self).map@.contains_key(j));
                    lemma_insert_places_apart(before, area, request, old(self).slots@[j]);
                } else {
                    assert(old(self).map@.contains_key(j) && old(self).map@.contains_key(k));
                }
            }
        }
        Ok(())
    }
}

/// Stripping the margins from a reserved rectangle gives back the glyph's own size, and
/// the result lies inside the reserved rectangle, each of its edges as far from the
/// edge of the reserved rectangle as the margin on that side is wide. So if any margin
/// is not zero, the result is smaller than the reserved rectangle.
pub proof fn lemma_padding_round_trip(padding: Padding, width: u32, height: u32, slot: Rectangle)
    requires
        padding.wf(),
        slot.bounded(),
        slot.width == padding.padded_width(width),
        slot.height == padding.padded_height(height),
    ensures
        padding.strip(slot).width == width,
        padding.strip(slot).height == height,
        padding.strip(slot).within(slot),
        padding.strip(slot).left == slot.left + padding.left,
        padding.strip(slot).top == slot.top + padding.top,
        padding.strip(slot).right() == slot.right() - padding.right,
        padding.strip(slot).bottom() == slot.bottom() - padding.bottom,
        padding.nonzero() ==> padding.strip(slot).width < slot.width || padding.strip(slot).height
            < slot.height,
{
}

impl FontAtlas {
    /// The entry that `add_glyph` stores for a glyph that fits on a page has exactly the
    /// size of the glyph's image. It lies within the rectangle that the page reserved,
    /// which has the size of the glyph with its margins and lies within the page. If any
    /// margin is not zero, the entry is smaller than the reserved rectangle.
    pub proof fn lemma_stored_position(self, padding: Padding, width: u32, height: u32)
        requires
            self.wf(),
            padding.wf(),
            self.has_room(padding, width, height),
        ensures
            ({
                let request = padding.request(width, height);
                let slot = self.target_slot(request);
                let position = padding.strip(slot);
                &&& slot.width == padding.padded_width(width)
                &&& slot.height == padding.padded_height(height)
                &&& slot.within(self.area())
                &&& position.within(slot)
                &&& position.width == width
                &&& position.height == height
                &&& padding.nonzero() ==> position.width < slot.width || position.height
                    < slot.height
            }),
    {
        let request = padding.request(width, height);
        let slot = self.target_slot(request);
        if self.last_page_takes(request) {
            let root = self.pages@.last().root;
            lemma_tree_packed(root);
            lemma_insert_places_apart(root@, self.area(), request, slot);
        }
        lemma_padding_round_trip(padding, width, height, slot);
    }

    /// Every entry of a well-formed atlas stands under its own character, names a page
    /// of the atlas, and lies within that page.
    pub proof fn lemma_entry_in_range(self, c: char)
        requires
            self.wf(),
            self.entries().contains_key(c),
        ensures
            self.pages@.len() >= 1,
            self.entries()[c].character == c,
            0 <= self.entries()[c].page < self.pages@.len(),
            self.entries()[c].position.within(self.area()),
    {
        assert(self.map@.contains_key(c as u32));
    }

    /// The glyphs of two different characters never overlap: if they lie on the same
    /// page, a line separates them.
    pub proof fn lemma_glyphs_never_overlap(self, a: char, b: char)
        requires
            self.wf(),
            a != b,
            self.entries().contains_key(a),
            self.entries().contains_key(b),
            self.entries()[a].page == self.entries()[b].page,
        ensures
            self.entries()[a].position.separated(self.entries()[b].position),
    {
        let (j, k) = (a as u32, b as u32);
        assert(self.map@.contains_key(j) && self.map@.contains_key(k));
        assert(self.map@[j].character == a && self.map@[k].character == b);
        assert(self.slots@[j].separated(self.slots@[k]));
    }
}

} // verus!
