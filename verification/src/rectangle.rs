use vstd::prelude::*;

verus! {

/// An axis-aligned box in pixel units, given by its top-left corner and its size.
///
/// A rectangle covers the half-open ranges `left .. left + width` and
/// `top .. top + height`. A zero width or height is legal and stands for an empty glyph.
#[derive(Default, Debug, Copy, Clone, PartialEq, Eq, Structural)]
pub struct Rectangle {
    pub top: u32,
    pub left: u32,
    pub width: u32,
    pub height: u32,
}

impl Rectangle {
    /// The first column to the right of the rectangle.
    pub open spec fn right(self) -> int {
        self.left + self.width
    }

    /// The first row below the rectangle.
    pub open spec fn bottom(self) -> int {
        self.top + self.height
    }

    /// Both far edges are representable coordinates.
    pub open spec fn bounded(self) -> bool {
        self.right() <= u32::MAX && self.bottom() <= u32::MAX
    }

    /// `self` is no wider and no taller than `other`; positions play no part.
    pub open spec fn spec_fit_in(self, other: Rectangle) -> bool {
        self.width <= other.width && self.height <= other.height
    }

    /// Both rectangles have the same width and the same height.
    pub open spec fn spec_same_size(self, other: Rectangle) -> bool {
        self.width == other.width && self.height == other.height
    }

    /// Every pixel of `self` is a pixel of `outer`, and the edges of `self` lie between
    /// those of `outer`.
    pub open spec fn within(self, outer: Rectangle) -> bool {
        &&& outer.left <= self.left
        &&& self.right() <= outer.right()
        &&& outer.top <= self.top
        &&& self.bottom() <= outer.bottom()
    }

    /// A horizontal or vertical line separates the two rectangles, so they share no pixel.
    pub open spec fn separated(self, other: Rectangle) -> bool {
        ||| self.right() <= other.left
        ||| other.right() <= self.left
        ||| self.bottom() <= other.top
        ||| other.bottom() <= self.top
    }

    /// The pixel in column `x` and row `y` belongs to the rectangle.
    pub open spec fn covers(self, x: int, y: int) -> bool {
        self.left <= x < self.right() && self.top <= y < self.bottom()
    }

    /// Creates a rectangle at (`top`, `left`) with (`width`, `height`) dimensions.
    pub fn new(top: u32, left: u32, width: u32, height: u32) -> (r: Self)
        ensures
            r == (Rectangle { top, left, width, height }),
    {
        Self { top, left, width, height }
    }

    /// Returns true if this rectangle fits in the `other` rectangle.
    pub fn fit_in(&self, other: &Rectangle) -> (r: bool)
        ensures
            r == self.spec_fit_in(*other),
    {
        other.width >= self.width && other.height >= self.height
    }

    /// Returns true if the two rectangles have the same sizes.
    pub fn same_size(&self, other: &Rectangle) -> (r: bool)
        ensures
            r == self.spec_same_size(*other),
    {
        self.width == other.width && self.height == other.height
    }
}

/// Rectangles that a line separates have no pixel in common.
pub proof fn lemma_separated_share_no_pixel(a: Rectangle, b: Rectangle, x: int, y: int)
    requires
        a.separated(b),
    ensures
        !(a.covers(x, y) && b.covers(x, y)),
{
}

/// A rectangle within another covers only pixels of the other.
pub proof fn lemma_within_covers(inner: Rectangle, outer: Rectangle, x: int, y: int)
    requires
        inner.within(outer),
        inner.covers(x, y),
    ensures
        outer.covers(x, y),
{
}

} // verus!
