use vstd::prelude::*;
use crate::node::{failure, free, leaves_after, placement, Node, NodeInsertError};
use crate::pixel::{lemma_sample_offset_bound, PixelBuffer};
use crate::rectangle::Rectangle;

verus! {

/// One page of an atlas: a pixel buffer, and the packing tree that hands out its area.
#[derive(Debug)]
pub struct AtlasPage {
    pub buffer: PixelBuffer,
    pub root: Node,
}

impl AtlasPage {
    /// The whole area of the page.
    pub open spec fn area(self) -> Rectangle {
        Rectangle { top: 0, left: 0, width: self.buffer.width, height: self.buffer.height }
    }

    /// The buffer and the tree are well formed, and the tree is rooted at the whole area.
    pub open spec fn wf(self) -> bool {
        &&& self.buffer.wf()
        &&& self.root.wf()
        &&& self.root.rectangle == self.area()
    }

    /// The colour of the pixel in column `x` of row `y`.
    pub open spec fn pixel(self, x: int, y: int) -> (u8, u8, u8) {
        self.buffer.pixel(x, y)
    }

    /// Every sample of the page is zero.
    pub open spec fn black(self) -> bool {
        forall|i: int| 0 <= i < self.buffer.samples@.len() ==> self.buffer.samples@[i] == 0
    }

    /// Nothing has been placed on the page and every pixel is black.
    pub open spec fn blank(self) -> bool {
        self.root@ == seq![free(self.area())] && self.black()
    }

    /// Every pixel of a page whose samples are zero is black.
    pub proof fn lemma_black(self, x: int, y: int)
        requires
            self.buffer.wf(),
            self.black(),
            0 <= x < self.buffer.width,
            0 <= y < self.buffer.height,
        ensures
            self.pixel(x, y) == (0u8, 0u8, 0u8),
    {
        lemma_sample_offset_bound(self.buffer.width as int, self.buffer.height as int, x, y);
    }

    /// Creates a blank page of the given size.
    pub fn new(width: u32, height: u32) -> (page: Self)
        requires
            3 * width * height <= usize::MAX,
        ensures
            page.wf(),
            page.blank(),
            page.buffer.width == width,
            page.buffer.height == height,
    {
        Self {
            buffer: PixelBuffer::new(width, height),
            root: Node::new(Rectangle::new(0, 0, width, height)),
        }
    }

    /// Reserves room for a rectangle of the size of `padded` and returns where it lies.
    /// The pixels stay as they are.
    pub fn place(&mut self, padded: &Rectangle) -> (result: Result<Rectangle, NodeInsertError>)
        requires
            old(self).wf(),
        ensures
            final(self).wf(),
            final(self).buffer == old(self).buffer,
            final(self).root@ == leaves_after(old(self).root@, *padded),
            match result {
                Ok(placed) => {
                    &&& placement(old(self).root@, *padded) == Some(placed)
                    &&& placed.spec_same_size(*padded)
                    &&& placed.within(old(self).area())
                },
                Err(e) => {
                    &&& placement(old(self).root@, *padded).is_none()
                    &&& e == (NodeInsertError {
                        rectangle: *padded,
                        kind: failure(old(self).root@),
                    })
                    &&& *final(self) == *old(self)
                },
            },
    {
        self.root.insert(padded)
    }

    /// Copies `source` into the page so that its top-left pixel lands at the top-left
    /// corner of `dest`. Pixels outside `dest` stay as they are, and so does the tree.
    pub fn blit(&mut self, dest: &Rectangle, source: &PixelBuffer)
        requires
            old(self).wf(),
            source.wf(),
            dest.within(old(self).area()),
            source.width == dest.width,
            source.height == dest.height,
        ensures
            final(self).wf(),
            final(self).root == old(self).root,
            final(self).buffer.width == old(self).buffer.width,
            final(self).buffer.height == old(self).buffer.height,
            forall|x: int, y: int|
                0 <= x < old(self).buffer.width && 0 <= y < old(self).buffer.height
                    ==> #[trigger] final(self).pixel(x, y) == if dest.covers(x, y) {
                    source.pixel(x - dest.left, y - dest.top)
                } else {
                    old(self).pixel(x, y)
                },
    {
        self.buffer.copy_region(dest, source, &Rectangle::new(0, 0, source.width, source.height));
    }
}

} // verus!
