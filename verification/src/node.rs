use vstd::prelude::*;
use crate::packing::{lemma_insert_places_apart, lemma_tree_packed};
use crate::rectangle::Rectangle;

verus! {

/// Why a rectangle could not be placed in a packing tree.
#[derive(Debug, Copy, Clone, PartialEq, Eq, Structural)]
pub enum InsertFailure {
    /// The last region that was tried already holds a rectangle.
    NodeFull,
    /// The last region that was tried is free but too small.
    DoesNotFit,
}

/// The rectangle that could not be inserted, and why.
#[derive(Debug, Copy, Clone, PartialEq, Eq, Structural)]
pub struct NodeInsertError {
    pub rectangle: Rectangle,
    pub kind: InsertFailure,
}

/// One undivided region of a packing tree: the model of a leaf.
pub struct Leaf {
    pub rectangle: Rectangle,
    pub occupied: bool,
}

/// A binary space-partitioning tree over one page.
///
/// A node with no children is a leaf, free or occupied. A node with two children is
/// divided: the children's regions cut its own region in two along one straight line.
#[derive(Debug)]
pub struct Node {
    pub rectangle: Rectangle,
    pub first: Option<Box<Node>>,
    pub second: Option<Box<Node>>,
    pub occupied: bool,
}

/// A free leaf over `rectangle`.
pub open spec fn free(rectangle: Rectangle) -> Leaf {
    Leaf { rectangle, occupied: false }
}

/// An occupied leaf over `rectangle`.
pub open spec fn taken(rectangle: Rectangle) -> Leaf {
    Leaf { rectangle, occupied: true }
}

/// `a` and `b` cut `whole` in two with a vertical line: `a` is the left part.
pub open spec fn cut_vertically(whole: Rectangle, a: Rectangle, b: Rectangle) -> bool {
    &&& a.top == whole.top && a.left == whole.left && a.height == whole.height
    &&& b.top == whole.top && b.left == whole.left + a.width && b.height == whole.height
    &&& a.width + b.width == whole.width
}

/// `a` and `b` cut `whole` in two with a horizontal line: `a` is the upper part.
pub open spec fn cut_horizontally(whole: Rectangle, a: Rectangle, b: Rectangle) -> bool {
    &&& a.top == whole.top && a.left == whole.left && a.width == whole.width
    &&& b.left == whole.left && b.top == whole.top + a.height && b.width == whole.width
    &&& a.height + b.height == whole.height
}

/// The leaf is free and large enough for `request`.
pub open spec fn accepts(leaf: Leaf, request: Rectangle) -> bool {
    !leaf.occupied && request.spec_fit_in(leaf.rectangle)
}

/// Where a request lands in a region: at the region's top-left corner, with its own size.
pub open spec fn placed_in(region: Rectangle, request: Rectangle) -> Rectangle {
    Rectangle { top: region.top, left: region.left, width: request.width, height: request.height }
}

/// The leaves that replace a free leaf over `region` once `request` is placed in it.
///
/// The request takes the top-left corner. Whatever is left over is cut into free strips:
/// the first cut runs at full length along the axis with the larger leftover (vertically
/// if the leftover width is strictly larger, else horizontally), and a second cut trims
/// the part that holds the request.
pub open spec fn split_leaf(region: Rectangle, request: Rectangle) -> Seq<Leaf> {
    let placed = placed_in(region, request);
    let spare_width = (region.width - request.width) as u32;
    let spare_height = (region.height - request.height) as u32;
    let beside = (region.left + request.width) as u32;
    let below = (region.top + request.height) as u32;
    if spare_width > spare_height {
        let strip = Rectangle { top: region.top, left: beside, width: spare_width, height: region.height };
        if spare_height == 0 {
            seq![taken(placed), free(strip)]
        } else {
            let rest =
                Rectangle { top: below, left: region.left, width: request.width, height: spare_height };
            seq![taken(placed), free(rest), free(strip)]
        }
    } else {
        let strip = Rectangle { top: below, left: region.left, width: region.width, height: spare_height };
        if spare_width == 0 {
            if spare_height == 0 {
                seq![taken(placed)]
            } else {
                seq![taken(placed), free(strip)]
            }
        } else {
            let rest =
                Rectangle { top: region.top, left: beside, width: spare_width, height: request.height };
            seq![taken(placed), free(rest), free(strip)]
        }
    }
}

/// The index of the first leaf that accepts `request`, or `leaves.len()` if none does.
pub open spec fn first_accepting(leaves: Seq<Leaf>, request: Rectangle) -> int
    decreases leaves.len(),
{
    if leaves.len() == 0 {
        0
    } else if accepts(leaves[0], request) {
        0
    } else {
        1 + first_accepting(leaves.drop_first(), request)
    }
}

/// Where `request` is placed in a tree with these leaves, if anywhere.
pub open spec fn placement(leaves: Seq<Leaf>, request: Rectangle) -> Option<Rectangle> {
    let i = first_accepting(leaves, request);
    if i < leaves.len() {
        Some(placed_in(leaves[i].rectangle, request))
    } else {
        None
    }
}

/// The leaves of the tree after `request` was handed to it.
pub open spec fn leaves_after(leaves: Seq<Leaf>, request: Rectangle) -> Seq<Leaf> {
    let i = first_accepting(leaves, request);
    if i < leaves.len() {
        leaves.subrange(0, i) + split_leaf(leaves[i].rectangle, request) + leaves.subrange(
            i + 1,
            leaves.len() as int,
        )
    } else {
        leaves
    }
}

/// The failure reported when no leaf accepts a request: it is that of the last leaf.
pub open spec fn failure(leaves: Seq<Leaf>) -> InsertFailure {
    if leaves.len() > 0 && leaves.last().occupied {
        InsertFailure::NodeFull
    } else {
        InsertFailure::DoesNotFit
    }
}

/// How many of the two dimensions of `region` differ from those of `request`.
pub open spec fn mismatch(region: Rectangle, request: Rectangle) -> nat {
    let in_width: nat = if region.width != request.width { 1 } else { 0 };
    let in_height: nat = if region.height != request.height { 1 } else { 0 };
    in_width + in_height
}

impl Node {
    /// The number of levels below this node.
    pub open spec fn depth(self) -> nat
        decreases self,
    {
        match (self.first, self.second) {
            (Some(a), Some(b)) => 1 + if a.depth() >= b.depth() {
                a.depth()
            } else {
                b.depth()
            },
            _ => 0,
        }
    }

    /// The leaves of the tree, first child before second child.
    pub open spec fn leaves(self) -> Seq<Leaf>
        decreases self,
    {
        match (self.first, self.second) {
            (Some(a), Some(b)) => a.leaves() + b.leaves(),
            _ => seq![Leaf { rectangle: self.rectangle, occupied: self.occupied }],
        }
    }

    /// The tree is well formed: every region has representable edges, a node has two
    /// children or none, a divided node is not occupied, and the regions of its children
    /// cut its own region in two.
    pub open spec fn wf(self) -> bool
        decreases self,
    {
        &&& self.rectangle.bounded()
        &&& match (self.first, self.second) {
            (None, None) => true,
            (Some(a), Some(b)) => {
                &&& !self.occupied
                &&& a.wf()
                &&& b.wf()
                &&& (cut_vertically(self.rectangle, a.rectangle, b.rectangle) || cut_horizontally(
                    self.rectangle,
                    a.rectangle,
                    b.rectangle,
                ))
            },
            _ => false,
        }
    }

    /// Creates a free leaf over the given rectangle.
    pub fn new(rectangle: Rectangle) -> (node: Self)
        ensures
            node.rectangle == rectangle,
            node.first.is_none(),
            node.second.is_none(),
            !node.occupied,
            node@ == seq![free(rectangle)],
            node.wf() == rectangle.bounded(),
    {
        Self { rectangle, first: None, second: None, occupied: false }
    }

    /// Returns true if the node is a leaf.
    pub fn is_leaf(&self) -> (r: bool)
        ensures
            r == (self.first.is_none() && self.second.is_none()),
    {
        self.first.is_none() && self.second.is_none()
    }
}

/// In a concatenation, the first accepting leaf is that of the front part if it has one,
/// and else that of the back part.
pub proof fn lemma_first_accepting_concat(a: Seq<Leaf>, b: Seq<Leaf>, request: Rectangle)
    ensures
        0 <= first_accepting(a, request) <= a.len(),
        first_accepting(a, request) < a.len() ==> accepts(a[first_accepting(a, request)], request),
        first_accepting(a + b, request) == if first_accepting(a, request) < a.len() {
            first_accepting(a, request)
        } else {
            a.len() + first_accepting(b, request)
        },
    decreases a.len(),
{
    if a.len() == 0 {
        assert(a + b =~= b);
    } else {
        assert((a + b)[0] == a[0]);
        if !accepts(a[0], request) {
            assert((a + b).drop_first() =~= a.drop_first() + b);
            lemma_first_accepting_concat(a.drop_first(), b, request);
        }
    }
}

/// A tree of one leaf takes a request in that leaf or not at all.
pub proof fn lemma_single_leaf(leaf: Leaf, request: Rectangle)
    ensures
        first_accepting(seq![leaf], request) == if accepts(leaf, request) {
            0int
        } else {
            1int
        },
        accepts(leaf, request) ==> leaves_after(seq![leaf], request) == split_leaf(
            leaf.rectangle,
            request,
        ),
{
    let s = seq![leaf];
    assert(s.drop_first().len() == 0);
    assert(first_accepting(s.drop_first(), request) == 0);
    if accepts(leaf, request) {
        assert(leaves_after(s, request) =~= split_leaf(leaf.rectangle, request));
    }
}

/// What an insertion does to a concatenation: it acts on the front part if a leaf there
/// accepts the request, and else on the back part.
pub proof fn lemma_insert_concat(a: Seq<Leaf>, b: Seq<Leaf>, request: Rectangle)
    requires
        b.len() > 0,
    ensures
        placement(a, request).is_some() ==> {
            &&& placement(a + b, request) == placement(a, request)
            &&& leaves_after(a + b, request) == leaves_after(a, request) + b
        },
        placement(a, request).is_none() ==> {
            &&& placement(a + b, request) == placement(b, request)
            &&& leaves_after(a + b, request) == a + leaves_after(b, request)
            &&& failure(a + b) == failure(b)
        },
{
    lemma_first_accepting_concat(a, b, request);
    lemma_first_accepting_concat(b, Seq::empty(), request);
    let i = first_accepting(a, request);
    let j = first_accepting(b, request);
    let ab = a + b;
    if i < a.len() {
        assert(ab.subrange(0, i) =~= a.subrange(0, i));
        assert(ab.subrange(i + 1, ab.len() as int) =~= a.subrange(i + 1, a.len() as int) + b);
        assert(leaves_after(ab, request) =~= leaves_after(a, request) + b);
    } else {
        assert(ab.last() == b.last());
        if j < b.len() {
            let k = a.len() + j;
            assert(ab[k] == b[j]);
            assert(ab.subrange(0, k) =~= a + b.subrange(0, j));
            assert(ab.subrange(k + 1, ab.len() as int) =~= b.subrange(j + 1, b.len() as int));
            assert(leaves_after(ab, request) =~= a + leaves_after(b, request));
        }
    }
}

impl Node {
    /// A well-formed tree has at least one leaf.
    pub proof fn lemma_has_leaf(self)
        requires
            self.wf(),
        ensures
            self@.len() > 0,
        decreases self,
    {
        match (self.first, self.second) {
            (Some(a), Some(b)) => {
                a.lemma_has_leaf();
            },
            _ => {},
        }
    }

    /// Hands `rectangle` to the tree and returns where it was placed.
    ///
    /// The leaves are tried first child first. The first free leaf that is large enough
    /// takes the rectangle at its top-left corner and is divided so that the rectangle
    /// has a leaf of exactly its size; the position of `rectangle` itself plays no part.
    /// If no leaf accepts it, the tree is left as it was and the error tells whether the
    /// last leaf was occupied or too small.
    pub fn insert(&mut self, rectangle: &Rectangle) -> (result: Result<Rectangle, NodeInsertError>)
        requires
            old(self).wf(),
        ensures
            final(self).wf(),
            final(self).rectangle == old(self).rectangle,
            final(self)@ == leaves_after(old(self)@, *rectangle),
            match result {
                Ok(placed) => {
                    &&& placement(old(self)@, *rectangle) == Some(placed)
                    &&& placed.spec_same_size(*rectangle)
                    &&& placed.within(old(self).rectangle)
                },
                Err(e) => {
                    &&& placement(old(self)@, *rectangle).is_none()
                    &&& e == (NodeInsertError { rectangle: *rectangle, kind: failure(old(self)@) })
                    &&& *final(self) == *old(self)
                },
            },
        decreases old(self).depth(), mismatch(old(self).rectangle, *rectangle),
    {
        proof {
            lemma_tree_packed(*old(self));
            if placement(old(self)@, *rectangle).is_some() {
                lemma_insert_places_apart(old(self)@, old(self).rectangle, *rectangle, *rectangle);
            }
        }
        if self.is_leaf() {
            proof {
                lemma_single_leaf(old(self)@[0], *rectangle);
            }
            // An occupied leaf takes nothing more.
            if self.occupied {
                return Err(NodeInsertError { rectangle: *rectangle, kind: InsertFailure::NodeFull });
            }
            if rectangle.fit_in(&self.rectangle) {
                // A perfect fit needs no cut.
                if rectangle.same_size(&self.rectangle) {
                    self.occupied = true;
                    assert(self@ =~= split_leaf(old(self).rectangle, *rectangle));
                    return Ok(self.rectangle);
                }
                let delta_width: u32 = self.rectangle.width - rectangle.width;
                let delta_height: u32 = self.rectangle.height - rectangle.height;

                let mut first;
                let second;
                if delta_width > delta_height {
                    first = Node::new(
                        Rectangle::new(
                            self.rectangle.top,
                            self.rectangle.left,
                            rectangle.width,
                            self.rectangle.height,
                        ),
                    );
                    second = Node::new(
                        Rectangle::new(
                            self.rectangle.top,
                            self.rectangle.left + rectangle.width,
                            delta_width,
                            self.rectangle.height,
                        ),
                    );
                } else {
                    first = Node::new(
                        Rectangle::new(
                            self.rectangle.top,
                            self.rectangle.left,
                            self.rectangle.width,
                            rectangle.height,
                        ),
                    );
                    second = Node::new(
                        Rectangle::new(
                            self.rectangle.top + rectangle.height,
                            self.rectangle.left,
                            self.rectangle.width,
                            delta_height,
                        ),
                    );
                }
                let ghost half = first.rectangle;
                proof {
                    lemma_single_leaf(free(half), *rectangle);
                }
                let result = first.insert(rectangle);
                assert(first@ + second@ =~= split_leaf(old(self).rectangle, *rectangle));
                self.first = Some(Box::new(first));
                self.second = Some(Box::new(second));
                return result;
            }
            // The leaf is too small.
            return Err(NodeInsertError { rectangle: *rectangle, kind: InsertFailure::DoesNotFit });
        } else {
            proof {
                let a = *old(self).first.unwrap();
                let b = *old(self).second.unwrap();
                b.lemma_has_leaf();
                lemma_insert_concat(a@, b@, *rectangle);
            }
            // The first child is tried before the second.
            match self.first.as_mut().unwrap().insert(rectangle) {
                Ok(rect) => Ok(rect),
                Err(_) => self.second.as_mut().unwrap().insert(rectangle),
            }
        }
    }
}

impl View for Node {
    type V = Seq<Leaf>;

    open spec fn view(&self) -> Seq<Leaf> {
        self.leaves()
    }
}

} // verus!
