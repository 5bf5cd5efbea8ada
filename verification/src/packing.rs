use vstd::prelude::*;
use crate::node::{
    accepts, failure, first_accepting, free, leaves_after, lemma_single_leaf, placed_in, placement,
    split_leaf, taken, InsertFailure, Leaf, Node,
};
use crate::rectangle::Rectangle;

verus! {

/// The leaves lie within `root`, and a line separates any two of them.
pub open spec fn packed(leaves: Seq<Leaf>, root: Rectangle) -> bool {
    &&& root.bounded()
    &&& forall|i: int| 0 <= i < leaves.len() ==> (#[trigger] leaves[i]).rectangle.within(root)
    &&& forall|i: int, j: int|
        0 <= i < j < leaves.len() ==> (#[trigger] leaves[i]).rectangle.separated(
            (#[trigger] leaves[j]).rectangle,
        )
}

/// Some leaf is occupied and covers exactly `rectangle`.
pub open spec fn holds(leaves: Seq<Leaf>, rectangle: Rectangle) -> bool {
    exists|i: int| 0 <= i < leaves.len() && #[trigger] leaves[i] == taken(rectangle)
}

/// What each of a series of requests gets when they are handed to a tree one after the
/// other: the place of the request, or `None` where the tree refused it.
pub open spec fn placements(leaves: Seq<Leaf>, requests: Seq<Rectangle>) -> Seq<Option<Rectangle>>
    decreases requests.len(),
{
    if requests.len() == 0 {
        Seq::empty()
    } else {
        seq![placement(leaves, requests[0])] + placements(
            leaves_after(leaves, requests[0]),
            requests.drop_first(),
        )
    }
}

/// The leaves that replace a free leaf lie within it, a line separates any two of them,
/// the first holds the request, and the others are free.
pub proof fn lemma_split_leaf(region: Rectangle, request: Rectangle)
    requires
        region.bounded(),
        request.spec_fit_in(region),
    ensures
        1 <= split_leaf(region, request).len() <= 3,
        split_leaf(region, request)[0] == taken(placed_in(region, request)),
        packed(split_leaf(region, request), region),
        forall|m: int|
            1 <= m < split_leaf(region, request).len() ==> !(#[trigger] split_leaf(
                region,
                request,
            )[m]).occupied,
{
}

/// The first accepting leaf is a leaf that accepts, and no leaf before it does.
pub proof fn lemma_first_accepting(leaves: Seq<Leaf>, request: Rectangle)
    ensures
        0 <= first_accepting(leaves, request) <= leaves.len(),
        first_accepting(leaves, request) < leaves.len() ==> accepts(
            leaves[first_accepting(leaves, request)],
            request,
        ),
        forall|k: int|
            0 <= k < first_accepting(leaves, request) ==> !accepts(#[trigger] leaves[k], request),
    decreases leaves.len(),
{
    if leaves.len() > 0 && !accepts(leaves[0], request) {
        let rest = leaves.drop_first();
        lemma_first_accepting(rest, request);
        assert forall|k: int| 0 <= k < first_accepting(leaves, request) implies !accepts(
            #[trigger] leaves[k],
            request,
        ) by {
            if k > 0 {
                assert(leaves[k] == rest[k - 1]);
            }
        }
    }
}

/// Where each leaf stands after an insertion that found a place: the leaves before the
/// accepting one stay, the accepting one gives way to its parts, the others move up.
pub proof fn lemma_leaves_after_index(leaves: Seq<Leaf>, request: Rectangle, k: int)
    requires
        first_accepting(leaves, request) < leaves.len(),
        0 <= k < leaves_after(leaves, request).len(),
    ensures
        ({
            let i = first_accepting(leaves, request);
            let parts = split_leaf(leaves[i].rectangle, request);
            let after = leaves_after(leaves, request);
            &&& after.len() == leaves.len() - 1 + parts.len()
            &&& k < i ==> after[k] == leaves[k]
            &&& i <= k < i + parts.len() ==> after[k] == parts[k - i]
            &&& i + parts.len() <= k ==> after[k] == leaves[k - parts.len() + 1]
        }),
{
    lemma_first_accepting(leaves, request);
}

/// An insertion keeps the leaves within the root and apart from each other.
pub proof fn lemma_insert_keeps_packed(leaves: Seq<Leaf>, root: Rectangle, request: Rectangle)
    requires
        packed(leaves, root),
    ensures
        packed(leaves_after(leaves, request), root),
{
    lemma_first_accepting(leaves, request);
    let i = first_accepting(leaves, request);
    if i < leaves.len() {
        let region = leaves[i].rectangle;
        let parts = split_leaf(region, request);
        let after = leaves_after(leaves, request);
        lemma_split_leaf(region, request);
        assert forall|k: int| 0 <= k < after.len() implies (#[trigger] after[k]).rectangle.within(
            root,
        ) by {
            lemma_leaves_after_index(leaves, request, k);
            if i <= k < i + parts.len() {
                assert(parts[k - i].rectangle.within(region));
            }
        }
        assert forall|k: int, l: int| 0 <= k < l < after.len() implies (#[trigger] after[k]).rectangle.separated(
            (#[trigger] after[l]).rectangle,
        ) by {
            lemma_leaves_after_index(leaves, request, k);
            lemma_leaves_after_index(leaves, request, l);
            let n = parts.len() as int;
            if k < i {
                if l < i {
                    assert(leaves[k].rectangle.separated(leaves[l].rectangle));
                } else if l < i + n {
                    assert(parts[l - i].rectangle.within(region));
                    assert(leaves[k].rectangle.separated(leaves[i].rectangle));
                } else {
                    assert(leaves[k].rectangle.separated(leaves[l - n + 1].rectangle));
                }
            } else if k < i + n {
                assert(parts[k - i].rectangle.within(region));
                if l < i + n {
                    assert(parts[k - i].rectangle.separated(parts[l - i].rectangle));
                } else {
                    assert(leaves[i].rectangle.separated(leaves[l - n + 1].rectangle));
                }
            } else {
                assert(leaves[k - n + 1].rectangle.separated(leaves[l - n + 1].rectangle));
            }
        }
    }
}

/// A rectangle that the tree holds stays where it is when another is inserted.
pub proof fn lemma_insert_keeps_held(leaves: Seq<Leaf>, request: Rectangle, held: Rectangle)
    requires
        holds(leaves, held),
    ensures
        holds(leaves_after(leaves, request), held),
{
    lemma_first_accepting(leaves, request);
    let i = first_accepting(leaves, request);
    if i < leaves.len() {
        let h = choose|h: int| 0 <= h < leaves.len() && #[trigger] leaves[h] == taken(held);
        let n = split_leaf(leaves[i].rectangle, request).len() as int;
        let after = leaves_after(leaves, request);
        if h < i {
            lemma_leaves_after_index(leaves, request, h);
            assert(after[h] == taken(held));
        } else {
            lemma_leaves_after_index(leaves, request, h + n - 1);
            assert(after[h + n - 1] == taken(held));
        }
    }
}

/// A rectangle that was placed lies within the root, is held by the tree from then on,
/// and shares no pixel with any rectangle that the tree held before.
pub proof fn lemma_insert_places_apart(
    leaves: Seq<Leaf>,
    root: Rectangle,
    request: Rectangle,
    held: Rectangle,
)
    requires
        packed(leaves, root),
        placement(leaves, request).is_some(),
    ensures
        placement(leaves, request).unwrap().spec_same_size(request),
        placement(leaves, request).unwrap().within(root),
        holds(leaves_after(leaves, request), placement(leaves, request).unwrap()),
        holds(leaves, held) ==> placement(leaves, request).unwrap().separated(held),
{
    lemma_first_accepting(leaves, request);
    lemma_insert_keeps_packed(leaves, root, request);
    let i = first_accepting(leaves, request);
    let region = leaves[i].rectangle;
    let placed = placement(leaves, request).unwrap();
    let after = leaves_after(leaves, request);
    let n = split_leaf(region, request).len() as int;
    lemma_split_leaf(region, request);
    lemma_leaves_after_index(leaves, request, i);
    assert(after[i] == taken(placed));
    assert(split_leaf(region, request)[0].rectangle.within(region));
    if holds(leaves, held) {
        let h = choose|h: int| 0 <= h < leaves.len() && #[trigger] leaves[h] == taken(held);
        if h < i {
            assert(leaves[h].rectangle.separated(leaves[i].rectangle));
        } else {
            assert(leaves[i].rectangle.separated(leaves[h].rectangle));
        }
    }
}

/// The leaves of a well-formed tree lie within its region, and a line separates any two.
pub proof fn lemma_tree_packed(node: Node)
    requires
        node.wf(),
    ensures
        packed(node@, node.rectangle),
    decreases node,
{
    match (node.first, node.second) {
        (Some(a), Some(b)) => {
            lemma_tree_packed(*a);
            lemma_tree_packed(*b);
            let leaves = node@;
            let n = a@.len() as int;
            assert forall|i: int| 0 <= i < leaves.len() implies (#[trigger] leaves[i]).rectangle.within(
                node.rectangle,
            ) by {
                if i < n {
                    assert(a@[i].rectangle.within(a.rectangle));
                } else {
                    assert(b@[i - n].rectangle.within(b.rectangle));
                }
            }
            assert forall|i: int, j: int| 0 <= i < j < leaves.len() implies (#[trigger] leaves[i]).rectangle.separated(
                (#[trigger] leaves[j]).rectangle,
            ) by {
                if j < n {
                    assert(a@[i].rectangle.separated(a@[j].rectangle));
                } else if i < n {
                    assert(a@[i].rectangle.within(a.rectangle));
                    assert(b@[j - n].rectangle.within(b.rectangle));
                } else {
                    assert(b@[i - n].rectangle.separated(b@[j - n].rectangle));
                }
            }
        },
        _ => {},
    }
}

/// Every request of a series gets an answer.
pub proof fn lemma_placements_len(leaves: Seq<Leaf>, requests: Seq<Rectangle>)
    ensures
        placements(leaves, requests).len() == requests.len(),
    decreases requests.len(),
{
    if requests.len() > 0 {
        lemma_placements_len(leaves_after(leaves, requests[0]), requests.drop_first());
    }
}

/// The answers to a series of requests are the answer to the first, followed by the
/// answers that the tree gives to the others once it has taken the first.
pub proof fn lemma_placements_step(leaves: Seq<Leaf>, requests: Seq<Rectangle>, j: int)
    requires
        0 <= j < requests.len(),
    ensures
        j == 0 ==> placements(leaves, requests)[j] == placement(leaves, requests[0]),
        j > 0 ==> placements(leaves, requests)[j] == placements(
            leaves_after(leaves, requests[0]),
            requests.drop_first(),
        )[j - 1],
{
    lemma_placements_len(leaves_after(leaves, requests[0]), requests.drop_first());
}

/// Whatever is placed in the course of a series of insertions has the size that was
/// asked for, lies within the root, and shares no pixel with a rectangle that the tree
/// held before the series began.
pub proof fn lemma_placement_apart_from_held(
    leaves: Seq<Leaf>,
    root: Rectangle,
    requests: Seq<Rectangle>,
    j: int,
    held: Rectangle,
)
    requires
        packed(leaves, root),
        0 <= j < requests.len(),
        placements(leaves, requests)[j].is_some(),
    ensures
        placements(leaves, requests)[j].unwrap().spec_same_size(requests[j]),
        placements(leaves, requests)[j].unwrap().within(root),
        holds(leaves, held) ==> placements(leaves, requests)[j].unwrap().separated(held),
    decreases requests.len(),
{
    lemma_placements_step(leaves, requests, j);
    if j == 0 {
        lemma_insert_places_apart(leaves, root, requests[0], held);
    } else {
        let after = leaves_after(leaves, requests[0]);
        lemma_insert_keeps_packed(leaves, root, requests[0]);
        if holds(leaves, held) {
            lemma_insert_keeps_held(leaves, requests[0], held);
        }
        lemma_placement_apart_from_held(after, root, requests.drop_first(), j - 1, held);
    }
}

/// Rectangles returned by two successful insertions into the same tree never overlap,
/// and both lie within the region of the tree, however many insertions, successful or
/// not, come before, between and after them.
pub proof fn lemma_placements_never_overlap(
    leaves: Seq<Leaf>,
    root: Rectangle,
    requests: Seq<Rectangle>,
    i: int,
    j: int,
)
    requires
        packed(leaves, root),
        0 <= i < j < requests.len(),
        placements(leaves, requests)[i].is_some(),
        placements(leaves, requests)[j].is_some(),
    ensures
        placements(leaves, requests)[i].unwrap().within(root),
        placements(leaves, requests)[j].unwrap().within(root),
        placements(leaves, requests)[i].unwrap().separated(placements(leaves, requests)[j].unwrap()),
    decreases requests.len(),
{
    let after = leaves_after(leaves, requests[0]);
    let rest = requests.drop_first();
    lemma_placements_step(leaves, requests, i);
    lemma_placements_step(leaves, requests, j);
    lemma_insert_keeps_packed(leaves, root, requests[0]);
    if i == 0 {
        let first = placement(leaves, requests[0]).unwrap();
        lemma_insert_places_apart(leaves, root, requests[0], first);
        lemma_placement_apart_from_held(after, root, rest, j - 1, first);
    } else {
        lemma_placements_never_overlap(after, root, rest, i - 1, j - 1);
    }
}

/// A rectangle that fits within the region of a fresh tree is placed by the first
/// insertion, at the top-left corner of the region, within the region, and no rectangle
/// returned by a later successful insertion into the same tree overlaps it.
pub proof fn lemma_first_placement_stays_alone(
    root: Rectangle,
    requests: Seq<Rectangle>,
    j: int,
)
    requires
        root.bounded(),
        0 < j < requests.len(),
        requests[0].spec_fit_in(root),
        placements(seq![free(root)], requests)[j].is_some(),
    ensures
        placements(seq![free(root)], requests)[0] == Some(placed_in(root, requests[0])),
        placed_in(root, requests[0]).within(root),
        placements(seq![free(root)], requests)[j].unwrap().within(root),
        placed_in(root, requests[0]).separated(placements(seq![free(root)], requests)[j].unwrap()),
{
    let leaves = seq![free(root)];
    lemma_single_leaf(free(root), requests[0]);
    lemma_placements_step(leaves, requests, 0);
    assert(packed(leaves, root));
    lemma_placements_never_overlap(leaves, root, requests, 0, j);
}

/// A rectangle of exactly the size of a fresh tree's region is placed over the whole
/// region without a cut, and the tree is then one occupied leaf.
pub proof fn lemma_exact_fit(root: Rectangle, request: Rectangle)
    requires
        request.spec_same_size(root),
    ensures
        placement(seq![free(root)], request) == Some(root),
        leaves_after(seq![free(root)], request) == seq![taken(root)],
{
    lemma_single_leaf(free(root), request);
    assert(split_leaf(root, request) =~= seq![taken(root)]);
}

/// A tree that is one occupied leaf refuses every request with `NodeFull` and stays as
/// it is.
pub proof fn lemma_full_leaf_refuses(region: Rectangle, request: Rectangle)
    ensures
        placement(seq![taken(region)], request).is_none(),
        failure(seq![taken(region)]) == InsertFailure::NodeFull,
        leaves_after(seq![taken(region)], request) == seq![taken(region)],
{
    lemma_single_leaf(taken(region), request);
}

/// Placements depend on nothing but the leaves of the tree and the requests in their
/// order: two trees with the same leaves, whatever their shape, answer the same series
/// of requests with the same placements and have the same leaves afterwards.
pub proof fn lemma_same_leaves_same_placements(a: Node, b: Node, requests: Seq<Rectangle>)
    requires
        a@ == b@,
    ensures
        placements(a@, requests) == placements(b@, requests),
        requests.len() > 0 ==> leaves_after(a@, requests[0]) == leaves_after(b@, requests[0]),
{
}

} // verus!
