//! Boxes grown out until they cover the panel.

use vstd::prelude::*;
use crate::geometry::Rect;
use crate::num;
use crate::side::Axis;
use crate::tree;
use crate::tree::{leaf_count, Node};

verus! {

/// The furthest an edge lies from the corner of the content.
pub const FAR: i64 = 0x0400_0000_0000_0000;

impl Rect {
    pub open spec fn right(self) -> int {
        self.x + self.w
    }

    pub open spec fn bottom(self) -> int {
        self.y + self.h
    }

    /// A rectangle with its corner and its far edges inside what can be
    /// measured.
    pub open spec fn near_enough(self) -> bool {
        &&& 0 <= self.x <= FAR
        &&& 0 <= self.y <= FAR
        &&& 0 <= self.right() <= FAR
        &&& 0 <= self.bottom() <= FAR
    }

    /// Every point of the other is inside.
    pub open spec fn spans(self, other: Rect) -> bool {
        &&& self.x <= other.x
        &&& self.y <= other.y
        &&& other.right() <= self.right()
        &&& other.bottom() <= self.bottom()
    }
}

/// The rectangle around two.
pub open spec fn union(a: Rect, b: Rect) -> Rect {
    let (x, y) = (
        num::smaller(a.x as int, b.x as int),
        num::smaller(a.y as int, b.y as int),
    );
    Rect {
        x: x as i64,
        y: y as i64,
        w: (num::larger(a.right(), b.right()) - x) as i64,
        h: (num::larger(a.bottom(), b.bottom()) - y) as i64,
    }
}

/// The rectangle around a run of them.
pub open spec fn covering(rects: Seq<Rect>) -> Rect
    decreases rects.len(),
{
    if rects.len() <= 1 {
        rects[0]
    } else {
        union(covering(rects.drop_last()), rects.last())
    }
}

pub open spec fn all_near(rects: Seq<Rect>) -> bool {
    forall|i: int|
        0 <= i < rects.len() ==> (#[trigger] rects[i]).near_enough() && rects[i].w >= 0
            && rects[i].h >= 0
}

/// The rectangle around a run of boxes.
pub fn cover(rects: &Vec<Rect>, from: usize, to: usize) -> (around: Rect)
    requires
        from < to <= rects.len(),
        all_near(rects@),
    ensures
        around == covering(rects@.subrange(from as int, to as int)),
        around.near_enough(),
        around.w >= 0,
        around.h >= 0,
{
    let mut around = rects[from];
    assert(rects@.subrange(from as int, from + 1) =~= seq![rects@[from as int]]);
    for i in from + 1..to
        invariant
            from < to <= rects.len(),
            from < i,
            all_near(rects@),
            around == covering(rects@.subrange(from as int, i as int)),
            around.near_enough(),
            around.w >= 0,
            around.h >= 0,
    {
        let next = rects[i];
        assert(next.near_enough() && next.w >= 0 && next.h >= 0);
        proof {
            let longer = rects@.subrange(from as int, i + 1);
            assert(longer.drop_last() =~= rects@.subrange(from as int, i as int));
            assert(longer.last() == next);
        }
        let x: i64 = if around.x <= next.x {
            around.x
        } else {
            next.x
        };
        let y: i64 = if around.y <= next.y {
            around.y
        } else {
            next.y
        };
        let right: i64 = if around.x + around.w >= next.x + next.w {
            around.x + around.w
        } else {
            next.x + next.w
        };
        let bottom: i64 = if around.y + around.h >= next.y + next.h {
            around.y + around.h
        } else {
            next.y + next.h
        };
        around = Rect { x, y, w: right - x, h: bottom - y };
    }
    around
}

/// Where a cut between two halves falls: midway between where the near one ends
/// and the far one starts.
pub open spec fn edge_between(axis: Axis, a: Rect, b: Rect) -> int {
    match axis {
        Axis::Across => (a.right() + b.x) / 2,
        Axis::Down => (a.bottom() + b.y) / 2,
    }
}

/// The part of a rectangle before a cut.
pub open spec fn before(axis: Axis, rect: Rect, edge: int) -> Rect {
    match axis {
        Axis::Across => Rect { w: (edge - rect.x) as i64, ..rect },
        Axis::Down => Rect { h: (edge - rect.y) as i64, ..rect },
    }
}

/// The part of a rectangle from a cut on.
pub open spec fn after(axis: Axis, rect: Rect, edge: int) -> Rect {
    match axis {
        Axis::Across => Rect { x: edge as i64, w: (rect.right() - edge) as i64, ..rect },
        Axis::Down => Rect { y: edge as i64, h: (rect.bottom() - edge) as i64, ..rect },
    }
}

/// Every box of a subtree grown out to fill the rectangle the subtree owns, in
/// the order of its leaves, given the box each one took up.
pub open spec fn stretched(node: Node, rects: Seq<Rect>, rect: Rect) -> Seq<Rect>
    decreases node,
{
    match node {
        Node::Empty => Seq::empty(),
        Node::Leaf(_) => seq![rect],
        Node::Cut { axis, near, far, .. } => {
            let k = tree::leaves(*near).len() as int;
            let edge = cut_edge(node, rects);
            stretched(*near, rects.take(k), before(axis, rect, edge)) + stretched(
                *far,
                rects.skip(k),
                after(axis, rect, edge),
            )
        },
    }
}

/// Where the first cut of a subtree falls, given the boxes of its leaves.
pub open spec fn cut_edge(node: Node, rects: Seq<Rect>) -> int {
    match node {
        Node::Cut { axis, near, .. } => {
            let k = tree::leaves(*near).len() as int;
            edge_between(axis, covering(rects.take(k)), covering(rects.skip(k)))
        },
        _ => 0,
    }
}

pub proof fn lemma_leaves(node: Node)
    requires
        !tree::has_hole(node),
    ensures
        tree::leaves(node).len() >= 1,
    decreases node,
{
    if let Node::Cut { near, far, .. } = node {
        lemma_leaves(*near);
        lemma_leaves(*far);
    }
}

/// Grow every box out to fill the rectangle its subtree owns, so the panel is
/// covered with nothing in between: a click in the space beside or below a box
/// should still mean that box, not nothing.
///
/// Walked down the tree rather than by looking for the nearest rectangle: the
/// tree already partitions the panel exactly.
#[verifier::spinoff_prover]
#[verifier::rlimit(60)]
pub fn stretch(node: &Node, rects: &Vec<Rect>, first: usize, rect: Rect, out: &mut Vec<Rect>)
    requires
        !tree::has_hole(*node),
        all_near(rects@),
        rect.near_enough(),
        first + tree::leaves(*node).len() <= rects.len(),
    ensures
        final(out)@ == old(out)@ + stretched(
            *node,
            rects@.subrange(first as int, first + tree::leaves(*node).len()),
            rect,
        ),
    decreases node,
{
    let ghost start = out@;
    match node {
        Node::Empty => {},
        Node::Leaf(_) => {
            out.push(rect);
            assert(out@ =~= start + seq![rect]);
        },
        Node::Cut { axis, near, far, .. } => {
            proof {
                lemma_leaves(**near);
                lemma_leaves(**far);
            }
            let ghost whole = rects@.subrange(
                first as int,
                first + tree::leaves(*node).len(),
            );
            let split = leaf_count(near);
            let rest = leaf_count(far);
            let a = cover(rects, first, first + split);
            let b = cover(rects, first + split, first + split + rest);
            assert(whole.take(split as int) =~= rects@.subrange(
                first as int,
                first + split,
            ));
            assert(whole.skip(split as int) =~= rects@.subrange(
                first + split,
                first + split + rest,
            ));
            match axis {
                Axis::Across => {
                    let edge: i64 = (a.x + a.w + b.x) / 2;
                    stretch(
                        near,
                        rects,
                        first,
                        Rect { x: rect.x, y: rect.y, w: edge - rect.x, h: rect.h },
                        out,
                    );
                    stretch(
                        far,
                        rects,
                        first + split,
                        Rect { x: edge, y: rect.y, w: rect.x + rect.w - edge, h: rect.h },
                        out,
                    );
                },
                Axis::Down => {
                    let edge: i64 = (a.y + a.h + b.y) / 2;
                    stretch(
                        near,
                        rects,
                        first,
                        Rect { x: rect.x, y: rect.y, w: rect.w, h: edge - rect.y },
                        out,
                    );
                    stretch(
                        far,
                        rects,
                        first + split,
                        Rect { x: rect.x, y: edge, w: rect.w, h: rect.y + rect.h - edge },
                        out,
                    );
                },
            }
            assert(out@ =~= start + stretched(*node, whole, rect));
        },
    }
}

pub proof fn lemma_stretched_len(node: Node, rects: Seq<Rect>, rect: Rect)
    ensures
        stretched(node, rects, rect).len() == tree::leaves(node).len(),
    decreases node,
{
    if let Node::Cut { axis, near, far, .. } = node {
        let k = tree::leaves(*near).len() as int;
        let edge = cut_edge(node, rects);
        lemma_stretched_len(*near, rects.take(k), before(axis, rect, edge));
        lemma_stretched_len(*far, rects.skip(k), after(axis, rect, edge));
    }
}

pub proof fn lemma_covering(rects: Seq<Rect>)
    requires
        rects.len() >= 1,
        all_near(rects),
    ensures
        covering(rects).near_enough(),
        covering(rects).w >= 0,
        covering(rects).h >= 0,
        forall|i: int| 0 <= i < rects.len() ==> covering(rects).spans(#[trigger] rects[i]),
    decreases rects.len(),
{
    assert(rects[0].near_enough());
    if rects.len() > 1 {
        let shorter = rects.drop_last();
        assert forall|i: int| 0 <= i < shorter.len() implies (#[trigger] shorter[i]).near_enough()
            && shorter[i].w >= 0 && shorter[i].h >= 0 by {
            assert(shorter[i] == rects[i]);
        }
        lemma_covering(shorter);
        assert(rects.last() == rects[rects.len() - 1]);
        assert forall|i: int| 0 <= i < rects.len() implies covering(rects).spans(
            #[trigger] rects[i],
        ) by {
            if i < shorter.len() {
                assert(covering(shorter).spans(shorter[i]));
            }
        }
    }
}

proof fn lemma_edge(node: Node, rects: Seq<Rect>)
    requires
        node is Cut,
        !tree::has_hole(node),
        all_near(rects),
        rects.len() == tree::leaves(node).len(),
    ensures
        0 <= cut_edge(node, rects) <= FAR,
        all_near(rects.take(tree::leaves(*node->near).len() as int)),
        all_near(rects.skip(tree::leaves(*node->near).len() as int)),
        rects.take(tree::leaves(*node->near).len() as int).len() == tree::leaves(
            *node->near,
        ).len(),
        rects.skip(tree::leaves(*node->near).len() as int).len() == tree::leaves(*node->far).len(),
{
    let k = tree::leaves(*node->near).len() as int;
    lemma_leaves(*node->near);
    lemma_leaves(*node->far);
    let (a, b) = (rects.take(k), rects.skip(k));
    assert forall|i: int| 0 <= i < a.len() implies (#[trigger] a[i]).near_enough() && a[i].w >= 0
        && a[i].h >= 0 by {
        assert(a[i] == rects[i]);
    }
    assert forall|i: int| 0 <= i < b.len() implies (#[trigger] b[i]).near_enough() && b[i].w >= 0
        && b[i].h >= 0 by {
        assert(b[i] == rects[i + k]);
    }
    lemma_covering(a);
    lemma_covering(b);
}

/// Growing boxes never takes one out of what can be measured.
pub proof fn lemma_stretched_near(node: Node, rects: Seq<Rect>, rect: Rect)
    requires
        !tree::has_hole(node),
        all_near(rects),
        rects.len() == tree::leaves(node).len(),
        rect.near_enough(),
    ensures
        stretched(node, rects, rect).len() == rects.len(),
        forall|i: int|
            0 <= i < rects.len() ==> (#[trigger] stretched(node, rects, rect)[i]).near_enough(),
    decreases node,
{
    lemma_stretched_len(node, rects, rect);
    if let Node::Cut { axis, near, far, .. } = node {
        lemma_edge(node, rects);
        let k = tree::leaves(*near).len() as int;
        let edge = cut_edge(node, rects);
        let (front, back) = (before(axis, rect, edge), after(axis, rect, edge));
        lemma_stretched_near(*near, rects.take(k), front);
        lemma_stretched_near(*far, rects.skip(k), back);
        let grown = stretched(node, rects, rect);
        let a = stretched(*near, rects.take(k), front);
        let b = stretched(*far, rects.skip(k), back);
        assert forall|i: int| 0 <= i < rects.len() implies (#[trigger] grown[i]).near_enough() by {
            if i < k {
                assert(grown[i] == a[i]);
            } else {
                assert(grown[i] == b[i - k]);
            }
        }
    }
}

/// Every point of the rectangle a subtree owns belongs to one of its boxes, so
/// a click anywhere in the panel means some box.
pub proof fn stretched_boxes_cover_the_panel(
    node: Node,
    rects: Seq<Rect>,
    rect: Rect,
    x: int,
    y: int,
)
    requires
        !tree::has_hole(node),
        all_near(rects),
        rects.len() == tree::leaves(node).len(),
        rect.near_enough(),
        rect.holds(x, y),
    ensures
        exists|i: int|
            0 <= i < stretched(node, rects, rect).len() && (#[trigger] stretched(
                node,
                rects,
                rect,
            )[i]).holds(x, y),
    decreases node,
{
    let grown = stretched(node, rects, rect);
    match node {
        Node::Empty => {},
        Node::Leaf(_) => {
            assert(grown[0].holds(x, y));
        },
        Node::Cut { axis, near, far, .. } => {
            lemma_edge(node, rects);
            let k = tree::leaves(*near).len() as int;
            let edge = cut_edge(node, rects);
            let (front, back) = (before(axis, rect, edge), after(axis, rect, edge));
            let a = stretched(*near, rects.take(k), front);
            let b = stretched(*far, rects.skip(k), back);
            lemma_stretched_len(*near, rects.take(k), front);
            if front.holds(x, y) {
                stretched_boxes_cover_the_panel(*near, rects.take(k), front, x, y);
                let i = choose|i: int| 0 <= i < a.len() && (#[trigger] a[i]).holds(x, y);
                assert(grown[i] == a[i]);
            } else {
                assert(back.holds(x, y));
                stretched_boxes_cover_the_panel(*far, rects.skip(k), back, x, y);
                let i = choose|i: int| 0 <= i < b.len() && (#[trigger] b[i]).holds(x, y);
                assert(grown[k + i] == b[i]);
            }
        },
    }
}

/// At every cut the near half ends before the far half starts.
pub open spec fn apart(node: Node, rects: Seq<Rect>) -> bool
    decreases node,
{
    match node {
        Node::Cut { axis, near, far, .. } => {
            let k = tree::leaves(*near).len() as int;
            let (a, b) = (covering(rects.take(k)), covering(rects.skip(k)));
            &&& match axis {
                Axis::Across => a.right() <= b.x,
                Axis::Down => a.bottom() <= b.y,
            }
            &&& apart(*near, rects.take(k))
            &&& apart(*far, rects.skip(k))
        },
        _ => true,
    }
}

/// Whether a rectangle has all of a run of boxes inside it.
pub open spec fn spans_all(rect: Rect, rects: Seq<Rect>) -> bool {
    forall|i: int| 0 <= i < rects.len() ==> rect.spans(#[trigger] rects[i])
}

/// Where every cut has room, growing the boxes never lets two of them claim one
/// point, never pushes one out of the rectangle its subtree owns, and never
/// takes from a box what it had.
pub proof fn stretched_boxes_stay_apart(node: Node, rects: Seq<Rect>, rect: Rect)
    requires
        !tree::has_hole(node),
        all_near(rects),
        rects.len() == tree::leaves(node).len(),
        rect.near_enough(),
        apart(node, rects),
        spans_all(rect, rects),
    ensures
        stretched(node, rects, rect).len() == rects.len(),
        spans_all(rect, stretched(node, rects, rect)),
        forall|i: int|
            0 <= i < rects.len() ==> (#[trigger] stretched(node, rects, rect)[i]).spans(rects[i]),
        forall|i: int, j: int|
            0 <= i < j < rects.len() ==> !(#[trigger] stretched(node, rects, rect)[i]).meets(
                #[trigger] stretched(node, rects, rect)[j],
            ),
    decreases node,
{
    let grown = stretched(node, rects, rect);
    lemma_stretched_len(node, rects, rect);
    if let Node::Cut { axis, near, far, .. } = node {
        lemma_edge(node, rects);
        lemma_leaves(*near);
        lemma_leaves(*far);
        let k = tree::leaves(*near).len() as int;
        let edge = cut_edge(node, rects);
        let (front, back) = (before(axis, rect, edge), after(axis, rect, edge));
        let (head, tail) = (rects.take(k), rects.skip(k));
        lemma_covering(head);
        lemma_covering(tail);
        assert forall|i: int| 0 <= i < head.len() implies front.spans(#[trigger] head[i]) by {
            assert(rect.spans(rects[i]));
            assert(covering(head).spans(head[i]));
        }
        assert forall|i: int| 0 <= i < tail.len() implies back.spans(#[trigger] tail[i]) by {
            assert(rect.spans(rects[i + k]));
            assert(covering(tail).spans(tail[i]));
        }
        let a = stretched(*near, head, front);
        let b = stretched(*far, tail, back);
        stretched_boxes_stay_apart(*near, head, front);
        stretched_boxes_stay_apart(*far, tail, back);
        assert(head[0] == rects[0] && tail[0] == rects[k]);
        assert(rect.spans(rects[0]) && rect.spans(rects[k]));
        assert(covering(head).spans(head[0]) && covering(tail).spans(tail[0]));
        assert(rect.spans(front) && rect.spans(back));
        assert forall|i: int| 0 <= i < grown.len() implies rect.spans(#[trigger] grown[i])
            && grown[i].spans(rects[i]) by {
            if i < k {
                assert(grown[i] == a[i]);
                assert(head[i] == rects[i]);
            } else {
                assert(grown[i] == b[i - k]);
                assert(tail[i - k] == rects[i]);
            }
        }
        assert forall|i: int, j: int| 0 <= i < j < rects.len() implies !(
        #[trigger] grown[i]).meets(#[trigger] grown[j]) by {
            if j < k {
                assert(grown[i] == a[i] && grown[j] == a[j]);
            } else if i >= k {
                assert(grown[i] == b[i - k] && grown[j] == b[j - k]);
            } else {
                assert(grown[i] == a[i] && grown[j] == b[j - k]);
                assert(front.spans(a[i]) && back.spans(b[j - k]));
            }
        }
    }
}

} // verus!
