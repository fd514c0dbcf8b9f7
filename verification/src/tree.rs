//! The panel as a rectangle cut in two, over and over.

use vstd::prelude::*;
use crate::at::WHOLE;
use crate::section::SectionShape;
use crate::side::{Axis, Side};

verus! {

/// A subtree of the panel.
pub enum Node {
    /// A cut was made here but nothing has filled this half yet.
    Empty,
    /// The box of one section, by its index.
    Leaf(usize),
    Cut {
        axis: Axis,
        /// What the near half is pinned to, in millionths of the cut. 0 sizes
        /// both halves by what they hold.
        share: u32,
        near: Box<Node>,
        far: Box<Node>,
    },
}

/// The cut a box asks for at a node: the one already there when it runs the
/// right way, and otherwise a fresh one with what was here kept on the other
/// side. The share, the near half and the far half.
pub open spec fn cut_for(node: Node, side: Side) -> (u32, Node, Node) {
    match node {
        Node::Cut { axis, share, near, far } if axis == side.axis() => (share, *near, *far),
        _ => if side.first() {
            (0u32, Node::Empty, node)
        } else {
            (0u32, node, Node::Empty)
        },
    }
}

/// The tree once a box has been put where its path says.
pub open spec fn inserted(node: Node, at: Seq<Side>, share: u32, leaf: usize) -> Node
    decreases at.len(),
{
    if at.len() == 0 {
        match node {
            Node::Empty => Node::Leaf(leaf),
            _ => Node::Cut {
                axis: Axis::Down,
                share: 0,
                near: Box::new(node),
                far: Box::new(Node::Leaf(leaf)),
            },
        }
    } else {
        let side = at[0];
        let rest = at.drop_first();
        let (kept, near, far) = cut_for(node, side);
        let named = if rest.len() == 0 && share > 0 {
            if side.first() {
                share
            } else if share < WHOLE {
                (WHOLE - share) as u32
            } else {
                0
            }
        } else {
            kept
        };
        if side.first() {
            Node::Cut {
                axis: side.axis(),
                share: named,
                near: Box::new(inserted(near, rest, share, leaf)),
                far: Box::new(far),
            }
        } else {
            Node::Cut {
                axis: side.axis(),
                share: named,
                near: Box::new(near),
                far: Box::new(inserted(far, rest, share, leaf)),
            }
        }
    }
}

impl Node {
    /// Put a box somewhere, cutting the panel as the path asks from its
    /// `from`th side on.
    pub fn insert(self, at: &Vec<Side>, from: usize, share: u32, leaf: usize) -> (tree: Node)
        requires
            from <= at.len(),
        ensures
            tree == inserted(self, at@.skip(from as int), share, leaf),
        decreases at.len() - from,
    {
        let ghost path = at@.skip(from as int);
        if from == at.len() {
            return match self {
                Node::Empty => Node::Leaf(leaf),
                taken => Node::Cut {
                    axis: Axis::Down,
                    share: 0,
                    near: Box::new(taken),
                    far: Box::new(Node::Leaf(leaf)),
                },
            };
        }
        let side = at[from];
        assert(path.drop_first() =~= at@.skip(from + 1));
        let axis = side.axis();
        let (kept, near, far) = match self {
            Node::Cut { axis: existing, share, near, far } if existing == axis => (share, *near, *far),
            taken => if side.first() {
                (0u32, Node::Empty, taken)
            } else {
                (0u32, taken, Node::Empty)
            },
        };
        let named: u32 = if from + 1 == at.len() && share > 0 {
            if side.first() {
                share
            } else {
                WHOLE.saturating_sub(share)
            }
        } else {
            kept
        };
        if side.first() {
            Node::Cut {
                axis,
                share: named,
                near: Box::new(near.insert(at, from + 1, share, leaf)),
                far: Box::new(far),
            }
        } else {
            Node::Cut {
                axis,
                share: named,
                near: Box::new(near),
                far: Box::new(far.insert(at, from + 1, share, leaf)),
            }
        }
    }
}

/// Whether some half of some cut is still waiting to be filled.
pub open spec fn has_hole(node: Node) -> bool
    decreases node,
{
    match node {
        Node::Empty => true,
        Node::Leaf(_) => false,
        Node::Cut { near, far, .. } => has_hole(*near) || has_hole(*far),
    }
}

/// The tree with its first unfilled half taken.
pub open spec fn filled(node: Node, rest: Node) -> Node
    decreases node,
{
    match node {
        Node::Empty => rest,
        Node::Leaf(_) => node,
        Node::Cut { axis, share, near, far } => if has_hole(*near) {
            Node::Cut { axis, share, near: Box::new(filled(*near, rest)), far }
        } else {
            Node::Cut { axis, share, near, far: Box::new(filled(*far, rest)) }
        },
    }
}

/// The tree without its unfilled halves. A cut with one side empty is not a
/// cut.
pub open spec fn pruned(node: Node) -> Option<Node>
    decreases node,
{
    match node {
        Node::Empty => None,
        Node::Leaf(_) => Some(node),
        Node::Cut { axis, share, near, far } => match (pruned(*near), pruned(*far)) {
            (Some(a), Some(b)) => Some(
                Node::Cut { axis, share, near: Box::new(a), far: Box::new(b) },
            ),
            (Some(only), None) => Some(only),
            (None, Some(only)) => Some(only),
            (None, None) => None,
        },
    }
}

/// The boxes of a subtree, near half before far half at every cut.
pub open spec fn leaves(node: Node) -> Seq<usize>
    decreases node,
{
    match node {
        Node::Empty => Seq::empty(),
        Node::Leaf(index) => seq![index],
        Node::Cut { near, far, .. } => leaves(*near) + leaves(*far),
    }
}

/// The unplaced sections among the first `n`, stacked in order.
pub open spec fn stack_of(sections: Seq<SectionShape>, n: nat) -> Option<Node>
    decreases n,
{
    if n == 0 {
        None
    } else {
        let above = stack_of(sections, (n - 1) as nat);
        let section = sections[n - 1];
        if section.in_tree() && section.at is None {
            let leaf = Node::Leaf((n - 1) as usize);
            match above {
                None => Some(leaf),
                Some(above) => Some(
                    Node::Cut {
                        axis: Axis::Down,
                        share: 0,
                        near: Box::new(above),
                        far: Box::new(leaf),
                    },
                ),
            }
        } else {
            above
        }
    }
}

/// The cuts the placed sections among the first `n` ask for, in order.
pub open spec fn cuts_of(sections: Seq<SectionShape>, n: nat) -> Node
    decreases n,
{
    if n == 0 {
        Node::Empty
    } else {
        let before = cuts_of(sections, (n - 1) as nat);
        let section = sections[n - 1];
        match section.at {
            Some(at) if section.in_tree() => inserted(
                before,
                at.cuts@,
                at.share,
                (n - 1) as usize,
            ),
            _ => before,
        }
    }
}

/// The unplaced sections put in with the placed ones: into the first half a cut
/// left over, and under everything when none did.
pub open spec fn joined(tree: Node, stacked: Option<Node>) -> Node {
    match stacked {
        None => tree,
        Some(rest) => if has_hole(tree) {
            filled(tree, rest)
        } else {
            Node::Cut { axis: Axis::Down, share: 0, near: Box::new(tree), far: Box::new(rest) }
        },
    }
}

/// The tree a list of sections describes. `None` when no section takes a place
/// in it.
pub open spec fn planned(sections: Seq<SectionShape>) -> Option<Node> {
    pruned(joined(cuts_of(sections, sections.len()), stack_of(sections, sections.len())))
}

impl Node {
    pub fn hole(&self) -> (found: bool)
        ensures
            found == has_hole(*self),
        decreases self,
    {
        match self {
            Node::Empty => true,
            Node::Leaf(_) => false,
            Node::Cut { near, far, .. } => near.hole() || far.hole(),
        }
    }

    /// Take the first half a cut opened up and nothing filled.
    pub fn fill(self, rest: Node) -> (tree: Node)
        requires
            has_hole(self),
        ensures
            tree == filled(self, rest),
        decreases self,
    {
        match self {
            Node::Empty => rest,
            Node::Leaf(index) => Node::Leaf(index),
            Node::Cut { axis, share, near, far } => if near.hole() {
                Node::Cut { axis, share, near: Box::new((*near).fill(rest)), far }
            } else {
                Node::Cut { axis, share, near, far: Box::new((*far).fill(rest)) }
            },
        }
    }

    /// Drop the placeholders left where a path cut the panel but nothing filled
    /// the other half.
    pub fn prune(self) -> (tree: Option<Node>)
        ensures
            tree == pruned(self),
        decreases self,
    {
        match self {
            Node::Empty => None,
            Node::Leaf(index) => Some(Node::Leaf(index)),
            Node::Cut { axis, share, near, far } => match ((*near).prune(), (*far).prune()) {
                (Some(near), Some(far)) => Some(
                    Node::Cut { axis, share, near: Box::new(near), far: Box::new(far) },
                ),
                // A cut with one side empty is not a cut.
                (Some(only), None) => Some(only),
                (None, Some(only)) => Some(only),
                (None, None) => None,
            },
        }
    }
}

/// How many boxes a subtree holds.
pub fn leaf_count(node: &Node) -> (count: usize)
    requires
        leaves(*node).len() <= usize::MAX,
    ensures
        count == leaves(*node).len(),
    decreases node,
{
    match node {
        Node::Empty => 0,
        Node::Leaf(_) => 1,
        Node::Cut { near, far, .. } => leaf_count(near) + leaf_count(far),
    }
}

/// Build the tree from what each section says about where it sits.
///
/// Sections naming a place are put there first, so the shape is theirs. The
/// rest stack into whatever those cuts left over - which is why "left" alone is
/// a complete instruction: one box down the left, everything else filling the
/// right.
pub fn plan(sections: &[SectionShape]) -> (tree: Option<Node>)
    ensures
        tree == planned(sections@),
{
    let mut tree = Node::Empty;
    let mut stacked: Option<Node> = None;
    for index in 0..sections.len()
        invariant
            tree == cuts_of(sections@, index as nat),
            stacked == stack_of(sections@, index as nat),
    {
        let section = &sections[index];
        if section.count > 0 && section.center.is_none() {
            match &section.at {
                Some(at) => {
                    assert(at.cuts@.skip(0) =~= at.cuts@);
                    tree = tree.insert(&at.cuts, 0, at.share, index);
                },
                None => {
                    stacked = Some(
                        match stacked {
                            None => Node::Leaf(index),
                            Some(above) => Node::Cut {
                                axis: Axis::Down,
                                share: 0,
                                near: Box::new(above),
                                far: Box::new(Node::Leaf(index)),
                            },
                        },
                    );
                },
            }
        }
    }
    let whole = match stacked {
        None => tree,
        // The other half of a cut somebody made is exactly where the unplaced
        // sections belong.
        Some(rest) => if tree.hole() {
            tree.fill(rest)
        } else {
            Node::Cut { axis: Axis::Down, share: 0, near: Box::new(tree), far: Box::new(rest) }
        },
    };
    whole.prune()
}

/// Something counted over the boxes of a subtree.
pub open spec fn total(node: Node, f: spec_fn(usize) -> nat) -> nat
    decreases node,
{
    match node {
        Node::Empty => 0,
        Node::Leaf(index) => f(index),
        Node::Cut { near, far, .. } => total(*near, f) + total(*far, f),
    }
}

/// The same thing counted over the first `n` sections, for those that take a
/// place in the tree.
pub open spec fn tree_sum(sections: Seq<SectionShape>, f: spec_fn(usize) -> nat, n: nat) -> nat
    decreases n,
{
    if n == 0 {
        0
    } else {
        tree_sum(sections, f, (n - 1) as nat) + if sections[n - 1].in_tree() {
            f((n - 1) as usize)
        } else {
            0
        }
    }
}

proof fn lemma_inserted_total(
    node: Node,
    at: Seq<Side>,
    share: u32,
    leaf: usize,
    f: spec_fn(usize) -> nat,
)
    ensures
        total(inserted(node, at, share, leaf), f) == total(node, f) + f(leaf),
    decreases at.len(),
{
    reveal_with_fuel(total, 3);
    if at.len() > 0 {
        let (_, near, far) = cut_for(node, at[0]);
        assert(total(near, f) + total(far, f) == total(node, f));
        if at[0].first() {
            lemma_inserted_total(near, at.drop_first(), share, leaf, f);
        } else {
            lemma_inserted_total(far, at.drop_first(), share, leaf, f);
        }
    }
}

proof fn lemma_filled_total(node: Node, rest: Node, f: spec_fn(usize) -> nat)
    requires
        has_hole(node),
    ensures
        total(filled(node, rest), f) == total(node, f) + total(rest, f),
    decreases node,
{
    match node {
        Node::Cut { near, far, .. } => {
            if has_hole(*near) {
                lemma_filled_total(*near, rest, f);
            } else {
                lemma_filled_total(*far, rest, f);
            }
        },
        _ => {},
    }
}

/// Pruning only takes placeholders away: the boxes left are the boxes there
/// were, in the order they were in, and no placeholder is left among them.
pub proof fn pruning_keeps_the_boxes(node: Node)
    ensures
        match pruned(node) {
            None => leaves(node).len() == 0,
            Some(tree) => leaves(tree) == leaves(node) && leaves(tree).len() > 0 && !has_hole(tree),
        },
    decreases node,
{
    if let Node::Cut { near, far, .. } = node {
        pruning_keeps_the_boxes(*near);
        pruning_keeps_the_boxes(*far);
        assert(Seq::<usize>::empty() + leaves(*far) =~= leaves(*far));
        assert(leaves(*near) + Seq::<usize>::empty() =~= leaves(*near));
    }
}

proof fn lemma_pruned_total(node: Node, f: spec_fn(usize) -> nat)
    ensures
        match pruned(node) {
            None => total(node, f) == 0,
            Some(tree) => total(tree, f) == total(node, f),
        },
    decreases node,
{
    if let Node::Cut { near, far, .. } = node {
        lemma_pruned_total(*near, f);
        lemma_pruned_total(*far, f);
    }
}

proof fn lemma_prefix_total(sections: Seq<SectionShape>, n: nat, f: spec_fn(usize) -> nat)
    requires
        n <= sections.len(),
    ensures
        total(cuts_of(sections, n), f) + (match stack_of(sections, n) {
            None => 0,
            Some(rest) => total(rest, f),
        }) == tree_sum(sections, f, n),
    decreases n,
{
    reveal_with_fuel(total, 3);
    if n > 0 {
        let before = (n - 1) as nat;
        lemma_prefix_total(sections, before, f);
        let section = sections[n - 1];
        if let Some(at) = section.at {
            lemma_inserted_total(cuts_of(sections, before), at.cuts@, at.share, before as usize, f);
        }
    }
}

/// Whatever is counted over the boxes of the planned tree comes to what it
/// comes to over the sections that take a place in it: no section is dropped,
/// none is drawn twice, and no empty or centred one slips in.
pub proof fn plan_counts_every_section_once(
    sections: Seq<SectionShape>,
    f: spec_fn(usize) -> nat,
)
    ensures
        (match planned(sections) {
            None => 0,
            Some(tree) => total(tree, f),
        }) == tree_sum(sections, f, sections.len()),
{
    let tree = cuts_of(sections, sections.len());
    let stacked = stack_of(sections, sections.len());
    lemma_prefix_total(sections, sections.len(), f);
    if let Some(rest) = stacked {
        if has_hole(tree) {
            lemma_filled_total(tree, rest, f);
        }
    }
    lemma_pruned_total(joined(tree, stacked), f);
}

/// 1 for one section and 0 for every other.
pub open spec fn only(index: usize) -> spec_fn(usize) -> nat {
    |leaf: usize| if leaf == index { 1nat } else { 0nat }
}

/// How many boxes of a subtree are the box of one section.
pub open spec fn boxes_of(node: Node, index: usize) -> nat {
    total(node, only(index))
}

proof fn lemma_single(sections: Seq<SectionShape>, index: usize, n: nat)
    requires
        n <= sections.len() <= usize::MAX,
    ensures
        tree_sum(sections, only(index), n) == (if index < n && sections[index as int].in_tree() {
            1nat
        } else {
            0nat
        }),
    decreases n,
{
    if n > 0 {
        lemma_single(sections, index, (n - 1) as nat);
    }
}

/// Every section with something in it and no place in the centre block gets
/// exactly one box in the tree, and no other section gets any. Two boxes
/// claiming one spot stack rather than one of them vanishing.
pub proof fn plan_gives_every_section_one_box(sections: Seq<SectionShape>, index: usize)
    requires
        sections.len() <= usize::MAX,
    ensures
        (match planned(sections) {
            None => 0,
            Some(tree) => boxes_of(tree, index),
        }) == (if index < sections.len() && sections[index as int].in_tree() {
            1nat
        } else {
            0nat
        }),
{
    plan_counts_every_section_once(sections, only(index));
    lemma_single(sections, index, sections.len());
}

} // verus!
