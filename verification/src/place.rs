//! Columns handed out down the tree, and every box laid out in what it got.

use vstd::prelude::*;
use crate::at::WHOLE;
use crate::cells;
use crate::cells::{lay_box, Block, Plot, PlotView, SLIDES};
use crate::num;
use crate::num::{div_near, div_up};
use crate::section::SectionShape;
use crate::side::Axis;
use crate::tree;
use crate::tree::Node;

verus! {

/// Size in whole tiles: what a subtree wants before anything is divided up.
///
/// Counted in tiles because tile size is fixed and never changes with the item
/// count.
#[derive(Debug, Clone, Copy, PartialEq, Eq, Structural)]
pub struct Want {
    pub cols: usize,
    pub rows: usize,
}

/// The columns one box wants: what it names, or a column a tile up to the cap.
pub open spec fn box_cols(section: SectionShape, capped: nat) -> nat {
    if section.columns > 0 {
        section.columns as nat
    } else {
        num::larger(num::smaller(section.count as int, capped as int), 1) as nat
    }
}

/// The columns a subtree wants.
pub open spec fn want_cols(node: Node, sections: Seq<SectionShape>, capped: nat) -> nat
    decreases node,
{
    match node {
        Node::Empty => 0,
        Node::Leaf(index) => box_cols(sections[index as int], capped),
        Node::Cut { axis, near, far, .. } => {
            let a = want_cols(*near, sections, capped);
            let b = want_cols(*far, sections, capped);
            match axis {
                Axis::Across => a + b,
                Axis::Down => num::larger(a as int, b as int) as nat,
            }
        },
    }
}

/// The rows a subtree wants.
pub open spec fn want_rows(node: Node, sections: Seq<SectionShape>, capped: nat) -> nat
    decreases node,
{
    match node {
        Node::Empty => 0,
        Node::Leaf(index) => {
            let section = sections[index as int];
            num::larger(num::over(section.count as nat, box_cols(section, capped)) as int, 1) as nat
        },
        Node::Cut { axis, near, far, .. } => {
            let a = want_rows(*near, sections, capped);
            let b = want_rows(*far, sections, capped);
            match axis {
                Axis::Across => num::larger(a as int, b as int) as nat,
                Axis::Down => a + b,
            }
        },
    }
}

/// Whether something holds of the section of every box of a subtree.
pub open spec fn every(node: Node, p: spec_fn(usize) -> bool) -> bool
    decreases node,
{
    match node {
        Node::Empty => true,
        Node::Leaf(index) => p(index),
        Node::Cut { near, far, .. } => every(*near, p) && every(*far, p),
    }
}

/// Something counted over the boxes of a subtree is never more than a larger
/// thing counted over them.
pub proof fn lemma_total_monotone(
    node: Node,
    f: spec_fn(usize) -> nat,
    g: spec_fn(usize) -> nat,
    p: spec_fn(usize) -> bool,
)
    requires
        every(node, p),
        forall|i: usize| p(i) ==> #[trigger] f(i) <= g(i),
    ensures
        tree::total(node, f) <= tree::total(node, g),
    decreases node,
{
    if let Node::Cut { near, far, .. } = node {
        lemma_total_monotone(*near, f, g, p);
        lemma_total_monotone(*far, f, g, p);
    }
}

/// Which sections there are.
pub open spec fn below(n: nat) -> spec_fn(usize) -> bool {
    |i: usize| i < n
}

/// As much as a box of a section can ask for, in columns or in rows.
pub open spec fn appetite(sections: Seq<SectionShape>) -> spec_fn(usize) -> nat {
    |i: usize| (sections[i as int].columns + sections[i as int].count + 1) as nat
}

impl Node {
    /// What a subtree wants before anything is divided up.
    pub fn want(&self, sections: &[SectionShape], capped: usize) -> (want: Want)
        requires
            every(*self, below(sections@.len())),
            tree::total(*self, appetite(sections@)) <= usize::MAX,
        ensures
            want.cols == want_cols(*self, sections@, capped as nat),
            want.rows == want_rows(*self, sections@, capped as nat),
            want.cols <= tree::total(*self, appetite(sections@)),
            want.rows <= tree::total(*self, appetite(sections@)),
        decreases self,
    {
        match self {
            Node::Empty => Want { cols: 0, rows: 0 },
            Node::Leaf(index) => {
                assert(below(sections@.len())(*index));
                assert(tree::total(*self, appetite(sections@)) == appetite(sections@)(*index));
                let section = &sections[*index];
                let cols: usize = if section.columns > 0 {
                    section.columns
                } else if section.count < 1 || capped < 1 {
                    1
                } else if section.count < capped {
                    section.count
                } else {
                    capped
                };
                let rows: usize = div_up(section.count, cols);
                Want {
                    cols,
                    rows: if rows < 1 {
                        1
                    } else {
                        rows
                    },
                }
            },
            Node::Cut { axis, near, far, .. } => {
                let a = near.want(sections, capped);
                let b = far.want(sections, capped);
                match axis {
                    Axis::Across => Want {
                        cols: a.cols + b.cols,
                        rows: if a.rows >= b.rows {
                            a.rows
                        } else {
                            b.rows
                        },
                    },
                    Axis::Down => Want {
                        cols: if a.cols >= b.cols {
                            a.cols
                        } else {
                            b.cols
                        },
                        rows: a.rows + b.rows,
                    },
                }
            },
        }
    }
}

/// How a column budget splits between two halves. A share that was named wins;
/// otherwise they divide it in proportion to what they hold. Neither half ever
/// gets none.
pub open spec fn divided(budget: nat, near: nat, far: nat, share: nat) -> nat {
    if budget < 2 {
        1
    } else {
        let split = if share > 0 {
            num::nearest(budget * share, WHOLE as nat)
        } else {
            num::nearest(budget * near, num::larger((near + far) as int, 1) as nat)
        };
        num::between(split as int, 1, budget - 1) as nat
    }
}

/// Split a column budget between two halves.
pub fn divide(budget: usize, near: usize, far: usize, share: u32) -> (split: usize)
    requires
        near + far <= usize::MAX,
    ensures
        split == divided(budget as nat, near as nat, far as nat, share as nat),
        1 <= split,
        budget >= 2 ==> split < budget,
{
    if budget < 2 {
        return 1;
    }
    let wide: u128 = budget as u128;
    let split: u128 = if share > 0 {
        assert(wide * share <= 0xFFFF_FFFF_FFFF_FFFF * 0xFFFF_FFFF) by (nonlinear_arith)
            requires
                wide <= 0xFFFF_FFFF_FFFF_FFFF,
                share <= 0xFFFF_FFFF,
        ;
        div_near(wide * share as u128, WHOLE as u128)
    } else {
        let sum: usize = near + far;
        let whole: usize = if sum < 1 {
            1
        } else {
            sum
        };
        let held: u128 = near as u128;
        assert(0 <= wide * held <= 0xFFFF_FFFF_FFFF_FFFF * 0xFFFF_FFFF_FFFF_FFFF)
            by (nonlinear_arith)
            requires
                0 <= wide <= 0xFFFF_FFFF_FFFF_FFFF,
                0 <= held <= 0xFFFF_FFFF_FFFF_FFFF,
        ;
        let ghost n = wide * held;
        assert(n / whole as int <= n) by (nonlinear_arith)
            requires
                n >= 0,
                whole >= 1,
        ;
        div_near(wide * held, whole as u128)
    };
    if split < 1 {
        1
    } else if split > (budget - 1) as u128 {
        budget - 1
    } else {
        split as usize
    }
}

/// What every box is laid out against, as a value.
pub struct GroundView {
    pub sections: Seq<SectionShape>,
    pub capped: nat,
    pub clear: nat,
    pub holes: Seq<Block>,
}

/// What every box is laid out against.
pub struct Ground<'a> {
    pub sections: &'a [SectionShape],
    /// The most columns a box of no set width asks for.
    pub capped: usize,
    /// Clear rows between one box and the box stacked under it. Never a
    /// fraction of one: the panel is one lattice and a box cannot be moved off
    /// it.
    pub clear: usize,
    /// What the grid is not allowed to fill. Tiles flow around it; the tree
    /// never knows it is there.
    pub holes: &'a Vec<Block>,
}

impl<'a> View for Ground<'a> {
    type V = GroundView;

    open spec fn view(&self) -> GroundView {
        GroundView {
            sections: self.sections@,
            capped: self.capped as nat,
            clear: self.clear as nat,
            holes: self.holes@,
        }
    }
}

/// The row the box stacked under one ending on a line starts at: the next row
/// of the panel's one lattice, plus whatever whole rows of clearance were asked
/// for.
pub open spec fn next_row(line: int, clear: int) -> int {
    (line + 1) / 2 + clear
}

/// A subtree laid out from a cell in some number of columns: its boxes, near
/// half before far half at every cut, and the line it reaches down to.
///
/// Only columns are divided. Down the panel a box takes the rows it needs.
pub open spec fn placed(
    node: Node,
    ground: GroundView,
    row: int,
    col: int,
    cols: int,
) -> (Seq<PlotView>, int)
    decreases node,
{
    match node {
        Node::Empty => (Seq::empty(), 2 * row),
        Node::Leaf(index) => {
            let plot = cells::laid(
                ground.holes,
                index as int,
                ground.sections[index as int].count as nat,
                row,
                col,
                num::larger(cols, 1),
            );
            (seq![plot], plot.bottom())
        },
        Node::Cut { axis: Axis::Across, share, near, far } => {
            let split = split_of(node, ground, cols);
            let (left, left_line) = placed(*near, ground, row, col, split);
            let (right, right_line) = placed(
                *far,
                ground,
                row,
                col + split,
                num::larger(cols - split, 0),
            );
            (left + right, num::larger(left_line, right_line))
        },
        Node::Cut { axis: Axis::Down, near, far, .. } => {
            let (above, line) = placed(*near, ground, row, col, cols);
            let (under, last) = placed(
                *far,
                ground,
                next_row(line, ground.clear as int),
                col,
                cols,
            );
            (above + under, last)
        },
    }
}

/// How many of a subtree's columns the near half of its first cut gets.
pub open spec fn split_of(node: Node, ground: GroundView, cols: int) -> int {
    match node {
        Node::Cut { share, near, far, .. } => divided(
            cols as nat,
            want_cols(*near, ground.sections, ground.capped),
            want_cols(*far, ground.sections, ground.capped),
            share as nat,
        ) as int,
        _ => cols,
    }
}

/// The most rows a box can reach over, counting the clear ones under it.
pub open spec fn reach(sections: Seq<SectionShape>, clear: nat) -> spec_fn(usize) -> nat {
    |i: usize| (SLIDES + cells::ceiling(sections[i as int].count as nat) + clear) as nat
}

/// How many times a subtree is cut.
pub open spec fn cut_count(node: Node) -> nat
    decreases node,
{
    match node {
        Node::Cut { near, far, .. } => 1 + cut_count(*near) + cut_count(*far),
        _ => 0,
    }
}

impl Node {
    /// Hand out columns down the tree, then let each box lay itself out in what
    /// it was given. The boxes go on the end of `out`; the line the subtree
    /// reaches is returned.
    #[verifier::spinoff_prover]
    #[verifier::rlimit(50)]
    pub fn place(
        &self,
        ground: &Ground<'_>,
        row: usize,
        col: usize,
        cols: usize,
        out: &mut Vec<Plot>,
    ) -> (line: usize)
        requires
            !tree::has_hole(*self),
            every(*self, below(ground.sections@.len())),
            tree::total(*self, appetite(ground.sections@)) <= usize::MAX,
            col + cols + cut_count(*self) < usize::MAX,
            2 * (row + tree::total(*self, reach(ground.sections@, ground.clear as nat)))
                < usize::MAX,
            forall|i: usize|
                i < ground.sections@.len() ==> #[trigger] cells::ceiling(
                    ground.sections@[i as int].count as nat,
                ) + col + cols + cut_count(*self) < usize::MAX,
        ensures
            line == placed(*self, ground@, row as int, col as int, cols as int).1,
            views(final(out)@) == views(old(out)@) + placed(
                *self,
                ground@,
                row as int,
                col as int,
                cols as int,
            ).0,
            next_row(line as int, ground.clear as int) <= row + tree::total(
                *self,
                reach(ground.sections@, ground.clear as nat),
            ),
        decreases self,
    {
        match self {
            Node::Empty => {
                assert(views(out@) + Seq::<PlotView>::empty() =~= views(out@));
                2 * row
            },
            Node::Leaf(index) => {
                assert(below(ground.sections@.len())(*index));
                let count = ground.sections[*index].count;
                let width: usize = if cols < 1 {
                    1
                } else {
                    cols
                };
                assert(tree::total(*self, reach(ground.sections@, ground.clear as nat))
                    == reach(ground.sections@, ground.clear as nat)(*index));
                let plot = lay_box(ground.holes, *index, count, row, col, width);
                proof {
                    cells::lemma_laid_bounded(
                        ground.holes@,
                        *index as int,
                        count as nat,
                        row as int,
                        col as int,
                        width as int,
                    );
                }
                let line: usize = if plot.rows == 0 {
                    2 * plot.top
                } else {
                    2 * (plot.top + plot.rows) - 1
                };
                let ghost before = out@;
                out.push(plot);
                assert(views(out@) =~= views(before) + seq![plot@]);
                line
            },
            Node::Cut { axis: Axis::Across, share, near, far } => {
                let a = near.want(ground.sections, ground.capped);
                let b = far.want(ground.sections, ground.capped);
                let split = divide(cols, a.cols, b.cols, *share);
                let ghost before = views(out@);
                let left = near.place(ground, row, col, split, out);
                let right = far.place(ground, row, col + split, cols.saturating_sub(split), out);
                assert(views(out@) =~= before + placed(
                    *self,
                    ground@,
                    row as int,
                    col as int,
                    cols as int,
                ).0);
                if left >= right {
                    left
                } else {
                    right
                }
            },
            Node::Cut { axis: Axis::Down, near, far, .. } => {
                let ghost before = views(out@);
                let above = near.place(ground, row, col, cols, out);
                let next: usize = (above + 1) / 2 + ground.clear;
                let under = far.place(ground, next, col, cols, out);
                assert(views(out@) =~= before + placed(
                    *self,
                    ground@,
                    row as int,
                    col as int,
                    cols as int,
                ).0);
                under
            },
        }
    }
}

/// A subtree reaches no further down than its boxes can.
pub proof fn lemma_placed_bounded(
    node: Node,
    ground: GroundView,
    row: int,
    col: int,
    cols: int,
)
    requires
        0 <= row,
        0 <= cols <= usize::MAX,
        !tree::has_hole(node),
        every(node, below(ground.sections.len())),
        forall|i: usize|
            i < ground.sections.len() ==> #[trigger] cells::ceiling(
                ground.sections[i as int].count as nat,
            ) <= usize::MAX,
    ensures
        2 * row <= placed(node, ground, row, col, cols).1,
        next_row(placed(node, ground, row, col, cols).1, ground.clear as int) <= row + tree::total(
            node,
            reach(ground.sections, ground.clear),
        ),
    decreases node,
{
    match node {
        Node::Empty => {},
        Node::Leaf(index) => {
            assert(below(ground.sections.len())(index));
            let count = ground.sections[index as int].count as nat;
            assert(cells::ceiling(count) <= usize::MAX);
            cells::lemma_laid_bounded(
                ground.holes,
                index as int,
                count,
                row,
                col,
                num::larger(cols, 1),
            );
            assert(tree::total(node, reach(ground.sections, ground.clear)) == reach(
                ground.sections,
                ground.clear,
            )(index));
        },
        Node::Cut { axis: Axis::Across, near, far, .. } => {
            let split = split_of(node, ground, cols);
            lemma_placed_bounded(*near, ground, row, col, split);
            lemma_placed_bounded(*far, ground, row, col + split, num::larger(cols - split, 0));
        },
        Node::Cut { axis: Axis::Down, near, far, .. } => {
            lemma_placed_bounded(*near, ground, row, col, cols);
            let line = placed(*near, ground, row, col, cols).1;
            lemma_placed_bounded(*far, ground, next_row(line, ground.clear as int), col, cols);
        },
    }
}

/// One box of a laid-out subtree, against what the subtree was given.
pub open spec fn inside(
    plot: PlotView,
    sections: Seq<SectionShape>,
    row: int,
    col: int,
    right: int,
    low: int,
) -> bool {
    &&& 0 <= plot.section < sections.len()
    &&& row <= plot.row <= plot.top
    &&& 0 <= plot.rows
    &&& plot.top + plot.rows <= low
    &&& col <= plot.col
    &&& 1 <= plot.cols
    &&& plot.col + plot.cols <= right
    &&& plot.slots.len() <= sections[plot.section].count
    &&& plot.filled.len() == plot.rows * plot.cols
    &&& forall|j: int|
        0 <= j < plot.slots.len() ==> (#[trigger] plot.slots[j]) as int / plot.cols < plot.rows
}

/// A laid-out subtree has a box for each of its leaves, in their order, and
/// every box lies where the subtree was put.
pub proof fn lemma_placed_inside(
    node: Node,
    ground: GroundView,
    row: int,
    col: int,
    cols: int,
)
    requires
        0 <= row,
        0 <= col,
        0 <= cols < usize::MAX,
        !tree::has_hole(node),
        every(node, below(ground.sections.len())),
        forall|i: usize|
            i < ground.sections.len() ==> #[trigger] cells::ceiling(
                ground.sections[i as int].count as nat,
            ) <= usize::MAX,
    ensures
        ({
            let plots = placed(node, ground, row, col, cols).0;
            &&& plots.len() == tree::leaves(node).len()
            &&& forall|i: int|
                #![trigger plots[i]]
                0 <= i < plots.len() ==> plots[i].section == tree::leaves(node)[i] && inside(
                    plots[i],
                    ground.sections,
                    row,
                    col,
                    col + num::larger(cols, 1) + cut_count(node),
                    row + tree::total(node, reach(ground.sections, ground.clear)),
                )
        }),
    decreases node,
{
    match node {
        Node::Empty => {},
        Node::Leaf(index) => {
            assert(below(ground.sections.len())(index));
            let count = ground.sections[index as int].count as nat;
            assert(cells::ceiling(count) <= usize::MAX);
            cells::lemma_laid_bounded(
                ground.holes,
                index as int,
                count,
                row,
                col,
                num::larger(cols, 1),
            );
            assert(tree::total(node, reach(ground.sections, ground.clear)) == reach(
                ground.sections,
                ground.clear,
            )(index));
        },
        Node::Cut { axis: Axis::Across, near, far, .. } => {
            let split = split_of(node, ground, cols);
            let spare = num::larger(cols - split, 0);
            lemma_placed_inside(*near, ground, row, col, split);
            lemma_placed_inside(*far, ground, row, col + split, spare);
            let left = placed(*near, ground, row, col, split).0;
            let right = placed(*far, ground, row, col + split, spare).0;
            let plots = placed(node, ground, row, col, cols).0;
            assert(plots == left + right);
            assert forall|i: int| #![trigger plots[i]] 0 <= i < plots.len() implies plots[i].section
                == tree::leaves(node)[i] && inside(
                plots[i],
                ground.sections,
                row,
                col,
                col + num::larger(cols, 1) + cut_count(node),
                row + tree::total(node, reach(ground.sections, ground.clear)),
            ) by {
                if i < left.len() {
                    assert(plots[i] == left[i]);
                } else {
                    assert(plots[i] == right[i - left.len()]);
                }
            }
        },
        Node::Cut { axis: Axis::Down, near, far, .. } => {
            lemma_placed_inside(*near, ground, row, col, cols);
            lemma_placed_bounded(*near, ground, row, col, cols);
            let line = placed(*near, ground, row, col, cols).1;
            let next = next_row(line, ground.clear as int);
            lemma_placed_inside(*far, ground, next, col, cols);
            let above = placed(*near, ground, row, col, cols).0;
            let under = placed(*far, ground, next, col, cols).0;
            let plots = placed(node, ground, row, col, cols).0;
            assert(plots == above + under);
            assert forall|i: int| #![trigger plots[i]] 0 <= i < plots.len() implies plots[i].section
                == tree::leaves(node)[i] && inside(
                plots[i],
                ground.sections,
                row,
                col,
                col + num::larger(cols, 1) + cut_count(node),
                row + tree::total(node, reach(ground.sections, ground.clear)),
            ) by {
                if i < above.len() {
                    assert(plots[i] == above[i]);
                } else {
                    assert(plots[i] == under[i - above.len()]);
                }
            }
        },
    }
}

/// A run of boxes, each as a value.
pub open spec fn views(plots: Seq<Plot>) -> Seq<PlotView> {
    plots.map_values(|plot: Plot| plot@)
}

} // verus!
