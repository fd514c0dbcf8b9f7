//! What holds of every box laid out on the lattice.

use vstd::prelude::*;
use crate::cells;
use crate::cells::{Block, PlotView};
use crate::num;
use crate::place;
use crate::place::GroundView;
use crate::side::Axis;
use crate::tree;
use crate::tree::Node;

verus! {

impl PlotView {
    /// The row of the lattice a box's `j`th tile stands on.
    pub open spec fn tile_row(self, j: int) -> int {
        self.top + self.slots[j] as int / self.cols
    }

    /// The column of the lattice a box's `j`th tile stands on.
    pub open spec fn tile_col(self, j: int) -> int {
        self.col + self.slots[j] as int % self.cols
    }

    /// Whether a cell is one of the rows and columns a box takes.
    pub open spec fn takes(self, row: int, col: int) -> bool {
        self.top <= row < self.top + self.rows && self.col <= col < self.col + self.cols
    }

    /// Whether two boxes have no cell in common.
    pub open spec fn clear_of(self, other: PlotView) -> bool {
        ||| self.col + self.cols <= other.col
        ||| other.col + other.cols <= self.col
        ||| self.top + self.rows <= other.row
        ||| other.top + other.rows <= self.row
    }
}

/// Whether one cell is read before another: left to right, then down.
pub open spec fn read_before(a: (int, int), b: (int, int)) -> bool {
    a.0 < b.0 || a.0 == b.0 && a.1 < b.1
}

proof fn lemma_slots_read(a: int, b: int, cols: int)
    requires
        0 <= a < b,
        cols >= 1,
    ensures
        read_before((a / cols, a % cols), (b / cols, b % cols)),
        0 <= a % cols < cols,
        0 <= b % cols < cols,
        0 <= a / cols,
{
    assert(a / cols < b / cols || a / cols == b / cols && a % cols < b % cols) by (nonlinear_arith)
        requires
            0 <= a < b,
            cols >= 1,
    ;
    assert(0 <= a % cols < cols && 0 <= b % cols < cols && 0 <= a / cols) by (nonlinear_arith)
        requires
            0 <= a < b,
            cols >= 1,
    ;
}

/// Tiles are read left to right and then down wherever the box sits and
/// whatever it flows around: each stands on a free cell of its own box, after
/// the tile before it.
pub proof fn tiles_read_in_order_around_the_holes(
    holes: Seq<Block>,
    section: int,
    count: nat,
    row: int,
    col: int,
    cols: int,
)
    requires
        1 <= cols <= usize::MAX,
        cells::ceiling(count) <= usize::MAX,
    ensures
        ({
            let plot = cells::laid(holes, section, count, row, col, cols);
            &&& forall|j: int|
                #![trigger plot.slots[j]]
                0 <= j < plot.slots.len() ==> plot.takes(plot.tile_row(j), plot.tile_col(j))
                    && !cells::blocked(holes, plot.tile_row(j), plot.tile_col(j))
            &&& forall|i: int, j: int|
                #![trigger plot.slots[i], plot.slots[j]]
                0 <= i < j < plot.slots.len() ==> read_before(
                    (plot.tile_row(i), plot.tile_col(i)),
                    (plot.tile_row(j), plot.tile_col(j)),
                )
        }),
{
    let plot = cells::laid(holes, section, count, row, col, cols);
    cells::lemma_laid_bounded(holes, section, count, row, col, cols);
    cells::lemma_taken_slots(holes, count, plot.top, col, cols);
    assert forall|j: int| #![trigger plot.slots[j]] 0 <= j < plot.slots.len() implies plot.takes(
        plot.tile_row(j),
        plot.tile_col(j),
    ) && !cells::blocked(holes, plot.tile_row(j), plot.tile_col(j)) by {
        let slot = plot.slots[j] as int;
        assert(slot / cols < plot.rows);
        lemma_slots_read(slot, slot + 1, cols);
        assert(!cells::slot_blocked(holes, plot.top, col, cols, slot));
    }
    assert forall|i: int, j: int|
        #![trigger plot.slots[i], plot.slots[j]]
        0 <= i < j < plot.slots.len() implies read_before(
        (plot.tile_row(i), plot.tile_col(i)),
        (plot.tile_row(j), plot.tile_col(j)),
    ) by {
        assert(plot.slots[i] < plot.slots[j]);
        lemma_slots_read(plot.slots[i] as int, plot.slots[j] as int, cols);
    }
}

proof fn lemma_all_free(holes: Seq<Block>, top: int, col: int, cols: int, n: nat)
    requires
        n <= usize::MAX,
        forall|s: int| 0 <= s < n ==> !#[trigger] cells::slot_blocked(holes, top, col, cols, s),
    ensures
        cells::free_slots(holes, top, col, cols, n).len() == n,
        forall|j: int|
            0 <= j < n ==> #[trigger] cells::free_slots(holes, top, col, cols, n)[j] == j,
    decreases n,
{
    if n > 0 {
        lemma_all_free(holes, top, col, cols, (n - 1) as nat);
        assert(!cells::slot_blocked(holes, top, col, cols, n - 1));
    }
}

/// A box with nothing in its way fills its cells from the first on, and stands
/// where it was put.
pub proof fn a_box_with_nothing_in_its_way_fills_its_cells(
    section: int,
    count: nat,
    row: int,
    col: int,
    cols: int,
)
    requires
        1 <= cols <= usize::MAX,
        cells::ceiling(count) <= usize::MAX,
    ensures
        ({
            let plot = cells::laid(Seq::empty(), section, count, row, col, cols);
            &&& plot.top == row
            &&& plot.slots.len() == count
            &&& forall|j: int| 0 <= j < count ==> #[trigger] plot.slots[j] == j
            &&& plot.rows == num::over(count, cols as nat)
        }),
{
    let holes = Seq::<Block>::empty();
    let plot = cells::laid(holes, section, count, row, col, cols);
    let limit = cells::ceiling(count);
    lemma_all_free(holes, row, col, cols, limit);
    let free = cells::free_slots(holes, row, col, cols, limit);
    assert(plot.slots =~= free.take(count as int));
    assert forall|j: int| 0 <= j < count implies #[trigger] plot.slots[j] == j by {
        assert(free[j] == j);
    }
    if count > 0 {
        assert(plot.slots.last() == plot.slots[count - 1]);
        assert((count - 1) / cols + 1 == (count + cols - 1) / cols) by (nonlinear_arith)
            requires
                count >= 1,
                cols >= 1,
        ;
    } else {
        assert((cols - 1) / cols == 0) by (nonlinear_arith)
            requires
                cols >= 1,
        ;
    }
}

/// The slots among the first `n` of a box that something stands on.
pub open spec fn lost_slots(holes: Seq<Block>, top: int, col: int, cols: int, n: nat) -> nat
    decreases n,
{
    if n == 0 {
        0
    } else {
        lost_slots(holes, top, col, cols, (n - 1) as nat) + if cells::slot_blocked(
            holes,
            top,
            col,
            cols,
            n - 1,
        ) {
            1nat
        } else {
            0nat
        }
    }
}

proof fn lemma_free_or_lost(holes: Seq<Block>, top: int, col: int, cols: int, n: nat)
    ensures
        cells::free_slots(holes, top, col, cols, n).len() + lost_slots(holes, top, col, cols, n)
            == n,
    decreases n,
{
    if n > 0 {
        lemma_free_or_lost(holes, top, col, cols, (n - 1) as nat);
    }
}

/// The cells all of some holes stand on, counted once for each.
pub open spec fn area(holes: Seq<Block>) -> nat
    decreases holes.len(),
{
    if holes.len() == 0 {
        0
    } else {
        area(holes.drop_last()) + (holes.last().rows * holes.last().cols) as nat
    }
}

/// How many of the first `n` slots one hole stands on.
spec fn lost_to(hole: Block, top: int, col: int, cols: int, n: nat) -> nat {
    lost_slots(seq![hole], top, col, cols, n)
}

proof fn lemma_one_hole(hole: Block, row: int, col: int)
    ensures
        cells::blocked(seq![hole], row, col) == hole.stands_on(row, col),
{
    let one = seq![hole];
    if hole.stands_on(row, col) {
        assert(one[0].stands_on(row, col));
    }
}

proof fn lemma_blocked_split(holes: Seq<Block>, row: int, col: int)
    requires
        holes.len() > 0,
    ensures
        cells::blocked(holes, row, col) ==> cells::blocked(holes.drop_last(), row, col)
            || holes.last().stands_on(row, col),
{
    if cells::blocked(holes, row, col) {
        let i = choose|i: int| 0 <= i < holes.len() && #[trigger] holes[i].stands_on(row, col);
        if i < holes.len() - 1 {
            assert(holes.drop_last()[i].stands_on(row, col));
        }
    }
}

proof fn lemma_lost_split(holes: Seq<Block>, top: int, col: int, cols: int, n: nat)
    requires
        holes.len() > 0,
    ensures
        lost_slots(holes, top, col, cols, n) <= lost_slots(holes.drop_last(), top, col, cols, n)
            + lost_to(holes.last(), top, col, cols, n),
    decreases n,
{
    if n > 0 {
        lemma_lost_split(holes, top, col, cols, (n - 1) as nat);
        let (row, at) = (top + (n - 1) / cols, col + (n - 1) % cols);
        lemma_blocked_split(holes, row, at);
        lemma_one_hole(holes.last(), row, at);
    }
}

/// How many whole rows of one hole lie above a row.
spec fn rows_above(hole: Block, row: int) -> int {
    num::between(row - hole.row, 0, hole.rows as int)
}

/// How many columns of one hole lie before a column.
spec fn cols_before(hole: Block, at: int) -> int {
    num::between(at - hole.col, 0, hole.cols as int)
}

/// Of the first `n` slots, a hole stands on its cells in the whole rows above
/// the last one and on those before the last slot in that row.
proof fn lemma_lost_to(hole: Block, top: int, col: int, cols: int, n: nat)
    requires
        cols >= 1,
    ensures
        ({
            let (row, at) = (n as int / cols, n as int % cols);
            let whole = rows_above(hole, top + row) - rows_above(hole, top);
            let part = cols_before(hole, col + at) - cols_before(hole, col);
            let across = cols_before(hole, col + cols) - cols_before(hole, col);
            lost_to(hole, top, col, cols, n) == whole * across + (if hole.row <= top + row
                < hole.row + hole.rows {
                part
            } else {
                0
            })
        }),
    decreases n,
{
    let across = cols_before(hole, col + cols) - cols_before(hole, col);
    if n == 0 {
        assert(0int / cols == 0 && 0int % cols == 0) by (nonlinear_arith)
            requires
                cols >= 1,
        ;
        assert(0 * across == 0);
    } else {
        lemma_lost_to(hole, top, col, cols, (n - 1) as nat);
        let (row, at) = ((n - 1) / cols, (n - 1) % cols);
        assert(0 <= at < cols && row >= 0) by (nonlinear_arith)
            requires
                at == (n - 1) % cols,
                row == (n - 1) / cols,
                n >= 1,
                cols >= 1,
        ;
        lemma_one_hole(hole, top + row, col + at);
        let whole = rows_above(hole, top + row) - rows_above(hole, top);
        vstd::arithmetic::div_mod::lemma_fundamental_div_mod(n - 1, cols);
        if at + 1 < cols {
            vstd::arithmetic::div_mod::lemma_fundamental_div_mod_converse(
                n as int,
                cols,
                row,
                at + 1,
            );
        } else {
            assert(cols * (row + 1) == cols * row + cols) by (nonlinear_arith);
            vstd::arithmetic::div_mod::lemma_fundamental_div_mod_converse(
                n as int,
                cols,
                row + 1,
                0,
            );
            assert((whole + 1) * across == whole * across + across) by (nonlinear_arith);
        }
    }
}

proof fn lemma_lost_to_bounded(hole: Block, top: int, col: int, cols: int, n: nat)
    requires
        cols >= 1,
    ensures
        lost_to(hole, top, col, cols, n) <= hole.rows * hole.cols,
{
    lemma_lost_to(hole, top, col, cols, n);
    let (row, at) = (n as int / cols, n as int % cols);
    assert(0 <= at < cols && row >= 0) by (nonlinear_arith)
        requires
            at == n as int % cols,
            row == n as int / cols,
            cols >= 1,
    ;
    let whole = rows_above(hole, top + row) - rows_above(hole, top);
    let part = cols_before(hole, col + at) - cols_before(hole, col);
    let across = cols_before(hole, col + cols) - cols_before(hole, col);
    assert(0 <= part <= across <= hole.cols);
    if hole.row <= top + row < hole.row + hole.rows {
        assert(0 <= whole < hole.rows);
        assert(whole * across + across <= hole.rows * hole.cols) by (nonlinear_arith)
            requires
                0 <= whole,
                whole + 1 <= hole.rows,
                0 <= across <= hole.cols,
        ;
    } else {
        assert(whole * across <= hole.rows * hole.cols) by (nonlinear_arith)
            requires
                0 <= whole <= hole.rows,
                0 <= across <= hole.cols,
        ;
    }
}

proof fn lemma_lost_bounded(holes: Seq<Block>, top: int, col: int, cols: int, n: nat)
    requires
        cols >= 1,
    ensures
        lost_slots(holes, top, col, cols, n) <= area(holes),
    decreases holes.len(),
{
    if holes.len() == 0 {
        lemma_none_lost(holes, top, col, cols, n);
    } else {
        lemma_lost_split(holes, top, col, cols, n);
        lemma_lost_bounded(holes.drop_last(), top, col, cols, n);
        lemma_lost_to_bounded(holes.last(), top, col, cols, n);
    }
}

proof fn lemma_none_lost(holes: Seq<Block>, top: int, col: int, cols: int, n: nat)
    requires
        holes.len() == 0,
    ensures
        lost_slots(holes, top, col, cols, n) == 0,
    decreases n,
{
    if n > 0 {
        lemma_none_lost(holes, top, col, cols, (n - 1) as nat);
    }
}

/// Every tile of a box gets a cell, however the holes lie, as long as they take
/// no more than three cells for each of its tiles and sixty-four besides.
pub proof fn every_tile_finds_a_cell(
    holes: Seq<Block>,
    section: int,
    count: nat,
    row: int,
    col: int,
    cols: int,
)
    requires
        1 <= cols <= usize::MAX,
        cells::ceiling(count) <= usize::MAX,
        area(holes) <= 3 * count + 64,
    ensures
        cells::laid(holes, section, count, row, col, cols).slots.len() == count,
{
    let plot = cells::laid(holes, section, count, row, col, cols);
    lemma_free_or_lost(holes, plot.top, col, cols, cells::ceiling(count));
    lemma_lost_bounded(holes, plot.top, col, cols, cells::ceiling(count));
}

/// A box that fits on one row is never broken around a hole while there is a
/// row in reach it can be read across, and is left where it was put when it was
/// put on one.
pub proof fn a_bar_slides_past_a_hole(
    holes: Seq<Block>,
    section: int,
    count: nat,
    row: int,
    col: int,
    cols: int,
)
    requires
        0 < count <= cols,
    ensures
        ({
            let plot = cells::laid(holes, section, count, row, col, cols);
            &&& row <= plot.top <= row + cells::SLIDES
            &&& plot.top < row + cells::SLIDES ==> !cells::straddled(holes, plot.top, col, cols)
            &&& forall|r: int|
                row <= r < plot.top ==> #[trigger] cells::straddled(holes, r, col, cols)
        }),
{
    lemma_slid(holes, row, col, cols, cells::SLIDES as nat);
    if holes.len() == 0 {
        assert(!cells::straddled(holes, row, col, cols));
    }
}

proof fn lemma_slid(holes: Seq<Block>, row: int, col: int, cols: int, most: nat)
    ensures
        ({
            let slid = cells::slide(holes, row, col, cols, most);
            &&& slid <= most
            &&& slid < most ==> !cells::straddled(holes, row + slid, col, cols)
            &&& forall|r: int|
                row <= r < row + slid ==> #[trigger] cells::straddled(holes, r, col, cols)
        }),
    decreases most,
{
    if most > 0 && cells::straddled(holes, row, col, cols) {
        lemma_slid(holes, row + 1, col, cols, (most - 1) as nat);
    }
}

/// How many columns a subtree reaches over when it is given some number of
/// them. A box takes at least one, so a cut across too few columns reaches past
/// what it was given.
pub open spec fn columns_taken(node: Node, ground: GroundView, cols: int) -> int
    decreases node,
{
    match node {
        Node::Empty => 0,
        Node::Leaf(_) => num::larger(cols, 1),
        Node::Cut { axis: Axis::Across, near, far, .. } => {
            let split = place::split_of(node, ground, cols);
            num::larger(
                columns_taken(*near, ground, split),
                split + columns_taken(*far, ground, num::larger(cols - split, 0)),
            )
        },
        Node::Cut { axis: Axis::Down, near, far, .. } => num::larger(
            columns_taken(*near, ground, cols),
            columns_taken(*far, ground, cols),
        ),
    }
}

/// Whether the near half of every cut across a subtree keeps to the columns it
/// is given.
pub open spec fn keeps_to_its_columns(node: Node, ground: GroundView, cols: int) -> bool
    decreases node,
{
    match node {
        Node::Cut { axis: Axis::Across, near, far, .. } => {
            let split = place::split_of(node, ground, cols);
            &&& columns_taken(*near, ground, split) <= split
            &&& keeps_to_its_columns(*near, ground, split)
            &&& keeps_to_its_columns(*far, ground, num::larger(cols - split, 0))
        },
        Node::Cut { axis: Axis::Down, near, far, .. } => {
            &&& keeps_to_its_columns(*near, ground, cols)
            &&& keeps_to_its_columns(*far, ground, cols)
        },
        _ => true,
    }
}

/// Whether every cut across a subtree is given a column for each half.
pub open spec fn roomy(node: Node, ground: GroundView, cols: int) -> bool
    decreases node,
{
    match node {
        Node::Cut { axis: Axis::Across, near, far, .. } => {
            let split = place::split_of(node, ground, cols);
            &&& cols >= 2
            &&& roomy(*near, ground, split)
            &&& roomy(*far, ground, cols - split)
        },
        Node::Cut { axis: Axis::Down, near, far, .. } => {
            &&& roomy(*near, ground, cols)
            &&& roomy(*far, ground, cols)
        },
        _ => cols >= 1,
    }
}

/// Neither half of a cut is ever squeezed out: a budget of two columns or more
/// leaves at least one for each.
pub proof fn neither_half_of_a_cut_is_squeezed_out(budget: nat, near: nat, far: nat, share: nat)
    requires
        budget >= 2,
    ensures
        1 <= place::divided(budget, near, far, share) < budget,
{
}

/// A subtree with a column for each half of every cut keeps to the columns it
/// was given.
pub proof fn a_roomy_subtree_keeps_to_its_columns(node: Node, ground: GroundView, cols: int)
    requires
        roomy(node, ground, cols),
        !tree::has_hole(node),
    ensures
        keeps_to_its_columns(node, ground, cols),
        1 <= columns_taken(node, ground, cols) <= cols,
    decreases node,
{
    match node {
        Node::Cut { axis: Axis::Across, near, far, .. } => {
            let split = place::split_of(node, ground, cols);
            a_roomy_subtree_keeps_to_its_columns(*near, ground, split);
            a_roomy_subtree_keeps_to_its_columns(*far, ground, cols - split);
        },
        Node::Cut { axis: Axis::Down, near, far, .. } => {
            a_roomy_subtree_keeps_to_its_columns(*near, ground, cols);
            a_roomy_subtree_keeps_to_its_columns(*far, ground, cols);
        },
        _ => {},
    }
}

/// A subtree whose boxes can be counted on this machine.
pub open spec fn countable(node: Node, ground: GroundView) -> bool {
    &&& !tree::has_hole(node)
    &&& place::every(node, place::below(ground.sections.len()))
    &&& forall|i: usize|
        i < ground.sections.len() ==> #[trigger] cells::ceiling(
            ground.sections[i as int].count as nat,
        ) <= usize::MAX
}

/// Whether a box lies between two rows and two columns.
pub open spec fn between(plot: PlotView, row: int, low: int, col: int, right: int) -> bool {
    &&& row <= plot.row <= plot.top
    &&& 0 <= plot.rows
    &&& plot.top + plot.rows <= low
    &&& col <= plot.col
    &&& 1 <= plot.cols
    &&& plot.col + plot.cols <= right
}

/// Every box of a subtree lies in the columns the subtree reaches over and
/// above the row the next subtree down starts at.
pub proof fn boxes_lie_in_what_their_subtree_takes(
    node: Node,
    ground: GroundView,
    row: int,
    col: int,
    cols: int,
)
    requires
        countable(node, ground),
        0 <= row,
        0 <= cols < usize::MAX,
    ensures
        ({
            let (plots, line) = place::placed(node, ground, row, col, cols);
            &&& plots.len() == tree::leaves(node).len()
            &&& 2 * row <= line
            &&& forall|i: int|
                0 <= i < plots.len() ==> between(
                    #[trigger] plots[i],
                    row,
                    (line + 1) / 2,
                    col,
                    col + columns_taken(node, ground, cols),
                )
        }),
    decreases node,
{
    let (plots, line) = place::placed(node, ground, row, col, cols);
    match node {
        Node::Empty => {},
        Node::Leaf(index) => {
            assert(place::below(ground.sections.len())(index));
            let count = ground.sections[index as int].count as nat;
            assert(cells::ceiling(count) <= usize::MAX);
            cells::lemma_laid_bounded(
                ground.holes,
                index as int,
                count,
                row,
                col,
                num::larger(cols, 1),
            );
        },
        Node::Cut { axis: Axis::Across, near, far, .. } => {
            let split = place::split_of(node, ground, cols);
            let spare = num::larger(cols - split, 0);
            boxes_lie_in_what_their_subtree_takes(*near, ground, row, col, split);
            boxes_lie_in_what_their_subtree_takes(*far, ground, row, col + split, spare);
            let left = place::placed(*near, ground, row, col, split);
            let right = place::placed(*far, ground, row, col + split, spare);
            assert forall|i: int| 0 <= i < plots.len() implies between(
                #[trigger] plots[i],
                row,
                (line + 1) / 2,
                col,
                col + columns_taken(node, ground, cols),
            ) by {
                if i < left.0.len() {
                    assert(plots[i] == left.0[i]);
                } else {
                    assert(plots[i] == right.0[i - left.0.len()]);
                }
            }
        },
        Node::Cut { axis: Axis::Down, near, far, .. } => {
            boxes_lie_in_what_their_subtree_takes(*near, ground, row, col, cols);
            let above = place::placed(*near, ground, row, col, cols);
            let next = place::next_row(above.1, ground.clear as int);
            boxes_lie_in_what_their_subtree_takes(*far, ground, next, col, cols);
            let under = place::placed(*far, ground, next, col, cols);
            assert forall|i: int| 0 <= i < plots.len() implies between(
                #[trigger] plots[i],
                row,
                (line + 1) / 2,
                col,
                col + columns_taken(node, ground, cols),
            ) by {
                if i < above.0.len() {
                    assert(plots[i] == above.0[i]);
                } else {
                    assert(plots[i] == under.0[i - above.0.len()]);
                }
            }
        },
    }
}

/// Boxes never overlap: where the near half of every cut keeps to its columns,
/// no two boxes of a subtree have a cell in common.
pub proof fn boxes_never_overlap(
    node: Node,
    ground: GroundView,
    row: int,
    col: int,
    cols: int,
)
    requires
        countable(node, ground),
        0 <= row,
        0 <= cols < usize::MAX,
        keeps_to_its_columns(node, ground, cols),
    ensures
        ({
            let plots = place::placed(node, ground, row, col, cols).0;
            forall|i: int, j: int|
                0 <= i < j < plots.len() ==> (#[trigger] plots[i]).clear_of(#[trigger] plots[j])
        }),
    decreases node,
{
    let plots = place::placed(node, ground, row, col, cols).0;
    match node {
        Node::Cut { axis: Axis::Across, near, far, .. } => {
            let split = place::split_of(node, ground, cols);
            let spare = num::larger(cols - split, 0);
            boxes_never_overlap(*near, ground, row, col, split);
            boxes_never_overlap(*far, ground, row, col + split, spare);
            boxes_lie_in_what_their_subtree_takes(*near, ground, row, col, split);
            boxes_lie_in_what_their_subtree_takes(*far, ground, row, col + split, spare);
            let left = place::placed(*near, ground, row, col, split).0;
            let right = place::placed(*far, ground, row, col + split, spare).0;
            lemma_clear(plots, left, right);
        },
        Node::Cut { axis: Axis::Down, near, far, .. } => {
            boxes_never_overlap(*near, ground, row, col, cols);
            boxes_lie_in_what_their_subtree_takes(*near, ground, row, col, cols);
            let (above, line) = place::placed(*near, ground, row, col, cols);
            let next = place::next_row(line, ground.clear as int);
            boxes_never_overlap(*far, ground, next, col, cols);
            boxes_lie_in_what_their_subtree_takes(*far, ground, next, col, cols);
            let under = place::placed(*far, ground, next, col, cols).0;
            lemma_clear(plots, above, under);
        },
        _ => {},
    }
}

proof fn lemma_clear(plots: Seq<PlotView>, a: Seq<PlotView>, b: Seq<PlotView>)
    requires
        plots == a + b,
        forall|i: int, j: int|
            0 <= i < j < a.len() ==> (#[trigger] a[i]).clear_of(#[trigger] a[j]),
        forall|i: int, j: int|
            0 <= i < j < b.len() ==> (#[trigger] b[i]).clear_of(#[trigger] b[j]),
        forall|i: int, j: int|
            0 <= i < a.len() && 0 <= j < b.len() ==> (#[trigger] a[i]).clear_of(
                #[trigger] b[j],
            ),
    ensures
        forall|i: int, j: int|
            0 <= i < j < plots.len() ==> (#[trigger] plots[i]).clear_of(#[trigger] plots[j]),
{
    assert forall|i: int, j: int| 0 <= i < j < plots.len() implies (
    #[trigger] plots[i]).clear_of(#[trigger] plots[j]) by {
        let k = a.len();
        if j < k {
            assert(plots[i] == a[i] && plots[j] == a[j]);
        } else if i >= k {
            assert(plots[i] == b[i - k] && plots[j] == b[j - k]);
        } else {
            assert(plots[i] == a[i] && plots[j] == b[j - k]);
        }
    }
}

/// A box stacked under another starts on a later row than every row of the one
/// above it, with the clear rows asked for between them.
pub proof fn stacked_boxes_start_below(
    near: Node,
    far: Node,
    share: u32,
    ground: GroundView,
    row: int,
    col: int,
    cols: int,
    i: int,
    j: int,
)
    requires
        countable(near, ground),
        countable(far, ground),
        0 <= row,
        0 <= cols < usize::MAX,
        0 <= i < tree::leaves(near).len(),
        0 <= j < tree::leaves(far).len(),
    ensures
        ({
            let node = Node::Cut {
                axis: Axis::Down,
                share,
                near: Box::new(near),
                far: Box::new(far),
            };
            let plots = place::placed(node, ground, row, col, cols).0;
            let above = plots[i];
            let under = plots[tree::leaves(near).len() + j];
            above.top + above.rows + ground.clear <= under.row
        }),
{
    let (above, line) = place::placed(near, ground, row, col, cols);
    let next = place::next_row(line, ground.clear as int);
    boxes_lie_in_what_their_subtree_takes(near, ground, row, col, cols);
    boxes_lie_in_what_their_subtree_takes(far, ground, next, col, cols);
    let under = place::placed(far, ground, next, col, cols).0;
    let node = Node::Cut { axis: Axis::Down, share, near: Box::new(near), far: Box::new(far) };
    let plots = place::placed(node, ground, row, col, cols).0;
    assert(plots == above + under);
    assert(plots[i] == above[i]);
    assert(plots[above.len() + j] == under[j]);
    assert(between(above[i], row, (line + 1) / 2, col, col + columns_taken(near, ground, cols)));
}

} // verus!
