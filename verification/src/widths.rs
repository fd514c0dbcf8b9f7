//! How many columns a panel and its boxes come to have.

use vstd::prelude::*;
use crate::arrange;
use crate::at::WHOLE;
use crate::cells;
use crate::center;
use crate::geometry::{Metrics, Rect, PX};
use crate::layout;
use crate::layout::Layout;
use crate::num;
use crate::place;
use crate::place::GroundView;
use crate::section::SectionShape;
use crate::shape;
use crate::side::Axis;
use crate::tree;
use crate::tree::Node;

verus! {

/// A box that names its columns asks for those, however many tiles it holds and
/// whatever cap the panel is under. One that names none asks for a column a
/// tile, for no more than the cap, and for one at the least.
pub proof fn a_box_asks_for_the_columns_it_names(
    sections: Seq<SectionShape>,
    index: usize,
    capped: nat,
)
    requires
        index < sections.len(),
    ensures
        ({
            let section = sections[index as int];
            let asked = place::want_cols(Node::Leaf(index), sections, capped);
            &&& section.columns > 0 ==> asked == section.columns
            &&& section.columns == 0 && 1 <= section.count <= capped ==> asked == section.count
            &&& section.columns == 0 && 1 <= capped <= section.count ==> asked == capped
            &&& section.columns == 0 && (section.count == 0 || capped == 0) ==> asked == 1
        }),
{
}

/// A box asks for as many rows as its tiles fill at the columns it asks for:
/// they hold every tile, one row fewer would not, and an empty box still has
/// one.
pub proof fn a_box_asks_for_the_rows_its_tiles_fill(
    sections: Seq<SectionShape>,
    index: usize,
    capped: nat,
)
    requires
        index < sections.len(),
    ensures
        ({
            let count = sections[index as int].count as int;
            let cols = place::want_cols(Node::Leaf(index), sections, capped) as int;
            let rows = place::want_rows(Node::Leaf(index), sections, capped) as int;
            &&& rows >= 1
            &&& count <= rows * cols
            &&& count > 0 ==> (rows - 1) * cols < count
            &&& count == 0 ==> rows == 1
        }),
{
    let count = sections[index as int].count as int;
    let cols = place::want_cols(Node::Leaf(index), sections, capped) as int;
    let rows = (count + cols - 1) / cols;
    assert(count <= rows * cols && (rows - 1) * cols < count) by (nonlinear_arith)
        requires
            rows == (count + cols - 1) / cols,
            cols >= 1,
            count >= 0,
    ;
    if count == 0 {
        assert((cols - 1) / cols == 0) by (nonlinear_arith)
            requires
                cols >= 1,
        ;
    } else {
        assert(rows >= 1) by (nonlinear_arith)
            requires
                count <= rows * cols,
                count >= 1,
                cols >= 1,
        ;
    }
    if rows < 1 {
        assert(1 * cols >= 0) by (nonlinear_arith)
            requires
                cols >= 1,
        ;
    }
}

/// Two halves side by side ask for the columns of both and the rows of the
/// taller; two stacked ask for the rows of both and the columns of the wider.
pub proof fn a_cut_asks_for_what_its_halves_ask_for(
    near: Node,
    far: Node,
    share: u32,
    sections: Seq<SectionShape>,
    capped: nat,
)
    ensures
        ({
            let across = Node::Cut {
                axis: Axis::Across,
                share,
                near: Box::new(near),
                far: Box::new(far),
            };
            let down = Node::Cut {
                axis: Axis::Down,
                share,
                near: Box::new(near),
                far: Box::new(far),
            };
            let cols = |node: Node| place::want_cols(node, sections, capped);
            let rows = |node: Node| place::want_rows(node, sections, capped);
            &&& cols(across) == cols(near) + cols(far)
            &&& rows(down) == rows(near) + rows(far)
            &&& cols(down) >= cols(near) && cols(down) >= cols(far)
            &&& cols(down) == cols(near) || cols(down) == cols(far)
            &&& rows(across) >= rows(near) && rows(across) >= rows(far)
            &&& rows(across) == rows(near) || rows(across) == rows(far)
        }),
{
}

proof fn lemma_lone_plan(sections: Seq<SectionShape>)
    requires
        sections.len() == 1,
        sections[0].in_tree(),
        sections[0].at is None,
    ensures
        tree::planned(sections) == Some(Node::Leaf(0)),
        layout::middle(sections).len() == 0,
{
    reveal_with_fuel(tree::cuts_of, 2);
    reveal_with_fuel(tree::stack_of, 2);
    reveal_with_fuel(center::center_order, 2);
}

/// A panel of one section that names its columns has those columns, as far as
/// they fit and the cap lets it, whatever the section's tile count is.
pub proof fn a_panel_of_one_section_is_as_wide_as_it_names(
    layout: Layout,
    sections: Seq<SectionShape>,
    m: Metrics,
    work: Rect,
)
    requires
        layout::measurable(sections, m, work),
        layout.lays_out(sections, m, work),
        sections.len() == 1,
        sections[0].count > 0,
        sections[0].center is None,
        sections[0].at is None,
        m.fixed_cols == 0,
    ensures
        ({
            let capped = layout::capped_across(m, work);
            let section = sections[0];
            &&& capped >= 1
            &&& 0 < section.columns <= capped ==> layout.cols == section.columns
            &&& section.columns > capped ==> layout.cols == capped
            &&& section.columns == 0 && section.count <= capped ==> layout.cols == section.count
            &&& section.columns == 0 && section.count > capped ==> layout.cols == capped
        }),
{
    lemma_lone_plan(sections);
    shape::lemma_fits(m, work);
    assert(center::sum(center::asked(sections, layout::middle(sections))) == 0);
}

/// The tiles of a section come and go without changing how wide its panel is
/// while the section names its columns.
pub proof fn tiles_come_and_go_in_named_columns(
    mine: Layout,
    other: Layout,
    a: Seq<SectionShape>,
    b: Seq<SectionShape>,
    m: Metrics,
    work: Rect,
)
    requires
        layout::measurable(a, m, work),
        layout::measurable(b, m, work),
        mine.lays_out(a, m, work),
        other.lays_out(b, m, work),
        a.len() == 1,
        b.len() == 1,
        a[0].in_tree(),
        b[0].in_tree(),
        a[0].at is None,
        b[0].at is None,
        a[0].columns == b[0].columns,
        a[0].columns > 0,
        m.fixed_cols == 0,
    ensures
        mine.cols == other.cols,
        mine.panel.x == other.panel.x,
        mine.panel.w == other.panel.w,
{
    a_panel_of_one_section_is_as_wide_as_it_names(mine, a, m, work);
    a_panel_of_one_section_is_as_wide_as_it_names(other, b, m, work);
}

/// As many columns as fit: that many tiles, the gaps between them and the
/// padding at both ends take no more than the panel's share of the work area,
/// one more would not fit, and there is always one.
pub proof fn columns_stop_at_what_fits(m: Metrics, work: Rect)
    requires
        m.wf(),
        0 <= work.w,
    ensures
        ({
            let share = work.w * m.max_fraction / WHOLE as int;
            let fits = layout::fits_across(m, work);
            let across = |n: int| n * m.tile_w + (n - 1) * m.gap + 2 * m.padding;
            &&& fits >= 1
            &&& fits > 1 ==> across(fits) <= share
            &&& share < across(fits + 1)
        }),
{
    let share = work.w * m.max_fraction / WHOLE as int;
    let step = m.step_x();
    let fits = layout::fits_across(m, work);
    let room = num::larger(
        layout::max_width(m, work) - 2 * m.padding + m.gap,
        m.tile_w as int,
    );
    let q = room / step;
    assert(q * step <= room < (q + 1) * step) by (nonlinear_arith)
        requires
            q == room / step,
            step > 0,
    ;
    assert(fits * m.tile_w + (fits - 1) * m.gap == fits * step - m.gap) by (nonlinear_arith)
        requires
            step == m.tile_w + m.gap,
    ;
    assert((fits + 1) * m.tile_w + fits * m.gap == (fits + 1) * step - m.gap) by (nonlinear_arith)
        requires
            step == m.tile_w + m.gap,
    ;
    if q < 1 {
        assert((q + 1) * step <= 1 * step) by (nonlinear_arith)
            requires
                q + 1 <= 1,
                step > 0,
        ;
        assert((fits + 1) * step == 2 * step) by (nonlinear_arith)
            requires
                fits == 1,
        ;
    } else {
        assert(fits == q);
        if share < m.tile_w + 2 * m.padding && fits > 1 {
            assert(q * step >= 2 * step) by (nonlinear_arith)
                requires
                    q >= 2,
                    step > 0,
            ;
        }
    }
}

/// The cap is the smaller of what fits and what was set, and setting none
/// leaves what fits.
pub proof fn a_cap_only_lowers_what_fits(m: Metrics, work: Rect)
    ensures
        ({
            let (fits, capped) = (layout::fits_across(m, work), layout::capped_across(m, work));
            &&& m.max_cols == 0 ==> capped == fits
            &&& m.max_cols > 0 && m.max_cols <= fits ==> capped == m.max_cols
            &&& m.max_cols > fits ==> capped == fits
        }),
{
}

/// A cut across that names a share gives its near half the whole number of
/// columns nearest to that share, and one that names none the number nearest to
/// what the near half asks for of what both do. Either way each half has a
/// column where there are two.
pub proof fn a_cut_divides_its_columns_by_share_or_by_appetite(
    budget: nat,
    near: nat,
    far: nat,
    share: nat,
)
    requires
        budget >= 2,
        near + far > 0,
    ensures
        ({
            let split = place::divided(budget, near, far, share) as int;
            let (part, whole) = if share > 0 {
                (share as int, WHOLE as int)
            } else {
                (near as int, near as int + far as int)
            };
            &&& 1 <= split <= budget - 1
            &&& 1 < split < budget - 1 ==> {
                &&& 2 * budget * part < (2 * split + 1) * whole
                &&& (2 * split - 1) * whole <= 2 * budget * part
            }
            &&& split == 1 && budget > 2 ==> 2 * budget * part < 3 * whole
            &&& split == budget - 1 && budget > 2 ==> (2 * split - 1) * whole <= 2 * budget * part
        }),
{
    let (part, whole) = if share > 0 {
        (share as int, WHOLE as int)
    } else {
        (near as int, near as int + far as int)
    };
    let n = budget * part;
    let (q, r) = (n / whole, n % whole);
    assert(n >= 0 && q >= 0 && 0 <= r < whole && n == q * whole + r) by (nonlinear_arith)
        requires
            n == budget * part,
            budget >= 0,
            part >= 0,
            whole > 0,
            q == n / whole,
            r == n % whole,
    ;
    let up = if 2 * r >= whole {
        q + 1
    } else {
        q
    };
    let split = place::divided(budget, near, far, share) as int;
    assert(split == num::between(up, 1, budget - 1));
    assert(2 * n < (2 * up + 1) * whole && (2 * up - 1) * whole <= 2 * n) by (nonlinear_arith)
        requires
            n == q * whole + r,
            0 <= r < whole,
            up == (if 2 * r >= whole {
                q + 1
            } else {
                q
            }),
    ;
    assert(2 * budget * part == 2 * n) by (nonlinear_arith)
        requires
            n == budget * part,
    ;
    if split == 1 {
        assert((2 * up + 1) * whole <= 3 * whole || up > 1) by (nonlinear_arith)
            requires
                whole > 0,
        ;
    }
    if split == budget - 1 {
        assert((2 * split - 1) * whole <= (2 * up - 1) * whole || up < split) by (nonlinear_arith)
            requires
                whole > 0,
        ;
    }
}

/// The more of a cut is named for its near half, the more columns it gets.
pub proof fn a_larger_share_never_gets_fewer_columns(
    budget: nat,
    near: nat,
    far: nat,
    less: nat,
    more: nat,
)
    requires
        0 < less <= more,
    ensures
        place::divided(budget, near, far, less) <= place::divided(budget, near, far, more),
{
    let whole = WHOLE as int;
    let (a, b) = ((budget * less) as int, (budget * more) as int);
    assert(0 <= a <= b) by (nonlinear_arith)
        requires
            a == budget * less,
            b == budget * more,
            0 <= less <= more,
            budget >= 0,
    ;
    if a / whole == b / whole {
        assert(a % whole <= b % whole);
    } else {
        assert(a / whole < b / whole);
    }
}

/// Two boxes side by side share the columns between them: the near one starts
/// where the two do and has what the cut gives it, and the far one has the rest
/// beside it. Both start on the row the two were put on.
pub proof fn boxes_side_by_side_share_the_columns(
    ground: GroundView,
    a: usize,
    b: usize,
    share: u32,
    row: int,
    col: int,
    cols: int,
)
    requires
        2 <= cols,
    ensures
        ({
            let node = Node::Cut {
                axis: Axis::Across,
                share,
                near: Box::new(Node::Leaf(a)),
                far: Box::new(Node::Leaf(b)),
            };
            let plots = place::placed(node, ground, row, col, cols).0;
            &&& plots.len() == 2
            &&& plots[0].section == a && plots[1].section == b
            &&& plots[0].col == col
            &&& plots[1].col == col + plots[0].cols
            &&& plots[0].cols + plots[1].cols == cols
            &&& plots[0].cols == place::divided(
                cols as nat,
                place::want_cols(Node::Leaf(a), ground.sections, ground.capped),
                place::want_cols(Node::Leaf(b), ground.sections, ground.capped),
                share as nat,
            )
            &&& plots[0].row == row && plots[1].row == row
        }),
{
    let node = Node::Cut {
        axis: Axis::Across,
        share,
        near: Box::new(Node::Leaf(a)),
        far: Box::new(Node::Leaf(b)),
    };
    reveal_with_fuel(place::placed, 3);
    let split = place::split_of(node, ground, cols);
    assert(1 <= split < cols);
    let left = place::placed(Node::Leaf(a), ground, row, col, split).0;
    let right = place::placed(Node::Leaf(b), ground, row, col + split, cols - split).0;
    assert(place::placed(node, ground, row, col, cols).0 == left + right);
}

/// Two boxes stacked have the same columns, every one they were given, and the
/// lower starts on the first whole row under the upper with the clear rows
/// between them.
pub proof fn stacked_boxes_share_their_columns(
    ground: GroundView,
    a: usize,
    b: usize,
    row: int,
    col: int,
    cols: int,
)
    requires
        1 <= cols,
    ensures
        ({
            let node = Node::Cut {
                axis: Axis::Down,
                share: 0,
                near: Box::new(Node::Leaf(a)),
                far: Box::new(Node::Leaf(b)),
            };
            let plots = place::placed(node, ground, row, col, cols).0;
            &&& plots.len() == 2
            &&& plots[0].section == a && plots[1].section == b
            &&& plots[0].col == col && plots[1].col == col
            &&& plots[0].cols == cols && plots[1].cols == cols
            &&& plots[0].row == row
            &&& plots[0].rows > 0 ==> plots[1].row == plots[0].top + plots[0].rows + ground.clear
        }),
{
    let node = Node::Cut {
        axis: Axis::Down,
        share: 0,
        near: Box::new(Node::Leaf(a)),
        far: Box::new(Node::Leaf(b)),
    };
    reveal_with_fuel(place::placed, 3);
    let (above, line) = place::placed(Node::Leaf(a), ground, row, col, cols);
    let under = place::placed(
        Node::Leaf(b),
        ground,
        place::next_row(line, ground.clear as int),
        col,
        cols,
    ).0;
    assert(place::placed(node, ground, row, col, cols).0 == above + under);
}

/// The clear rows between stacked boxes are the whole number nearest to what
/// the gap asked for comes to, and none for a gap there is not.
pub proof fn clear_rows_are_the_nearest_whole_number(m: Metrics)
    requires
        m.wf(),
    ensures
        ({
            let (clear, step) = (layout::clear_rows(m) as int, (m.tile_h + m.gap) as int);
            &&& m.section_gap <= 0 ==> clear == 0
            &&& m.section_gap > 0 ==> {
                &&& 2 * m.section_gap < (2 * clear + 1) * step
                &&& (2 * clear - 1) * step <= 2 * m.section_gap
            }
        }),
{
    if m.section_gap > 0 {
        let (n, step) = (m.section_gap as int, m.step_y());
        let (q, r) = (n / step, n % step);
        let clear = layout::clear_rows(m) as int;
        assert(0 <= q && 0 <= r < step && n == q * step + r) by (nonlinear_arith)
            requires
                n > 0,
                step > 0,
                q == n / step,
                r == n % step,
        ;
        assert(clear == q + if 2 * r >= step {
            1int
        } else {
            0int
        });
        assert(2 * n < (2 * clear + 1) * step && (2 * clear - 1) * step <= 2 * n)
            by (nonlinear_arith)
            requires
                n == q * step + r,
                0 <= r < step,
                clear == q + (if 2 * r >= step {
                    1int
                } else {
                    0int
                }),
        ;
    }
}

/// A panel is as wide as its columns: the tiles, the gaps between them and the
/// padding at both ends, to the nearest pixel.
pub proof fn a_panel_is_as_wide_as_its_columns(
    layout: Layout,
    sections: Seq<SectionShape>,
    m: Metrics,
    work: Rect,
)
    requires
        layout::measurable(sections, m, work),
        layout.lays_out(sections, m, work),
        layout.wf(),
    ensures
        ({
            let across = layout.cols * m.tile_w + (layout.cols - 1) * m.gap + 2 * m.padding;
            -PX <= 2 * (layout.panel.w - across) <= PX
        }),
        layout.panel.w as int % PX as int == 0,
{
    let frame = layout::frame_of(sections, m, work);
    shape::lemma_frame(sections, m, work);
    shape::lemma_sketch(sections, m, work);
    arrange::lemma_pass_bounded(sections, frame, arrange::holes_of(sections, frame));
    crate::query::lemma_lattice(m, frame.cols as int);
    let w = layout::panel_width(sections, m, work);
    let q = (2 * w + 64) / 128;
    assert(128 * q <= 2 * w + 64 < 128 * q + 128);
    assert(PX == 64);
}

/// A box names its columns to the tree and not to its own tiles: a box laid out
/// in some columns has those, whatever it names.
pub proof fn a_box_has_the_columns_it_was_given(
    ground: GroundView,
    index: usize,
    row: int,
    col: int,
    cols: int,
)
    requires
        1 <= cols,
    ensures
        ({
            let (plots, line) = place::placed(Node::Leaf(index), ground, row, col, cols);
            &&& plots.len() == 1
            &&& plots[0].section == index
            &&& plots[0].row == row
            &&& plots[0].col == col
            &&& plots[0].cols == cols
            &&& plots[0] == cells::laid(
                ground.holes,
                index as int,
                ground.sections[index as int].count as nat,
                row,
                col,
                cols,
            )
            &&& line == if plots[0].rows == 0 {
                2 * plots[0].top
            } else {
                2 * (plots[0].top + plots[0].rows) - 1
            }
        }),
{
}

} // verus!
