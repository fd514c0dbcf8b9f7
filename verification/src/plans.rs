//! How a panel is cut, and where its block and its corner go.

use vstd::prelude::*;
use crate::arrange;
use crate::arrange::{Frame, Holes};
use crate::at::WHOLE;
use crate::cells;
use crate::cells::{Block, PlotView};
use crate::geometry;
use crate::geometry::{Metrics, Rect, CELLS, PX};
use crate::layout;
use crate::layout::{BandView, HeaderView, Layout, Sketch};
use crate::query;
use crate::section::SectionShape;
use crate::side::{Axis, Side};
use crate::stretch;
use crate::tree;
use crate::tree::Node;

verus! {

/// The tree with two halves, one beside the other or one over the other.
pub open spec fn halved(axis: Axis, share: u32, near: Node, far: Node) -> Node {
    Node::Cut { axis, share, near: Box::new(near), far: Box::new(far) }
}

/// A box that names a side of a whole panel gets that half of it, left and top
/// before right and bottom, and a share it names is of its own half.
pub proof fn a_box_takes_the_side_it_names(side: Side, share: u32, leaf: usize)
    requires
        share < WHOLE,
    ensures
        ({
            let tree = tree::inserted(Node::Empty, seq![side], share, leaf);
            let axis = if side == Side::Left || side == Side::Right {
                Axis::Across
            } else {
                Axis::Down
            };
            &&& side == Side::Left || side == Side::Top ==> tree == halved(
                axis,
                share,
                Node::Leaf(leaf),
                Node::Empty,
            )
            &&& side == Side::Right || side == Side::Bottom ==> tree == halved(
                axis,
                if share > 0 {
                    (WHOLE - share) as u32
                } else {
                    0
                },
                Node::Empty,
                Node::Leaf(leaf),
            )
        }),
{
    reveal_with_fuel(tree::inserted, 3);
    assert(seq![side].drop_first() =~= Seq::empty());
}

/// A box that names a half of a cut that is there goes into that half and leaves
/// the other alone. One that cuts the other way has what was there kept whole on
/// the other side of a new cut.
pub proof fn a_path_goes_into_the_half_it_names(
    axis: Axis,
    kept: u32,
    near: Node,
    far: Node,
    side: Side,
    rest: Seq<Side>,
    share: u32,
    leaf: usize,
)
    requires
        rest.len() > 0,
    ensures
        ({
            let tree = halved(axis, kept, near, far);
            let cut = if side == Side::Left || side == Side::Right {
                Axis::Across
            } else {
                Axis::Down
            };
            let first = side == Side::Left || side == Side::Top;
            let after = tree::inserted(tree, seq![side] + rest, share, leaf);
            &&& cut == axis && first ==> after == halved(
                axis,
                kept,
                tree::inserted(near, rest, share, leaf),
                far,
            )
            &&& cut == axis && !first ==> after == halved(
                axis,
                kept,
                near,
                tree::inserted(far, rest, share, leaf),
            )
            &&& cut != axis && first ==> after == halved(
                cut,
                0,
                tree::inserted(Node::Empty, rest, share, leaf),
                tree,
            )
            &&& cut != axis && !first ==> after == halved(
                cut,
                0,
                tree,
                tree::inserted(Node::Empty, rest, share, leaf),
            )
        }),
{
    let path = seq![side] + rest;
    assert(path.drop_first() =~= rest);
    assert(path[0] == side);
}

/// Two boxes that claim one spot stack there, the later under the earlier.
pub proof fn two_boxes_for_one_spot_stack(node: Node, share: u32, leaf: usize)
    ensures
        tree::inserted(Node::Empty, Seq::empty(), share, leaf) == Node::Leaf(leaf),
        node !is Empty ==> tree::inserted(node, Seq::empty(), share, leaf) == halved(
            Axis::Down,
            0,
            node,
            Node::Leaf(leaf),
        ),
{
}

/// A box on a side of the panel has that side, and what names no place has the
/// other: at its share of the cut where it names one.
pub proof fn what_names_no_place_has_the_other_side(
    sections: Seq<SectionShape>,
    side: Side,
    share: u32,
)
    requires
        sections.len() == 2,
        sections[0].in_tree(),
        sections[1].in_tree(),
        sections[0].at matches Some(at) && at.cuts@ == seq![side] && at.share == share,
        sections[1].at is None,
        share < WHOLE,
    ensures
        ({
            let first = side == Side::Left || side == Side::Top;
            let axis = if side == Side::Left || side == Side::Right {
                Axis::Across
            } else {
                Axis::Down
            };
            tree::planned(sections) == Some(
                if first {
                    halved(axis, share, Node::Leaf(0), Node::Leaf(1))
                } else {
                    halved(
                        axis,
                        if share > 0 {
                            (WHOLE - share) as u32
                        } else {
                            0
                        },
                        Node::Leaf(1),
                        Node::Leaf(0),
                    )
                },
            )
        }),
{
    reveal_with_fuel(tree::cuts_of, 3);
    reveal_with_fuel(tree::stack_of, 3);
    reveal_with_fuel(tree::has_hole, 3);
    reveal_with_fuel(tree::filled, 3);
    reveal_with_fuel(tree::pruned, 3);
    a_box_takes_the_side_it_names(side, share, 0);
}

/// Whether every cut of a subtree stacks.
pub open spec fn all_stacked(node: Node) -> bool
    decreases node,
{
    match node {
        Node::Cut { axis, share, near, far } => axis == Axis::Down && share == 0 && all_stacked(
            *near,
        ) && all_stacked(*far),
        _ => true,
    }
}

/// Boxes that name no place stack down the panel in the order they come in.
pub proof fn boxes_that_name_no_place_stack_in_order(sections: Seq<SectionShape>, n: nat)
    requires
        n <= sections.len() <= usize::MAX,
        forall|i: int| 0 <= i < sections.len() ==> (#[trigger] sections[i]).at is None,
    ensures
        match tree::stack_of(sections, n) {
            Some(node) => {
                let boxes = tree::leaves(node);
                &&& all_stacked(node)
                &&& boxes.len() > 0
                &&& forall|i: int, j: int|
                    0 <= i < j < boxes.len() ==> #[trigger] boxes[i] < #[trigger] boxes[j]
                &&& forall|i: int|
                    0 <= i < boxes.len() ==> #[trigger] boxes[i] < n
                        && sections[boxes[i] as int].in_tree()
                &&& forall|i: int|
                    0 <= i < n && (#[trigger] sections[i]).in_tree() ==> boxes.contains(i as usize)
            },
            None => forall|i: int| 0 <= i < n ==> !(#[trigger] sections[i]).in_tree(),
        },
        tree::cuts_of(sections, n) == Node::Empty,
    decreases n,
{
    reveal_with_fuel(tree::leaves, 2);
    reveal_with_fuel(all_stacked, 2);
    if n > 0 {
        boxes_that_name_no_place_stack_in_order(sections, (n - 1) as nat);
        let section = sections[n - 1];
        assert(section.at is None);
        if section.in_tree() {
            let last = (n - 1) as usize;
            let node = tree::stack_of(sections, n)->0;
            let boxes = tree::leaves(node);
            match tree::stack_of(sections, (n - 1) as nat) {
                None => {
                    assert(boxes =~= seq![last]);
                    assert forall|i: int|
                        0 <= i < n && (#[trigger] sections[i]).in_tree() implies boxes.contains(
                        i as usize,
                    ) by {
                        assert(i == n - 1);
                        assert(boxes[0] == i as usize);
                    }
                },
                Some(above) => {
                    let before = tree::leaves(above);
                    assert(boxes =~= before.push(last));
                    assert forall|i: int|
                        0 <= i < n && (#[trigger] sections[i]).in_tree() implies boxes.contains(
                        i as usize,
                    ) by {
                        if i < n - 1 {
                            let k = choose|k: int| 0 <= k < before.len() && before[k] == i as usize;
                            assert(boxes[k] == i as usize);
                        } else {
                            assert(boxes[boxes.len() - 1] == i as usize);
                        }
                    }
                },
            }
        }
    }
}

/// The block sits in the middle: as many rows over it as under it of what is on
/// screen, and as many columns on its left as on its right, to within one. A
/// block taller than what is on screen starts at the top. No columns or no rows
/// is no block.
pub proof fn the_block_sits_in_the_middle_of_what_is_on_screen(frame: Frame, line: int)
    requires
        0 <= line,
        frame.across <= frame.cols,
    ensures
        ({
            let rows = (line + 1) / 2;
            let seen = if rows <= frame.down {
                rows
            } else {
                frame.down as int
            };
            match arrange::center_reserve(frame, line) {
                None => frame.across == 0 || frame.rows == 0,
                Some(block) => {
                    &&& frame.across > 0 && frame.rows > 0
                    &&& block.rows == frame.rows && block.cols == frame.across
                    &&& frame.rows <= seen ==> -1 <= (seen - block.row - block.rows) - block.row
                        <= 0
                    &&& frame.rows > seen ==> block.row == 0
                    &&& 0 <= (frame.cols - block.col - block.cols) - block.col <= 1
                },
            }
        }),
{
}

/// The corner is the last cell of the last row there is, and is kept from the
/// second row on, or from the first where the panel has room over its tiles.
pub proof fn the_corner_is_the_last_cell(frame: Frame, rows: int)
    requires
        frame.cols > 0,
        1 <= rows <= usize::MAX,
    ensures
        arrange::home_reserve(frame, 2 * rows - 1) == (if rows > 1 || frame.corner {
            Some(
                Block {
                    row: (rows - 1) as usize,
                    col: (frame.cols - 1) as usize,
                    rows: 1,
                    cols: 1,
                },
            )
        } else {
            None
        }),
        arrange::corner_of(frame, 2 * rows - 1) == Some(
            Block {
                row: (rows - 1) as usize,
                col: (frame.cols - 1) as usize,
                rows: 1,
                cols: 1,
            },
        ),
        arrange::one_row_on(2 * rows - 1) == 2 * (rows + 1) - 1,
{
}

/// A panel is tall enough for its block: its content reaches as far as its boxes
/// and as far as the foot of the block.
pub proof fn a_panel_is_tall_enough_for_its_block(line: int, block: Block)
    ensures
        arrange::reaching(line, None) == line,
        arrange::reaching(line, Some(block)) >= line,
        arrange::reaching(line, Some(block)) >= 2 * (block.row + block.rows) - 1,
        arrange::reaching(line, Some(block)) == line || arrange::reaching(line, Some(block)) == 2
            * (block.row + block.rows) - 1,
{
}

/// Holes that stopped moving stay where they are, however often they are asked.
pub proof fn holes_that_stopped_moving_stay(
    sections: Seq<SectionShape>,
    frame: Frame,
    holes: Holes,
    passes: nat,
)
    requires
        arrange::moved(sections, frame, holes) == holes,
    ensures
        arrange::settled(sections, frame, holes, passes) == holes,
{
}

/// A panel that settled is drawn around where its own height says its block and
/// its corner belong.
pub proof fn a_settled_panel_agrees_with_itself(sections: Seq<SectionShape>, frame: Frame)
    ensures
        ({
            let holes = arrange::last_holes(sections, frame);
            let line = arrange::reaching(
                arrange::pass(sections, frame, holes).1,
                holes.reserve,
            );
            arrange::moved(sections, frame, holes) == holes ==> {
                &&& holes.reserve == arrange::center_reserve(frame, line)
                &&& holes.home == arrange::home_reserve(frame, line)
            }
        }),
{
}

/// Half a length snapped to whole pixels is a whole pixel no further than half
/// of one away, and the same either side of nothing.
pub proof fn a_snapped_length_is_the_nearest_pixel(twice: int)
    ensures
        geometry::snapped(twice) % (PX as int) == 0,
        -PX <= 2 * geometry::snapped(twice) - twice <= PX,
        geometry::snapped(-twice) == -geometry::snapped(twice),
{
    assert(PX == 64);
    let n = if twice >= 0 {
        twice
    } else {
        -twice
    };
    let q = (n + 64) / 128;
    assert(128 * q <= n + 64 < 128 * q + 128);
    assert((q * 64) % 64 == 0 && (-(q * 64)) % 64 == 0);
}

/// Two rectangles overlap exactly where one of them has a point of the other's
/// inside, and touching edges are no overlap.
pub proof fn overlapping_is_sharing_a_point(a: Rect, b: Rect)
    requires
        a.w > 0,
        a.h > 0,
        b.w > 0,
        b.h > 0,
    ensures
        a.meets(b) <==> exists|x: int, y: int| #[trigger] a.holds(x, y) && b.holds(x, y),
        a.meets(b) == b.meets(a),
        b.x == a.x + a.w ==> !a.meets(b),
        b.y == a.y + a.h ==> !a.meets(b),
{
    if a.meets(b) {
        let x = if a.x >= b.x {
            a.x as int
        } else {
            b.x as int
        };
        let y = if a.y >= b.y {
            a.y as int
        } else {
            b.y as int
        };
        assert(a.holds(x, y) && b.holds(x, y));
    }
}

/// Scrolling moves a rectangle up by the scroll and changes nothing else of it.
pub proof fn scrolling_moves_a_rectangle_up(rect: Rect, scroll: int, x: int, y: int)
    requires
        i64::MIN <= rect.y - scroll <= i64::MAX,
    ensures
        rect.moved_up(scroll).x == rect.x,
        rect.moved_up(scroll).y == rect.y - scroll,
        rect.moved_up(scroll).w == rect.w,
        rect.moved_up(scroll).h == rect.h,
        rect.moved_up(scroll).holds(x, y) <==> rect.holds(x, y + scroll),
{
}

/// A point is in a rectangle from its left and top edges on and short of its
/// right and bottom ones.
pub proof fn a_rectangle_holds_its_left_and_top_edges(rect: Rect, x: int, y: int)
    ensures
        rect.w > 0 && rect.h > 0 ==> rect.holds(rect.x as int, rect.y as int),
        !rect.holds(rect.x + rect.w, y),
        !rect.holds(x, rect.y + rect.h),
        !rect.holds(rect.x - 1, y),
        !rect.holds(x, rect.y - 1),
        rect.x <= x < rect.x + rect.w && rect.y <= y < rect.y + rect.h ==> rect.holds(x, y),
{
}

/// The lattice starts a padding in from the left and a padding under the strip,
/// and goes on a tile and a gap at a time.
pub proof fn the_lattice_goes_on_a_tile_and_a_gap_at_a_time(m: Metrics, n: int)
    ensures
        m.x_at(0) == m.padding,
        m.y_at(0) == m.search_h + m.padding,
        m.x_at(n + 1) == m.x_at(n) + m.tile_w + m.gap,
        m.y_at(n + 1) == m.y_at(n) + m.tile_h + m.gap,
        m.width_of(n) == m.x_at(n) - m.x_at(0) - m.gap,
        m.height_of(n) == m.y_at(n) - m.y_at(0) - m.gap,
        m.y_line(2 * n) == m.y_at(n),
        m.y_line(2 * n + 1) == m.y_at(n) + m.tile_h,
{
    assert((n + 1) * m.step_x() == n * m.step_x() + m.step_x()) by (nonlinear_arith);
    assert((n + 1) * m.step_y() == n * m.step_y() + m.step_y()) by (nonlinear_arith);
    assert(n * m.step_x() == n * m.tile_w + n * m.gap) by (nonlinear_arith)
        requires
            m.step_x() == m.tile_w + m.gap,
    ;
    assert(n * m.step_y() == n * m.tile_h + n * m.gap) by (nonlinear_arith)
        requires
            m.step_y() == m.tile_h + m.gap,
    ;
    assert((n - 1) * m.gap == n * m.gap - m.gap) by (nonlinear_arith);
    assert(0 * m.step_x() == 0 && 0 * m.step_y() == 0);
    assert((2 * n) / 2 == n && (2 * n + 1) / 2 == n && (2 * n) % 2 == 0 && (2 * n + 1) % 2 == 1);
}

/// Content of some rows is as tall as those rows, with the strip over them and a
/// padding above and below.
pub proof fn content_is_as_tall_as_its_rows(sketch: Sketch, m: Metrics, rows: int)
    requires
        rows >= 1,
        sketch.line == 2 * rows - 1,
    ensures
        sketch.content_height(m) == m.search_h + 2 * m.padding + rows * m.tile_h + (rows - 1)
            * m.gap,
{
    the_lattice_goes_on_a_tile_and_a_gap_at_a_time(m, rows - 1);
    assert(sketch.line == 2 * (rows - 1) + 1);
    assert((rows - 1) * m.step_y() == (rows - 1) * m.tile_h + (rows - 1) * m.gap)
        by (nonlinear_arith)
        requires
            m.step_y() == m.tile_h + m.gap,
    ;
    assert(rows * m.tile_h == (rows - 1) * m.tile_h + m.tile_h) by (nonlinear_arith);
}

/// A panel's share of the work area: the part that was set of it, and never less
/// than a tile and its padding.
pub proof fn a_panel_has_its_share_of_the_work_area(m: Metrics, work: Rect)
    ensures
        ({
            let (across, down) = (
                work.w * m.max_fraction / WHOLE as int,
                work.h * m.max_fraction / WHOLE as int,
            );
            let (wide, tall) = (m.tile_w + 2 * m.padding, m.tile_h + 2 * m.padding);
            &&& layout::max_width(m, work) == if across >= wide {
                across
            } else {
                wide
            }
            &&& layout::max_height(m, work) == if down >= tall {
                down
            } else {
                tall
            }
        }),
{
}

/// The centre block is framed as one: from its left half to the right edge of
/// its right, as tall as the taller, with one seam in the middle of the gutter
/// between them.
pub proof fn the_block_is_framed_as_one(left: BandView, right: BandView)
    requires
        left.center,
        right.center,
        0 <= left.rect.x,
        left.rect.x + left.rect.w <= right.rect.x,
        0 <= left.rect.w,
        0 <= right.rect.w,
        right.rect.x + right.rect.w <= i64::MAX,
    ensures
        ({
            let frame = query::frame_over(seq![left, right], 2);
            let lone = query::frame_over(seq![left], 1);
            let (rect, seams) = frame->0;
            &&& frame is Some
            &&& rect.x == left.rect.x
            &&& rect.x + rect.w == right.rect.x + right.rect.w
            &&& rect.y == left.rect.y
            &&& rect.h >= left.rect.h && rect.h >= right.rect.h
            &&& rect.h == left.rect.h || rect.h == right.rect.h
            &&& seams.len() == 1
            &&& 0 <= (left.rect.x + left.rect.w + right.rect.x) - 2 * seams[0] <= 1
            &&& lone == Some((left.rect, Seq::<i64>::empty()))
        }),
{
    reveal_with_fuel(query::frame_over, 3);
}

/// Bands that are not the block's have no part in its frame.
pub proof fn only_the_block_is_framed(bands: Seq<BandView>, n: nat)
    requires
        n <= bands.len(),
        forall|i: int| 0 <= i < n ==> !(#[trigger] bands[i]).center,
    ensures
        query::frame_over(bands, n) is None,
    decreases n,
{
    if n > 0 {
        only_the_block_is_framed(bands, (n - 1) as nat);
        assert(!bands[n - 1].center);
    }
}

/// A title starts a step along the top edge of its box's first free cell, and
/// sits across the line the ring is drawn along there.
pub proof fn a_title_sits_on_its_boxs_top_edge(m: Metrics, plot: PlotView)
    requires
        m.wf(),
        plot.filled.len() > 0,
        plot.filled[0],
        0 <= plot.col <= CELLS,
        0 <= plot.top <= CELLS,
        1 <= plot.cols <= CELLS,
    ensures
        ({
            let rect = layout::title_rect(m, plot);
            &&& rect.x == m.x_at(plot.col) + m.header_gap
            &&& rect.h == m.header_h
            &&& rect.y == m.y_at(plot.top) - m.gap as int / 4 - m.header_h as int / 2
            &&& rect.w >= 0
            &&& m.header_gap <= m.width_of(plot.cols) ==> rect.x + rect.w == m.x_at(plot.col)
                + m.width_of(plot.cols)
        }),
{
    query::lemma_lattice(m, plot.col);
    query::lemma_lattice(m, plot.top);
    query::lemma_lattice(m, plot.cols);
    let cols = plot.cols;
    assert(0int / cols == 0 && 0int % cols == 0) by (nonlinear_arith)
        requires
            cols >= 1,
    ;
    assert(layout::title_cell(plot.filled) == 0);
    assert(0 * m.step_x() == 0);
}

/// Every box of the tree whose section has a title wears it, and none else does,
/// where titles have any height at all.
pub proof fn every_titled_box_wears_its_title(
    sections: Seq<SectionShape>,
    m: Metrics,
    plots: Seq<PlotView>,
    n: nat,
)
    requires
        n <= plots.len() <= usize::MAX,
    ensures
        ({
            let headers = layout::headers_of(sections, m, plots, n);
            &&& forall|b: int|
                #![trigger plots[b]]
                0 <= b < n && sections[plots[b].section].title@.len() > 0 && m.header_h > 0
                    && sections[plots[b].section].center is None ==> headers.contains(
                    HeaderView {
                        title: sections[plots[b].section].title@,
                        rect: layout::title_rect(m, plots[b]),
                        band: b as usize,
                    },
                )
            &&& forall|h: int|
                #![trigger headers[h]]
                0 <= h < headers.len() ==> headers[h].band < n && m.header_h > 0
                    && sections[plots[headers[h].band as int].section].center is None
            &&& m.header_h <= 0 ==> headers.len() == 0
        }),
    decreases n,
{
    if n > 0 {
        every_titled_box_wears_its_title(sections, m, plots, (n - 1) as nat);
        let before = layout::headers_of(sections, m, plots, (n - 1) as nat);
        let headers = layout::headers_of(sections, m, plots, n);
        assert forall|b: int|
            #![trigger plots[b]]
            0 <= b < n && sections[plots[b].section].title@.len() > 0 && m.header_h > 0
                && sections[plots[b].section].center is None implies headers.contains(
            HeaderView {
                title: sections[plots[b].section].title@,
                rect: layout::title_rect(m, plots[b]),
                band: b as usize,
            },
        ) by {
            let header = HeaderView {
                title: sections[plots[b].section].title@,
                rect: layout::title_rect(m, plots[b]),
                band: b as usize,
            };
            if b < n - 1 {
                let k = choose|k: int| 0 <= k < before.len() && before[k] == header;
                assert(headers[k] == header);
            } else {
                assert(headers[headers.len() - 1] == header);
            }
        }
        assert forall|h: int|
            #![trigger headers[h]]
            0 <= h < headers.len() implies headers[h].band < n && m.header_h > 0
            && sections[plots[headers[h].band as int].section].center is None by {
            if h < before.len() {
                assert(headers[h] == before[h]);
            }
        }
    }
}

/// The corner button is a tile of the last column, and stands at the foot of the
/// content, or of the panel where there is more content than it shows.
pub proof fn the_corner_button_stands_at_the_foot(layout: Layout)
    requires
        layout.wf(),
        layout.cols >= 1,
    ensures
        ({
            let home = layout.home();
            let m = layout.metrics;
            let foot = if layout.max_scroll == 0 {
                layout.content_h
            } else {
                layout.panel.h
            };
            &&& home.w == m.tile_w && home.h == m.tile_h
            &&& home.x == m.x_at(layout.cols - 1)
            &&& foot >= m.padding + m.tile_h ==> home.y + home.h + m.padding == foot
            &&& home.y >= 0
        }),
{
    query::lemma_lattice(layout.metrics, layout.cols - 1);
}

/// The sections that name no place fill the first half a cut left over, and go
/// under everything where none did.
pub proof fn the_rest_fills_what_is_left_over(near: Node, far: Node, axis: Axis, share: u32, rest: Node)
    ensures
        tree::joined(halved(axis, share, Node::Empty, far), Some(rest)) == halved(
            axis,
            share,
            rest,
            far,
        ),
        !tree::has_hole(near) ==> tree::joined(
            halved(axis, share, near, Node::Empty),
            Some(rest),
        ) == halved(axis, share, near, rest),
        !tree::has_hole(near) && !tree::has_hole(far) ==> tree::joined(
            halved(axis, share, near, far),
            Some(rest),
        ) == halved(Axis::Down, 0, halved(axis, share, near, far), rest),
        tree::joined(near, None) == near,
{
    reveal_with_fuel(tree::has_hole, 3);
    reveal_with_fuel(tree::filled, 3);
}

/// A cut with one side empty is no cut: what is on the other side has the whole
/// of it.
pub proof fn a_cut_with_one_side_empty_is_no_cut(node: Node, axis: Axis, share: u32)
    requires
        tree::pruned(node) is Some,
    ensures
        tree::pruned(halved(axis, share, node, Node::Empty)) == tree::pruned(node),
        tree::pruned(halved(axis, share, Node::Empty, node)) == tree::pruned(node),
        tree::pruned(Node::Empty) is None,
{
    reveal_with_fuel(tree::pruned, 3);
}

/// Two boxes that share an edge split what lies between them down the middle, to
/// within one part, and share one edge.
pub proof fn a_gutter_is_split_down_the_middle(
    axis: Axis,
    share: u32,
    near: usize,
    far: usize,
    a: Rect,
    b: Rect,
    rect: Rect,
)
    requires
        a.near_enough(),
        b.near_enough(),
        rect.near_enough(),
    ensures
        ({
            let boxes = stretch::stretched(
                halved(axis, share, Node::Leaf(near), Node::Leaf(far)),
                seq![a, b],
                rect,
            );
            &&& boxes.len() == 2
            &&& axis == Axis::Across ==> {
                let edge = boxes[1].x;
                &&& boxes[0].x == rect.x && boxes[0].right() == edge
                &&& boxes[1].right() == rect.right()
                &&& 0 <= (b.x - edge) - (edge - a.right()) <= 1
                &&& boxes[0].y == rect.y && boxes[0].h == rect.h
                &&& boxes[1].y == rect.y && boxes[1].h == rect.h
            }
            &&& axis == Axis::Down ==> {
                let edge = boxes[1].y;
                &&& boxes[0].y == rect.y && boxes[0].bottom() == edge
                &&& boxes[1].bottom() == rect.bottom()
                &&& 0 <= (b.y - edge) - (edge - a.bottom()) <= 1
                &&& boxes[0].x == rect.x && boxes[0].w == rect.w
                &&& boxes[1].x == rect.x && boxes[1].w == rect.w
            }
        }),
{
    reveal_with_fuel(stretch::stretched, 3);
    reveal_with_fuel(tree::leaves, 3);
    let rects = seq![a, b];
    assert(tree::leaves(Node::Leaf(near)).len() == 1);
    assert(rects.take(1) =~= seq![a]);
    assert(rects.skip(1) =~= seq![b]);
    assert(stretch::covering(seq![a]) == a && stretch::covering(seq![b]) == b);
}

/// A half of the block is as tall as the block and starts at its top, whatever
/// its own tiles fill, and is as wide as its own columns.
pub proof fn a_half_is_as_tall_as_the_block(m: Metrics, block: Block, plot: PlotView)
    ensures
        ({
            let rect = layout::half_rect(m, block, plot);
            &&& rect.y == layout::block_rect(m, block).y
            &&& rect.h == layout::block_rect(m, block).h
            &&& rect.x == m.x_at(plot.col as int) as i64
            &&& rect.w == m.width_of(plot.cols as int) as i64
        }),
{
}

/// A box fills every cell of its own that no hole stands on, and no other.
pub proof fn a_box_fills_the_cells_no_hole_takes(
    holes: Seq<Block>,
    section: int,
    count: nat,
    row: int,
    col: int,
    cols: int,
    i: int,
)
    requires
        cols > 0,
        0 <= i < cells::laid(holes, section, count, row, col, cols).filled.len(),
    ensures
        ({
            let plot = cells::laid(holes, section, count, row, col, cols);
            plot.filled[i] <==> forall|h: int|
                0 <= h < holes.len() ==> !(#[trigger] holes[h]).stands_on(
                    plot.top + i / cols,
                    col + i % cols,
                )
        }),
{
}

proof fn lemma_every_free_slot(
    holes: Seq<Block>,
    top: int,
    col: int,
    cols: int,
    n: nat,
    i: int,
)
    requires
        n <= usize::MAX,
        0 <= i < n,
        !cells::slot_blocked(holes, top, col, cols, i),
    ensures
        cells::free_slots(holes, top, col, cols, n).contains(i as usize),
    decreases n,
{
    let before = cells::free_slots(holes, top, col, cols, (n - 1) as nat);
    let free = cells::free_slots(holes, top, col, cols, n);
    if i < n - 1 {
        lemma_every_free_slot(holes, top, col, cols, (n - 1) as nat, i);
        let p = choose|p: int| 0 <= p < before.len() && before[p] == i as usize;
        assert(free[p] == i as usize);
    } else {
        assert(free[before.len() as int] == i as usize);
    }
}

/// The tiles of a box stand in reading order on cells no hole takes, and pass
/// over no cell that is free.
pub proof fn tiles_pass_over_no_free_cell(
    holes: Seq<Block>,
    count: nat,
    top: int,
    col: int,
    cols: int,
    t: int,
    i: int,
)
    requires
        cells::ceiling(count) <= usize::MAX,
        cols > 0,
        0 <= t < cells::taken_slots(holes, count, top, col, cols).len(),
        0 <= i < cells::taken_slots(holes, count, top, col, cols)[t],
    ensures
        ({
            let slots = cells::taken_slots(holes, count, top, col, cols);
            &&& !cells::blocked(holes, top + slots[t] as int / cols, col + slots[t] as int % cols)
            &&& !cells::blocked(holes, top + i / cols, col + i % cols) ==> slots.take(t).contains(
                i as usize,
            )
            &&& t > 0 ==> slots[t - 1] < slots[t]
        }),
{
    let slots = cells::taken_slots(holes, count, top, col, cols);
    let free = cells::free_slots(holes, top, col, cols, cells::ceiling(count));
    cells::lemma_taken_slots(holes, count, top, col, cols);
    cells::lemma_free_slots(holes, top, col, cols, cells::ceiling(count));
    assert(slots[t] == free[t]);
    if !cells::slot_blocked(holes, top, col, cols, i) {
        lemma_every_free_slot(holes, top, col, cols, cells::ceiling(count), i);
        let p = choose|p: int| 0 <= p < free.len() && free[p] == i as usize;
        assert(p < t);
        assert(slots.take(t)[p] == i as usize);
    }
}

/// One hole cuts a bar in two exactly where it stands inside it: with room for a
/// tile on either side.
pub proof fn a_hole_inside_a_bar_cuts_it(hole: Block, row: int, col: int, cols: int)
    requires
        hole.row <= row < hole.row + hole.rows,
        hole.cols > 0,
        cols > 0,
    ensures
        cells::straddled(seq![hole], row, col, cols) <==> col < hole.col && hole.col + hole.cols
            < col + cols,
{
    let holes = seq![hole];
    assert forall|c: int| #[trigger] cells::blocked(holes, row, c) == (hole.col <= c < hole.col
        + hole.cols) by {
        assert(holes[0].stands_on(row, c) == (hole.col <= c < hole.col + hole.cols));
    }
    if col < hole.col && hole.col + hole.cols < col + cols {
        let (j, k) = (hole.col - col, hole.col + hole.cols - col);
        assert(cells::blocked(holes, row, col + j) && !cells::blocked(holes, row, col + k));
    }
}

proof fn lemma_slid(
    holes: Seq<Block>,
    row: int,
    col: int,
    cols: int,
    most: nat,
    r: int,
)
    requires
        0 <= r < cells::slide(holes, row, col, cols, most),
    ensures
        cells::straddled(holes, row + r, col, cols),
    decreases most,
{
    if r > 0 {
        lemma_slid(holes, row + 1, col, cols, (most - 1) as nat, r - 1);
    }
}

proof fn lemma_slid_clear(holes: Seq<Block>, row: int, col: int, cols: int, most: nat)
    ensures
        ({
            let slid = cells::slide(holes, row, col, cols, most);
            slid <= most && (slid < most ==> !cells::straddled(holes, row + slid, col, cols))
        }),
    decreases most,
{
    if most > 0 && cells::straddled(holes, row, col, cols) {
        lemma_slid_clear(holes, row + 1, col, cols, (most - 1) as nat);
    }
}

/// A box that fits on one row slides down past the rows a hole would cut it in,
/// and no further; any other stays where it is put.
pub proof fn a_bar_slides_past_what_would_cut_it(
    holes: Seq<Block>,
    count: nat,
    row: int,
    col: int,
    cols: int,
)
    ensures
        ({
            let top = cells::settles_at(holes, count, row, col, cols);
            &&& count > cols || count == 0 ==> top == row
            &&& row <= top <= row + cells::SLIDES
            &&& forall|r: int|
                row <= r < top ==> #[trigger] cells::straddled(holes, r, col, cols)
            &&& 0 < count <= cols && holes.len() > 0 && top < row + cells::SLIDES
                ==> !cells::straddled(holes, top, col, cols)
        }),
{
    let top = cells::settles_at(holes, count, row, col, cols);
    lemma_slid_clear(holes, row, col, cols, cells::SLIDES as nat);
    assert forall|r: int| row <= r < top implies #[trigger] cells::straddled(
        holes,
        r,
        col,
        cols,
    ) by {
        lemma_slid(holes, row, col, cols, cells::SLIDES as nat, r - row);
    }
}

} // verus!
