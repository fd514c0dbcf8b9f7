//! What a laid-out panel promises whoever points at it.

use vstd::prelude::*;
use crate::arrange;
use crate::cells::PlotView;
use crate::center;
use crate::geometry::{Metrics, Rect, CELLS};
use crate::lattice;
use crate::layout;
use crate::layout::Layout;
use crate::num;
use crate::place;
use crate::place::GroundView;
use crate::query;
use crate::scene;
use crate::section::SectionShape;
use crate::shape;
use crate::side::Axis;
use crate::stretch;
use crate::tree;
use crate::tree::Node;

verus! {

/// Whether the near half of every cut across a panel keeps to the columns it is
/// given. It does wherever every cut across is given a column for each half.
pub open spec fn columns_kept(sections: Seq<SectionShape>, m: Metrics, work: Rect) -> bool {
    match tree::planned(sections) {
        None => true,
        Some(node) => lattice::keeps_to_its_columns(
            node,
            shape::ground_of(sections, m, work),
            layout::panel_cols(sections, m, work),
        ),
    }
}

/// Whether every cut across a panel is given a column for each half.
pub open spec fn panel_roomy(sections: Seq<SectionShape>, m: Metrics, work: Rect) -> bool {
    match tree::planned(sections) {
        None => true,
        Some(node) => lattice::roomy(
            node,
            shape::ground_of(sections, m, work),
            layout::panel_cols(sections, m, work),
        ),
    }
}

/// Every tile of the centre block stands on a cell of the block, in the columns
/// of its own half of it.
pub proof fn every_tile_of_the_centre_lands_inside_the_block(
    sections: Seq<SectionShape>,
    m: Metrics,
    work: Rect,
    i: int,
    j: int,
)
    requires
        layout::measurable(sections, m, work),
        0 <= i < layout::sketched(sections, m, work).halves.len(),
        0 <= j < layout::sketched(sections, m, work).halves[i].slots.len(),
    ensures
        ({
            let sketch = layout::sketched(sections, m, work);
            let plot = sketch.halves[i];
            let widths = layout::halves(sections, m, work);
            let left = sketch.reserve->0.col + center::sum(widths.take(i));
            &&& sketch.reserve is Some
            &&& sketch.reserve->0.stands_on(plot.tile_row(j), plot.tile_col(j))
            &&& left <= plot.tile_col(j) < left + widths[i]
            &&& plot.slots.len() == sections[plot.section].count
        }),
{
    let sketch = layout::sketched(sections, m, work);
    let order = layout::middle(sections);
    let widths = layout::halves(sections, m, work);
    shape::lemma_halves(sections, m, work);
    let block = sketch.reserve->0;
    let plot = sketch.halves[i];
    assert(shape::is_half(sections, order, widths, block, plot, i));
    let count = sections[order[i] as int].count as nat;
    arrange::lemma_heft_bounds(
        sections,
        layout::clear_rows(m),
        order[i] as int,
        sections.len(),
    );
    lattice::a_box_with_nothing_in_its_way_fills_its_cells(
        order[i] as int,
        count,
        block.row as int,
        plot.col,
        plot.cols,
    );
    assert(layout::drawable(plot, sections));
    shape::lemma_tile_cell(sections, plot, j);
}

/// Two halves of the centre block have no column in common.
proof fn lemma_halves_apart(
    sections: Seq<SectionShape>,
    m: Metrics,
    work: Rect,
    a: int,
    b: int,
)
    requires
        layout::measurable(sections, m, work),
        0 <= a < b < layout::middle(sections).len(),
    ensures
        ({
            let widths = layout::halves(sections, m, work);
            center::sum(widths.take(a)) + widths[a] <= center::sum(widths.take(b))
        }),
{
    let widths = layout::halves(sections, m, work);
    shape::lemma_frame(sections, m, work);
    center::lemma_sum_take(widths.take(b), a + 1);
    assert(widths.take(b).take(a + 1) =~= widths.take(a + 1));
    assert(widths.take(a + 1).drop_last() =~= widths.take(a));
    assert(widths.take(a + 1).last() == widths[a]);
}

/// The two halves sit side by side in the order their sections asked for, and
/// neither has a point of the other.
pub proof fn the_halves_sit_side_by_side_in_order(
    sections: Seq<SectionShape>,
    m: Metrics,
    work: Rect,
    a: int,
    b: int,
)
    requires
        layout::measurable(sections, m, work),
        0 <= a < b < layout::sketched(sections, m, work).halves.len(),
    ensures
        ({
            let halves = layout::sketched(sections, m, work).halves;
            &&& halves[a].col + halves[a].cols <= halves[b].col
            &&& halves[a].row == halves[b].row
            &&& center::seat(sections[halves[a].section]) <= center::seat(
                sections[halves[b].section],
            )
        }),
{
    shape::lemma_halves(sections, m, work);
    lemma_halves_apart(sections, m, work, a, b);
    let sketch = layout::sketched(sections, m, work);
    let order = layout::middle(sections);
    let widths = layout::halves(sections, m, work);
    arrange::lemma_planned(sections, layout::clear_rows(m));
    center::center_boxes_sit_in_order(sections, sections.len());
    assert(shape::is_half(sections, order, widths, sketch.reserve->0, sketch.halves[a], a));
    assert(shape::is_half(sections, order, widths, sketch.reserve->0, sketch.halves[b], b));
    assert(center::sits_before(sections, order[a], order[b]));
}

/// Two tiles of different boxes stand on different cells.
proof fn lemma_boxes_apart(
    sections: Seq<SectionShape>,
    m: Metrics,
    work: Rect,
    a: int,
    b: int,
    j: int,
    k: int,
)
    requires
        layout::measurable(sections, m, work),
        columns_kept(sections, m, work),
        0 <= a < b < layout::sketched(sections, m, work).plots().len(),
        0 <= j < layout::sketched(sections, m, work).plots()[a].slots.len(),
        0 <= k < layout::sketched(sections, m, work).plots()[b].slots.len(),
    ensures
        ({
            let plots = layout::sketched(sections, m, work).plots();
            plots[a].tile_row(j) != plots[b].tile_row(k) || plots[a].tile_col(j)
                != plots[b].tile_col(k)
        }),
{
    let sketch = layout::sketched(sections, m, work);
    let plots = sketch.plots();
    let n = sketch.treed.len();
    let frame = layout::frame_of(sections, m, work);
    let ground = shape::ground_of(sections, m, work);
    shape::every_section_with_tiles_has_one_box(sections, m, work);
    shape::lemma_frame(sections, m, work);
    assert(layout::drawable(plots[a], sections) && layout::drawable(plots[b], sections));
    shape::lemma_tile_cell(sections, plots[a], j);
    shape::lemma_tile_cell(sections, plots[b], k);
    if b < n {
        assert(plots[a] == sketch.treed[a] && plots[b] == sketch.treed[b]);
        let node = tree::planned(sections)->0;
        shape::lemma_countable(sections, m, work, node);
        lattice::boxes_never_overlap(node, ground, 0, 0, frame.cols as int);
        assert(plots[a].clear_of(plots[b]));
    } else if a >= n {
        assert(plots[a] == sketch.halves[a - n] && plots[b] == sketch.halves[b - n]);
        every_tile_of_the_centre_lands_inside_the_block(sections, m, work, a - n, j);
        every_tile_of_the_centre_lands_inside_the_block(sections, m, work, b - n, k);
        shape::lemma_halves(sections, m, work);
        lemma_halves_apart(sections, m, work, a - n, b - n);
    } else {
        assert(plots[a] == sketch.treed[a] && plots[b] == sketch.halves[b - n]);
        shape::lemma_sketch(sections, m, work);
        shape::lemma_tree_tile(sections, m, work, a, j);
        every_tile_of_the_centre_lands_inside_the_block(sections, m, work, b - n, k);
        let holes = arrange::holes_of(sections, frame);
        assert(holes.blocks()[0] == sketch.reserve->0);
        assert(!holes.blocks()[0].stands_on(plots[a].tile_row(j), plots[a].tile_col(j)));
    }
}

/// Two tiles of one box stand on different cells.
proof fn lemma_box_cells(
    sections: Seq<SectionShape>,
    m: Metrics,
    work: Rect,
    a: int,
    j: int,
    k: int,
)
    requires
        layout::measurable(sections, m, work),
        0 <= a < layout::sketched(sections, m, work).plots().len(),
        0 <= j < k < layout::sketched(sections, m, work).plots()[a].slots.len(),
    ensures
        ({
            let plot = layout::sketched(sections, m, work).plots()[a];
            lattice::read_before(
                (plot.tile_row(j), plot.tile_col(j)),
                (plot.tile_row(k), plot.tile_col(k)),
            )
        }),
{
    let sketch = layout::sketched(sections, m, work);
    let plot = sketch.plots()[a];
    let n = sketch.treed.len();
    let frame = layout::frame_of(sections, m, work);
    shape::lemma_frame(sections, m, work);
    shape::every_section_with_tiles_has_one_box(sections, m, work);
    assert(layout::drawable(plot, sections));
    arrange::lemma_heft_bounds(
        sections,
        layout::clear_rows(m),
        plot.section,
        sections.len(),
    );
    let count = sections[plot.section].count as nat;
    if a < n {
        assert(plot == sketch.treed[a]);
        let node = tree::planned(sections)->0;
        let ground = shape::ground_of(sections, m, work);
        shape::lemma_countable(sections, m, work, node);
        shape::lemma_leaf_laid(node, ground, 0, 0, frame.cols as int, a);
        lattice::tiles_read_in_order_around_the_holes(
            ground.holes,
            plot.section,
            count,
            plot.row,
            plot.col,
            plot.cols,
        );
    } else {
        assert(plot == sketch.halves[a - n]);
        shape::lemma_halves(sections, m, work);
        let order = layout::middle(sections);
        let widths = layout::halves(sections, m, work);
        assert(shape::is_half(
            sections,
            order,
            widths,
            sketch.reserve->0,
            sketch.halves[a - n],
            a - n,
        ));
        lattice::tiles_read_in_order_around_the_holes(
            Seq::empty(),
            plot.section,
            count,
            plot.row,
            plot.col,
            plot.cols,
        );
    }
    let (first, second) = (plot.slots[j], plot.slots[k]);
}

/// Tiles never overlap: where the near half of every cut across keeps to its
/// columns, no two tiles of a panel have a point in common.
pub proof fn tiles_never_overlap(
    layout: Layout,
    sections: Seq<SectionShape>,
    m: Metrics,
    work: Rect,
    s: int,
    t: int,
)
    requires
        layout::measurable(sections, m, work),
        layout.lays_out(sections, m, work),
        columns_kept(sections, m, work),
        0 <= s < layout.tiles@.len(),
        0 <= t < layout.tiles@.len(),
        s != t,
    ensures
        !layout.tiles@[s].meets(layout.tiles@[t]),
{
    let plots = layout::sketched(sections, m, work).plots();
    shape::every_section_with_tiles_has_one_box(sections, m, work);
    shape::lemma_source(sections, m, plots, plots.len(), s);
    shape::lemma_source(sections, m, plots, plots.len(), t);
    let (p, q) = (layout.tiles@[s], layout.tiles@[t]);
    if p != Rect::spec_blank() && q != Rect::spec_blank() {
        let (a, j) = choose|i: int, j: int| shape::drawn_by(sections, m, plots, p, s, i, j);
        let (b, k) = choose|i: int, j: int| shape::drawn_by(sections, m, plots, q, t, i, j);
        assert(layout::drawable(plots[a], sections) && layout::drawable(plots[b], sections));
        shape::lemma_tile_cell(sections, plots[a], j);
        shape::lemma_tile_cell(sections, plots[b], k);
        if a == b {
            if j < k {
                lemma_box_cells(sections, m, work, a, j, k);
            } else {
                lemma_box_cells(sections, m, work, a, k, j);
            }
        } else if a < b {
            lemma_boxes_apart(sections, m, work, a, b, j, k);
        } else {
            lemma_boxes_apart(sections, m, work, b, a, k, j);
        }
        shape::lemma_cells_apart(
            m,
            (plots[a].tile_row(j), plots[a].tile_col(j)),
            (plots[b].tile_row(k), plots[b].tile_col(k)),
        );
    } else {
        lemma_blank(layout, sections, m, work, s);
        lemma_blank(layout, sections, m, work, t);
    }
}

proof fn lemma_blank(
    layout: Layout,
    sections: Seq<SectionShape>,
    m: Metrics,
    work: Rect,
    t: int,
)
    requires
        layout::measurable(sections, m, work),
        layout.lays_out(sections, m, work),
        0 <= t < layout.tiles@.len(),
    ensures
        layout.tiles@[t].x >= 0,
        layout.tiles@[t].y >= 0,
{
    let plots = layout::sketched(sections, m, work).plots();
    let tile = layout.tiles@[t];
    shape::every_section_with_tiles_has_one_box(sections, m, work);
    shape::lemma_source(sections, m, plots, plots.len(), t);
    if tile != Rect::spec_blank() {
        let (i, j) = choose|i: int, j: int| shape::drawn_by(sections, m, plots, tile, t, i, j);
        assert(layout::drawable(plots[i], sections));
        shape::lemma_tile_cell(sections, plots[i], j);
        query::lemma_lattice(m, plots[i].tile_row(j));
        query::lemma_lattice(m, plots[i].tile_col(j));
    }
}

/// A point inside a tile that is on the panel belongs to that tile and no
/// other, so a hit test at it answers with that tile.
pub proof fn a_point_of_a_tile_is_a_point_of_no_other(
    layout: Layout,
    sections: Seq<SectionShape>,
    m: Metrics,
    work: Rect,
    t: int,
    x: int,
    y: int,
)
    requires
        layout::measurable(sections, m, work),
        layout.lays_out(sections, m, work),
        columns_kept(sections, m, work),
        0 <= t < layout.tiles@.len(),
        layout.tiles@[t].holds(x, y),
    ensures
        forall|i: int|
            0 <= i < layout.tiles@.len() && i != t ==> !(#[trigger] layout.tiles@[i]).holds(x, y),
{
    assert forall|i: int| 0 <= i < layout.tiles@.len() && i != t implies !(
    #[trigger] layout.tiles@[i]).holds(x, y) by {
        tiles_never_overlap(layout, sections, m, work, i, t);
    }
}

/// A point of a tile as it is drawn, on the panel, hits that tile: the first
/// tile under it is the one whose rectangle it is in, however far the panel is
/// scrolled.
pub proof fn a_point_of_a_tile_hits_that_tile(
    layout: Layout,
    sections: Seq<SectionShape>,
    m: Metrics,
    work: Rect,
    t: int,
    x: int,
    y: int,
    scroll: int,
)
    requires
        layout::measurable(sections, m, work),
        layout.lays_out(sections, m, work),
        columns_kept(sections, m, work),
        0 <= t < layout.tiles@.len(),
        layout.on_panel(x, y),
        layout.tiles@[t].holds(x, y + scroll),
    ensures
        scene::under_from(layout.tiles@, x, y + scroll, 0) == Some(t),
{
    a_point_of_a_tile_is_a_point_of_no_other(layout, sections, m, work, t, x, y + scroll);
    lemma_under(layout.tiles@, x, y + scroll, t, 0);
}

proof fn lemma_under(tiles: Seq<Rect>, x: int, y: int, t: int, from: int)
    requires
        0 <= from <= t < tiles.len(),
        tiles[t].holds(x, y),
        forall|i: int| 0 <= i < tiles.len() && i != t ==> !(#[trigger] tiles[i]).holds(x, y),
    ensures
        scene::under_from(tiles, x, y, from) == Some(t),
    decreases t - from,
{
    if from < t {
        assert(!tiles[from].holds(x, y));
        lemma_under(tiles, x, y, t, from + 1);
    }
}

/// A box that has a side of the panel to itself runs the whole height of it, or
/// the whole width when it is a side across the top or the bottom.
pub proof fn a_box_on_its_own_side_runs_the_whole_length_of_it(
    sections: Seq<SectionShape>,
    m: Metrics,
    work: Rect,
    axis: Axis,
    share: u32,
    near: Node,
    far: Node,
    i: int,
)
    requires
        layout::measurable(sections, m, work),
        tree::planned(sections) == Some(
            (Node::Cut { axis, share, near: Box::new(near), far: Box::new(far) }),
        ),
        near is Leaf && i == 0 || far is Leaf && i == tree::leaves(near).len(),
    ensures
        0 <= i < layout::bands_of(sections, m, work).len(),
        ({
            let band = layout::bands_of(sections, m, work)[i].rect;
            let whole = layout::tree_rect(sections, m, work);
            match axis {
                Axis::Across => band.y == whole.y && band.h == whole.h,
                Axis::Down => band.x == whole.x && band.w == whole.w,
            }
        }),
{
    let node = tree::planned(sections)->0;
    let treed = layout::sketched(sections, m, work).treed;
    let rects = layout::box_rects(m, treed);
    let whole = layout::tree_rect(sections, m, work);
    let k = tree::leaves(near).len() as int;
    let edge = stretch::cut_edge(node, rects);
    let frame = layout::frame_of(sections, m, work);
    shape::lemma_frame(sections, m, work);
    layout::lemma_treed_drawable(sections, frame, arrange::holes_of(sections, frame));
    arrange::lemma_planned(sections, layout::clear_rows(m));
    stretch::lemma_stretched_len(node, rects, whole);
    stretch::lemma_stretched_len(near, rects.take(k), stretch::before(axis, whole, edge));
    stretch::lemma_stretched_len(far, rects.skip(k), stretch::after(axis, whole, edge));
    let grown = layout::grown_rects(sections, m, work);
    let (a, b) = (
        stretch::stretched(near, rects.take(k), stretch::before(axis, whole, edge)),
        stretch::stretched(far, rects.skip(k), stretch::after(axis, whole, edge)),
    );
    assert(grown == a + b);
    if near is Leaf && i == 0 {
        assert(grown[0] == a[0]);
    } else {
        assert(grown[i] == b[0]);
    }
}

/// Every tile of the panel belongs to exactly one band, the band of the section
/// it was configured under.
pub proof fn every_tile_belongs_to_one_band(
    layout: Layout,
    sections: Seq<SectionShape>,
    m: Metrics,
    work: Rect,
    k: int,
    j: int,
)
    requires
        layout::measurable(sections, m, work),
        layout.lays_out(sections, m, work),
        0 <= k < sections.len(),
        0 <= j < sections[k].count,
    ensures
        ({
            let t = layout::counted(sections, k as nat) + j;
            &&& 0 <= t < layout.tiles@.len()
            &&& exists|b: int|
                0 <= b < layout.bands@.len() && #[trigger] layout.owns(b, t)
                    && layout.bands@[b].section == k
            &&& forall|b: int|
                0 <= b < layout.bands@.len() && #[trigger] layout.owns(b, t)
                    ==> layout.bands@[b].section == k
        }),
{
    let t = layout::counted(sections, k as nat) + j;
    let sketch = layout::sketched(sections, m, work);
    let plots = sketch.plots();
    shape::every_section_with_tiles_has_one_box(sections, m, work);
    shape::lemma_counted_apart(sections, k as nat, sections.len());
    shape::lemma_tiles_len(sections, m, plots, plots.len());
    assert(layout::band_views(layout.bands@).len() == layout.bands@.len());
    assert(layout::bands_of(sections, m, work).len() == plots.len());
    assert(sections[k].count > 0);
    let b = choose|i: int| 0 <= i < plots.len() && (#[trigger] plots[i]).section == k;
    shape::lemma_band(layout, sections, m, work, b);
    assert(layout.owns(b, t));
    assert forall|b: int|
        0 <= b < layout.bands@.len() && #[trigger] layout.owns(b, t) implies layout.bands@[b].section
        == k by {
        shape::lemma_band(layout, sections, m, work, b);
        let s = plots[b].section;
        if s < k {
            shape::lemma_counted_apart(sections, s as nat, k as nat);
        } else if k < s {
            shape::lemma_counted_apart(sections, k as nat, s as nat);
        }
    }
}

proof fn lemma_covering_within(
    rects: Seq<Rect>,
    left: int,
    top: int,
    right: int,
    bottom: int,
)
    requires
        rects.len() >= 1,
        stretch::all_near(rects),
        forall|i: int|
            0 <= i < rects.len() ==> {
                &&& left <= (#[trigger] rects[i]).x
                &&& top <= rects[i].y
                &&& rects[i].right() <= right
                &&& rects[i].bottom() <= bottom
            },
    ensures
        left <= stretch::covering(rects).x,
        top <= stretch::covering(rects).y,
        stretch::covering(rects).right() <= right,
        stretch::covering(rects).bottom() <= bottom,
    decreases rects.len(),
{
    assert(rects[0].near_enough());
    if rects.len() > 1 {
        let shorter = rects.drop_last();
        assert forall|i: int| 0 <= i < shorter.len() implies (#[trigger] shorter[i]) == rects[i] by {}
        assert(stretch::all_near(shorter)) by {
            assert forall|i: int| 0 <= i < shorter.len() implies (
            #[trigger] shorter[i]).near_enough() && shorter[i].w >= 0 && shorter[i].h >= 0 by {
                assert(shorter[i] == rects[i]);
            }
        }
        lemma_covering_within(shorter, left, top, right, bottom);
        stretch::lemma_covering(shorter);
        assert(rects.last() == rects[rects.len() - 1]);
    }
}

/// What a box that lies between some rows and columns takes up lies between
/// their edges.
proof fn lemma_box_within(
    m: Metrics,
    sections: Seq<SectionShape>,
    plot: PlotView,
    row: int,
    low: int,
    col: int,
    right: int,
)
    requires
        m.wf(),
        layout::drawable(plot, sections),
        0 <= row,
        0 <= col,
        lattice::between(plot, row, low, col, right),
        low <= CELLS,
        right <= CELLS,
    ensures
        m.x_at(col) <= layout::box_rect(m, plot).x,
        m.y_at(row) <= layout::box_rect(m, plot).y,
        layout::box_rect(m, plot).right() <= m.x_at(right) - m.gap,
        layout::box_rect(m, plot).bottom() <= m.y_at(low),
        plot.rows >= 1 ==> layout::box_rect(m, plot).bottom() <= m.y_at(low) - m.gap,
{
    query::lemma_box_near(m, plot, sections);
    let (sx, sy) = (m.step_x(), m.step_y());
    shape::lemma_run(m, plot.rows, plot.cols);
    assert(col * sx <= plot.col * sx) by (nonlinear_arith)
        requires
            col <= plot.col,
            sx >= 0,
    ;
    assert(row * sy <= plot.row * sy) by (nonlinear_arith)
        requires
            row <= plot.row,
            sy >= 0,
    ;
    assert((plot.col + plot.cols) * sx <= right * sx) by (nonlinear_arith)
        requires
            plot.col + plot.cols <= right,
            sx >= 0,
    ;
    assert((plot.col + plot.cols) * sx == plot.col * sx + plot.cols * sx) by (nonlinear_arith);
    assert((plot.top + plot.rows) * sy <= low * sy) by (nonlinear_arith)
        requires
            plot.top + plot.rows <= low,
            sy >= 0,
    ;
    if plot.rows == 0 {
        query::lemma_lattice(m, plot.top);
    } else {
        let last = plot.top + plot.rows;
        query::lemma_lattice(m, last);
        assert((last - 1) * sy == last * sy - sy) by (nonlinear_arith);
    }
}

proof fn lemma_columns_bounded(node: Node, ground: GroundView, cols: int)
    requires
        0 <= cols,
        !tree::has_hole(node),
    ensures
        1 <= lattice::columns_taken(node, ground, cols) <= num::larger(cols, 1)
            + place::cut_count(node),
    decreases node,
{
    match node {
        Node::Cut { axis: Axis::Across, near, far, .. } => {
            let split = place::split_of(node, ground, cols);
            lemma_columns_bounded(*near, ground, split);
            lemma_columns_bounded(*far, ground, num::larger(cols - split, 0));
        },
        Node::Cut { axis: Axis::Down, near, far, .. } => {
            lemma_columns_bounded(*near, ground, cols);
            lemma_columns_bounded(*far, ground, cols);
        },
        _ => {},
    }
}

proof fn lemma_rects_near(m: Metrics, sections: Seq<SectionShape>, plots: Seq<PlotView>)
    requires
        m.wf(),
        layout::all_drawable(plots, sections),
    ensures
        stretch::all_near(layout::box_rects(m, plots)),
{
    let rects = layout::box_rects(m, plots);
    assert forall|i: int| 0 <= i < rects.len() implies (#[trigger] rects[i]).near_enough()
        && rects[i].w >= 0 && rects[i].h >= 0 by {
        assert(layout::drawable(plots[i], sections));
        query::lemma_box_near(m, plots[i], sections);
    }
}

/// Where the near half of every cut across keeps to its columns, what each half
/// of a cut takes up ends before what the other takes up starts.
proof fn lemma_apart(
    node: Node,
    ground: GroundView,
    m: Metrics,
    row: int,
    col: int,
    cols: int,
)
    requires
        m.wf(),
        lattice::countable(node, ground),
        0 <= row,
        0 <= col,
        0 <= cols < usize::MAX,
        lattice::keeps_to_its_columns(node, ground, cols),
        col + num::larger(cols, 1) + place::cut_count(node) <= CELLS,
        row + tree::total(node, place::reach(ground.sections, ground.clear)) <= CELLS,
        layout::all_drawable(place::placed(node, ground, row, col, cols).0, ground.sections),
    ensures
        stretch::apart(
            node,
            layout::box_rects(m, place::placed(node, ground, row, col, cols).0),
        ),
    decreases node,
{
    let plots = place::placed(node, ground, row, col, cols).0;
    let rects = layout::box_rects(m, plots);
    if let Node::Cut { axis, near, far, .. } = node {
        let (front, back, right, low) = match axis {
            Axis::Across => {
                let split = place::split_of(node, ground, cols);
                let spare = num::larger(cols - split, 0);
                lattice::boxes_lie_in_what_their_subtree_takes(*near, ground, row, col, split);
                lattice::boxes_lie_in_what_their_subtree_takes(
                    *far,
                    ground,
                    row,
                    col + split,
                    spare,
                );
                (
                    (row, col, split, lattice::columns_taken(*near, ground, split)),
                    (row, col + split, spare, lattice::columns_taken(*far, ground, spare)),
                    col + split,
                    row,
                )
            },
            Axis::Down => {
                let line = place::placed(*near, ground, row, col, cols).1;
                let next = place::next_row(line, ground.clear as int);
                lattice::boxes_lie_in_what_their_subtree_takes(*near, ground, row, col, cols);
                place::lemma_placed_bounded(*near, ground, row, col, cols);
                lattice::boxes_lie_in_what_their_subtree_takes(*far, ground, next, col, cols);
                (
                    (row, col, cols, lattice::columns_taken(*near, ground, cols)),
                    (next, col, cols, lattice::columns_taken(*far, ground, cols)),
                    col,
                    (line + 1) / 2,
                )
            },
        };
        lemma_columns_bounded(*near, ground, front.2);
        lemma_columns_bounded(*far, ground, back.2);
        place::lemma_placed_bounded(*near, ground, front.0, front.1, front.2);
        place::lemma_placed_bounded(*far, ground, back.0, back.1, back.2);
        let (head, head_line) = place::placed(*near, ground, front.0, front.1, front.2);
        let (tail, tail_line) = place::placed(*far, ground, back.0, back.1, back.2);
        assert(plots =~= head + tail);
        let k = head.len() as int;
        assert forall|i: int| 0 <= i < head.len() implies layout::drawable(
            #[trigger] head[i],
            ground.sections,
        ) by {
            assert(plots[i] == head[i]);
        }
        assert forall|i: int| 0 <= i < tail.len() implies layout::drawable(
            #[trigger] tail[i],
            ground.sections,
        ) by {
            assert(plots[k + i] == tail[i]);
        }
        assert(rects.take(k) =~= layout::box_rects(m, head));
        assert(rects.skip(k) =~= layout::box_rects(m, tail));
        lemma_rects_near(m, ground.sections, head);
        lemma_rects_near(m, ground.sections, tail);
        stretch::lemma_leaves(*near);
        stretch::lemma_leaves(*far);
        let (a, b) = (rects.take(k), rects.skip(k));
        assert forall|i: int| 0 <= i < a.len() implies {
            &&& m.x_at(front.1) <= (#[trigger] a[i]).x
            &&& m.y_at(front.0) <= a[i].y
            &&& a[i].right() <= m.x_at(front.1 + front.3) - m.gap
            &&& a[i].bottom() <= m.y_at((head_line + 1) / 2)
        } by {
            assert(lattice::between(
                head[i],
                front.0,
                (head_line + 1) / 2,
                front.1,
                front.1 + front.3,
            ));
            lemma_box_within(
                m,
                ground.sections,
                head[i],
                front.0,
                (head_line + 1) / 2,
                front.1,
                front.1 + front.3,
            );
        }
        assert forall|i: int| 0 <= i < b.len() implies {
            &&& m.x_at(back.1) <= (#[trigger] b[i]).x
            &&& m.y_at(back.0) <= b[i].y
            &&& b[i].right() <= m.x_at(back.1 + back.3) - m.gap
            &&& b[i].bottom() <= m.y_at((tail_line + 1) / 2)
        } by {
            assert(lattice::between(
                tail[i],
                back.0,
                (tail_line + 1) / 2,
                back.1,
                back.1 + back.3,
            ));
            lemma_box_within(
                m,
                ground.sections,
                tail[i],
                back.0,
                (tail_line + 1) / 2,
                back.1,
                back.1 + back.3,
            );
        }
        lemma_covering_within(
            a,
            m.x_at(front.1),
            m.y_at(front.0),
            m.x_at(front.1 + front.3) - m.gap,
            m.y_at((head_line + 1) / 2),
        );
        lemma_covering_within(
            b,
            m.x_at(back.1),
            m.y_at(back.0),
            m.x_at(back.1 + back.3) - m.gap,
            m.y_at((tail_line + 1) / 2),
        );
        match axis {
            Axis::Across => {
                let (p, q) = (front.1 + front.3, back.1);
                assert(p * m.step_x() <= q * m.step_x()) by (nonlinear_arith)
                    requires
                        p <= q,
                        m.step_x() >= 0,
                ;
            },
            Axis::Down => {
                let (p, q) = ((head_line + 1) / 2, back.0);
                assert(p * m.step_y() <= q * m.step_y()) by (nonlinear_arith)
                    requires
                        p <= q,
                        m.step_y() >= 0,
                ;
            },
        }
        lemma_apart(*near, ground, m, front.0, front.1, front.2);
        lemma_apart(*far, ground, m, back.0, back.1, back.2);
    }
}

/// No box of a subtree ends below the line the subtree reaches.
proof fn lemma_bottoms(node: Node, ground: GroundView, row: int, col: int, cols: int)
    requires
        lattice::countable(node, ground),
        0 <= row,
        0 <= cols < usize::MAX,
    ensures
        ({
            let (plots, line) = place::placed(node, ground, row, col, cols);
            forall|i: int| 0 <= i < plots.len() ==> (#[trigger] plots[i]).bottom() <= line
        }),
    decreases node,
{
    let (plots, line) = place::placed(node, ground, row, col, cols);
    match node {
        Node::Cut { axis: Axis::Across, near, far, .. } => {
            let split = place::split_of(node, ground, cols);
            let spare = num::larger(cols - split, 0);
            lemma_bottoms(*near, ground, row, col, split);
            lemma_bottoms(*far, ground, row, col + split, spare);
            let left = place::placed(*near, ground, row, col, split).0;
            let right = place::placed(*far, ground, row, col + split, spare).0;
            assert forall|i: int| 0 <= i < plots.len() implies (#[trigger] plots[i]).bottom()
                <= line by {
                if i < left.len() {
                    assert(plots[i] == left[i]);
                } else {
                    assert(plots[i] == right[i - left.len()]);
                }
            }
        },
        Node::Cut { axis: Axis::Down, near, far, .. } => {
            lemma_bottoms(*near, ground, row, col, cols);
            place::lemma_placed_bounded(*near, ground, row, col, cols);
            let (above, first) = place::placed(*near, ground, row, col, cols);
            let next = place::next_row(first, ground.clear as int);
            lemma_bottoms(*far, ground, next, col, cols);
            place::lemma_placed_bounded(*far, ground, next, col, cols);
            let under = place::placed(*far, ground, next, col, cols).0;
            assert forall|i: int| 0 <= i < plots.len() implies (#[trigger] plots[i]).bottom()
                <= line by {
                if i < above.len() {
                    assert(plots[i] == above[i]);
                } else {
                    assert(plots[i] == under[i - above.len()]);
                }
            }
        },
        _ => {},
    }
}

proof fn lemma_lines(m: Metrics, a: int, b: int)
    requires
        m.wf(),
        0 <= a <= b,
    ensures
        m.y_line(a) <= m.y_line(b),
{
    let (p, q) = (a / 2, b / 2);
    if p < q {
        shape::lemma_steps(p, q, m.step_y());
    }
}

/// What a panel's boxes take up, before they are grown, lies in the part of the
/// panel they are grown to fill.
proof fn lemma_tree_spans(sections: Seq<SectionShape>, m: Metrics, work: Rect)
    requires
        layout::measurable(sections, m, work),
        panel_roomy(sections, m, work),
    ensures
        ({
            let rects = layout::box_rects(m, layout::sketched(sections, m, work).treed);
            &&& stretch::all_near(rects)
            &&& layout::tree_rect(sections, m, work).near_enough()
            &&& stretch::spans_all(layout::tree_rect(sections, m, work), rects)
            &&& match tree::planned(sections) {
                None => rects.len() == 0,
                Some(node) => {
                    &&& !tree::has_hole(node)
                    &&& rects.len() == tree::leaves(node).len()
                    &&& stretch::apart(node, rects)
                },
            }
        }),
{
    let sketch = layout::sketched(sections, m, work);
    let frame = layout::frame_of(sections, m, work);
    let ground = shape::ground_of(sections, m, work);
    let rects = layout::box_rects(m, sketch.treed);
    let whole = layout::tree_rect(sections, m, work);
    let cols = frame.cols as int;
    shape::lemma_frame(sections, m, work);
    shape::lemma_sketch(sections, m, work);
    arrange::lemma_planned(sections, layout::clear_rows(m));
    lemma_rects_near(m, sections, sketch.treed);
    arrange::lemma_pass_bounded(sections, frame, arrange::holes_of(sections, frame));
    shape::lemma_run(m, 0, cols);
    query::lemma_lattice(m, cols);
    query::lemma_lattice(m, sketch.line / 2);
    layout::lemma_content_below_strip(m, sketch.line);
    layout::lemma_treed_drawable(sections, frame, arrange::holes_of(sections, frame));
    if let Some(node) = tree::planned(sections) {
        shape::lemma_countable(sections, m, work, node);
        lattice::a_roomy_subtree_keeps_to_its_columns(node, ground, cols);
        lattice::boxes_lie_in_what_their_subtree_takes(node, ground, 0, 0, cols);
        lemma_bottoms(node, ground, 0, 0, cols);
        lemma_apart(node, ground, m, 0, 0, cols);
        let line = place::placed(node, ground, 0, 0, cols).1;
        assert forall|i: int| 0 <= i < rects.len() implies whole.spans(#[trigger] rects[i]) by {
            let plot = sketch.treed[i];
            assert(lattice::between(
                plot,
                0,
                (line + 1) / 2,
                0,
                lattice::columns_taken(node, ground, cols),
            ));
            assert(layout::drawable(plot, sections));
            query::lemma_box_near(m, plot, sections);
            assert(plot.bottom() <= line <= sketch.line);
            lemma_lines(m, plot.bottom(), sketch.line);
            let right = plot.col + plot.cols;
            shape::lemma_run(m, 0, plot.cols);
            assert(right * m.step_x() <= cols * m.step_x()) by (nonlinear_arith)
                requires
                    right <= cols,
                    m.step_x() >= 0,
            ;
            assert(right * m.step_x() == plot.col * m.step_x() + plot.cols * m.step_x())
                by (nonlinear_arith)
                requires
                    right == plot.col + plot.cols,
            ;
            query::lemma_lattice(m, plot.row);
            query::lemma_lattice(m, plot.col);
            assert(0 <= plot.row * m.step_y()) by (nonlinear_arith)
                requires
                    0 <= plot.row,
                    0 <= m.step_y(),
            ;
        }
    }
}

/// Every point of the panel under the filter strip belongs to some box, so a
/// click or a drop in the space beside or below a box means that box and not
/// nothing.
pub proof fn bands_cover_the_panel_with_nothing_in_between(
    layout: Layout,
    sections: Seq<SectionShape>,
    m: Metrics,
    work: Rect,
    x: int,
    y: int,
)
    requires
        layout::measurable(sections, m, work),
        layout.lays_out(sections, m, work),
        tree::planned(sections) is Some,
        0 <= x < layout::panel_width(sections, m, work),
        m.search_h <= y < layout.content_h,
    ensures
        exists|b: int|
            0 <= b < layout.bands@.len() && !(#[trigger] layout.bands@[b]).center
                && layout.bands@[b].rect.holds(x, y),
{
    let sketch = layout::sketched(sections, m, work);
    let frame = layout::frame_of(sections, m, work);
    let rects = layout::box_rects(m, sketch.treed);
    let whole = layout::tree_rect(sections, m, work);
    shape::lemma_frame(sections, m, work);
    shape::lemma_sketch(sections, m, work);
    arrange::lemma_planned(sections, layout::clear_rows(m));
    lemma_rects_near(m, sections, sketch.treed);
    arrange::lemma_pass_bounded(sections, frame, arrange::holes_of(sections, frame));
    query::lemma_lattice(m, frame.cols as int);
    query::lemma_lattice(m, sketch.line / 2);
    layout::lemma_content_below_strip(m, sketch.line);
    layout::lemma_treed_drawable(sections, frame, arrange::holes_of(sections, frame));
    let node = tree::planned(sections)->0;
    stretch::stretched_boxes_cover_the_panel(node, rects, whole, x, y);
    let grown = layout::grown_rects(sections, m, work);
    let b = choose|i: int| 0 <= i < grown.len() && (#[trigger] grown[i]).holds(x, y);
    stretch::lemma_stretched_len(node, rects, whole);
    assert(layout::band_views(layout.bands@).len() == layout.bands@.len());
    assert(layout::bands_of(sections, m, work).len() == sketch.plots().len());
    shape::lemma_band(layout, sections, m, work, b);
    assert(layout.bands@[b]@.rect == grown[b]);
}

/// Where every cut across has a column for each half, no two boxes of the tree
/// share a point of the panel.
pub proof fn bands_never_share_a_point(
    layout: Layout,
    sections: Seq<SectionShape>,
    m: Metrics,
    work: Rect,
    a: int,
    b: int,
)
    requires
        layout::measurable(sections, m, work),
        layout.lays_out(sections, m, work),
        panel_roomy(sections, m, work),
        0 <= a < b < layout.bands@.len(),
        !layout.bands@[a].center,
        !layout.bands@[b].center,
    ensures
        !layout.bands@[a].rect.meets(layout.bands@[b].rect),
{
    let sketch = layout::sketched(sections, m, work);
    let rects = layout::box_rects(m, sketch.treed);
    shape::lemma_band(layout, sections, m, work, a);
    shape::lemma_band(layout, sections, m, work, b);
    lemma_tree_spans(sections, m, work);
    let node = tree::planned(sections)->0;
    let whole = layout::tree_rect(sections, m, work);
    stretch::stretched_boxes_stay_apart(node, rects, whole);
    let grown = stretch::stretched(node, rects, whole);
    assert(layout.bands@[a]@.rect == grown[a] && layout.bands@[b]@.rect == grown[b]);
}

/// Where every cut across has a column for each half, no box of the tree has a
/// point outside the panel or under the filter strip.
pub proof fn a_box_stays_under_the_strip(
    layout: Layout,
    sections: Seq<SectionShape>,
    m: Metrics,
    work: Rect,
    b: int,
)
    requires
        layout::measurable(sections, m, work),
        layout.lays_out(sections, m, work),
        panel_roomy(sections, m, work),
        0 <= b < layout.bands@.len(),
        !layout.bands@[b].center,
    ensures
        0 <= layout.bands@[b].rect.x,
        layout.bands@[b].rect.right() <= layout::panel_width(sections, m, work),
        m.search_h <= layout.bands@[b].rect.y,
        layout.bands@[b].rect.bottom() <= layout.content_h,
{
    let sketch = layout::sketched(sections, m, work);
    let rects = layout::box_rects(m, sketch.treed);
    shape::lemma_band(layout, sections, m, work, b);
    lemma_tree_spans(sections, m, work);
    let node = tree::planned(sections)->0;
    let whole = layout::tree_rect(sections, m, work);
    stretch::stretched_boxes_stay_apart(node, rects, whole);
    let grown = stretch::stretched(node, rects, whole);
    assert(layout.bands@[b]@.rect == grown[b]);
    assert(whole.spans(grown[b]));
    lemma_whole(layout, sections, m, work);
}

/// The part of a panel its boxes share out.
proof fn lemma_whole(layout: Layout, sections: Seq<SectionShape>, m: Metrics, work: Rect)
    requires
        layout::measurable(sections, m, work),
        layout.lays_out(sections, m, work),
    ensures
        ({
            let whole = layout::tree_rect(sections, m, work);
            &&& whole.x == 0
            &&& whole.y == m.search_h
            &&& whole.right() == layout::panel_width(sections, m, work)
            &&& whole.bottom() == layout.content_h
        }),
{
    let sketch = layout::sketched(sections, m, work);
    let frame = layout::frame_of(sections, m, work);
    shape::lemma_frame(sections, m, work);
    shape::lemma_sketch(sections, m, work);
    arrange::lemma_planned(sections, layout::clear_rows(m));
    arrange::lemma_pass_bounded(sections, frame, arrange::holes_of(sections, frame));
    query::lemma_lattice(m, frame.cols as int);
    query::lemma_lattice(m, sketch.line / 2);
    layout::lemma_content_below_strip(m, sketch.line);
}

/// Every box keeps its own tiles inside it, where every cut across has a column
/// for each half: a tile that found a cell lies inside the band that owns it.
pub proof fn every_box_keeps_its_own_tiles_inside_it(
    layout: Layout,
    sections: Seq<SectionShape>,
    m: Metrics,
    work: Rect,
    b: int,
    t: int,
)
    requires
        layout::measurable(sections, m, work),
        layout.lays_out(sections, m, work),
        panel_roomy(sections, m, work),
        0 <= b < layout.bands@.len(),
        layout.owns(b, t),
        layout.tiles@[t] != Rect::spec_blank(),
    ensures
        layout.bands@[b].rect.spans(layout.tiles@[t]),
{
    let sketch = layout::sketched(sections, m, work);
    let plots = sketch.plots();
    let plot = plots[b];
    let tile = layout.tiles@[t];
    shape::lemma_band(layout, sections, m, work, b);
    shape::every_section_with_tiles_has_one_box(sections, m, work);
    let j = t - layout.bands@[b].first;
    shape::lemma_drawn(sections, m, plots, plots.len(), b, j);
    shape::lemma_tile_cell(sections, plot, j);
    let (row, col) = (plot.tile_row(j), plot.tile_col(j));
    query::lemma_lattice(m, row);
    query::lemma_lattice(m, col);
    query::lemma_box_near(m, plot, sections);
    let own = layout::box_rect(m, plot);
    let (sx, sy) = (m.step_x(), m.step_y());
    shape::lemma_run(m, 0, plot.cols);
    assert(plot.col * sx <= col * sx) by (nonlinear_arith)
        requires
            plot.col <= col,
            sx >= 0,
    ;
    assert(plot.row * sy <= row * sy) by (nonlinear_arith)
        requires
            plot.row <= row,
            sy >= 0,
    ;
    shape::lemma_steps(col, plot.col + plot.cols, sx);
    assert((plot.col + plot.cols) * sx == plot.col * sx + plot.cols * sx) by (nonlinear_arith);
    lemma_lines(m, 2 * row + 1, plot.bottom());
    assert(own.spans(tile));
    if b < sketch.treed.len() {
        assert(plot == sketch.treed[b]);
        lemma_tree_spans(sections, m, work);
        let node = tree::planned(sections)->0;
        let rects = layout::box_rects(m, sketch.treed);
        let whole = layout::tree_rect(sections, m, work);
        stretch::stretched_boxes_stay_apart(node, rects, whole);
        let grown = stretch::stretched(node, rects, whole);
        assert(layout.bands@[b]@.rect == grown[b]);
        assert(grown[b].spans(rects[b]));
    } else {
        let n = sketch.treed.len();
        assert(plot == sketch.halves[b - n]);
        every_tile_of_the_centre_lands_inside_the_block(sections, m, work, b - n, j);
        let block = sketch.reserve->0;
        shape::lemma_frame(sections, m, work);
        shape::lemma_sketch(sections, m, work);
        query::lemma_lattice(m, block.row as int);
        query::lemma_lattice(m, block.rows as int);
        shape::lemma_run(m, block.rows as int, 0);
        assert(block.row * sy <= row * sy) by (nonlinear_arith)
            requires
                block.row <= row,
                sy >= 0,
        ;
        shape::lemma_steps(row, block.row + block.rows, sy);
        assert((block.row + block.rows) * sy == block.row * sy + block.rows * sy)
            by (nonlinear_arith);
        assert(layout.bands@[b]@.rect == layout::half_rect(m, block, plot));
    }
}

} // verus!
