//! The cell of the panel's own button.

use vstd::prelude::*;
use crate::arrange;
use crate::bento;
use crate::geometry::{Metrics, Rect};
use crate::lattice;
use crate::layout;
use crate::layout::Layout;
use crate::query;
use crate::section::SectionShape;
use crate::shape;
use crate::tree;

verus! {

/// How far down a panel can reach.
proof fn lemma_line(sections: Seq<SectionShape>, m: Metrics, work: Rect)
    requires
        layout::measurable(sections, m, work),
    ensures
        0 <= layout::sketched(sections, m, work).line <= 6 * arrange::ROOM + 2,
{
    let frame = layout::frame_of(sections, m, work);
    shape::lemma_frame(sections, m, work);
    shape::lemma_sketch(sections, m, work);
    arrange::lemma_pass_bounded(sections, frame, arrange::holes_of(sections, frame));
}

/// The line the boxes and the centre block of a panel reach down to.
spec fn low_line(sections: Seq<SectionShape>, m: Metrics, work: Rect) -> int {
    let frame = layout::frame_of(sections, m, work);
    let holes = arrange::holes_of(sections, frame);
    arrange::reaching(arrange::pass(sections, frame, holes).1, holes.reserve)
}

proof fn lemma_rows_above(sections: Seq<SectionShape>, m: Metrics, work: Rect, i: int, j: int)
    requires
        layout::measurable(sections, m, work),
        0 <= i < layout::sketched(sections, m, work).plots().len(),
        0 <= j < layout::sketched(sections, m, work).plots()[i].slots.len(),
    ensures
        2 * layout::sketched(sections, m, work).plots()[i].tile_row(j) + 1 <= low_line(
            sections,
            m,
            work,
        ),
{
    let sketch = layout::sketched(sections, m, work);
    let frame = layout::frame_of(sections, m, work);
    let plot = sketch.plots()[i];
    shape::lemma_frame(sections, m, work);
    shape::lemma_sketch(sections, m, work);
    shape::every_section_with_tiles_has_one_box(sections, m, work);
    assert(layout::drawable(plot, sections));
    shape::lemma_tile_cell(sections, plot, j);
    if i < sketch.treed.len() {
        assert(plot == sketch.treed[i]);
        arrange::lemma_planned(sections, layout::clear_rows(m));
        let ground = shape::ground_of(sections, m, work);
        let node = tree::planned(sections)->0;
        shape::lemma_countable(sections, m, work, node);
        let cols = frame.cols as int;
        lattice::boxes_lie_in_what_their_subtree_takes(node, ground, 0, 0, cols);
        let line = crate::place::placed(node, ground, 0, 0, cols).1;
        assert(lattice::between(
            sketch.treed[i],
            0,
            (line + 1) / 2,
            0,
            lattice::columns_taken(node, ground, cols),
        ));
    } else {
        let k = i - sketch.treed.len();
        assert(plot == sketch.halves[k]);
        bento::every_tile_of_the_centre_lands_inside_the_block(sections, m, work, k, j);
    }
}

/// No tile, of the tree or of the centre block, stands on the last cell of the
/// row a panel's content ends with.
pub proof fn nothing_is_laid_into_the_corner(
    sections: Seq<SectionShape>,
    m: Metrics,
    work: Rect,
    i: int,
    j: int,
)
    requires
        layout::measurable(sections, m, work),
        0 <= i < layout::sketched(sections, m, work).plots().len(),
        0 <= j < layout::sketched(sections, m, work).plots()[i].slots.len(),
    ensures
        ({
            let sketch = layout::sketched(sections, m, work);
            let plot = sketch.plots()[i];
            !(plot.tile_row(j) == (sketch.line - 1) / 2 && plot.tile_col(j) == layout::panel_cols(
                sections,
                m,
                work,
            ) - 1)
        }),
{
    let sketch = layout::sketched(sections, m, work);
    let frame = layout::frame_of(sections, m, work);
    let plot = sketch.plots()[i];
    let holes = arrange::holes_of(sections, frame);
    lemma_rows_above(sections, m, work, i, j);
    lemma_line(sections, m, work);
    shape::lemma_frame(sections, m, work);
    shape::lemma_sketch(sections, m, work);
    shape::every_section_with_tiles_has_one_box(sections, m, work);
    assert(layout::drawable(plot, sections));
    shape::lemma_tile_cell(sections, plot, j);
    if arrange::corner_kept(sections, frame) {
        let corner = arrange::corner_of(frame, sketch.line)->0;
        assert(holes.home == Some(corner));
        if i < sketch.treed.len() {
            assert(plot == sketch.treed[i]);
            shape::lemma_tree_tile(sections, m, work, i, j);
            let last = holes.blocks().len() - 1;
            assert(holes.blocks()[last] == corner);
            assert(!holes.blocks()[last].stands_on(plot.tile_row(j), plot.tile_col(j)));
        } else {
            let k = i - sketch.treed.len();
            assert(plot == sketch.halves[k]);
            bento::every_tile_of_the_centre_lands_inside_the_block(sections, m, work, k, j);
        }
    }
}

/// The panel's own button is a cell of the grid: where the panel does not
/// scroll, the button is drawn on the last cell of the row the content ends
/// with.
pub proof fn the_home_button_is_a_cell_of_the_grid(
    layout: Layout,
    sections: Seq<SectionShape>,
    m: Metrics,
    work: Rect,
)
    requires
        layout::measurable(sections, m, work),
        layout.lays_out(sections, m, work),
        layout.max_scroll == 0,
        layout::sketched(sections, m, work).line % 2 == 1,
    ensures
        layout.home() == m.tile_at(
            (layout::sketched(sections, m, work).line - 1) / 2,
            layout::panel_cols(sections, m, work) - 1,
        ),
{
    let line = layout::sketched(sections, m, work).line;
    shape::lemma_frame(sections, m, work);
    lemma_line(sections, m, work);
    query::lemma_lattice(m, line / 2);
    query::lemma_lattice(m, layout::panel_cols(sections, m, work) - 1);
    assert(0 <= (line / 2) * m.step_y()) by (nonlinear_arith)
        requires
            0 <= line / 2,
            0 <= m.step_y(),
    ;
}

/// The layout keeps the button's cell clear: where the panel does not scroll, no
/// tile has a point in common with the panel's own button.
pub proof fn no_tile_lies_under_the_corner_button(
    layout: Layout,
    sections: Seq<SectionShape>,
    m: Metrics,
    work: Rect,
    t: int,
)
    requires
        layout::measurable(sections, m, work),
        layout.lays_out(sections, m, work),
        layout.max_scroll == 0,
        0 <= t < layout.tiles@.len(),
    ensures
        !layout.tiles@[t].meets(layout.home()),
{
    let sketch = layout::sketched(sections, m, work);
    let plots = sketch.plots();
    let tile = layout.tiles@[t];
    let cols = layout::panel_cols(sections, m, work);
    shape::lemma_frame(sections, m, work);
    lemma_line(sections, m, work);
    query::lemma_lattice(m, cols - 1);
    shape::every_section_with_tiles_has_one_box(sections, m, work);
    shape::lemma_source(sections, m, plots, plots.len(), t);
    if tile != Rect::spec_blank() {
        let (i, j) = choose|i: int, j: int| shape::drawn_by(sections, m, plots, tile, t, i, j);
        assert(layout::drawable(plots[i], sections));
        shape::lemma_tile_cell(sections, plots[i], j);
        lemma_rows_above(sections, m, work, i, j);
        nothing_is_laid_into_the_corner(sections, m, work, i, j);
        lemma_clear_of(
            m,
            sketch.line,
            cols - 1,
            plots[i].tile_row(j),
            plots[i].tile_col(j),
            layout.home(),
        );
    }
}

/// A cell other than the last one of the row a line ends has nothing in common
/// with a tile drawn up from that line in that cell's column.
proof fn lemma_clear_of(m: Metrics, line: int, last: int, row: int, col: int, home: Rect)
    requires
        m.wf(),
        1 <= line <= 6 * arrange::ROOM + 2,
        0 <= row < crate::geometry::CELLS,
        0 <= col < crate::geometry::CELLS,
        0 <= last < crate::geometry::CELLS,
        !(row == (line - 1) / 2 && col == last),
        home.x == m.x_at(last),
        home.y == m.y_line(line) - m.tile_h || home.y == 0 && m.y_line(line) < m.tile_h,
        home.w == m.tile_w,
        home.h == m.tile_h,
    ensures
        !m.tile_at(row, col).meets(home),
{
    let at = (line - 1) / 2;
    let (sx, sy) = (m.step_x(), m.step_y());
    query::lemma_lattice(m, row);
    query::lemma_lattice(m, col);
    query::lemma_lattice(m, last);
    query::lemma_lattice(m, at);
    query::lemma_lattice(m, line / 2);
    if col < last {
        shape::lemma_steps(col, last, sx);
    } else if col > last {
        shape::lemma_steps(last, col, sx);
    } else if row < at {
        shape::lemma_steps(row, at, sy);
    } else {
        shape::lemma_steps(at, row, sy);
    }
    assert((at + 1) * sy == at * sy + sy) by (nonlinear_arith);
    assert(0 <= at * sy) by (nonlinear_arith)
        requires
            0 <= at,
            0 <= sy,
    ;
}

} // verus!
