//! Where a dragged tile lands.

use vstd::prelude::*;
use crate::arrange;
use crate::cells;
use crate::cells::{Block, PlotView};
use crate::geometry::{Metrics, Rect};
use crate::layout;
use crate::layout::Layout;
use crate::query;
use crate::section::SectionShape;
use crate::shape;
use crate::tree;

verus! {

proof fn lemma_free(holes: Seq<Block>, top: int, col: int, cols: int, n: nat, j: int)
    requires
        0 <= j < cells::free_slots(holes, top, col, cols, n).len(),
        n <= usize::MAX,
    ensures
        ({
            let slot = cells::free_slots(holes, top, col, cols, n)[j];
            &&& slot < n
            &&& cells::free_slots(holes, top, col, cols, slot as nat).len() == j
            &&& !cells::slot_blocked(holes, top, col, cols, slot as int)
        }),
    decreases n,
{
    let before = cells::free_slots(holes, top, col, cols, (n - 1) as nat);
    if j < before.len() {
        lemma_free(holes, top, col, cols, (n - 1) as nat, j);
    }
}

proof fn lemma_held(
    holes: Seq<Block>,
    top: int,
    col: int,
    cols: int,
    filled: Seq<bool>,
    n: nat,
)
    requires
        n <= filled.len(),
        forall|i: int|
            0 <= i < filled.len() ==> #[trigger] filled[i] == !cells::slot_blocked(
                holes,
                top,
                col,
                cols,
                i,
            ),
    ensures
        query::held(filled.take(n as int)) == cells::free_slots(holes, top, col, cols, n).len(),
    decreases n,
{
    if n > 0 {
        lemma_held(holes, top, col, cols, filled, (n - 1) as nat);
        assert(filled.take(n as int).drop_last() =~= filled.take(n - 1));
        assert(filled.take(n as int).last() == filled[n - 1]);
    }
}

/// As many cells before a box's `j`th tile hold one as there are tiles before
/// it.
proof fn lemma_before(holes: Seq<Block>, plot: PlotView, count: nat, j: int)
    requires
        1 <= plot.cols <= usize::MAX,
        cells::ceiling(count) <= usize::MAX,
        plot == cells::laid(holes, plot.section, count, plot.row, plot.col, plot.cols),
        0 <= j < plot.slots.len(),
        plot.filled.len() == plot.rows * plot.cols,
        plot.slots[j] as int / plot.cols < plot.rows,
    ensures
        ({
            let slot = plot.slots[j] as int;
            &&& slot < plot.filled.len()
            &&& query::held(plot.filled.take(slot)) == j
            &&& query::held(plot.filled.take(slot + 1)) == j + 1
        }),
{
    let (top, col, cols) = (plot.top, plot.col, plot.cols);
    let slot = plot.slots[j] as int;
    let n = cells::ceiling(count);
    assert(plot.slots[j] == cells::free_slots(holes, top, col, cols, n)[j]);
    lemma_free(holes, top, col, cols, n, j);
    assert(slot < plot.rows * cols) by (nonlinear_arith)
        requires
            slot / cols < plot.rows,
            cols >= 1,
            slot >= 0,
    ;
    lemma_held(holes, top, col, cols, plot.filled, slot as nat);
    lemma_held(holes, top, col, cols, plot.filled, (slot + 1) as nat);
}

/// Every box of a panel is laid out around the panel's holes, or around none.
pub proof fn lemma_laid(sections: Seq<SectionShape>, m: Metrics, work: Rect, i: int) -> (holes: Seq<
    Block,
>)
    requires
        layout::measurable(sections, m, work),
        0 <= i < layout::sketched(sections, m, work).plots().len(),
    ensures
        ({
            let plot = layout::sketched(sections, m, work).plots()[i];
            let count = sections[plot.section].count as nat;
            &&& layout::drawable(plot, sections)
            &&& cells::ceiling(count) <= usize::MAX
            &&& plot == cells::laid(holes, plot.section, count, plot.row, plot.col, plot.cols)
            &&& holes == shape::ground_of(sections, m, work).holes || holes == Seq::<
                Block,
            >::empty()
        }),
{
    let sketch = layout::sketched(sections, m, work);
    let frame = layout::frame_of(sections, m, work);
    let plot = sketch.plots()[i];
    shape::every_section_with_tiles_has_one_box(sections, m, work);
    assert(layout::drawable(plot, sections));
    arrange::lemma_heft_bounds(
        sections,
        layout::clear_rows(m),
        plot.section,
        sections.len(),
    );
    if i < sketch.treed.len() {
        assert(plot == sketch.treed[i]);
        let ground = shape::ground_of(sections, m, work);
        shape::lemma_frame(sections, m, work);
        arrange::lemma_planned(sections, layout::clear_rows(m));
        let node = tree::planned(sections)->0;
        shape::lemma_countable(sections, m, work, node);
        shape::lemma_leaf_laid(node, ground, 0, 0, frame.cols as int, i);
        ground.holes
    } else {
        let k = i - sketch.treed.len();
        assert(plot == sketch.halves[k]);
        shape::lemma_halves(sections, m, work);
        assert(shape::is_half(
            sections,
            layout::middle(sections),
            layout::halves(sections, m, work),
            sketch.reserve->0,
            sketch.halves[k],
            k,
        ));
        Seq::empty()
    }
}

/// The row and the gap a point of a cell's tile falls in.
proof fn lemma_cell_under(step: int, tile: int, n: int, at: int)
    requires
        0 <= n,
        0 < tile <= step,
        0 <= at < tile,
    ensures
        (n * step + at) / step == n,
        (2 * (n * step + at) + tile + 2 * (step - tile)) / (2 * step) == (if 2 * at < tile {
            n
        } else {
            n + 1
        }),
{
    assert((n * step + at) / step == n) by (nonlinear_arith)
        requires
            0 <= at < step,
    ;
    let (rest, twice) = (2 * at + tile + 2 * (step - tile), 2 * step);
    assert(2 * (n * step + at) + tile + 2 * (step - tile) == n * twice + rest) by (nonlinear_arith)
        requires
            rest == 2 * at + tile + 2 * (step - tile),
            twice == 2 * step,
    ;
    if 2 * at < tile {
        assert((n * twice + rest) / twice == n) by (nonlinear_arith)
            requires
                0 <= rest < twice,
        ;
    } else {
        assert((n * twice + rest) / twice == n + 1) by (nonlinear_arith)
            requires
                twice <= rest < 2 * twice,
                twice > 0,
        ;
    }
}

/// A drop goes to the gap it is nearest: over the left half of a box's tile it
/// lands before that tile, and from the tile's centre on after it, with the
/// tiles counted and not the cells the centre block took.
#[verifier::spinoff_prover]
#[verifier::rlimit(60)]
pub proof fn a_drop_turns_at_the_centre_of_a_tile(
    layout: Layout,
    sections: Seq<SectionShape>,
    m: Metrics,
    work: Rect,
    i: int,
    j: int,
    x: int,
    y: int,
)
    requires
        layout::measurable(sections, m, work),
        layout.lays_out(sections, m, work),
        0 <= i < layout.bands@.len(),
        0 <= j < layout.bands@[i].count,
        layout.bands@[i].first + j < layout.tiles@.len(),
        layout.tiles@[layout.bands@[i].first + j].holds(x, y),
    ensures
        ({
            let band = layout.bands@[i];
            let tile = layout.tiles@[band.first + j];
            query::slot_under(m, band@, x, y) == (if 2 * x < 2 * tile.x + tile.w {
                j
            } else {
                j + 1
            })
        }),
{
    let sketch = layout::sketched(sections, m, work);
    let plots = sketch.plots();
    assert(layout::band_views(layout.bands@).len() == layout.bands@.len());
    assert(layout::bands_of(sections, m, work).len() == plots.len());
    shape::every_section_with_tiles_has_one_box(sections, m, work);
    shape::lemma_band(layout, sections, m, work, i);
    let plot = plots[i];
    let band = layout.bands@[i]@;
    assert(band == layout::bands_of(sections, m, work)[i]) by {
        assert(layout::band_views(layout.bands@)[i] == band);
    }
    assert(layout::drawable(plot, sections));
    assert(shape::sections_differ(plots));
    shape::lemma_drawn(sections, m, plots, plots.len(), i, j);
    assert(j < plot.slots.len());
    let holes = lemma_laid(sections, m, work, i);
    let slot = plot.slots[j] as int;
    let (row, column) = (slot / plot.cols, slot % plot.cols);
    assert(row < plot.rows);
    lemma_before(holes, plot, sections[plot.section].count as nat, j);
    shape::lemma_tile_cell(sections, plot, j);
    let cols = plot.cols;
    assert(0 <= row && 0 <= column < cols && slot == row * cols + column) by (nonlinear_arith)
        requires
            slot >= 0,
            cols >= 1,
            row == slot / cols,
            column == slot % cols,
    ;
    let tile = layout::tile_of(m, plot, j);
    let t = layout.bands@[i].first + j;
    assert(layout.tiles@[t] == tile);
    query::lemma_lattice(m, plot.top + row);
    query::lemma_lattice(m, plot.col + column);
    query::lemma_lattice(m, plot.top);
    query::lemma_lattice(m, plot.col);
    let (sx, sy) = (m.step_x(), m.step_y());
    assert((plot.top + row) * sy == plot.top * sy + row * sy) by (nonlinear_arith);
    assert((plot.col + column) * sx == plot.col * sx + column * sx) by (nonlinear_arith);
    lemma_cell_under(sx, m.tile_w as int, column, x - tile.x);
    lemma_cell_under(sy, m.tile_h as int, row, y - tile.y);
    assert(query::row_under(m, band.cells, y) == row);
}

} // verus!
