//! What a laid-out panel is asked: what is under a point, and where things go.

use vstd::prelude::*;
use crate::cells::PlotView;
use crate::geometry::{Metrics, Rect, CELLS, REACH};
use crate::layout;
use crate::layout::{Band, BandView, CellsView, Layout};
use crate::num;
use crate::section::SectionShape;
use crate::stretch;
use crate::stretch::FAR;
use crate::tree;

verus! {

/// Whether a length lies inside what can be measured, either way.
pub open spec fn measured(n: int) -> bool {
    -FAR <= n <= FAR
}

impl CellsView {
    /// The cells of a box are a whole grid, and lie where they can be drawn.
    pub open spec fn wf(self) -> bool {
        &&& 0 <= self.x <= FAR / 2
        &&& 0 <= self.y <= FAR / 2
        &&& 1 <= self.cols <= CELLS
        &&& self.rows <= CELLS
        &&& self.filled.len() == self.rows * self.cols
    }
}

impl BandView {
    pub open spec fn wf(self) -> bool {
        &&& self.rect.near_enough()
        &&& self.cells.wf()
        &&& self.first + self.count <= usize::MAX
    }
}

impl Layout {
    /// Every part of the layout lies where it can be measured.
    pub open spec fn wf(&self) -> bool {
        &&& self.metrics.wf()
        &&& self.cols <= CELLS
        &&& 0 <= self.panel.w <= FAR
        &&& 0 <= self.panel.h <= FAR
        &&& 0 <= self.max_scroll <= FAR
        &&& 0 <= self.content_h <= FAR
        &&& forall|i: int|
            0 <= i < self.tiles@.len() ==> (#[trigger] self.tiles@[i]).near_enough()
        &&& forall|i: int|
            0 <= i < self.headers@.len() ==> measured(
                (#[trigger] self.headers@[i]).rect.y as int,
            )
        &&& forall|i: int| 0 <= i < self.bands@.len() ==> (#[trigger] self.bands@[i])@.wf()
    }

    /// How many tiles the panel holds.
    pub fn tile_count(&self) -> (count: usize)
        ensures
            count == self.tiles@.len(),
    {
        self.tiles.len()
    }

    /// Tile rect in panel-local coordinates, with `scroll` applied. May be
    /// partly or wholly outside the panel when scrolled. A tile there is not is
    /// a blank one, shifted like any other.
    pub fn tile_rect(&self, index: usize, scroll: i64) -> (rect: Rect)
        requires
            self.wf(),
            measured(scroll as int),
        ensures
            rect == (if index < self.tiles@.len() {
                self.tiles@[index as int]
            } else {
                Rect::spec_blank()
            }).moved_up(scroll as int),
    {
        if index < self.tiles.len() {
            assert(self.tiles@[index as int].near_enough());
            self.tiles[index].shifted(scroll)
        } else {
            Rect::blank().shifted(scroll)
        }
    }

    /// Title, where to draw it, and which band it belongs to.
    pub fn headers(&self, scroll: i64) -> (titles: Vec<(&str, Rect, usize)>)
        requires
            self.wf(),
            measured(scroll as int),
        ensures
            titles@.len() == self.headers@.len(),
            forall|i: int|
                #![trigger titles@[i]]
                0 <= i < titles@.len() ==> {
                    &&& titles@[i].0@ == self.headers@[i].title@
                    &&& titles@[i].1 == self.headers@[i].rect.moved_up(scroll as int)
                    &&& titles@[i].2 == self.headers@[i].band
                },
    {
        let mut titles: Vec<(&str, Rect, usize)> = Vec::new();
        for i in 0..self.headers.len()
            invariant
                self.wf(),
                measured(scroll as int),
                titles@.len() == i,
                forall|k: int|
                    #![trigger titles@[k]]
                    0 <= k < i ==> {
                        &&& titles@[k].0@ == self.headers@[k].title@
                        &&& titles@[k].1 == self.headers@[k].rect.moved_up(scroll as int)
                        &&& titles@[k].2 == self.headers@[k].band
                    },
        {
            let header = &self.headers[i];
            assert(measured(self.headers@[i as int].rect.y as int));
            titles.push((header.title.as_str(), header.rect.shifted(scroll), header.band));
        }
        titles
    }

    /// Whether a panel-local point is on the panel.
    pub open spec fn on_panel(&self, x: int, y: int) -> bool {
        0 <= x < self.panel.w && 0 <= y < self.panel.h
    }

    /// Whether a tile is the one under a point of the content: it has the point,
    /// and none before it does.
    pub open spec fn first_under(&self, x: int, y: int, tile: int) -> bool {
        &&& 0 <= tile < self.tiles@.len()
        &&& self.tiles@[tile].holds(x, y)
        &&& forall|i: int| 0 <= i < tile ==> !(#[trigger] self.tiles@[i]).holds(x, y)
    }

    /// Panel-local point to item index. Gaps, padding and headers are misses,
    /// so a click between tiles never activates a neighbour.
    pub fn hit_test(&self, x: i64, y: i64, scroll: i64) -> (hit: Option<usize>)
        ensures
            forall|tile: usize|
                hit == Some(tile) <==> self.on_panel(x as int, y as int)
                    && #[trigger] self.first_under(x as int, y + scroll, tile as int),
            hit is None <==> !self.on_panel(x as int, y as int) || forall|i: int|
                0 <= i < self.tiles@.len() ==> !(#[trigger] self.tiles@[i]).holds(
                    x as int,
                    y + scroll,
                ),
    {
        if x < 0 || y < 0 || x >= self.panel.w || y >= self.panel.h {
            return None;
        }
        let content_y: i128 = y as i128 + scroll as i128;
        for i in 0..self.tiles.len()
            invariant
                self.on_panel(x as int, y as int),
                content_y == y + scroll,
                forall|k: int|
                    0 <= k < i ==> !(#[trigger] self.tiles@[k]).holds(x as int, y + scroll),
        {
            if self.tiles[i].contains_far(x as i128, content_y) {
                assert(self.first_under(x as int, y + scroll, i as int));
                return Some(i);
            }
        }
        None
    }

    /// A scroll offset kept to what there is to scroll.
    pub fn clamp_scroll(&self, scroll: i64) -> (kept: i64)
        requires
            self.wf(),
        ensures
            kept == num::between(scroll as int, 0, self.max_scroll as int),
    {
        if scroll < 0 {
            0
        } else if scroll > self.max_scroll {
            self.max_scroll
        } else {
            scroll
        }
    }

    pub fn bands(&self) -> (bands: &Vec<Band>)
        ensures
            *bands == self.bands,
    {
        &self.bands
    }

    /// Where the panel's own button is: the last cell of the last row of the
    /// content, and the same cell of what is on screen when the content does not
    /// fit.
    pub open spec fn home(&self) -> Rect {
        let bottom = if self.max_scroll == 0 {
            self.content_h
        } else {
            self.panel.h
        };
        Rect {
            x: self.metrics.x_at(num::larger(self.cols - 1, 0)) as i64,
            y: num::larger(bottom - self.metrics.padding - self.metrics.tile_h, 0) as i64,
            w: self.metrics.tile_w,
            h: self.metrics.tile_h,
        }
    }

    /// The panel's own button: always there, bottom right, one cell of the
    /// grid. Panel-local, because chrome that scrolled off the top of a long
    /// grid would not be always in the same place at all.
    pub fn home_rect(&self) -> (rect: Rect)
        requires
            self.wf(),
        ensures
            rect == self.home(),
    {
        let m = self.metrics;
        let bottom: i64 = if self.max_scroll == 0 {
            self.content_h
        } else {
            self.panel.h
        };
        let y: i64 = bottom - m.padding - m.tile_h;
        Rect {
            x: m.left_of(self.cols.saturating_sub(1)),
            y: if y > 0 {
                y
            } else {
                0
            },
            w: m.tile_w,
            h: m.tile_h,
        }
    }

    /// The filter strip. Panel-local, fixed to the panel rather than the
    /// content. Empty while nothing is being filtered.
    pub fn search_rect(&self) -> (rect: Rect)
        requires
            self.wf(),
        ensures
            rect.x == self.metrics.padding,
            rect.y == 0,
            rect.w == num::larger(self.panel.w - 2 * self.metrics.padding, 0),
            rect.h == num::smaller(self.metrics.search_h as int, self.panel.h as int),
    {
        let m = self.metrics;
        let w: i64 = self.panel.w - 2 * m.padding;
        Rect {
            x: m.padding,
            y: 0,
            w: if w > 0 {
                w
            } else {
                0
            },
            h: if m.search_h < self.panel.h {
                m.search_h
            } else {
                self.panel.h
            },
        }
    }

    /// Whether a band holds a tile.
    pub open spec fn owns(&self, band: int, tile: int) -> bool {
        self.bands@[band].first <= tile < self.bands@[band].first + self.bands@[band].count
    }

    /// Which band owns a flat tile index.
    pub fn band_of(&self, tile: usize) -> (band: Option<usize>)
        requires
            self.wf(),
        ensures
            match band {
                Some(band) => {
                    &&& band < self.bands@.len()
                    &&& self.owns(band as int, tile as int)
                    &&& forall|i: int| 0 <= i < band ==> !#[trigger] self.owns(i, tile as int)
                },
                None => forall|i: int|
                    0 <= i < self.bands@.len() ==> !#[trigger] self.owns(i, tile as int),
            },
    {
        for i in 0..self.bands.len()
            invariant
                self.wf(),
                forall|k: int| 0 <= k < i ==> !#[trigger] self.owns(k, tile as int),
        {
            let band = &self.bands[i];
            assert(self.bands@[i as int]@.wf());
            if tile >= band.first && tile < band.first + band.count {
                assert(self.owns(i as int, tile as int));
                return Some(i);
            }
        }
        None
    }
}

/// How many cells of a run hold a tile.
pub open spec fn held(filled: Seq<bool>) -> nat
    decreases filled.len(),
{
    if filled.len() == 0 {
        0
    } else {
        held(filled.drop_last()) + if filled.last() {
            1nat
        } else {
            0nat
        }
    }
}

/// The row of a box's own grid a point falls in, counting one past the last.
pub open spec fn row_under(m: Metrics, cells: CellsView, y: int) -> int {
    num::between((y - cells.y) / m.step_y(), 0, cells.rows as int)
}

/// The gap between columns of a box's own grid a point is nearest, counting the
/// ones at either end. It turns at the centres of the tiles.
pub open spec fn column_under(m: Metrics, cells: CellsView, x: int) -> int {
    num::between(
        (2 * (x - cells.x) + m.tile_w + 2 * m.gap) / (2 * m.step_x()),
        0,
        num::larger(cells.cols as int, 1),
    )
}

/// Where a tile dropped at a point would land in a band: how many tiles the box
/// put before the cell the point is nearest. Not the cell's own index: a cell
/// the centre block is standing on holds no tile.
pub open spec fn slot_under(m: Metrics, band: BandView, x: int, y: int) -> nat {
    let cells = band.cells;
    let cell = row_under(m, cells, y) * num::larger(cells.cols as int, 1) + column_under(
        m,
        cells,
        x,
    );
    let before = cells.filled.take(num::smaller(cell, cells.filled.len() as int));
    num::smaller(held(before) as int, band.count as int) as nat
}

/// How many whole steps a length is, kept to a range.
fn steps(length: i64, step: i64, most: usize) -> (n: usize)
    requires
        step > 0,
        most <= CELLS,
    ensures
        n == num::between(length as int / step as int, 0, most as int),
{
    if length < 0 {
        assert(length as int / step as int <= 0) by (nonlinear_arith)
            requires
                length < 0,
                step > 0,
        ;
        return 0;
    }
    let n: i64 = length / step;
    if n > most as i64 {
        most
    } else {
        assert(n >= 0) by (nonlinear_arith)
            requires
                n == length as int / step as int,
                length >= 0,
                step > 0,
        ;
        n as usize
    }
}

fn count_held(filled: &Vec<bool>, to: usize) -> (count: usize)
    requires
        to <= filled.len(),
    ensures
        count == held(filled@.take(to as int)),
        count <= to,
{
    let mut count: usize = 0;
    for i in 0..to
        invariant
            to <= filled.len(),
            count <= i,
            count == held(filled@.take(i as int)),
    {
        assert(filled@.take(i + 1).drop_last() =~= filled@.take(i as int));
        if filled[i] {
            count += 1;
        }
    }
    count
}

impl Layout {
    /// Where a dragged tile would land in `band`, as an insertion index in
    /// `0..=count`. Measured against tile centres, so the drop goes where the
    /// gap the cursor is nearest to is, not where the tile under it starts.
    pub fn insert_slot(&self, band: usize, x: i64, y: i64, scroll: i64) -> (slot: usize)
        requires
            self.wf(),
            measured(x as int),
            measured(y as int),
            measured(scroll as int),
        ensures
            slot == (if band < self.bands@.len() {
                slot_under(self.metrics, self.bands@[band as int]@, x as int, y + scroll)
            } else {
                0
            }),
    {
        if band >= self.bands.len() {
            return 0;
        }
        let band = &self.bands[band];
        let cells = &band.cells;
        let m = self.metrics;
        assert(band@.wf());
        let cols: usize = if cells.cols < 1 {
            1
        } else {
            cells.cols
        };
        let row = steps(y + scroll - cells.y, m.tile_h + m.gap, cells.rows);
        let across: i64 = m.tile_w + m.gap;
        let column = steps(2 * (x - cells.x) + m.tile_w + 2 * m.gap, 2 * across, cols);
        assert(0 <= row * cols <= cells.filled@.len()) by (nonlinear_arith)
            requires
                0 <= row <= cells.rows,
                cols == cells.cols,
                cells.filled@.len() == cells.rows * cells.cols,
        ;
        let all: usize = cells.filled.len();
        let cell: usize = (row * cols).saturating_add(column);
        let target: usize = if cell < all {
            cell
        } else {
            all
        };
        let before = count_held(&cells.filled, target);
        if before < band.count {
            before
        } else {
            band.count
        }
    }
}

/// The centre block over the first `n` bands: its halves as one rectangle, and
/// the seams between them.
pub open spec fn frame_over(bands: Seq<BandView>, n: nat) -> Option<(Rect, Seq<i64>)>
    decreases n,
{
    if n == 0 {
        None
    } else {
        let so_far = frame_over(bands, (n - 1) as nat);
        let band = bands[n - 1];
        if !band.center {
            so_far
        } else {
            match so_far {
                None => Some((band.rect, Seq::empty())),
                Some((rect, seams)) => Some(
                    (
                        Rect {
                            w: (band.rect.right() - rect.x) as i64,
                            h: num::larger(rect.h as int, band.rect.h as int) as i64,
                            ..rect
                        },
                        // Midway across the gutter between them, so the line
                        // sits in the space the tiles already leave.
                        seams.push(((rect.right() + band.rect.x) / 2) as i64),
                    ),
                ),
            }
        }
    }
}

impl Layout {
    /// The centre block as one rectangle, and the x of each seam between its
    /// halves. Content space. `None` when there is no block.
    ///
    /// The halves are separate boxes with separate tiles, and they have to read
    /// as one container with a line down it.
    pub fn center_frame(&self) -> (frame: Option<(Rect, Vec<i64>)>)
        requires
            self.wf(),
        ensures
            match (frame, frame_over(layout::band_views(self.bands@), self.bands@.len())) {
                (None, None) => true,
                (Some(got), Some(want)) => got.0 == want.0 && got.1@ == want.1,
                _ => false,
            },
    {
        let ghost bands = layout::band_views(self.bands@);
        let mut found = false;
        let mut rect = Rect::blank();
        let mut seams: Vec<i64> = Vec::new();
        for i in 0..self.bands.len()
            invariant
                self.wf(),
                bands == layout::band_views(self.bands@),
                0 <= rect.x <= FAR,
                0 <= rect.right() <= FAR,
                measured(rect.h as int),
                match frame_over(bands, i as nat) {
                    None => !found && seams@ == Seq::<i64>::empty(),
                    Some(want) => found && rect == want.0 && seams@ == want.1,
                },
        {
            let band = &self.bands[i];
            assert(band@.wf());
            assert(bands[i as int] == band@);
            if band.center {
                if !found {
                    found = true;
                    rect = band.rect;
                } else {
                    seams.push((rect.x + rect.w + band.rect.x) / 2);
                    rect =
                    Rect {
                        x: rect.x,
                        y: rect.y,
                        w: band.rect.x + band.rect.w - rect.x,
                        h: if rect.h >= band.rect.h {
                            rect.h
                        } else {
                            band.rect.h
                        },
                    };
                }
            }
        }
        if found {
            Some((rect, seams))
        } else {
            None
        }
    }
}

pub proof fn lemma_lattice(m: Metrics, n: int)
    requires
        m.wf(),
        0 <= n <= CELLS,
    ensures
        0 <= m.x_at(n) <= CELLS * 2 * REACH + REACH,
        0 <= m.y_at(n) <= CELLS * 2 * REACH + 2 * REACH,
        n >= 1 ==> 0 < m.width_of(n) <= CELLS * 2 * REACH,
        n >= 1 ==> 0 < m.height_of(n) <= CELLS * 2 * REACH,
        n >= 1 ==> m.y_line(2 * n - 1) == m.y_at(n - 1) + m.tile_h,
        m.y_line(2 * n) == m.y_at(n),
{
    crate::geometry::lemma_cells(n, m.step_x());
    crate::geometry::lemma_cells(n, m.step_y());
    if n >= 1 {
        crate::geometry::lemma_span(n, m.tile_w as int, m.gap as int);
        crate::geometry::lemma_span(n, m.tile_h as int, m.gap as int);
    }
}

/// A box that can be drawn takes up a rectangle that can be measured.
pub proof fn lemma_box_near(m: Metrics, plot: PlotView, sections: Seq<SectionShape>)
    requires
        m.wf(),
        layout::drawable(plot, sections),
    ensures
        layout::box_rect(m, plot).near_enough(),
        layout::box_rect(m, plot).x == m.x_at(plot.col),
        layout::box_rect(m, plot).y == m.y_at(plot.row),
        layout::box_rect(m, plot).w == m.width_of(plot.cols),
        layout::box_rect(m, plot).h == m.y_line(plot.bottom()) - m.y_at(plot.row),
        layout::box_rect(m, plot).w > 0,
        layout::box_rect(m, plot).h >= 0,
{
    lemma_lattice(m, plot.col);
    lemma_lattice(m, plot.row);
    lemma_lattice(m, plot.top);
    lemma_lattice(m, plot.cols);
    lemma_lattice(m, plot.top + plot.rows);
    let low = if plot.rows == 0 {
        plot.top
    } else {
        plot.top + plot.rows - 1
    };
    lemma_lattice(m, low);
    assert(plot.row * m.step_y() <= low * m.step_y()) by (nonlinear_arith)
        requires
            plot.row <= low,
            m.step_y() >= 0,
    ;
}

proof fn lemma_tiles_near(
    sections: Seq<SectionShape>,
    m: Metrics,
    plots: Seq<PlotView>,
    n: nat,
)
    requires
        m.wf(),
        layout::all_drawable(plots, sections),
        n <= plots.len(),
    ensures
        forall|t: int|
            0 <= t < layout::tiles_of(sections, m, plots, n).len() ==> (
            #[trigger] layout::tiles_of(sections, m, plots, n)[t]).near_enough(),
    decreases n,
{
    if n > 0 {
        lemma_tiles_near(sections, m, plots, (n - 1) as nat);
        let plot = plots[n - 1];
        assert(layout::drawable(plot, sections));
        let first = layout::counted(sections, plot.section as nat) as int;
        let before = layout::tiles_of(sections, m, plots, (n - 1) as nat);
        let tiles = layout::tiles_of(sections, m, plots, n);
        assert forall|t: int| 0 <= t < tiles.len() implies (#[trigger] tiles[t]).near_enough() by {
            if first <= t < first + plot.slots.len() {
                let slot = plot.slots[t - first] as int;
                assert(slot / plot.cols < plot.rows);
                assert(0 <= slot / plot.cols) by (nonlinear_arith)
                    requires
                        slot >= 0,
                        plot.cols >= 1,
                ;
                assert(0 <= slot % plot.cols < plot.cols) by (nonlinear_arith)
                    requires
                        plot.cols >= 1,
                ;
                lemma_lattice(m, plot.top + slot / plot.cols);
                lemma_lattice(m, plot.col + slot % plot.cols);
            } else {
                assert(tiles[t] == before[t]);
            }
        }
    }
}

proof fn lemma_titles_near(
    sections: Seq<SectionShape>,
    m: Metrics,
    plots: Seq<PlotView>,
    n: nat,
)
    requires
        m.wf(),
        layout::all_drawable(plots, sections),
        n <= plots.len(),
    ensures
        forall|i: int|
            0 <= i < layout::headers_of(sections, m, plots, n).len() ==> measured(
                (#[trigger] layout::headers_of(sections, m, plots, n)[i]).rect.y as int,
            ),
    decreases n,
{
    if n > 0 {
        lemma_titles_near(sections, m, plots, (n - 1) as nat);
        let plot = plots[n - 1];
        assert(layout::drawable(plot, sections));
        lemma_title(m, plot, sections);
        let before = layout::headers_of(sections, m, plots, (n - 1) as nat);
        let all = layout::headers_of(sections, m, plots, n);
        assert forall|i: int| 0 <= i < all.len() implies measured(
            (#[trigger] all[i]).rect.y as int,
        ) by {
            if i < before.len() {
                assert(all[i] == before[i]);
            }
        }
    }
}

proof fn lemma_first_filled(filled: Seq<bool>)
    ensures
        0 <= layout::first_filled(filled) <= filled.len(),
    decreases filled.len(),
{
    if filled.len() > 0 && !filled[0] {
        lemma_first_filled(filled.drop_first());
    }
}

proof fn lemma_title(m: Metrics, plot: PlotView, sections: Seq<SectionShape>)
    requires
        m.wf(),
        layout::drawable(plot, sections),
    ensures
        measured(layout::title_rect(m, plot).y as int),
{
    lemma_first_filled(plot.filled);
    let cell = layout::title_cell(plot.filled);
    if plot.filled.len() > 0 {
        assert(0 <= cell / plot.cols < plot.rows) by (nonlinear_arith)
            requires
                0 <= cell < plot.rows * plot.cols,
                plot.cols >= 1,
        ;
    } else {
        assert(0int / plot.cols == 0) by (nonlinear_arith)
            requires
                plot.cols >= 1,
        ;
    }
    lemma_lattice(m, plot.top + cell / plot.cols);
}

/// A layout whose boxes can all be drawn can be measured throughout.
#[verifier::spinoff_prover]
#[verifier::rlimit(60)]
pub proof fn lemma_laid_out_wf(
    layout: Layout,
    sections: Seq<SectionShape>,
    m: Metrics,
    work: Rect,
)
    requires
        layout::measurable(sections, m, work),
        layout.lays_out(sections, m, work),
        1 <= layout.cols <= CELLS,
        layout::all_drawable(layout::sketched(sections, m, work).plots(), sections),
        0 <= layout::sketched(sections, m, work).line <= 2 * CELLS,
        tree::planned(sections) matches Some(node) ==> {
            &&& !tree::has_hole(node)
            &&& layout::sketched(sections, m, work).treed.len() == tree::leaves(node).len()
        },
        tree::planned(sections) is None ==> layout::sketched(sections, m, work).treed.len() == 0,
        layout::sketched(sections, m, work).reserve matches Some(block) ==> block.row + block.rows
            <= CELLS && block.rows >= 1,
    ensures
        layout.wf(),
{
    let sketch = layout::sketched(sections, m, work);
    let plots = sketch.plots();
    lemma_tiles_near(sections, m, plots, plots.len());
    assert forall|i: int| 0 <= i < sketch.treed.len() implies layout::drawable(
        #[trigger] sketch.treed[i],
        sections,
    ) by {
        assert(plots[i] == sketch.treed[i]);
    }
    lemma_titles_near(sections, m, sketch.treed, sketch.treed.len());
    assert forall|i: int| 0 <= i < layout.headers@.len() implies measured(
        (#[trigger] layout.headers@[i]).rect.y as int,
    ) by {
        assert(layout::header_views(layout.headers@)[i] == layout.headers@[i]@);
    }
    lemma_lattice(m, sketch.line / 2);
    lemma_lattice(m, layout.cols as int);
    let whole = layout::tree_rect(sections, m, work);
    layout::lemma_content_below_strip(m, sketch.line);
    let grown = layout::grown_rects(sections, m, work);
    if let Some(node) = tree::planned(sections) {
        let rects = layout::box_rects(m, sketch.treed);
        assert forall|i: int| 0 <= i < rects.len() implies (#[trigger] rects[i]).near_enough()
            && rects[i].w >= 0 && rects[i].h >= 0 by {
            lemma_box_near(m, sketch.treed[i], sections);
        }
        stretch::lemma_stretched_near(node, rects, whole);
    }
    assert(layout::band_views(layout.bands@).len() == layout.bands@.len());
    assert(layout::bands_of(sections, m, work).len() == plots.len());
    assert forall|i: int| 0 <= i < layout.bands@.len() implies (
    #[trigger] layout.bands@[i])@.wf() by {
        assert(layout::band_views(layout.bands@)[i] == layout.bands@[i]@);
        let plot = plots[i];
        assert(layout::drawable(plot, sections));
        lemma_box_near(m, plot, sections);
        lemma_lattice(m, plot.col);
        lemma_lattice(m, plot.top);
        layout::lemma_counted_bounds(
            sections,
            layout::clear_rows(m),
            plot.section as nat,
            sections.len(),
        );
        if i < sketch.treed.len() {
            assert(grown[i].near_enough());
            assert(plot == sketch.treed[i]);
        } else {
            assert(plot == sketch.halves[i - sketch.treed.len()]);
            let block = sketch.reserve->0;
            lemma_lattice(m, block.row as int);
            lemma_lattice(m, block.rows as int);
        }
    }
}

} // verus!
