//! A panel laid out: every tile, title and box as rectangles.
//!
//! Tile size is fixed and never changes. The panel grows outward from the
//! centre of the work area as items are added, until it reaches its largest
//! share of that work area. Past that it stops widening, and further rows
//! scroll.
//!
//! Rectangles are worked out once, up front, in content space: the full
//! scrollable height. Everything else - drawing, hit-testing, scrolling - is
//! that list minus the scroll offset.

use vstd::prelude::*;
use crate::arrange;
use crate::arrange::{arrange, Frame, Holes, ROOM};
use crate::at::WHOLE;
use crate::cells;
use crate::cells::{lay_box, Block, Plot, PlotView};
use crate::center;
use crate::center::center_boxes;
use crate::geometry;
use crate::geometry::{snap, Metrics, Rect, CELLS, REACH};
use crate::num;
use crate::place;
use crate::place::GroundView;
use crate::query;
use crate::section::SectionShape;
use crate::stretch;
use crate::tree;
use crate::tree::plan;

verus! {

/// The cells one box's ring encloses, on that box's own tile grid.
///
/// What the box actually occupies, which is allowed to have a bite out of it
/// where the centre block stands. Ragged ends are filled in: a box whose last
/// row is half full still gets a squared-off ring.
#[derive(Debug, Clone, PartialEq, Eq)]
pub struct Cells {
    /// Top left of the first cell, content space.
    pub x: i64,
    pub y: i64,
    pub cols: usize,
    pub rows: usize,
    /// Row major, `rows * cols`. False only where a hole took the cell out.
    pub filled: Vec<bool>,
}

#[verifier::ext_equal]
pub struct CellsView {
    pub x: i64,
    pub y: i64,
    pub cols: usize,
    pub rows: usize,
    pub filled: Seq<bool>,
}

impl View for Cells {
    type V = CellsView;

    open spec fn view(&self) -> CellsView {
        CellsView {
            x: self.x,
            y: self.y,
            cols: self.cols,
            rows: self.rows,
            filled: self.filled@,
        }
    }
}

/// A box's title, and where it is drawn.
#[derive(Debug, Clone, PartialEq, Eq)]
pub struct Header {
    pub title: String,
    /// Content space.
    pub rect: Rect,
    /// The band this header sits above. Not the header's own index: an untitled
    /// section draws no header, so the two lists drift apart.
    pub band: usize,
}

#[verifier::ext_equal]
pub struct HeaderView {
    pub title: Seq<char>,
    pub rect: Rect,
    pub band: usize,
}

impl View for Header {
    type V = HeaderView;

    open spec fn view(&self) -> HeaderView {
        HeaderView { title: self.title@, rect: self.rect, band: self.band }
    }
}

/// One rendered section's slice of the grid.
///
/// Bands tile the panel with no gaps, so every point in the panel belongs to
/// some section. Dropping needs that: something landing in the gap above a
/// section should still mean that section, not nothing.
#[derive(Debug, Clone, PartialEq, Eq)]
pub struct Band {
    /// Index into the sections the panel was laid out from.
    pub section: usize,
    /// Flat index of this section's first tile.
    pub first: usize,
    pub count: usize,
    /// Content space.
    pub rect: Rect,
    /// Tile columns inside this box.
    pub cols: usize,
    /// Half of the centre block rather than a box in the tree.
    pub center: bool,
    /// What the box occupies, for the ring drawn round it.
    pub cells: Cells,
}

#[verifier::ext_equal]
pub struct BandView {
    pub section: usize,
    pub first: usize,
    pub count: usize,
    pub rect: Rect,
    pub cols: usize,
    pub center: bool,
    pub cells: CellsView,
}

impl View for Band {
    type V = BandView;

    open spec fn view(&self) -> BandView {
        BandView {
            section: self.section,
            first: self.first,
            count: self.count,
            rect: self.rect,
            cols: self.cols,
            center: self.center,
            cells: self.cells@,
        }
    }
}

/// How many tiles the first `n` sections hold.
pub open spec fn counted(sections: Seq<SectionShape>, n: nat) -> nat
    decreases n,
{
    if n == 0 {
        0
    } else {
        counted(sections, (n - 1) as nat) + sections[n - 1].count as nat
    }
}

pub proof fn lemma_counted_bounds(sections: Seq<SectionShape>, clear: nat, i: nat, n: nat)
    requires
        i < n <= sections.len(),
    ensures
        counted(sections, i) + sections[i as int].count <= counted(sections, n),
        counted(sections, n) <= arrange::heft(sections, clear, n),
    decreases n,
{
    if i < n - 1 {
        lemma_counted_bounds(sections, clear, i, (n - 1) as nat);
    } else {
        lemma_counted_heft(sections, clear, i);
    }
}

proof fn lemma_counted_heft(sections: Seq<SectionShape>, clear: nat, n: nat)
    requires
        n <= sections.len(),
    ensures
        counted(sections, n) <= arrange::heft(sections, clear, n),
    decreases n,
{
    if n > 0 {
        lemma_counted_heft(sections, clear, (n - 1) as nat);
    }
}

/// The widest the panel may be.
pub open spec fn max_width(m: Metrics, work: Rect) -> int {
    num::larger(work.w * m.max_fraction / WHOLE as int, m.tile_w + 2 * m.padding)
}

/// The tallest the panel may be before it scrolls.
pub open spec fn max_height(m: Metrics, work: Rect) -> int {
    num::larger(work.h * m.max_fraction / WHOLE as int, m.tile_h + 2 * m.padding)
}

/// How many tiles fit across the widest panel allowed.
pub open spec fn fits_across(m: Metrics, work: Rect) -> int {
    num::larger(
        num::larger(max_width(m, work) - 2 * m.padding + m.gap, m.tile_w as int) / m.step_x(),
        1,
    )
}

/// The most columns a box asks for. A row longer than the cap stops being
/// scannable in one look, however wide the monitor is.
pub open spec fn capped_across(m: Metrics, work: Rect) -> int {
    if m.max_cols == 0 {
        fits_across(m, work)
    } else {
        num::smaller(fits_across(m, work), m.max_cols as int)
    }
}

/// Whole clear rows between stacked boxes.
pub open spec fn clear_rows(m: Metrics) -> nat {
    if m.section_gap <= 0 {
        0
    } else {
        num::nearest(m.section_gap as nat, m.step_y() as nat)
    }
}

/// Whole rows on screen before anything scrolls.
pub open spec fn rows_down(m: Metrics, work: Rect) -> int {
    num::larger(
        (max_height(m, work) - m.search_h - 2 * m.padding + m.gap) / m.step_y(),
        0,
    )
}

/// The centre's boxes, left to right.
pub open spec fn middle(sections: Seq<SectionShape>) -> Seq<usize> {
    center::center_order(sections, sections.len())
}

/// The columns the centre needs whatever the rest of the panel wants: what it
/// asks for, short only of what the screen can hold and never under a column a
/// half.
pub open spec fn center_room(sections: Seq<SectionShape>, m: Metrics, work: Rect) -> int {
    let order = middle(sections);
    num::smaller(
        center::sum(center::asked(sections, order)) as int,
        num::larger(fits_across(m, work), order.len() as int),
    )
}

/// The columns the tree wants, or the count that was fixed, kept to what fits
/// and to what the centre needs.
pub open spec fn base_cols(sections: Seq<SectionShape>, m: Metrics, work: Rect) -> int {
    let capped = capped_across(m, work);
    let wanted = match tree::planned(sections) {
        None => 1,
        Some(node) => place::want_cols(node, sections, capped as nat) as int,
    };
    num::larger(
        num::between(
            if m.fixed_cols > 0 {
                m.fixed_cols as int
            } else {
                wanted
            },
            1,
            capped,
        ),
        center_room(sections, m, work),
    )
}

/// The panel's columns. A centre block that would sit half a column off centre
/// gets a panel one column wider, or narrower where no wider one fits; never
/// while the width is fixed.
pub open spec fn panel_cols(sections: Seq<SectionShape>, m: Metrics, work: Rect) -> int {
    let cols = base_cols(sections, m, work);
    let room = center_room(sections, m, work);
    if room > 0 && m.fixed_cols == 0 && (cols + room) % 2 == 1 {
        if cols < fits_across(m, work) {
            cols + 1
        } else if cols > room {
            cols - 1
        } else {
            cols
        }
    } else {
        cols
    }
}

/// The columns each half of the centre takes.
pub open spec fn halves(sections: Seq<SectionShape>, m: Metrics, work: Rect) -> Seq<usize> {
    center::narrowed(
        center::asked(sections, middle(sections)),
        panel_cols(sections, m, work) as nat,
    )
}

/// What the lattice of a panel is settled against.
pub open spec fn frame_of(sections: Seq<SectionShape>, m: Metrics, work: Rect) -> Frame {
    Frame {
        capped: capped_across(m, work) as usize,
        clear: clear_rows(m) as usize,
        cols: panel_cols(sections, m, work) as usize,
        down: rows_down(m, work) as usize,
        corner: m.search_h + m.padding > 0,
        across: center::sum(halves(sections, m, work)) as usize,
        rows: center::tallest(sections, middle(sections), halves(sections, m, work)) as usize,
    }
}

/// Whether a panel can be laid out on this machine.
pub open spec fn measurable(sections: Seq<SectionShape>, m: Metrics, work: Rect) -> bool {
    &&& m.wf()
    &&& m.fixed_cols <= ROOM
    &&& 0 <= work.w <= REACH
    &&& 0 <= work.h <= REACH
    &&& work.w * m.max_fraction / WHOLE as int <= REACH
    &&& work.h * m.max_fraction / WHOLE as int <= REACH
    &&& -REACH <= work.x <= REACH
    &&& -REACH <= work.y <= REACH
    &&& arrange::fits_in_room(sections, clear_rows(m))
}

/// The columns a panel is given, and what decided them.
struct Across {
    capped: usize,
    cols: usize,
}

fn share_of(length: i64, fraction: u32) -> (share: i64)
    requires
        0 <= length <= REACH,
        length * fraction / WHOLE as int <= REACH,
    ensures
        share == length * fraction / WHOLE as int,
        0 <= share <= REACH,
{
    assert(0 <= length * fraction <= 0x1000_0000 * 0xFFFF_FFFF) by (nonlinear_arith)
        requires
            0 <= length <= 0x1000_0000,
            0 <= fraction <= 0xFFFF_FFFF,
    ;
    length * fraction as i64 / WHOLE as i64
}

fn tallest_panel(m: &Metrics, work: &Rect) -> (h: i64)
    requires
        m.wf(),
        0 <= work.h <= REACH,
        work.h * m.max_fraction / WHOLE as int <= REACH,
    ensures
        h == max_height(*m, *work),
        0 < h <= 3 * REACH,
{
    let share = share_of(work.h, m.max_fraction);
    let least: i64 = m.tile_h + 2 * m.padding;
    if share >= least {
        share
    } else {
        least
    }
}

/// How many tiles fit across the widest panel allowed.
fn fitting(m: &Metrics, work: &Rect) -> (fits: usize)
    requires
        m.wf(),
        0 <= work.w <= REACH,
        work.w * m.max_fraction / WHOLE as int <= REACH,
    ensures
        fits == fits_across(*m, *work),
        1 <= fits <= 2 * REACH,
{
    let share = share_of(work.w, m.max_fraction);
    let least: i64 = m.tile_w + 2 * m.padding;
    let widest: i64 = if share >= least {
        share
    } else {
        least
    };
    let room: i64 = widest - 2 * m.padding + m.gap;
    let usable: i64 = if room >= m.tile_w {
        room
    } else {
        m.tile_w
    };
    let step: i64 = m.tile_w + m.gap;
    let fits: i64 = usable / step;
    proof {
        assert(0 <= usable / step <= usable) by (nonlinear_arith)
            requires
                0 <= usable,
                1 <= step,
        ;
        if share < least {
            assert(usable / step == 1) by (nonlinear_arith)
                requires
                    usable == step,
                    step >= 1,
            ;
        }
    }
    if fits < 1 {
        1
    } else {
        fits as usize
    }
}

pub proof fn lemma_clear(m: Metrics)
    requires
        m.wf(),
    ensures
        clear_rows(m) <= 2 * REACH,
{
    if m.section_gap > 0 {
        let (n, d) = (m.section_gap as int, m.step_y());
        assert(n / d <= n) by (nonlinear_arith)
            requires
                n > 0,
                d >= 1,
        ;
    }
}

/// Whole clear rows between stacked boxes. Rounded, not floored: a gap shorter
/// than half a row means no clear row rather than a surprise one.
fn clear_between(m: &Metrics) -> (clear: usize)
    requires
        m.wf(),
    ensures
        clear == clear_rows(*m),
{
    if m.section_gap <= 0 {
        return 0;
    }
    proof {
        lemma_clear(*m);
    }
    let step: i64 = m.tile_h + m.gap;
    let (n, d) = (m.section_gap as u128, step as u128);
    assert(n / d <= n) by (nonlinear_arith)
        requires
            n > 0,
            d >= 1,
    ;
    num::div_near(n, d) as usize
}

fn rows_on_screen(m: &Metrics, work: &Rect) -> (rows: usize)
    requires
        m.wf(),
        0 <= work.h <= REACH,
        work.h * m.max_fraction / WHOLE as int <= REACH,
    ensures
        rows == rows_down(*m, *work),
{
    let tallest = tallest_panel(m, work);
    let step: i64 = m.tile_h + m.gap;
    let room: i64 = tallest - m.search_h - 2 * m.padding + m.gap;
    if room < 0 {
        assert(room as int / step as int <= 0) by (nonlinear_arith)
            requires
                room < 0,
                step >= 1,
        ;
        0
    } else {
        assert(0 <= room / step <= room) by (nonlinear_arith)
            requires
                0 <= room,
                1 <= step,
        ;
        (room / step) as usize
    }
}

/// How many columns the panel gets.
fn choose_cols(
    sections: &[SectionShape],
    m: &Metrics,
    work: &Rect,
    node: &Option<tree::Node>,
    order: &Vec<usize>,
) -> (across: Across)
    requires
        measurable(sections@, *m, *work),
        *node == tree::planned(sections@),
        order@ == middle(sections@),
    ensures
        across.capped == capped_across(*m, *work),
        across.cols == panel_cols(sections@, *m, *work),
        1 <= across.cols <= 2 * ROOM,
        order.len() <= across.cols,
{
    proof {
        arrange::lemma_planned(sections@, clear_rows(*m));
        arrange::lemma_asked_bounded(sections@, clear_rows(*m), sections@.len());
        center::center_boxes_sit_in_order(sections@, sections@.len());
        center::center_widths_fit_the_budget(
            center::asked(sections@, order@),
            usize::MAX as nat,
        );
    }
    let fits = fitting(m, work);
    let capped: usize = if m.max_cols == 0 || fits < m.max_cols {
        fits
    } else {
        m.max_cols
    };
    let widths = center::center_widths(sections, order, usize::MAX);
    let asking = center::total_of(&widths);
    let wanted: usize = match node {
        None => 1,
        Some(node) => node.want(sections, capped).cols,
    };
    let most: usize = if fits >= order.len() {
        fits
    } else {
        order.len()
    };
    let room: usize = if asking < most {
        asking
    } else {
        most
    };
    let chosen: usize = if m.fixed_cols > 0 {
        m.fixed_cols
    } else {
        wanted
    };
    let kept: usize = if chosen < 1 {
        1
    } else if chosen > capped {
        capped
    } else {
        chosen
    };
    let base: usize = if kept >= room {
        kept
    } else {
        room
    };
    proof {
        assert(center::sum(center::asked(sections@, order@)) >= order.len()) by {
            center::lemma_sum_at_least(center::asked(sections@, order@));
        }
    }
    let cols: usize = if room > 0 && m.fixed_cols == 0 && (base + room) % 2 == 1 {
        if base < fits {
            base + 1
        } else if base > room {
            base - 1
        } else {
            base
        }
    } else {
        base
    };
    Across { capped, cols }
}

/// The rectangle of a box's `j`th tile.
pub open spec fn tile_of(m: Metrics, plot: PlotView, j: int) -> Rect {
    m.tile_at(
        plot.top + plot.slots[j] as int / plot.cols,
        plot.col + plot.slots[j] as int % plot.cols,
    )
}

/// The tiles with one box's put in, from the place its first one has.
pub open spec fn with_box(tiles: Seq<Rect>, m: Metrics, first: int, plot: PlotView) -> Seq<Rect> {
    Seq::new(
        tiles.len(),
        |t: int|
            if first <= t < first + plot.slots.len() {
                tile_of(m, plot, t - first)
            } else {
                tiles[t]
            },
    )
}

/// The tiles once the first `n` of a run of boxes are put in. Every tile has
/// its place up front, in section order, however the boxes end up arranged on
/// screen; one that was never placed stays blank.
pub open spec fn tiles_of(
    sections: Seq<SectionShape>,
    m: Metrics,
    plots: Seq<PlotView>,
    n: nat,
) -> Seq<Rect>
    decreases n,
{
    if n == 0 {
        Seq::new(counted(sections, sections.len()), |t: int| Rect::spec_blank())
    } else {
        let plot = plots[n - 1];
        with_box(
            tiles_of(sections, m, plots, (n - 1) as nat),
            m,
            counted(sections, plot.section as nat) as int,
            plot,
        )
    }
}

/// Whether a box lies where it can be drawn, and holds what its section has.
pub open spec fn drawable(plot: PlotView, sections: Seq<SectionShape>) -> bool {
    &&& 0 <= plot.section < sections.len()
    &&& 0 <= plot.row <= plot.top
    &&& 0 <= plot.rows
    &&& plot.top + plot.rows <= CELLS
    &&& 0 <= plot.col
    &&& 1 <= plot.cols
    &&& plot.col + plot.cols <= CELLS
    &&& plot.slots.len() <= sections[plot.section].count
    &&& plot.filled.len() == plot.rows * plot.cols
    &&& forall|j: int|
        0 <= j < plot.slots.len() ==> (#[trigger] plot.slots[j]) as int / plot.cols < plot.rows
}

pub open spec fn all_drawable(plots: Seq<PlotView>, sections: Seq<SectionShape>) -> bool {
    forall|i: int| 0 <= i < plots.len() ==> drawable(#[trigger] plots[i], sections)
}

/// Put one box's tiles in.
fn draw_tiles(tiles: &mut Vec<Rect>, m: &Metrics, first: usize, plot: &Plot, Ghost(sections): Ghost<
    Seq<SectionShape>,
>)
    requires
        m.wf(),
        drawable(plot@, sections),
        first + plot.slots.len() <= old(tiles).len(),
    ensures
        final(tiles)@ == with_box(old(tiles)@, *m, first as int, plot@),
{
    let ghost before = tiles@;
    for j in 0..plot.slots.len()
        invariant
            m.wf(),
            drawable(plot@, sections),
            first + plot.slots.len() <= tiles.len(),
            tiles@.len() == before.len(),
            forall|t: int|
                0 <= t < before.len() ==> #[trigger] tiles@[t] == (if first <= t < first + j {
                    tile_of(*m, plot@, t - first)
                } else {
                    before[t]
                }),
    {
        let slot = plot.slots[j];
        assert(plot@.slots[j as int] as int / plot@.cols < plot@.rows);
        assert(slot % plot.cols < plot.cols);
        let tile = m.tile(plot.top + slot / plot.cols, plot.col + slot % plot.cols);
        tiles.set(first + j, tile);
    }
    assert(tiles@ =~= with_box(before, *m, first as int, plot@));
}

/// The first cell of a box that nothing stands on.
pub open spec fn first_filled(filled: Seq<bool>) -> int
    decreases filled.len(),
{
    if filled.len() == 0 || filled[0] {
        0
    } else {
        1 + first_filled(filled.drop_first())
    }
}

/// The cell a box's title sits over: its first free one, and its own corner
/// when it has none.
pub open spec fn title_cell(filled: Seq<bool>) -> int {
    let at = first_filled(filled);
    if at < filled.len() {
        at
    } else {
        0
    }
}

/// Where a box's title is drawn: on the ring's own top left corner, centred on
/// the line the ring is drawn along.
pub open spec fn title_rect(m: Metrics, plot: PlotView) -> Rect {
    let cell = title_cell(plot.filled);
    let (row, col) = (cell / plot.cols, cell % plot.cols);
    Rect {
        x: (m.x_at(plot.col + col) + m.header_gap) as i64,
        y: (m.y_at(plot.top + row) - m.gap as int / 4 - m.header_h as int / 2) as i64,
        w: num::larger(m.width_of(plot.cols) - col * m.step_x() - m.header_gap, 0) as i64,
        h: m.header_h,
    }
}

/// Whether a section's box wears a title. The centre block never does.
pub open spec fn titled(section: SectionShape, m: Metrics) -> bool {
    section.title@.len() > 0 && m.header_h > 0 && section.center is None
}

/// The titles of the first `n` of a run of boxes.
pub open spec fn headers_of(
    sections: Seq<SectionShape>,
    m: Metrics,
    plots: Seq<PlotView>,
    n: nat,
) -> Seq<HeaderView>
    decreases n,
{
    if n == 0 {
        Seq::empty()
    } else {
        let before = headers_of(sections, m, plots, (n - 1) as nat);
        let section = sections[plots[n - 1].section];
        if titled(section, m) {
            before.push(
                HeaderView {
                    title: section.title@,
                    rect: title_rect(m, plots[n - 1]),
                    band: (n - 1) as usize,
                },
            )
        } else {
            before
        }
    }
}

/// What a box takes up, before it is grown to fill the panel.
pub open spec fn box_rect(m: Metrics, plot: PlotView) -> Rect {
    Rect {
        x: m.x_at(plot.col) as i64,
        y: m.y_at(plot.row) as i64,
        w: m.width_of(plot.cols) as i64,
        h: (m.y_line(plot.bottom()) - m.y_at(plot.row)) as i64,
    }
}

/// A box as a band of the panel.
pub open spec fn band_from(
    sections: Seq<SectionShape>,
    m: Metrics,
    plot: PlotView,
    rect: Rect,
    center: bool,
) -> BandView {
    BandView {
        section: plot.section as usize,
        first: counted(sections, plot.section as nat) as usize,
        count: sections[plot.section].count,
        rect,
        cols: plot.cols as usize,
        center,
        cells: CellsView {
            x: m.x_at(plot.col) as i64,
            y: m.y_at(plot.top) as i64,
            cols: plot.cols as usize,
            rows: plot.rows as usize,
            filled: plot.filled,
        },
    }
}

fn count_before(sections: &[SectionShape], index: usize, Ghost(clear): Ghost<nat>) -> (count: usize)
    requires
        index <= sections@.len(),
        arrange::fits_in_room(sections@, clear),
    ensures
        count == counted(sections@, index as nat),
        count <= ROOM,
{
    let mut count: usize = 0;
    for i in 0..index
        invariant
            index <= sections@.len(),
            arrange::fits_in_room(sections@, clear),
            count == counted(sections@, i as nat),
            count <= ROOM,
    {
        proof {
            lemma_counted_bounds(sections@, clear, i as nat, sections@.len());
        }
        count += sections[i].count;
    }
    count
}

fn find_title_cell(filled: &Vec<bool>) -> (cell: usize)
    ensures
        cell == title_cell(filled@),
        filled.len() > 0 ==> cell < filled.len(),
        filled.len() == 0 ==> cell == 0,
{
    assert(filled@.skip(0) =~= filled@);
    for i in 0..filled.len()
        invariant
            first_filled(filled@) == i + first_filled(filled@.skip(i as int)),
    {
        assert(filled@.skip(i as int).drop_first() =~= filled@.skip(i + 1));
        if filled[i] {
            return i;
        }
    }
    0
}

fn title_at(m: &Metrics, plot: &Plot, Ghost(sections): Ghost<Seq<SectionShape>>) -> (rect: Rect)
    requires
        m.wf(),
        drawable(plot@, sections),
    ensures
        rect == title_rect(*m, plot@),
{
    let cell = find_title_cell(&plot.filled);
    let (row, col): (usize, usize) = (cell / plot.cols, cell % plot.cols);
    proof {
        if plot.filled@.len() > 0 {
            assert(cell as int / plot@.cols < plot@.rows) by (nonlinear_arith)
                requires
                    0 <= cell < plot@.rows * plot@.cols,
                    plot@.cols >= 1,
            ;
        } else {
            assert(0int / plot@.cols == 0) by (nonlinear_arith)
                requires
                    plot@.cols >= 1,
            ;
            assert(0int % plot@.cols == 0) by (nonlinear_arith)
                requires
                    plot@.cols >= 1,
            ;
        }
        assert(0 <= col * m.step_x() <= CELLS * 2 * REACH) by (nonlinear_arith)
            requires
                0 <= col <= CELLS,
                0 <= m.step_x() <= 2 * REACH,
        ;
    }
    let w: i64 = m.wide(plot.cols) - col as i64 * (m.tile_w + m.gap) - m.header_gap;
    Rect {
        x: m.left_of(plot.col + col) + m.header_gap,
        y: m.top_of(plot.top + row) - m.gap / 4 - m.header_h / 2,
        w: if w > 0 {
            w
        } else {
            0
        },
        h: m.header_h,
    }
}

fn rect_of(m: &Metrics, plot: &Plot, Ghost(sections): Ghost<Seq<SectionShape>>) -> (rect: Rect)
    requires
        m.wf(),
        drawable(plot@, sections),
    ensures
        rect == box_rect(*m, plot@),
        0 <= rect.x <= CELLS * 2 * REACH + REACH,
        0 <= rect.y <= CELLS * 2 * REACH + 2 * REACH,
        0 <= rect.w <= CELLS * 2 * REACH,
        0 <= rect.h <= CELLS * 2 * REACH + 3 * REACH,
{
    let line: usize = if plot.rows == 0 {
        2 * plot.top
    } else {
        2 * (plot.top + plot.rows) - 1
    };
    let y = m.top_of(plot.row);
    proof {
        assert(plot.row * m.step_y() <= plot.top * m.step_y()) by (nonlinear_arith)
            requires
                plot.row <= plot.top,
                m.step_y() >= 0,
        ;
        assert(plot.top * m.step_y() <= (line as int / 2) * m.step_y()) by (nonlinear_arith)
            requires
                plot.top <= line as int / 2,
                m.step_y() >= 0,
        ;
    }
    Rect { x: m.left_of(plot.col), y, w: m.wide(plot.cols), h: m.line_at(line) - y }
}

fn band_for(
    sections: &[SectionShape],
    m: &Metrics,
    plot: &Plot,
    rect: Rect,
    center: bool,
    Ghost(clear): Ghost<nat>,
) -> (band: Band)
    requires
        m.wf(),
        drawable(plot@, sections@),
        arrange::fits_in_room(sections@, clear),
    ensures
        band@ == band_from(sections@, *m, plot@, rect, center),
{
    let first = count_before(sections, plot.section, Ghost(clear));
    let filled = plot.filled.clone();
    assert(filled@ =~= plot.filled@);
    Band {
        section: plot.section,
        first,
        count: sections[plot.section].count,
        rect,
        cols: plot.cols,
        center,
        cells: Cells {
            x: m.left_of(plot.col),
            y: m.top_of(plot.top),
            cols: plot.cols,
            rows: plot.rows,
            filled,
        },
    }
}

/// The first `n` of the centre's boxes, side by side from a cell.
pub open spec fn center_plots(
    sections: Seq<SectionShape>,
    order: Seq<usize>,
    widths: Seq<usize>,
    block: Block,
    n: nat,
) -> Seq<PlotView>
    decreases n,
{
    if n == 0 {
        Seq::empty()
    } else {
        let index = order[n - 1] as int;
        // No hole to dodge: this box is the hole.
        center_plots(sections, order, widths, block, (n - 1) as nat).push(
            cells::laid(
                Seq::empty(),
                index,
                sections[index].count as nat,
                block.row as int,
                block.col + center::sum(widths.take(n - 1)),
                num::larger(widths[n - 1] as int, 1),
            ),
        )
    }
}

/// The centre block's rectangle, in content space.
pub open spec fn block_rect(m: Metrics, block: Block) -> Rect {
    Rect {
        x: m.x_at(block.col as int) as i64,
        y: m.y_at(block.row as int) as i64,
        w: m.width_of(block.cols as int) as i64,
        h: m.height_of(block.rows as int) as i64,
    }
}

/// A half of the centre block: as tall as the block, so every point of the
/// block belongs to one half of it.
pub open spec fn half_rect(m: Metrics, block: Block, plot: PlotView) -> Rect {
    let whole = block_rect(m, block);
    Rect { y: whole.y, h: whole.h, ..box_rect(m, plot) }
}

/// Everything a panel's rectangles are worked out from.
pub struct Sketch {
    /// The boxes of the tree, near half before far half at every cut.
    pub treed: Seq<PlotView>,
    /// The halves of the centre block, left to right.
    pub halves: Seq<PlotView>,
    pub reserve: Option<Block>,
    /// The line the content reaches down to.
    pub line: int,
}

impl Sketch {
    pub open spec fn plots(self) -> Seq<PlotView> {
        self.treed + self.halves
    }

    pub open spec fn content_height(self, m: Metrics) -> int {
        m.y_line(self.line) + m.padding
    }
}

/// The lattice of a panel.
pub open spec fn sketched(sections: Seq<SectionShape>, m: Metrics, work: Rect) -> Sketch {
    let frame = frame_of(sections, m, work);
    let holes = arrange::holes_of(sections, frame);
    let plots = arrange::pass(sections, frame, holes).0;
    let order = middle(sections);
    Sketch {
        treed: plots,
        halves: match holes.reserve {
            None => Seq::empty(),
            Some(block) => center_plots(
                sections,
                order,
                halves(sections, m, work),
                block,
                order.len(),
            ),
        },
        reserve: holes.reserve,
        line: arrange::line_of(sections, frame),
    }
}

/// What each box of the tree takes up, before it is grown.
pub open spec fn box_rects(m: Metrics, plots: Seq<PlotView>) -> Seq<Rect> {
    plots.map_values(|plot: PlotView| box_rect(m, plot))
}

pub open spec fn panel_width(sections: Seq<SectionShape>, m: Metrics, work: Rect) -> int {
    m.width_of(panel_cols(sections, m, work)) + 2 * m.padding
}

/// The part of the content the boxes of the tree are grown to fill. The filter
/// strip is chrome, so a drop on it hits nobody.
pub open spec fn tree_rect(sections: Seq<SectionShape>, m: Metrics, work: Rect) -> Rect {
    Rect {
        x: 0,
        y: m.search_h,
        w: panel_width(sections, m, work) as i64,
        h: (sketched(sections, m, work).content_height(m) - m.search_h) as i64,
    }
}

/// The boxes of the tree grown to fill the panel.
pub open spec fn grown_rects(sections: Seq<SectionShape>, m: Metrics, work: Rect) -> Seq<Rect> {
    match tree::planned(sections) {
        None => Seq::empty(),
        Some(node) => stretch::stretched(
            node,
            box_rects(m, sketched(sections, m, work).treed),
            tree_rect(sections, m, work),
        ),
    }
}

/// The bands of a panel: the boxes of the tree, and then the centre's halves.
pub open spec fn bands_of(sections: Seq<SectionShape>, m: Metrics, work: Rect) -> Seq<BandView> {
    let sketch = sketched(sections, m, work);
    let grown = grown_rects(sections, m, work);
    Seq::new(
        sketch.plots().len(),
        |i: int|
            if i < sketch.treed.len() {
                band_from(sections, m, sketch.treed[i], grown[i], false)
            } else {
                let plot = sketch.halves[i - sketch.treed.len()];
                band_from(sections, m, plot, half_rect(m, sketch.reserve->0, plot), true)
            },
    )
}

/// Twice the top of a panel: the middle of the work area, except when there is
/// a centre block, which is the thing that has to land on the middle of the
/// screen. Kept to the work area, so a panel taller than the screen still
/// starts at the top of it and scrolls.
pub open spec fn twice_top(m: Metrics, work: Rect, reserve: Option<Block>, height: int) -> int {
    match reserve {
        None => 2 * work.y + work.h - height,
        Some(block) => {
            let whole = block_rect(m, block);
            num::between(
                2 * work.y + work.h - (2 * whole.y + whole.h),
                2 * work.y,
                2 * (work.y + num::larger(work.h - height, 0)),
            )
        },
    }
}

/// How tall the panel is drawn.
pub open spec fn panel_height(sections: Seq<SectionShape>, m: Metrics, work: Rect) -> int {
    num::smaller(sketched(sections, m, work).content_height(m), max_height(m, work))
}

/// The panel in screen coordinates, snapped to whole pixels so tiles stay
/// crisp.
pub open spec fn panel_rect(sections: Seq<SectionShape>, m: Metrics, work: Rect) -> Rect {
    let (w, h) = (panel_width(sections, m, work), panel_height(sections, m, work));
    Rect {
        x: geometry::snapped(2 * work.x + work.w - w) as i64,
        y: geometry::snapped(
            twice_top(m, work, sketched(sections, m, work).reserve, h),
        ) as i64,
        w: geometry::snapped(2 * w) as i64,
        h: geometry::snapped(2 * h) as i64,
    }
}

/// A panel laid out.
#[derive(Debug, Clone, PartialEq, Eq)]
pub struct Layout {
    pub cols: usize,
    /// Panel rect in screen coordinates.
    pub panel: Rect,
    /// Height the content wants, which may exceed the panel's.
    pub content_h: i64,
    /// 0 when everything fits.
    pub max_scroll: i64,
    /// One per item, flattened across sections in order. Content space.
    pub tiles: Vec<Rect>,
    pub headers: Vec<Header>,
    pub bands: Vec<Band>,
    pub metrics: Metrics,
}

pub open spec fn band_views(bands: Seq<Band>) -> Seq<BandView> {
    bands.map_values(|band: Band| band@)
}

pub open spec fn header_views(headers: Seq<Header>) -> Seq<HeaderView> {
    headers.map_values(|header: Header| header@)
}

impl Layout {
    /// The layout of some sections, as every part of it is worked out.
    pub open spec fn lays_out(self, sections: Seq<SectionShape>, m: Metrics, work: Rect) -> bool {
        let sketch = sketched(sections, m, work);
        &&& self.cols == panel_cols(sections, m, work)
        &&& self.panel == panel_rect(sections, m, work)
        &&& self.content_h == sketch.content_height(m)
        &&& self.max_scroll == num::larger(
            self.content_h - panel_height(sections, m, work),
            0,
        )
        &&& self.tiles@ == tiles_of(sections, m, sketch.plots(), sketch.plots().len())
        &&& header_views(self.headers@) == headers_of(
            sections,
            m,
            sketch.treed,
            sketch.treed.len(),
        )
        &&& band_views(self.bands@) == bands_of(sections, m, work)
        &&& self.metrics == m
    }
}

pub proof fn lemma_treed_drawable(sections: Seq<SectionShape>, frame: Frame, holes: Holes)
    requires
        arrange::fits_in_room(sections, frame.clear as nat),
        arrange::frame_fits(frame),
    ensures
        all_drawable(arrange::pass(sections, frame, holes).0, sections),
        arrange::pass(sections, frame, holes).0.len() <= ROOM,
        match tree::planned(sections) {
            None => arrange::pass(sections, frame, holes).0.len() == 0,
            Some(node) => {
                let plots = arrange::pass(sections, frame, holes).0;
                &&& plots.len() == tree::leaves(node).len()
                &&& forall|i: int|
                    0 <= i < plots.len() ==> (#[trigger] plots[i]).section
                        == tree::leaves(node)[i]
            },
        },
{
    arrange::lemma_planned(sections, frame.clear as nat);
    if let Some(node) = tree::planned(sections) {
        let ground = GroundView {
            sections,
            capped: frame.capped as nat,
            clear: frame.clear as nat,
            holes: holes.blocks(),
        };
        place::lemma_placed_inside(node, ground, 0, 0, frame.cols as int);
        arrange::lemma_leaves_counted(node);
        let plots = arrange::pass(sections, frame, holes).0;
        assert forall|i: int| 0 <= i < plots.len() implies drawable(
            #[trigger] plots[i],
            sections,
        ) by {
            assert(place::inside(
                plots[i],
                sections,
                0,
                0,
                num::larger(frame.cols as int, 1) + place::cut_count(node),
                tree::total(node, place::reach(sections, frame.clear as nat)) as int,
            ));
        }
    }
}

pub proof fn lemma_half_drawable(
    sections: Seq<SectionShape>,
    clear: nat,
    index: int,
    row: int,
    col: int,
    width: int,
)
    requires
        arrange::fits_in_room(sections, clear),
        0 <= index < sections.len(),
        0 <= row <= 2 * ROOM,
        0 <= col,
        1 <= width,
        col + width <= CELLS,
    ensures
        drawable(
            cells::laid(
                Seq::empty(),
                index,
                sections[index].count as nat,
                row,
                col,
                width,
            ),
            sections,
        ),
{
    arrange::lemma_heft_bounds(sections, clear, index, sections.len());
    cells::lemma_laid_bounded(
        Seq::empty(),
        index,
        sections[index].count as nat,
        row,
        col,
        width,
    );
}

/// Lay the centre block into the cells it claimed.
fn place_center(
    sections: &[SectionShape],
    order: &Vec<usize>,
    widths: &Vec<usize>,
    block: &Block,
    Ghost(clear): Ghost<nat>,
) -> (plots: Vec<Plot>)
    requires
        arrange::fits_in_room(sections@, clear),
        forall|i: int| 0 <= i < order.len() ==> #[trigger] order@[i] < sections@.len(),
        widths.len() == order.len(),
        forall|i: int| 0 <= i < widths.len() ==> #[trigger] widths@[i] >= 1,
        center::sum(widths@) <= ROOM,
        block.row <= 2 * ROOM,
        block.col <= 2 * ROOM,
    ensures
        place::views(plots@) == center_plots(
            sections@,
            order@,
            widths@,
            *block,
            order@.len(),
        ),
        all_drawable(place::views(plots@), sections@),
        plots.len() == order.len(),
{
    let mut plots: Vec<Plot> = Vec::new();
    let holes: Vec<Block> = Vec::new();
    let mut col: usize = block.col;
    assert(place::views(plots@) =~= Seq::empty());
    assert(widths@.take(0) =~= Seq::empty());
    assert(holes@ =~= Seq::empty());
    for i in 0..order.len()
        invariant
            arrange::fits_in_room(sections@, clear),
            forall|i: int| 0 <= i < order.len() ==> #[trigger] order@[i] < sections@.len(),
            widths.len() == order.len(),
            forall|i: int| 0 <= i < widths.len() ==> #[trigger] widths@[i] >= 1,
            center::sum(widths@) <= ROOM,
            block.row <= 2 * ROOM,
            block.col <= 2 * ROOM,
            holes@ == Seq::<Block>::empty(),
            col == block.col + center::sum(widths@.take(i as int)),
            plots.len() == i,
            place::views(plots@) == center_plots(
                sections@,
                order@,
                widths@,
                *block,
                i as nat,
            ),
            all_drawable(place::views(plots@), sections@),
    {
        let index = order[i];
        let width = widths[i];
        proof {
            arrange::lemma_heft_bounds(sections@, clear, index as int, sections@.len());
            center::lemma_sum_take(widths@, i + 1);
            assert(widths@.take(i + 1).drop_last() =~= widths@.take(i as int));
            lemma_half_drawable(
                sections@,
                clear,
                index as int,
                block.row as int,
                col as int,
                width as int,
            );
        }
        let plot = lay_box(&holes, index, sections[index].count, block.row, col, width);
        let ghost before = plots@;
        plots.push(plot);
        assert(place::views(plots@) =~= place::views(before).push(plot@));
        col += width;
    }
    plots
}

pub proof fn lemma_tallest_bounded(
    sections: Seq<SectionShape>,
    clear: nat,
    order: Seq<usize>,
    widths: Seq<usize>,
)
    requires
        arrange::fits_in_room(sections, clear),
        forall|i: int| 0 <= i < order.len() ==> #[trigger] order[i] < sections.len(),
    ensures
        center::tallest(sections, order, widths) <= ROOM,
    decreases order.len(),
{
    if order.len() > 0 {
        let last = order.len() - 1;
        let shorter = order.drop_last();
        assert forall|i: int| 0 <= i < shorter.len() implies #[trigger] shorter[i]
            < sections.len() by {
            assert(shorter[i] == order[i]);
        }
        lemma_tallest_bounded(sections, clear, shorter, widths);
        arrange::lemma_heft_bounds(sections, clear, order[last] as int, sections.len());
        let (n, d) = (
            sections[order[last] as int].count as int,
            num::larger(widths[last] as int, 1),
        );
        assert((n + d - 1) / d <= n) by (nonlinear_arith)
            requires
                n >= 0,
                d >= 1,
        ;
    }
}

/// What the lattice is settled against, and the columns of the centre's halves.
fn frame_for(
    sections: &[SectionShape],
    m: &Metrics,
    work: &Rect,
    node: &Option<tree::Node>,
    order: &Vec<usize>,
) -> (got: (Frame, Vec<usize>))
    requires
        measurable(sections@, *m, *work),
        *node == tree::planned(sections@),
        order@ == middle(sections@),
    ensures
        got.0 == frame_of(sections@, *m, *work),
        got.0.clear == clear_rows(*m),
        got.0.cols == panel_cols(sections@, *m, *work),
        got.0.cols >= 1,
        arrange::frame_fits(got.0),
        got.1@ == halves(sections@, *m, *work),
        got.1.len() == order.len(),
        forall|i: int| 0 <= i < got.1.len() ==> #[trigger] got.1@[i] >= 1,
        center::sum(got.1@) <= ROOM,
{
    let across = choose_cols(sections, m, work, node, order);
    proof {
        arrange::lemma_planned(sections@, clear_rows(*m));
        arrange::lemma_asked_bounded(sections@, clear_rows(*m), sections@.len());
        center::center_boxes_sit_in_order(sections@, sections@.len());
        center::center_widths_fit_the_budget(
            center::asked(sections@, order@),
            across.cols as nat,
        );
    }
    let widths = center::center_widths(sections, order, across.cols);
    proof {
        lemma_tallest_bounded(sections@, clear_rows(*m), order@, widths@);
    }
    let frame = Frame {
        capped: across.capped,
        clear: clear_between(m),
        cols: across.cols,
        down: rows_on_screen(m, work),
        corner: m.search_h + m.padding > 0,
        across: center::total_of(&widths),
        rows: center::center_rows(sections, order, &widths),
    };
    (frame, widths)
}

/// Every tile's rectangle, in section order.
fn draw_all(
    sections: &[SectionShape],
    m: &Metrics,
    plots: &Vec<Plot>,
    Ghost(clear): Ghost<nat>,
) -> (tiles: Vec<Rect>)
    requires
        m.wf(),
        arrange::fits_in_room(sections@, clear),
        all_drawable(place::views(plots@), sections@),
    ensures
        tiles@ == tiles_of(sections@, *m, place::views(plots@), plots@.len()),
{
    let slots = count_before(sections, sections.len(), Ghost(clear));
    let mut tiles: Vec<Rect> = Vec::new();
    for i in 0..slots
        invariant
            tiles@ == Seq::new(i as nat, |t: int| Rect::spec_blank()),
    {
        tiles.push(Rect::blank());
        assert(tiles@ =~= Seq::new((i + 1) as nat, |t: int| Rect::spec_blank()));
    }
    for i in 0..plots.len()
        invariant
            m.wf(),
            arrange::fits_in_room(sections@, clear),
            all_drawable(place::views(plots@), sections@),
            tiles@ == tiles_of(sections@, *m, place::views(plots@), i as nat),
            tiles@.len() == counted(sections@, sections@.len()),
    {
        let plot = &plots[i];
        assert(drawable(place::views(plots@)[i as int], sections@));
        proof {
            lemma_counted_bounds(
                sections@,
                clear,
                plot.section as nat,
                sections@.len(),
            );
        }
        let first = count_before(sections, plot.section, Ghost(clear));
        draw_tiles(&mut tiles, m, first, plot, Ghost(sections@));
    }
    tiles
}

/// The titles of the tree's boxes.
fn draw_titles(sections: &[SectionShape], m: &Metrics, plots: &Vec<Plot>) -> (headers: Vec<Header>)
    requires
        m.wf(),
        all_drawable(place::views(plots@), sections@),
    ensures
        header_views(headers@) == headers_of(
            sections@,
            *m,
            place::views(plots@),
            plots@.len(),
        ),
{
    let mut headers: Vec<Header> = Vec::new();
    assert(header_views(headers@) =~= Seq::empty());
    for i in 0..plots.len()
        invariant
            m.wf(),
            all_drawable(place::views(plots@), sections@),
            header_views(headers@) == headers_of(
                sections@,
                *m,
                place::views(plots@),
                i as nat,
            ),
    {
        let plot = &plots[i];
        assert(drawable(place::views(plots@)[i as int], sections@));
        let section = &sections[plot.section];
        if !section.title.as_str().is_empty() && m.header_h > 0 && section.center.is_none() {
            let header = Header {
                title: section.title.clone(),
                rect: title_at(m, plot, Ghost(sections@)),
                band: i,
            };
            let ghost before = headers@;
            headers.push(header);
            assert(header_views(headers@) =~= header_views(before).push(header@));
        }
    }
    headers
}

/// What each box of the tree takes up.
fn draw_boxes(m: &Metrics, plots: &Vec<Plot>, Ghost(sections): Ghost<Seq<SectionShape>>) -> (rects:
    Vec<Rect>)
    requires
        m.wf(),
        all_drawable(place::views(plots@), sections),
    ensures
        rects@ == box_rects(*m, place::views(plots@)),
        stretch::all_near(rects@),
        rects.len() == plots.len(),
{
    let mut rects: Vec<Rect> = Vec::new();
    for i in 0..plots.len()
        invariant
            m.wf(),
            all_drawable(place::views(plots@), sections),
            rects@ =~= box_rects(*m, place::views(plots@).take(i as int)),
            stretch::all_near(rects@),
            rects.len() == i,
    {
        assert(drawable(place::views(plots@)[i as int], sections));
        let rect = rect_of(m, &plots[i], Ghost(sections));
        rects.push(rect);
        assert(place::views(plots@).take(i + 1) =~= place::views(plots@).take(i as int).push(
            plots@[i as int]@,
        ));
    }
    assert(place::views(plots@).take(plots@.len() as int) =~= place::views(plots@));
    rects
}

/// Every box as a band: the tree's in the rectangles they were grown to, and
/// then the centre's.
fn draw_bands(
    sections: &[SectionShape],
    m: &Metrics,
    plots: &Vec<Plot>,
    grown: &Vec<Rect>,
    reserve: &Option<Block>,
    Ghost(clear): Ghost<nat>,
) -> (bands: Vec<Band>)
    requires
        m.wf(),
        arrange::fits_in_room(sections@, clear),
        all_drawable(place::views(plots@), sections@),
        grown.len() <= plots.len(),
        grown.len() < plots.len() ==> reserve is Some,
        reserve matches Some(block) ==> block.row <= CELLS && 1 <= block.rows <= CELLS,
    ensures
        bands.len() == plots.len(),
        forall|i: int|
            0 <= i < plots.len() ==> (#[trigger] bands@[i])@ == (if i < grown.len() {
                band_from(sections@, *m, plots@[i]@, grown@[i], false)
            } else {
                band_from(
                    sections@,
                    *m,
                    plots@[i]@,
                    half_rect(*m, reserve->0, plots@[i]@),
                    true,
                )
            }),
{
    let mut bands: Vec<Band> = Vec::new();
    for i in 0..plots.len()
        invariant
            m.wf(),
            arrange::fits_in_room(sections@, clear),
            all_drawable(place::views(plots@), sections@),
            grown.len() <= plots.len(),
            grown.len() < plots.len() ==> reserve is Some,
            reserve matches Some(block) ==> block.row <= CELLS && 1 <= block.rows <= CELLS,
            bands.len() == i,
            forall|k: int|
                0 <= k < i ==> (#[trigger] bands@[k])@ == (if k < grown.len() {
                    band_from(sections@, *m, plots@[k]@, grown@[k], false)
                } else {
                    band_from(
                        sections@,
                        *m,
                        plots@[k]@,
                        half_rect(*m, reserve->0, plots@[k]@),
                        true,
                    )
                }),
    {
        assert(drawable(place::views(plots@)[i as int], sections@));
        let center = i >= grown.len();
        let rect = if center {
            match reserve {
                Some(block) => {
                    let own = rect_of(m, &plots[i], Ghost(sections@));
                    Rect { x: own.x, y: m.top_of(block.row), w: own.w, h: m.tall(block.rows) }
                },
                None => Rect::blank(),
            }
        } else {
            grown[i]
        };
        let band = band_for(sections, m, &plots[i], rect, center, Ghost(clear));
        bands.push(band);
    }
    bands
}

/// The boxes of the tree grown to fill the part of the content that is theirs.
fn grow(node: &Option<tree::Node>, rects: &Vec<Rect>, whole: Rect) -> (grown: Vec<Rect>)
    requires
        *node matches Some(node) ==> !tree::has_hole(node) && rects.len() == tree::leaves(
            node,
        ).len(),
        stretch::all_near(rects@),
        whole.near_enough(),
    ensures
        grown@ == (match *node {
            None => Seq::empty(),
            Some(node) => stretch::stretched(node, rects@, whole),
        }),
        grown.len() == (match *node {
            None => 0,
            Some(node) => tree::leaves(node).len(),
        }),
{
    let mut grown: Vec<Rect> = Vec::new();
    if let Some(node) = node {
        proof {
            stretch::lemma_stretched_len(*node, rects@, whole);
            assert(rects@.subrange(0, rects@.len() as int) =~= rects@);
        }
        stretch::stretch(node, rects, 0, whole, &mut grown);
        assert(grown@ =~= stretch::stretched(*node, rects@, whole));
    }
    grown
}

/// Twice the top of a panel.
fn twice_top_of(m: &Metrics, work: &Rect, reserve: &Option<Block>, height: i64) -> (twice: i64)
    requires
        m.wf(),
        0 <= work.h <= REACH,
        -REACH <= work.y <= REACH,
        0 <= height <= 3 * REACH,
        reserve matches Some(block) ==> block.row <= CELLS && 1 <= block.rows <= CELLS,
    ensures
        twice == twice_top(*m, *work, *reserve, height as int),
        -0x1000_0000_0000 <= twice <= 0x1000_0000_0000,
{
    match reserve {
        None => 2 * work.y + work.h - height,
        Some(block) => {
            // The panel slides to put the block on the middle of the screen.
            let slack: i64 = if work.h > height {
                work.h - height
            } else {
                0
            };
            let middle: i64 = 2 * work.y + work.h - (2 * m.top_of(block.row) + m.tall(block.rows));
            if middle < 2 * work.y {
                2 * work.y
            } else if middle > 2 * (work.y + slack) {
                2 * (work.y + slack)
            } else {
                middle
            }
        },
    }
}

fn weighed(sections: &[SectionShape], clear: usize) -> (fits: bool)
    requires
        clear <= 2 * REACH,
    ensures
        fits == arrange::fits_in_room(sections@, clear as nat),
{
    let mut heft: usize = 0;
    for i in 0..sections.len()
        invariant
            clear <= 2 * REACH,
            heft <= ROOM,
            heft == arrange::heft(sections@, clear as nat, i as nat),
    {
        let section = &sections[i];
        proof {
            arrange::lemma_heft_bounds(sections@, clear as nat, i as int, sections@.len());
        }
        if section.columns > ROOM || section.count > ROOM {
            return false;
        }
        let more: u64 = heft as u64 + section.columns as u64 + 4 * section.count as u64 + 130
            + clear as u64;
        if more > ROOM as u64 {
            return false;
        }
        heft = more as usize;
    }
    true
}

/// Whether a panel can be laid out on this machine.
pub fn measures(sections: &[SectionShape], m: &Metrics, work: &Rect) -> (fits: bool)
    ensures
        fits == measurable(sections@, *m, *work),
{
    let reached = 0 < m.tile_w && m.tile_w <= REACH && 0 < m.tile_h && m.tile_h <= REACH && 0
        <= m.gap && m.gap <= REACH && 0 <= m.padding && m.padding <= REACH && 0 <= m.search_h
        && m.search_h <= REACH && 0 <= m.header_h && m.header_h <= REACH && -REACH <= m.header_gap
        && m.header_gap <= REACH && -REACH <= m.section_gap && m.section_gap <= REACH;
    if !reached || m.fixed_cols > ROOM {
        return false;
    }
    let placed = 0 <= work.w && work.w <= REACH && 0 <= work.h && work.h <= REACH && -REACH
        <= work.x && work.x <= REACH && -REACH <= work.y && work.y <= REACH;
    if !placed || !shares(work.w, m.max_fraction) || !shares(work.h, m.max_fraction) {
        return false;
    }
    proof {
        lemma_clear(*m);
    }
    weighed(sections, clear_between(m))
}

fn shares(length: i64, fraction: u32) -> (fits: bool)
    requires
        0 <= length <= REACH,
    ensures
        fits == (length * fraction / WHOLE as int <= REACH),
{
    proof {
        assert(0 <= length * fraction <= REACH * 0x1_0000_0000) by (nonlinear_arith)
            requires
                0 <= length <= REACH,
                0 <= fraction < 0x1_0000_0000,
        ;
    }
    length * fraction as i64 / WHOLE as i64 <= REACH
}

impl Layout {
    /// Lay a panel out.
    #[verifier::spinoff_prover]
    #[verifier::rlimit(60)]
    pub fn compute(sections: &[SectionShape], m: Metrics, work_area: Rect) -> (layout: Layout)
        requires
            measurable(sections@, m, work_area),
        ensures
            layout.lays_out(sections@, m, work_area),
            layout.wf(),
    {
        let node = plan(sections);
        let order = center_boxes(sections);
        let (frame, widths) = frame_for(sections, &m, &work_area, &node, &order);
        let arranged = arrange(sections, &node, &frame);
        let ghost clear = clear_rows(m);
        let ghost sketch = sketched(sections@, m, work_area);
        proof {
            lemma_treed_drawable(sections@, frame, arranged.holes);
            arrange::lemma_planned(sections@, clear);
            center::center_boxes_sit_in_order(sections@, sections@.len());
        }
        let mut plots = arranged.plots;
        let reserve = arranged.holes.reserve;
        let headers = draw_titles(sections, &m, &plots);
        let rects = draw_boxes(&m, &plots, Ghost(sections@));

        let panel_w: i64 = m.wide(frame.cols) + 2 * m.padding;
        let content_h: i64 = m.line_at(arranged.line) + m.padding;
        let tallest = tallest_panel(&m, &work_area);
        let panel_h: i64 = if content_h < tallest {
            content_h
        } else {
            tallest
        };
        // Before the centre goes in, so the tree's boxes are the ones grown to
        // fill the panel.
        let whole = Rect { x: 0, y: m.search_h, w: panel_w, h: content_h - m.search_h };
        proof {
            lemma_content_below_strip(m, arranged.line as int);
        }
        let grown = grow(&node, &rects, whole);
        assert(grown@ == grown_rects(sections@, m, work_area));
        let panel_y2 = twice_top_of(&m, &work_area, &reserve, panel_h);
        let ghost treed = place::views(plots@);
        if let Some(block) = &reserve {
            let mut halves = place_center(sections, &order, &widths, block, Ghost(clear));
            assert(place::views(plots@ + halves@) =~= place::views(plots@) + place::views(
                halves@,
            ));
            plots.append(&mut halves);
        } else {
            assert(place::views(plots@) + Seq::<PlotView>::empty() =~= place::views(plots@));
        }
        assert(place::views(plots@) == sketch.plots());
        assert(all_drawable(place::views(plots@), sections@)) by {
            assert forall|i: int| 0 <= i < plots@.len() implies drawable(
                #[trigger] place::views(plots@)[i],
                sections@,
            ) by {
                if i < treed.len() {
                    assert(place::views(plots@)[i] == treed[i]);
                } else {
                    assert(place::views(plots@)[i] == sketch.halves[i - treed.len()]);
                }
            }
        }
        let tiles = draw_all(sections, &m, &plots, Ghost(clear));
        let bands = draw_bands(sections, &m, &plots, &grown, &reserve, Ghost(clear));
        assert(band_views(bands@) =~= bands_of(sections@, m, work_area)) by {
            assert forall|i: int| 0 <= i < bands@.len() implies #[trigger] band_views(bands@)[i]
                == bands_of(sections@, m, work_area)[i] by {
                assert(place::views(plots@)[i] == plots@[i]@);
            }
        }
        let panel = Rect {
            x: snap(2 * work_area.x + work_area.w - panel_w),
            y: snap(panel_y2),
            w: snap(2 * panel_w),
            h: snap(2 * panel_h),
        };
        let layout = Layout {
            cols: frame.cols,
            panel,
            content_h,
            max_scroll: if content_h > panel_h {
                content_h - panel_h
            } else {
                0
            },
            tiles,
            headers,
            bands,
            metrics: m,
        };
        proof {
            query::lemma_laid_out_wf(layout, sections@, m, work_area);
        }
        layout
    }
}

pub proof fn lemma_content_below_strip(m: Metrics, line: int)
    requires
        m.wf(),
        line >= 0,
    ensures
        m.y_line(line) + m.padding >= m.search_h,
{
    assert((line / 2) * m.step_y() >= 0) by (nonlinear_arith)
        requires
            line >= 0,
            m.step_y() >= 0,
    ;
}

} // verus!
