//! What leaves a panel as it was, and what a panel keeps to.

use vstd::prelude::*;
use crate::arrange;
use crate::arrange::{Frame, Holes};
use crate::at::{At, WHOLE};
use crate::cells::{Block, PlotView};
use crate::center;
use crate::geometry;
use crate::geometry::{Metrics, Rect, PX};
use crate::layout;
use crate::layout::Layout;
use crate::num;
use crate::place;
use crate::place::GroundView;
use crate::query;
use crate::section::SectionShape;
use crate::shape;
use crate::side::{Axis, Side};
use crate::tree;
use crate::tree::Node;

verus! {

/// Whether two placements ask for the same place.
pub open spec fn same_place(a: Option<At>, b: Option<At>) -> bool {
    match (a, b) {
        (Some(p), Some(q)) => p.cuts@ == q.cuts@ && p.share == q.share,
        (None, None) => true,
        _ => false,
    }
}

/// Whether two sections differ in nothing but their titles.
pub open spec fn alike(a: SectionShape, b: SectionShape) -> bool {
    &&& a.count == b.count
    &&& a.columns == b.columns
    &&& a.center == b.center
    &&& same_place(a.at, b.at)
}

/// Whether one list of sections differs from another in nothing but titles and
/// empty sections on the end.
pub open spec fn extends(a: Seq<SectionShape>, b: Seq<SectionShape>) -> bool {
    &&& a.len() <= b.len()
    &&& forall|i: int| 0 <= i < a.len() ==> alike(#[trigger] a[i], b[i])
    &&& forall|i: int| a.len() <= i < b.len() ==> (#[trigger] b[i]).count == 0
}

proof fn lemma_plans(a: Seq<SectionShape>, b: Seq<SectionShape>, n: nat)
    requires
        extends(a, b),
        n <= b.len(),
    ensures
        n <= a.len() ==> tree::stack_of(a, n) == tree::stack_of(b, n),
        n <= a.len() ==> tree::cuts_of(a, n) == tree::cuts_of(b, n),
        n > a.len() ==> tree::stack_of(b, n) == tree::stack_of(a, a.len()),
        n > a.len() ==> tree::cuts_of(b, n) == tree::cuts_of(a, a.len()),
    decreases n,
{
    if n > 0 {
        lemma_plans(a, b, (n - 1) as nat);
        if n <= a.len() {
            assert(alike(a[n - 1], b[n - 1]));
        } else {
            assert(b[n - 1].count == 0);
        }
    }
}

proof fn lemma_wants(node: Node, a: Seq<SectionShape>, b: Seq<SectionShape>, capped: nat)
    requires
        extends(a, b),
        place::every(node, place::below(a.len())),
    ensures
        place::want_cols(node, a, capped) == place::want_cols(node, b, capped),
    decreases node,
{
    match node {
        Node::Cut { near, far, .. } => {
            lemma_wants(*near, a, b, capped);
            lemma_wants(*far, a, b, capped);
        },
        Node::Leaf(index) => {
            assert(place::below(a.len())(index));
            assert(alike(a[index as int], b[index as int]));
        },
        Node::Empty => {},
    }
}

proof fn lemma_places(
    node: Node,
    a: GroundView,
    b: GroundView,
    row: int,
    col: int,
    cols: int,
)
    requires
        extends(a.sections, b.sections),
        a.capped == b.capped,
        a.clear == b.clear,
        a.holes == b.holes,
        place::every(node, place::below(a.sections.len())),
    ensures
        place::placed(node, a, row, col, cols) == place::placed(node, b, row, col, cols),
    decreases node,
{
    match node {
        Node::Empty => {},
        Node::Leaf(index) => {
            assert(place::below(a.sections.len())(index));
            assert(alike(a.sections[index as int], b.sections[index as int]));
        },
        Node::Cut { axis, near, far, .. } => {
            lemma_wants(*near, a.sections, b.sections, a.capped);
            lemma_wants(*far, a.sections, b.sections, a.capped);
            match axis {
                Axis::Across => {
                    let split = place::split_of(node, a, cols);
                    lemma_places(*near, a, b, row, col, split);
                    lemma_places(*far, a, b, row, col + split, num::larger(cols - split, 0));
                },
                Axis::Down => {
                    lemma_places(*near, a, b, row, col, cols);
                    let line = place::placed(*near, a, row, col, cols).1;
                    lemma_places(*far, a, b, place::next_row(line, a.clear as int), col, cols);
                },
            }
        },
    }
}

proof fn lemma_ranks(
    a: Seq<SectionShape>,
    b: Seq<SectionShape>,
    order: Seq<usize>,
    at: usize,
)
    requires
        extends(a, b),
        forall|i: int| 0 <= i < order.len() ==> #[trigger] order[i] < a.len(),
    ensures
        center::rank(a, order, at) == center::rank(b, order, at),
    decreases order.len(),
{
    if order.len() > 0 {
        assert(order.last() == order[order.len() - 1]);
        assert(alike(a[order.last() as int], b[order.last() as int]));
        let shorter = order.drop_last();
        assert forall|i: int| 0 <= i < shorter.len() implies #[trigger] shorter[i] < a.len() by {
            assert(shorter[i] == order[i]);
        }
        lemma_ranks(a, b, shorter, at);
    }
}

proof fn lemma_orders(a: Seq<SectionShape>, b: Seq<SectionShape>, n: nat)
    requires
        extends(a, b),
        n <= b.len() <= usize::MAX,
    ensures
        n <= a.len() ==> center::center_order(a, n) == center::center_order(b, n),
        n > a.len() ==> center::center_order(b, n) == center::center_order(a, a.len()),
    decreases n,
{
    if n > 0 {
        lemma_orders(a, b, (n - 1) as nat);
        if n <= a.len() {
            assert(alike(a[n - 1], b[n - 1]));
            center::center_boxes_sit_in_order(a, (n - 1) as nat);
            let before = center::center_order(a, (n - 1) as nat);
            assert forall|i: int| 0 <= i < before.len() implies #[trigger] before[i]
                < a.len() by {}
            lemma_ranks(a, b, before, center::seat(a[n - 1]));
        } else {
            assert(b[n - 1].count == 0);
        }
    }
}

proof fn lemma_tallests(
    a: Seq<SectionShape>,
    b: Seq<SectionShape>,
    order: Seq<usize>,
    widths: Seq<usize>,
)
    requires
        extends(a, b),
        forall|i: int| 0 <= i < order.len() ==> #[trigger] order[i] < a.len(),
    ensures
        center::tallest(a, order, widths) == center::tallest(b, order, widths),
    decreases order.len(),
{
    if order.len() > 0 {
        let last = order[order.len() - 1] as int;
        assert(alike(a[last], b[last]));
        let shorter = order.drop_last();
        assert forall|i: int| 0 <= i < shorter.len() implies #[trigger] shorter[i] < a.len() by {
            assert(shorter[i] == order[i]);
        }
        lemma_tallests(a, b, shorter, widths);
    }
}

proof fn lemma_center_plots(
    a: Seq<SectionShape>,
    b: Seq<SectionShape>,
    order: Seq<usize>,
    widths: Seq<usize>,
    block: Block,
    n: nat,
)
    requires
        extends(a, b),
        n <= order.len(),
        forall|i: int| 0 <= i < order.len() ==> #[trigger] order[i] < a.len(),
    ensures
        layout::center_plots(a, order, widths, block, n) == layout::center_plots(
            b,
            order,
            widths,
            block,
            n,
        ),
    decreases n,
{
    if n > 0 {
        lemma_center_plots(a, b, order, widths, block, (n - 1) as nat);
        let index = order[n - 1] as int;
        assert(alike(a[index], b[index]));
    }
}

proof fn lemma_counts(a: Seq<SectionShape>, b: Seq<SectionShape>, n: nat)
    requires
        extends(a, b),
        n <= b.len(),
    ensures
        n <= a.len() ==> layout::counted(a, n) == layout::counted(b, n),
        n > a.len() ==> layout::counted(b, n) == layout::counted(a, a.len()),
    decreases n,
{
    if n > 0 {
        lemma_counts(a, b, (n - 1) as nat);
        if n <= a.len() {
            assert(alike(a[n - 1], b[n - 1]));
        } else {
            assert(b[n - 1].count == 0);
        }
    }
}

proof fn lemma_passes(
    a: Seq<SectionShape>,
    b: Seq<SectionShape>,
    frame: Frame,
    holes: Holes,
)
    requires
        extends(a, b),
        tree::planned(a) == tree::planned(b),
        tree::planned(a) matches Some(node) ==> place::every(node, place::below(a.len())),
    ensures
        arrange::pass(a, frame, holes) == arrange::pass(b, frame, holes),
{
    if let Some(node) = tree::planned(a) {
        let ground = |sections: Seq<SectionShape>|
            GroundView {
                sections,
                capped: frame.capped as nat,
                clear: frame.clear as nat,
                holes: holes.blocks(),
            };
        lemma_places(node, ground(a), ground(b), 0, 0, frame.cols as int);
    }
}

proof fn lemma_settles(
    a: Seq<SectionShape>,
    b: Seq<SectionShape>,
    frame: Frame,
    holes: Holes,
    passes: nat,
)
    requires
        extends(a, b),
        tree::planned(a) == tree::planned(b),
        tree::planned(a) matches Some(node) ==> place::every(node, place::below(a.len())),
    ensures
        arrange::settled(a, frame, holes, passes) == arrange::settled(b, frame, holes, passes),
    decreases passes,
{
    if passes > 0 {
        lemma_passes(a, b, frame, holes);
        lemma_settles(a, b, frame, arrange::moved(a, frame, holes), (passes - 1) as nat);
    }
}

proof fn lemma_sketches(a: Seq<SectionShape>, b: Seq<SectionShape>, m: Metrics, work: Rect)
    requires
        extends(a, b),
        layout::measurable(a, m, work),
        layout::measurable(b, m, work),
    ensures
        tree::planned(a) == tree::planned(b),
        layout::sketched(a, m, work) == layout::sketched(b, m, work),
        layout::panel_cols(a, m, work) == layout::panel_cols(b, m, work),
{
    arrange::lemma_planned(a, layout::clear_rows(m));
    arrange::lemma_planned(b, layout::clear_rows(m));
    lemma_plans(a, b, b.len());
    lemma_orders(a, b, b.len());
    center::center_boxes_sit_in_order(a, a.len());
    shape::lemma_frame(a, m, work);
    let order = layout::middle(a);
    assert(order == layout::middle(b));
    assert forall|i: int| 0 <= i < order.len() implies #[trigger] order[i] < a.len() by {}
    assert(center::asked(a, order) =~= center::asked(b, order)) by {
        assert forall|i: int| 0 <= i < order.len() implies #[trigger] center::asked(a, order)[i]
            == center::asked(b, order)[i] by {
            assert(alike(a[order[i] as int], b[order[i] as int]));
        }
    }
    let capped = layout::capped_across(m, work) as nat;
    if let Some(node) = tree::planned(a) {
        lemma_wants(node, a, b, capped);
    }
    let widths = layout::halves(a, m, work);
    lemma_tallests(a, b, order, widths);
    let frame = layout::frame_of(a, m, work);
    assert(frame == layout::frame_of(b, m, work));
    lemma_settles(
        a,
        b,
        frame,
        Holes { reserve: None, home: None },
        arrange::PASSES as nat,
    );
    lemma_passes(a, b, frame, arrange::last_holes(a, frame));
    let holes = arrange::holes_of(a, frame);
    lemma_passes(a, b, frame, holes);
    if let Some(block) = holes.reserve {
        lemma_center_plots(a, b, order, widths, block, order.len());
    }
}

proof fn lemma_tiles(
    a: Seq<SectionShape>,
    b: Seq<SectionShape>,
    m: Metrics,
    plots: Seq<PlotView>,
    n: nat,
)
    requires
        extends(a, b),
        n <= plots.len(),
        layout::all_drawable(plots, a),
    ensures
        layout::tiles_of(a, m, plots, n) == layout::tiles_of(b, m, plots, n),
    decreases n,
{
    lemma_counts(a, b, b.len());
    if n > 0 {
        lemma_tiles(a, b, m, plots, (n - 1) as nat);
        assert(layout::drawable(plots[n - 1], a));
        lemma_counts(a, b, plots[n - 1].section as nat);
    } else {
        assert(layout::tiles_of(a, m, plots, n) =~= layout::tiles_of(b, m, plots, n));
    }
}

pub proof fn lemma_same_panel(a: Seq<SectionShape>, b: Seq<SectionShape>, m: Metrics, work: Rect)
    requires
        extends(a, b),
        layout::measurable(a, m, work),
        layout::measurable(b, m, work),
    ensures
        layout::sketched(a, m, work) == layout::sketched(b, m, work),
        layout::panel_cols(a, m, work) == layout::panel_cols(b, m, work),
        ({
            let plots = layout::sketched(a, m, work).plots();
            layout::tiles_of(a, m, plots, plots.len()) == layout::tiles_of(
                b,
                m,
                plots,
                plots.len(),
            )
        }),
{
    lemma_sketches(a, b, m, work);
    let plots = layout::sketched(a, m, work).plots();
    shape::every_section_with_tiles_has_one_box(a, m, work);
    lemma_tiles(a, b, m, plots, plots.len());
}

/// A title costs no layout at all, and an empty section contributes nothing:
/// two panels whose sections differ only in titles and in empty sections on the
/// end have the same columns, the same place on the screen, the same tiles and
/// the same bands.
pub proof fn titles_and_empty_sections_move_nothing(
    mine: Layout,
    other: Layout,
    a: Seq<SectionShape>,
    b: Seq<SectionShape>,
    m: Metrics,
    work: Rect,
)
    requires
        extends(a, b),
        layout::measurable(a, m, work),
        layout::measurable(b, m, work),
        mine.lays_out(a, m, work),
        other.lays_out(b, m, work),
    ensures
        mine.cols == other.cols,
        mine.panel == other.panel,
        mine.content_h == other.content_h,
        mine.max_scroll == other.max_scroll,
        mine.tiles@ == other.tiles@,
        layout::band_views(mine.bands@) == layout::band_views(other.bands@),
{
    lemma_sketches(a, b, m, work);
    let sketch = layout::sketched(a, m, work);
    let plots = sketch.plots();
    shape::every_section_with_tiles_has_one_box(a, m, work);
    lemma_tiles(a, b, m, plots, plots.len());
    let (p, q) = (layout::bands_of(a, m, work), layout::bands_of(b, m, work));
    assert(p =~= q) by {
        assert forall|i: int| 0 <= i < plots.len() implies #[trigger] p[i] == q[i] by {
            let plot = plots[i];
            assert(layout::drawable(plot, a));
            lemma_counts(a, b, plot.section as nat);
            assert(alike(a[plot.section], b[plot.section]));
            if i < sketch.treed.len() {
                assert(plot == sketch.treed[i]);
            } else {
                assert(plot == sketch.halves[i - sketch.treed.len()]);
            }
        }
    }
}

/// The other side of the cut a side makes.
pub open spec fn opposite(side: Side) -> Side {
    match side {
        Side::Left => Side::Right,
        Side::Right => Side::Left,
        Side::Top => Side::Bottom,
        Side::Bottom => Side::Top,
    }
}

/// Naming either side of a cut describes the same panel: one box on a side with
/// a share of the cut, and the other box left to fill the rest, is the panel
/// where the other box names the other side with the rest of the share.
pub proof fn naming_either_side_of_a_cut_describes_the_same_panel(
    a: Seq<SectionShape>,
    b: Seq<SectionShape>,
    side: Side,
    share: u32,
)
    requires
        a.len() == 2,
        b.len() == 2,
        0 < share < WHOLE,
        a[0].in_tree(),
        a[1].in_tree(),
        b[0].in_tree(),
        b[1].in_tree(),
        a[0].at matches Some(at) && at.cuts@ == seq![side] && at.share == share,
        a[1].at is None,
        b[0].at is None,
        b[1].at matches Some(at) && at.cuts@ == seq![opposite(side)] && at.share == WHOLE
            - share,
    ensures
        tree::planned(a) == tree::planned(b),
        tree::planned(a) is Some,
{
    reveal_with_fuel(tree::cuts_of, 3);
    reveal_with_fuel(tree::stack_of, 3);
    reveal_with_fuel(tree::inserted, 3);
    reveal_with_fuel(tree::has_hole, 3);
    reveal_with_fuel(tree::filled, 3);
    reveal_with_fuel(tree::pruned, 3);
    assert(seq![side].drop_first() =~= Seq::empty());
    assert(seq![opposite(side)].drop_first() =~= Seq::empty());
}

/// A header names the section whose tiles are under it: each belongs to a band
/// of the tree that holds tiles, and says the title of that band's section.
pub proof fn a_header_names_the_section_under_it(
    layout: Layout,
    sections: Seq<SectionShape>,
    m: Metrics,
    work: Rect,
    h: int,
)
    requires
        layout::measurable(sections, m, work),
        layout.lays_out(sections, m, work),
        0 <= h < layout.headers@.len(),
    ensures
        ({
            let header = layout.headers@[h];
            &&& header.band < layout.bands@.len()
            &&& !layout.bands@[header.band as int].center
            &&& layout.bands@[header.band as int].count > 0
            &&& header.title@ == sections[layout.bands@[header.band as int].section as int].title@
            &&& header.title@.len() > 0
        }),
{
    let sketch = layout::sketched(sections, m, work);
    let headers = layout::headers_of(sections, m, sketch.treed, sketch.treed.len());
    assert(layout::header_views(layout.headers@)[h] == layout.headers@[h]@);
    let frame = layout::frame_of(sections, m, work);
    shape::lemma_frame(sections, m, work);
    layout::lemma_treed_drawable(sections, frame, arrange::holes_of(sections, frame));
    lemma_headers(sections, m, sketch.treed, sketch.treed.len(), h);
    let band = headers[h].band as int;
    assert(layout::band_views(layout.bands@).len() == layout.bands@.len());
    assert(layout::bands_of(sections, m, work).len() == sketch.plots().len());
    shape::lemma_band(layout, sections, m, work, band);
    assert(sketch.plots()[band] == sketch.treed[band]);
}

proof fn lemma_headers(
    sections: Seq<SectionShape>,
    m: Metrics,
    plots: Seq<PlotView>,
    n: nat,
    h: int,
)
    requires
        n <= plots.len() <= usize::MAX,
        0 <= h < layout::headers_of(sections, m, plots, n).len(),
    ensures
        ({
            let header = layout::headers_of(sections, m, plots, n)[h];
            &&& header.band < n
            &&& header.title == sections[plots[header.band as int].section].title@
            &&& header.title.len() > 0
            &&& header.rect == layout::title_rect(m, plots[header.band as int])
        }),
    decreases n,
{
    if n > 0 {
        let before = layout::headers_of(sections, m, plots, (n - 1) as nat);
        if h < before.len() {
            lemma_headers(sections, m, plots, (n - 1) as nat, h);
            assert(layout::headers_of(sections, m, plots, n)[h] == before[h]);
        }
    }
}

/// A fixed column count holds the panel still as matches fall away: with no
/// centre block to make room for, the width of the panel is that count, kept to
/// what the screen allows, whatever the sections hold.
pub proof fn a_fixed_column_count_holds_the_panel_still(
    sections: Seq<SectionShape>,
    m: Metrics,
    work: Rect,
)
    requires
        layout::measurable(sections, m, work),
        m.fixed_cols > 0,
        layout::middle(sections).len() == 0,
    ensures
        layout::panel_cols(sections, m, work) == num::smaller(
            m.fixed_cols as int,
            layout::capped_across(m, work),
        ),
{
    shape::lemma_fits(m, work);
    let asked = center::asked(sections, layout::middle(sections));
    assert(center::sum(asked) == 0);
}

/// The panel stops growing at its share of the work area: it is never taller,
/// and what does not fit is what there is to scroll.
pub proof fn overflow_scrolls_instead_of_growing(
    layout: Layout,
    sections: Seq<SectionShape>,
    m: Metrics,
    work: Rect,
)
    requires
        layout.lays_out(sections, m, work),
    ensures
        layout::panel_height(sections, m, work) <= layout::max_height(m, work),
        layout.max_scroll == layout.content_h - layout::panel_height(sections, m, work),
        layout.max_scroll > 0 <==> layout.content_h > layout::max_height(m, work),
{
}

/// The panel never takes more columns than fit across its share of the work
/// area, except where the centre block has more halves than that.
pub proof fn width_stops_growing_at_what_fits(
    sections: Seq<SectionShape>,
    m: Metrics,
    work: Rect,
)
    requires
        layout::measurable(sections, m, work),
    ensures
        layout::panel_cols(sections, m, work) <= num::larger(
            layout::fits_across(m, work),
            layout::middle(sections).len() as int,
        ),
{
    shape::lemma_fits(m, work);
}

/// The filter strip sits above every tile, and no tile is drawn under it before
/// anything is scrolled.
pub proof fn the_filter_strip_sits_above_every_tile(
    layout: Layout,
    sections: Seq<SectionShape>,
    m: Metrics,
    work: Rect,
    t: int,
)
    requires
        layout::measurable(sections, m, work),
        layout.lays_out(sections, m, work),
        0 <= t < layout.tiles@.len(),
        layout.tiles@[t] != Rect::spec_blank(),
    ensures
        m.search_h + m.padding <= layout.tiles@[t].y,
        m.padding <= layout.tiles@[t].x,
{
    let plots = layout::sketched(sections, m, work).plots();
    let tile = layout.tiles@[t];
    shape::every_section_with_tiles_has_one_box(sections, m, work);
    shape::lemma_source(sections, m, plots, plots.len(), t);
    let (i, j) = choose|i: int, j: int| shape::drawn_by(sections, m, plots, tile, t, i, j);
    assert(layout::drawable(plots[i], sections));
    shape::lemma_tile_cell(sections, plots[i], j);
    let (row, col) = (plots[i].tile_row(j), plots[i].tile_col(j));
    query::lemma_lattice(m, row);
    query::lemma_lattice(m, col);
    assert(0 <= row * m.step_y() && 0 <= col * m.step_x()) by (nonlinear_arith)
        requires
            0 <= row,
            0 <= col,
            0 <= m.step_x(),
            0 <= m.step_y(),
    ;
}

proof fn lemma_snapped(twice: int)
    ensures
        -PX <= 2 * geometry::snapped(twice) - twice <= PX,
{
    let n = if twice >= 0 {
        twice
    } else {
        -twice
    };
    let q = (n + 64) / 128;
    assert(128 * q <= n + 64 < 128 * q + 128);
    assert(PX == 64);
}

/// The panel is centred on the work area to the nearest pixel: across always,
/// and down where there is no centre block to centre instead.
pub proof fn the_panel_is_centred_on_the_work_area(
    layout: Layout,
    sections: Seq<SectionShape>,
    m: Metrics,
    work: Rect,
)
    requires
        layout::measurable(sections, m, work),
        layout.lays_out(sections, m, work),
        layout.wf(),
    ensures
        -2 * PX <= (2 * layout.panel.x + layout.panel.w) - (2 * work.x + work.w) <= 2 * PX,
        layout::sketched(sections, m, work).reserve is None ==> -2 * PX <= (2 * layout.panel.y
            + layout.panel.h) - (2 * work.y + work.h) <= 2 * PX,
{
    let frame = layout::frame_of(sections, m, work);
    let sketch = layout::sketched(sections, m, work);
    shape::lemma_frame(sections, m, work);
    shape::lemma_sketch(sections, m, work);
    arrange::lemma_pass_bounded(sections, frame, arrange::holes_of(sections, frame));
    query::lemma_lattice(m, frame.cols as int);
    query::lemma_lattice(m, sketch.line / 2);
    let (w, h) = (
        layout::panel_width(sections, m, work),
        layout::panel_height(sections, m, work),
    );
    lemma_snapped(2 * work.x + work.w - w);
    lemma_snapped(2 * w);
    lemma_snapped(2 * work.y + work.h - h);
    lemma_snapped(2 * h);
}

/// The centre block holds the middle of the screen: wherever the panel can be
/// slid to put it there without leaving the work area, the middle of the block
/// is the middle of the work area to within half a pixel.
pub proof fn the_centre_holds_the_middle_of_the_screen(
    layout: Layout,
    sections: Seq<SectionShape>,
    m: Metrics,
    work: Rect,
)
    requires
        layout::measurable(sections, m, work),
        layout.lays_out(sections, m, work),
        layout::sketched(sections, m, work).reserve is Some,
        ({
            let whole = layout::block_rect(m, layout::sketched(sections, m, work).reserve->0);
            let height = layout::panel_height(sections, m, work);
            0 <= work.h - (2 * whole.y + whole.h) <= 2 * num::larger(work.h - height, 0)
        }),
    ensures
        ({
            let whole = layout::block_rect(m, layout::sketched(sections, m, work).reserve->0);
            -PX <= 2 * (layout.panel.y + whole.y) + whole.h - (2 * work.y + work.h) <= PX
        }),
{
    let sketch = layout::sketched(sections, m, work);
    let whole = layout::block_rect(m, sketch.reserve->0);
    lemma_snapped(2 * work.y + work.h - (2 * whole.y + whole.h));
    shape::lemma_sketch(sections, m, work);
    shape::lemma_frame(sections, m, work);
    query::lemma_lattice(m, sketch.reserve->0.row as int);
    query::lemma_lattice(m, sketch.reserve->0.rows as int);
}

/// The centre block keeps its shape whatever is around it: a block the screen can
/// hold is given every column it asks for, however few the rest of the panel
/// wants and whatever cap the panel is under.
pub proof fn the_centre_keeps_its_shape_whatever_is_around_it(
    sections: Seq<SectionShape>,
    m: Metrics,
    work: Rect,
)
    requires
        layout::measurable(sections, m, work),
        center::sum(center::asked(sections, layout::middle(sections))) <= num::larger(
            layout::fits_across(m, work),
            layout::middle(sections).len() as int,
        ),
    ensures
        layout::halves(sections, m, work) == center::asked(sections, layout::middle(sections)),
{
    shape::lemma_fits(m, work);
    assert(layout::panel_cols(sections, m, work) >= layout::center_room(sections, m, work));
}

/// However large its tiles and however little is on it, a panel has a column to
/// lay them into.
pub proof fn a_panel_always_has_a_column(sections: Seq<SectionShape>, m: Metrics, work: Rect)
    requires
        layout::measurable(sections, m, work),
    ensures
        layout::panel_cols(sections, m, work) >= 1,
        layout::panel_width(sections, m, work) >= m.tile_w + 2 * m.padding,
{
    shape::lemma_fits(m, work);
    let cols = layout::panel_cols(sections, m, work);
    assert(cols * m.tile_w + (cols - 1) * m.gap >= m.tile_w) by (nonlinear_arith)
        requires
            cols >= 1,
            m.tile_w > 0,
            m.gap >= 0,
    ;
}

/// A cap on the columns of a panel without a centre block is kept, whatever the
/// screen would allow.
pub proof fn a_cap_on_columns_is_kept(sections: Seq<SectionShape>, m: Metrics, work: Rect)
    requires
        layout::measurable(sections, m, work),
        layout::middle(sections).len() == 0,
        m.max_cols > 0,
    ensures
        layout::panel_cols(sections, m, work) <= m.max_cols,
{
    shape::lemma_fits(m, work);
    assert(center::asked(sections, layout::middle(sections)).len() == 0);
}

} // verus!
