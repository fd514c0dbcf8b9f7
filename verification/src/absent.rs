//! A section with nothing in it, wherever it stands in the list.

use vstd::prelude::*;
use crate::arrange;
use crate::arrange::{Frame, Holes};
use crate::cells::{Block, PlotView};
use crate::center;
use crate::geometry::{Metrics, Rect};
use crate::layout;
use crate::layout::{BandView, Layout};
use crate::num;
use crate::place;
use crate::place::GroundView;
use crate::section::SectionShape;
use crate::shape;
use crate::side::{Axis, Side};
use crate::steady;
use crate::stretch;
use crate::tree;
use crate::tree::Node;

verus! {

/// Where a section is once another was put in at `p`.
pub open spec fn lift(i: usize, p: int) -> usize {
    if i < p {
        i
    } else {
        (i + 1) as usize
    }
}

/// The same of a count of sections.
pub open spec fn up(n: int, p: int) -> int {
    if n <= p {
        n
    } else {
        n + 1
    }
}

spec fn lifted(node: Node, p: int) -> Node
    decreases node,
{
    match node {
        Node::Empty => Node::Empty,
        Node::Leaf(index) => Node::Leaf(lift(index, p)),
        Node::Cut { axis, share, near, far } => Node::Cut {
            axis,
            share,
            near: Box::new(lifted(*near, p)),
            far: Box::new(lifted(*far, p)),
        },
    }
}

spec fn lifted_if(node: Option<Node>, p: int) -> Option<Node> {
    match node {
        None => None,
        Some(node) => Some(lifted(node, p)),
    }
}

proof fn lemma_inserted(node: Node, at: Seq<Side>, share: u32, leaf: usize, p: int)
    ensures
        lifted(tree::inserted(node, at, share, leaf), p) == tree::inserted(
            lifted(node, p),
            at,
            share,
            lift(leaf, p),
        ),
    decreases at.len(),
{
    reveal_with_fuel(lifted, 3);
    if at.len() > 0 {
        let side = at[0];
        let rest = at.drop_first();
        let (kept, near, far) = tree::cut_for(node, side);
        lemma_inserted(near, rest, share, leaf, p);
        lemma_inserted(far, rest, share, leaf, p);
        let (lifted_kept, lifted_near, lifted_far) = tree::cut_for(lifted(node, p), side);
        assert(lifted_kept == kept);
        assert(lifted_near == lifted(near, p));
        assert(lifted_far == lifted(far, p));
    }
}

proof fn lemma_holes(node: Node, p: int)
    ensures
        tree::has_hole(lifted(node, p)) == tree::has_hole(node),
        tree::leaves(lifted(node, p)).len() == tree::leaves(node).len(),
        tree::pruned(lifted(node, p)) == lifted_if(tree::pruned(node), p),
    decreases node,
{
    if let Node::Cut { near, far, .. } = node {
        lemma_holes(*near, p);
        lemma_holes(*far, p);
    }
}

proof fn lemma_filled(node: Node, rest: Node, p: int)
    ensures
        lifted(tree::filled(node, rest), p) == tree::filled(lifted(node, p), lifted(rest, p)),
    decreases node,
{
    if let Node::Cut { near, far, .. } = node {
        lemma_holes(*near, p);
        lemma_filled(*near, rest, p);
        lemma_filled(*far, rest, p);
    }
}

/// Whether one list of sections is another with an empty one put in at `p`.
pub open spec fn with_empty(a: Seq<SectionShape>, b: Seq<SectionShape>, p: int) -> bool {
    &&& 0 <= p <= a.len()
    &&& b.len() == a.len() + 1
    &&& forall|i: int| 0 <= i < p ==> a[i] == #[trigger] b[i]
    &&& forall|i: int| p <= i < a.len() ==> #[trigger] a[i] == b[i + 1]
    &&& b[p].count == 0
}

proof fn lemma_same(a: Seq<SectionShape>, b: Seq<SectionShape>, p: int, i: usize)
    requires
        with_empty(a, b, p),
        i < a.len(),
        b.len() <= usize::MAX,
    ensures
        lift(i, p) < b.len(),
        b[lift(i, p) as int] == a[i as int],
{
    if i < p {
        assert(a[i as int] == b[i as int]);
    } else {
        assert(a[i as int] == b[i + 1]);
    }
}

proof fn lemma_plans(a: Seq<SectionShape>, b: Seq<SectionShape>, p: int, n: nat)
    requires
        with_empty(a, b, p),
        n <= a.len(),
        b.len() <= usize::MAX,
    ensures
        tree::stack_of(b, up(n as int, p) as nat) == lifted_if(tree::stack_of(a, n), p),
        tree::cuts_of(b, up(n as int, p) as nat) == lifted(tree::cuts_of(a, n), p),
        n == p ==> tree::stack_of(b, n + 1) == tree::stack_of(b, n),
        n == p ==> tree::cuts_of(b, n + 1) == tree::cuts_of(b, n),
    decreases n,
{
    if n > 0 {
        lemma_plans(a, b, p, (n - 1) as nat);
        lemma_same(a, b, p, (n - 1) as usize);
        assert(up(n as int, p) - 1 == lift((n - 1) as usize, p));
        reveal_with_fuel(lifted, 3);
        if let Some(at) = a[n - 1].at {
            lemma_inserted(
                tree::cuts_of(a, (n - 1) as nat),
                at.cuts@,
                at.share,
                (n - 1) as usize,
                p,
            );
        }
    }
}

proof fn lemma_planned(a: Seq<SectionShape>, b: Seq<SectionShape>, p: int)
    requires
        with_empty(a, b, p),
        b.len() <= usize::MAX,
    ensures
        tree::planned(b) == lifted_if(tree::planned(a), p),
{
    lemma_plans(a, b, p, a.len());
    let cuts = tree::cuts_of(a, a.len());
    let stacked = tree::stack_of(a, a.len());
    assert(tree::cuts_of(b, b.len()) == lifted(cuts, p));
    assert(tree::stack_of(b, b.len()) == lifted_if(stacked, p));
    lemma_holes(cuts, p);
    if let Some(rest) = stacked {
        lemma_filled(cuts, rest, p);
    }
    let whole = tree::joined(cuts, stacked);
    assert(tree::joined(lifted(cuts, p), lifted_if(stacked, p)) == lifted(whole, p)) by {
        reveal_with_fuel(lifted, 2);
    }
    lemma_holes(whole, p);
}

proof fn lemma_wants(
    node: Node,
    a: Seq<SectionShape>,
    b: Seq<SectionShape>,
    p: int,
    capped: nat,
)
    requires
        with_empty(a, b, p),
        b.len() <= usize::MAX,
        place::every(node, place::below(a.len())),
    ensures
        place::want_cols(lifted(node, p), b, capped) == place::want_cols(node, a, capped),
    decreases node,
{
    match node {
        Node::Cut { near, far, .. } => {
            lemma_wants(*near, a, b, p, capped);
            lemma_wants(*far, a, b, p, capped);
        },
        Node::Leaf(index) => {
            assert(place::below(a.len())(index));
            lemma_same(a, b, p, index);
        },
        Node::Empty => {},
    }
}

/// A box under the place its section has once another was put in at `p`.
pub open spec fn lifted_plot(plot: PlotView, p: int) -> PlotView {
    PlotView { section: lift(plot.section as usize, p) as int, ..plot }
}

pub open spec fn lifted_plots(plots: Seq<PlotView>, p: int) -> Seq<PlotView> {
    plots.map_values(|plot: PlotView| lifted_plot(plot, p))
}

proof fn lemma_places(
    node: Node,
    a: GroundView,
    b: GroundView,
    p: int,
    row: int,
    col: int,
    cols: int,
)
    requires
        with_empty(a.sections, b.sections, p),
        b.sections.len() <= usize::MAX,
        a.capped == b.capped,
        a.clear == b.clear,
        a.holes == b.holes,
        place::every(node, place::below(a.sections.len())),
    ensures
        place::placed(lifted(node, p), b, row, col, cols).0 == lifted_plots(
            place::placed(node, a, row, col, cols).0,
            p,
        ),
        place::placed(lifted(node, p), b, row, col, cols).1 == place::placed(
            node,
            a,
            row,
            col,
            cols,
        ).1,
    decreases node,
{
    let mine = place::placed(node, a, row, col, cols).0;
    let other = place::placed(lifted(node, p), b, row, col, cols).0;
    match node {
        Node::Empty => {},
        Node::Leaf(index) => {
            assert(place::below(a.sections.len())(index));
            lemma_same(a.sections, b.sections, p, index);
        },
        Node::Cut { axis, near, far, .. } => {
            lemma_wants(*near, a.sections, b.sections, p, a.capped);
            lemma_wants(*far, a.sections, b.sections, p, a.capped);
            match axis {
                Axis::Across => {
                    let split = place::split_of(node, a, cols);
                    assert(place::split_of(lifted(node, p), b, cols) == split);
                    lemma_places(*near, a, b, p, row, col, split);
                    lemma_places(
                        *far,
                        a,
                        b,
                        p,
                        row,
                        col + split,
                        num::larger(cols - split, 0),
                    );
                },
                Axis::Down => {
                    lemma_places(*near, a, b, p, row, col, cols);
                    let line = place::placed(*near, a, row, col, cols).1;
                    lemma_places(*far, a, b, p, place::next_row(line, a.clear as int), col, cols);
                },
            }
        },
    }
    assert(other =~= lifted_plots(mine, p));
}

proof fn lemma_passes(
    a: Seq<SectionShape>,
    b: Seq<SectionShape>,
    p: int,
    frame: Frame,
    holes: Holes,
)
    requires
        with_empty(a, b, p),
        b.len() <= usize::MAX,
        tree::planned(a) matches Some(node) ==> place::every(node, place::below(a.len())),
    ensures
        arrange::pass(b, frame, holes).0 == lifted_plots(arrange::pass(a, frame, holes).0, p),
        arrange::pass(b, frame, holes).1 == arrange::pass(a, frame, holes).1,
{
    lemma_planned(a, b, p);
    match tree::planned(a) {
        Some(node) => {
            let ground = |sections: Seq<SectionShape>|
                GroundView {
                    sections,
                    capped: frame.capped as nat,
                    clear: frame.clear as nat,
                    holes: holes.blocks(),
                };
            lemma_places(node, ground(a), ground(b), p, 0, 0, frame.cols as int);
        },
        None => {
            assert(arrange::pass(b, frame, holes).0 =~= lifted_plots(
                arrange::pass(a, frame, holes).0,
                p,
            ));
        },
    }
}

proof fn lemma_settles(
    a: Seq<SectionShape>,
    b: Seq<SectionShape>,
    p: int,
    frame: Frame,
    holes: Holes,
    passes: nat,
)
    requires
        with_empty(a, b, p),
        b.len() <= usize::MAX,
        tree::planned(a) matches Some(node) ==> place::every(node, place::below(a.len())),
    ensures
        arrange::settled(b, frame, holes, passes) == arrange::settled(a, frame, holes, passes),
    decreases passes,
{
    if passes > 0 {
        lemma_passes(a, b, p, frame, holes);
        assert(arrange::moved(a, frame, holes) == arrange::moved(b, frame, holes));
        lemma_settles(
            a,
            b,
            p,
            frame,
            arrange::moved(a, frame, holes),
            (passes - 1) as nat,
        );
    }
}

spec fn lifted_order(order: Seq<usize>, p: int) -> Seq<usize> {
    order.map_values(|index: usize| lift(index, p))
}

spec fn all_below(order: Seq<usize>, n: nat) -> bool {
    forall|i: int| 0 <= i < order.len() ==> #[trigger] order[i] < n
}

proof fn lemma_ranks(
    a: Seq<SectionShape>,
    b: Seq<SectionShape>,
    p: int,
    order: Seq<usize>,
    at: usize,
)
    requires
        with_empty(a, b, p),
        b.len() <= usize::MAX,
        all_below(order, a.len()),
    ensures
        center::rank(b, lifted_order(order, p), at) == center::rank(a, order, at),
        center::rank(a, order, at) <= order.len(),
    decreases order.len(),
{
    if order.len() > 0 {
        assert(order.last() == order[order.len() - 1]);
        lemma_same(a, b, p, order.last());
        let shorter = order.drop_last();
        assert(all_below(shorter, a.len())) by {
            assert forall|i: int| 0 <= i < shorter.len() implies #[trigger] shorter[i]
                < a.len() by {
                assert(shorter[i] == order[i]);
            }
        }
        lemma_ranks(a, b, p, shorter, at);
        assert(lifted_order(order, p).drop_last() =~= lifted_order(shorter, p));
        assert(lifted_order(order, p).last() == lift(order.last(), p));
    }
}

proof fn lemma_orders(a: Seq<SectionShape>, b: Seq<SectionShape>, p: int, n: nat)
    requires
        with_empty(a, b, p),
        n <= a.len(),
        b.len() <= usize::MAX,
    ensures
        center::center_order(b, up(n as int, p) as nat) == lifted_order(
            center::center_order(a, n),
            p,
        ),
        n == p ==> center::center_order(b, n + 1) == center::center_order(b, n),
        all_below(center::center_order(a, n), a.len()),
    decreases n,
{
    center::center_boxes_sit_in_order(a, n);
    let mine = center::center_order(a, n);
    assert(all_below(mine, a.len())) by {
        assert forall|i: int| 0 <= i < mine.len() implies #[trigger] mine[i] < a.len() by {}
    }
    let other = center::center_order(b, up(n as int, p) as nat);
    if n > 0 {
        lemma_orders(a, b, p, (n - 1) as nat);
        let before = center::center_order(a, (n - 1) as nat);
        let section = a[n - 1];
        lemma_same(a, b, p, (n - 1) as usize);
        assert(up(n as int, p) - 1 == lift((n - 1) as usize, p));
        assert(center::center_order(b, (up(n as int, p) - 1) as nat) == lifted_order(before, p));
        if center::centred(section) {
            lemma_ranks(a, b, p, before, center::seat(section));
        }
        assert(other =~= lifted_order(mine, p));
    } else {
        assert(other =~= lifted_order(mine, p));
    }
}

proof fn lemma_tallests(
    a: Seq<SectionShape>,
    b: Seq<SectionShape>,
    p: int,
    order: Seq<usize>,
    widths: Seq<usize>,
)
    requires
        with_empty(a, b, p),
        b.len() <= usize::MAX,
        all_below(order, a.len()),
    ensures
        center::tallest(b, lifted_order(order, p), widths) == center::tallest(a, order, widths),
    decreases order.len(),
{
    if order.len() > 0 {
        assert(order[order.len() - 1] < a.len());
        lemma_same(a, b, p, order[order.len() - 1]);
        let shorter = order.drop_last();
        assert(all_below(shorter, a.len())) by {
            assert forall|i: int| 0 <= i < shorter.len() implies #[trigger] shorter[i]
                < a.len() by {
                assert(shorter[i] == order[i]);
            }
        }
        lemma_tallests(a, b, p, shorter, widths);
        assert(lifted_order(order, p).drop_last() =~= lifted_order(shorter, p));
    }
}

proof fn lemma_center_plots(
    a: Seq<SectionShape>,
    b: Seq<SectionShape>,
    p: int,
    order: Seq<usize>,
    widths: Seq<usize>,
    block: Block,
    n: nat,
)
    requires
        with_empty(a, b, p),
        b.len() <= usize::MAX,
        n <= order.len(),
        all_below(order, a.len()),
    ensures
        layout::center_plots(b, lifted_order(order, p), widths, block, n) == lifted_plots(
            layout::center_plots(a, order, widths, block, n),
            p,
        ),
    decreases n,
{
    let mine = layout::center_plots(a, order, widths, block, n);
    let other = layout::center_plots(b, lifted_order(order, p), widths, block, n);
    if n > 0 {
        lemma_center_plots(a, b, p, order, widths, block, (n - 1) as nat);
        assert(order[n - 1] < a.len());
        lemma_same(a, b, p, order[n - 1]);
        assert(lifted_order(order, p)[n - 1] == lift(order[n - 1], p));
    }
    assert(other =~= lifted_plots(mine, p));
}

proof fn lemma_counts(a: Seq<SectionShape>, b: Seq<SectionShape>, p: int, n: nat)
    requires
        with_empty(a, b, p),
        n <= a.len(),
    ensures
        layout::counted(b, up(n as int, p) as nat) == layout::counted(a, n),
        n == p ==> layout::counted(b, n + 1) == layout::counted(b, n),
    decreases n,
{
    if n > 0 {
        lemma_counts(a, b, p, (n - 1) as nat);
        if n - 1 < p {
            assert(a[n - 1] == b[n - 1]);
        } else {
            assert(a[n - 1] == b[n - 1 + 1]);
        }
    }
}

/// What a section's tiles are counted from is what it was without the empty one.
proof fn lemma_counted(a: Seq<SectionShape>, b: Seq<SectionShape>, p: int, i: usize)
    requires
        with_empty(a, b, p),
        i < a.len(),
        b.len() <= usize::MAX,
    ensures
        layout::counted(b, lift(i, p) as nat) == layout::counted(a, i as nat),
{
    lemma_counts(a, b, p, i as nat);
}

proof fn lemma_frames(a: Seq<SectionShape>, b: Seq<SectionShape>, p: int, m: Metrics, work: Rect)
    requires
        with_empty(a, b, p),
        layout::measurable(a, m, work),
        layout::measurable(b, m, work),
    ensures
        b.len() <= usize::MAX,
        tree::planned(a) matches Some(node) ==> place::every(node, place::below(a.len())),
        all_below(layout::middle(a), a.len()),
        layout::middle(b) == lifted_order(layout::middle(a), p),
        layout::panel_cols(b, m, work) == layout::panel_cols(a, m, work),
        layout::halves(b, m, work) == layout::halves(a, m, work),
        layout::frame_of(b, m, work) == layout::frame_of(a, m, work),
{
    arrange::lemma_planned(a, layout::clear_rows(m));
    arrange::lemma_planned(b, layout::clear_rows(m));
    arrange::lemma_heft_count(b, layout::clear_rows(m), b.len());
    lemma_planned(a, b, p);
    lemma_orders(a, b, p, a.len());
    let order = layout::middle(a);
    assert(layout::middle(b) == lifted_order(order, p));
    assert(center::asked(b, lifted_order(order, p)) =~= center::asked(a, order)) by {
        assert forall|i: int| 0 <= i < order.len() implies center::asked(
            b,
            lifted_order(order, p),
        )[i] == #[trigger] center::asked(a, order)[i] by {
            assert(order[i] < a.len());
            lemma_same(a, b, p, order[i]);
        }
    }
    let capped = layout::capped_across(m, work) as nat;
    if let Some(node) = tree::planned(a) {
        lemma_wants(node, a, b, p, capped);
    }
    lemma_tallests(a, b, p, order, layout::halves(a, m, work));
}

proof fn lemma_sketches(a: Seq<SectionShape>, b: Seq<SectionShape>, p: int, m: Metrics, work: Rect)
    requires
        with_empty(a, b, p),
        layout::measurable(a, m, work),
        layout::measurable(b, m, work),
    ensures
        ({
            let (mine, other) = (layout::sketched(a, m, work), layout::sketched(b, m, work));
            &&& other.treed == lifted_plots(mine.treed, p)
            &&& other.halves == lifted_plots(mine.halves, p)
            &&& other.reserve == mine.reserve
            &&& other.line == mine.line
            &&& layout::panel_cols(b, m, work) == layout::panel_cols(a, m, work)
        }),
{
    lemma_frames(a, b, p, m, work);
    let frame = layout::frame_of(a, m, work);
    lemma_settles(
        a,
        b,
        p,
        frame,
        Holes { reserve: None, home: None },
        arrange::PASSES as nat,
    );
    lemma_passes(a, b, p, frame, arrange::last_holes(a, frame));
    let holes = arrange::holes_of(a, frame);
    lemma_passes(a, b, p, frame, holes);
    let order = layout::middle(a);
    match holes.reserve {
        Some(block) => {
            lemma_center_plots(a, b, p, order, layout::halves(a, m, work), block, order.len());
        },
        None => {
            assert(lifted_plots(Seq::empty(), p) =~= Seq::empty());
        },
    }
}

proof fn lemma_tiles(
    a: Seq<SectionShape>,
    b: Seq<SectionShape>,
    p: int,
    m: Metrics,
    plots: Seq<PlotView>,
    n: nat,
)
    requires
        with_empty(a, b, p),
        b.len() <= usize::MAX,
        n <= plots.len(),
        layout::all_drawable(plots, a),
    ensures
        layout::tiles_of(b, m, lifted_plots(plots, p), n) == layout::tiles_of(a, m, plots, n),
    decreases n,
{
    lemma_counts(a, b, p, a.len());
    if n > 0 {
        lemma_tiles(a, b, p, m, plots, (n - 1) as nat);
        let plot = plots[n - 1];
        assert(layout::drawable(plot, a));
        lemma_counted(a, b, p, plot.section as usize);
        let tiles = layout::tiles_of(a, m, plots, (n - 1) as nat);
        let first = layout::counted(a, plot.section as nat) as int;
        assert(layout::with_box(tiles, m, first, lifted_plot(plot, p)) =~= layout::with_box(
            tiles,
            m,
            first,
            plot,
        ));
    } else {
        assert(layout::tiles_of(b, m, lifted_plots(plots, p), n) =~= layout::tiles_of(
            a,
            m,
            plots,
            n,
        ));
    }
}

proof fn lemma_stretched(node: Node, p: int, rects: Seq<Rect>, rect: Rect)
    ensures
        stretch::stretched(lifted(node, p), rects, rect) == stretch::stretched(node, rects, rect),
    decreases node,
{
    if let Node::Cut { axis, near, far, .. } = node {
        lemma_holes(*near, p);
        let k = tree::leaves(*near).len() as int;
        let edge = stretch::cut_edge(node, rects);
        assert(stretch::cut_edge(lifted(node, p), rects) == edge);
        lemma_stretched(*near, p, rects.take(k), stretch::before(axis, rect, edge));
        lemma_stretched(*far, p, rects.skip(k), stretch::after(axis, rect, edge));
    }
}

/// A band under the place its section has once another was put in at `p`.
pub open spec fn lifted_band(band: BandView, p: int) -> BandView {
    BandView { section: lift(band.section, p), ..band }
}

/// A section with nothing in it contributes nothing, wherever in the list it
/// stands: the panel has the same columns, the same place on the screen and the
/// same tiles as without it, and the same bands, each still naming the section
/// it came from.
pub proof fn an_empty_section_moves_nothing(
    mine: Layout,
    other: Layout,
    a: Seq<SectionShape>,
    b: Seq<SectionShape>,
    p: int,
    m: Metrics,
    work: Rect,
)
    requires
        with_empty(a, b, p),
        layout::measurable(a, m, work),
        layout::measurable(b, m, work),
        mine.lays_out(a, m, work),
        other.lays_out(b, m, work),
    ensures
        other.cols == mine.cols,
        other.panel == mine.panel,
        other.content_h == mine.content_h,
        other.max_scroll == mine.max_scroll,
        other.tiles@ == mine.tiles@,
        layout::band_views(other.bands@) == layout::band_views(mine.bands@).map_values(
            |band: BandView| lifted_band(band, p),
        ),
{
    lemma_frames(a, b, p, m, work);
    lemma_sketches(a, b, p, m, work);
    shape::every_section_with_tiles_has_one_box(a, m, work);
    let sketch = layout::sketched(a, m, work);
    let plots = sketch.plots();
    let lifted_sketch = layout::sketched(b, m, work);
    assert(lifted_sketch.plots() =~= lifted_plots(plots, p));
    lemma_tiles(a, b, p, m, plots, plots.len());
    lemma_bands(a, b, p, m, work);
}

proof fn lemma_bands(a: Seq<SectionShape>, b: Seq<SectionShape>, p: int, m: Metrics, work: Rect)
    requires
        with_empty(a, b, p),
        layout::measurable(a, m, work),
        layout::measurable(b, m, work),
    ensures
        layout::bands_of(b, m, work) == layout::bands_of(a, m, work).map_values(
            |band: BandView| lifted_band(band, p),
        ),
{
    lemma_frames(a, b, p, m, work);
    lemma_sketches(a, b, p, m, work);
    lemma_planned(a, b, p);
    shape::every_section_with_tiles_has_one_box(a, m, work);
    let (mine, other) = (layout::sketched(a, m, work), layout::sketched(b, m, work));
    let whole = layout::tree_rect(a, m, work);
    assert(layout::tree_rect(b, m, work) == whole);
    let rects = layout::box_rects(m, mine.treed);
    assert(layout::box_rects(m, other.treed) =~= rects);
    if let Some(node) = tree::planned(a) {
        lemma_stretched(node, p, rects, whole);
    }
    assert(layout::grown_rects(b, m, work) == layout::grown_rects(a, m, work));
    let (x, y) = (layout::bands_of(a, m, work), layout::bands_of(b, m, work));
    let plots = mine.plots();
    assert(y =~= x.map_values(|band: BandView| lifted_band(band, p))) by {
        assert forall|i: int| 0 <= i < plots.len() implies #[trigger] y[i] == lifted_band(
            x[i],
            p,
        ) by {
            let plot = plots[i];
            assert(layout::drawable(plot, a));
            lemma_counted(a, b, p, plot.section as usize);
            lemma_same(a, b, p, plot.section as usize);
            if i < mine.treed.len() {
                assert(plot == mine.treed[i]);
                assert(other.treed[i] == lifted_plot(plot, p));
            } else {
                assert(plot == mine.halves[i - mine.treed.len()]);
                assert(other.halves[i - mine.treed.len()] == lifted_plot(plot, p));
            }
        }
    }
}

/// A list of sections without its empty ones.
pub open spec fn thinned(sections: Seq<SectionShape>) -> Seq<SectionShape>
    decreases sections.len(),
{
    if sections.len() == 0 {
        Seq::empty()
    } else if sections.last().count == 0 {
        thinned(sections.drop_last())
    } else {
        thinned(sections.drop_last()).push(sections.last())
    }
}

/// Everything about a panel that a click or a glance depends on: its columns,
/// where it is, how tall its content is and where its tiles are.
#[verifier::opaque]
pub open spec fn same_panel(
    a: Seq<SectionShape>,
    b: Seq<SectionShape>,
    m: Metrics,
    work: Rect,
) -> bool {
    let (mine, other) = (layout::sketched(a, m, work), layout::sketched(b, m, work));
    &&& layout::panel_cols(a, m, work) == layout::panel_cols(b, m, work)
    &&& layout::panel_rect(a, m, work) == layout::panel_rect(b, m, work)
    &&& layout::panel_height(a, m, work) == layout::panel_height(b, m, work)
    &&& mine.content_height(m) == other.content_height(m)
    &&& mine.plots().len() == other.plots().len()
    &&& layout::tiles_of(a, m, mine.plots(), mine.plots().len()) == layout::tiles_of(
        b,
        m,
        other.plots(),
        other.plots().len(),
    )
}

proof fn lemma_one_fewer(
    a: Seq<SectionShape>,
    b: Seq<SectionShape>,
    p: int,
    m: Metrics,
    work: Rect,
)
    requires
        with_empty(a, b, p),
        layout::measurable(a, m, work),
        layout::measurable(b, m, work),
    ensures
        same_panel(a, b, m, work),
{
    reveal(same_panel);
    lemma_frames(a, b, p, m, work);
    lemma_sketches(a, b, p, m, work);
    shape::every_section_with_tiles_has_one_box(a, m, work);
    let plots = layout::sketched(a, m, work).plots();
    assert(layout::sketched(b, m, work).plots() =~= lifted_plots(plots, p));
    lemma_tiles(a, b, p, m, plots, plots.len());
}

proof fn lemma_alike(a: Seq<SectionShape>, b: Seq<SectionShape>, m: Metrics, work: Rect)
    requires
        steady::extends(a, b),
        layout::measurable(a, m, work),
        layout::measurable(b, m, work),
    ensures
        same_panel(a, b, m, work),
{
    reveal(same_panel);
    steady::lemma_same_panel(a, b, m, work);
}

proof fn lemma_chain(
    a: Seq<SectionShape>,
    b: Seq<SectionShape>,
    c: Seq<SectionShape>,
    m: Metrics,
    work: Rect,
)
    requires
        same_panel(a, b, m, work),
        same_panel(b, c, m, work),
    ensures
        same_panel(a, c, m, work),
        same_panel(b, a, m, work),
{
    reveal(same_panel);
}

proof fn lemma_laid_alike(
    mine: Layout,
    other: Layout,
    a: Seq<SectionShape>,
    b: Seq<SectionShape>,
    m: Metrics,
    work: Rect,
)
    requires
        same_panel(a, b, m, work),
        mine.lays_out(a, m, work),
        other.lays_out(b, m, work),
    ensures
        other.cols == mine.cols,
        other.panel == mine.panel,
        other.content_h == mine.content_h,
        other.max_scroll == mine.max_scroll,
        other.tiles@ == mine.tiles@,
        other.bands@.len() == mine.bands@.len(),
{
    reveal(same_panel);
    assert(layout::band_views(mine.bands@).len() == mine.bands@.len());
    assert(layout::band_views(other.bands@).len() == other.bands@.len());
}

proof fn lemma_lighter(s: Seq<SectionShape>, p: int, clear: nat, n: nat)
    requires
        0 <= p < s.len(),
        n < s.len(),
    ensures
        n <= p ==> arrange::heft(s.remove(p), clear, n) == arrange::heft(s, clear, n),
        n >= p ==> arrange::heft(s.remove(p), clear, n) <= arrange::heft(s, clear, n + 1),
    decreases n,
{
    if n > 0 {
        lemma_lighter(s, p, clear, (n - 1) as nat);
    }
}

proof fn lemma_removed(s: Seq<SectionShape>, p: int)
    requires
        0 <= p < s.len(),
        s[p].count == 0,
    ensures
        thinned(s.remove(p)) == thinned(s),
    decreases s.len(),
{
    if p < s.len() - 1 {
        let shorter = s.drop_last();
        assert(shorter[p] == s[p]);
        lemma_removed(shorter, p);
        assert(s.remove(p).drop_last() =~= shorter.remove(p));
        assert(s.remove(p).last() == s.last());
    } else {
        assert(s.remove(p) =~= s.drop_last());
    }
}

proof fn lemma_full(s: Seq<SectionShape>)
    requires
        forall|i: int| 0 <= i < s.len() ==> (#[trigger] s[i]).count > 0,
    ensures
        thinned(s) == s,
    decreases s.len(),
{
    if s.len() > 0 {
        assert(s.last() == s[s.len() - 1]);
        assert forall|i: int| 0 <= i < s.drop_last().len() implies (#[trigger] s.drop_last()[i]).count
            > 0 by {
            assert(s.drop_last()[i] == s[i]);
        }
        lemma_full(s.drop_last());
        assert(thinned(s) =~= s);
    } else {
        assert(thinned(s) =~= s);
    }
}

proof fn lemma_thinned(s: Seq<SectionShape>, m: Metrics, work: Rect)
    requires
        layout::measurable(s, m, work),
    ensures
        layout::measurable(thinned(s), m, work),
        same_panel(thinned(s), s, m, work),
    decreases s.len(),
{
    if exists|p: int| 0 <= p < s.len() && (#[trigger] s[p]).count == 0 {
        let p = choose|p: int| 0 <= p < s.len() && (#[trigger] s[p]).count == 0;
        let fewer = s.remove(p);
        lemma_removed(s, p);
        lemma_lighter(s, p, layout::clear_rows(m), (s.len() - 1) as nat);
        assert(with_empty(fewer, s, p));
        lemma_one_fewer(fewer, s, p, m, work);
        lemma_thinned(fewer, m, work);
        lemma_chain(thinned(s), fewer, s, m, work);
    } else {
        lemma_full(s);
        lemma_alike(s, s, m, work);
    }
}

/// Titles cost no layout and empty sections contribute nothing: two panels whose
/// sections, the empty ones left out, differ in nothing but their titles have
/// the same columns, the same place on the screen, the same height of content
/// and the same tiles, however many empty sections either has and wherever they
/// stand.
pub proof fn titles_and_empty_sections_anywhere_move_nothing(
    mine: Layout,
    other: Layout,
    a: Seq<SectionShape>,
    b: Seq<SectionShape>,
    m: Metrics,
    work: Rect,
)
    requires
        thinned(a).len() == thinned(b).len(),
        forall|i: int|
            0 <= i < thinned(a).len() ==> steady::alike(#[trigger] thinned(a)[i], thinned(b)[i]),
        layout::measurable(a, m, work),
        layout::measurable(b, m, work),
        mine.lays_out(a, m, work),
        other.lays_out(b, m, work),
    ensures
        other.cols == mine.cols,
        other.panel == mine.panel,
        other.content_h == mine.content_h,
        other.max_scroll == mine.max_scroll,
        other.tiles@ == mine.tiles@,
        other.bands@.len() == mine.bands@.len(),
{
    lemma_thinned(a, m, work);
    lemma_thinned(b, m, work);
    lemma_alike(thinned(a), thinned(b), m, work);
    lemma_alike(a, a, m, work);
    lemma_chain(thinned(a), a, a, m, work);
    lemma_chain(a, thinned(a), thinned(b), m, work);
    lemma_chain(a, thinned(b), b, m, work);
    lemma_laid_alike(mine, other, a, b, m, work);
}

} // verus!
