//! What holds of every panel that is laid out.

use vstd::prelude::*;
use crate::arrange;
use crate::arrange::{Frame, Holes};
use crate::at::WHOLE;
use crate::cells;
use crate::cells::{Block, PlotView};
use crate::center;
use crate::geometry::{Metrics, Rect, CELLS, REACH};
use crate::lattice;
use crate::layout;
use crate::layout::Layout;
use crate::num;
use crate::place;
use crate::place::GroundView;
use crate::query;
use crate::section::SectionShape;
use crate::tree;
use crate::tree::Node;

verus! {

pub proof fn lemma_want_bounded(node: Node, sections: Seq<SectionShape>, capped: nat)
    requires
        place::every(node, place::below(sections.len())),
    ensures
        place::want_cols(node, sections, capped) <= tree::total(node, place::appetite(sections)),
    decreases node,
{
    match node {
        Node::Cut { near, far, .. } => {
            lemma_want_bounded(*near, sections, capped);
            lemma_want_bounded(*far, sections, capped);
        },
        Node::Leaf(index) => {
            assert(tree::total(node, place::appetite(sections)) == place::appetite(sections)(
                index,
            ));
        },
        Node::Empty => {},
    }
}

pub proof fn lemma_fits(m: Metrics, work: Rect)
    requires
        m.wf(),
        0 <= work.w <= REACH,
        0 <= work.h <= REACH,
        work.w * m.max_fraction / WHOLE as int <= REACH,
        work.h * m.max_fraction / WHOLE as int <= REACH,
    ensures
        1 <= layout::fits_across(m, work) <= 2 * REACH,
        1 <= layout::capped_across(m, work) <= 2 * REACH,
        0 <= layout::rows_down(m, work) <= 4 * REACH,
{
    let room = num::larger(
        layout::max_width(m, work) - 2 * m.padding + m.gap,
        m.tile_w as int,
    );
    let step = m.step_x();
    if layout::max_width(m, work) == m.tile_w + 2 * m.padding {
        assert(room == step);
        assert(room / step == 1) by (nonlinear_arith)
            requires
                room == step,
                step >= 1,
        ;
    }
    assert(0 <= room / step <= room) by (nonlinear_arith)
        requires
            0 <= room,
            1 <= step,
    ;
    let (tall, down) = (
        layout::max_height(m, work) - m.search_h - 2 * m.padding + m.gap,
        m.step_y(),
    );
    if tall >= 0 {
        assert(0 <= tall / down <= tall) by (nonlinear_arith)
            requires
                0 <= tall,
                1 <= down,
        ;
    } else {
        assert(tall / down <= 0) by (nonlinear_arith)
            requires
                tall < 0,
                1 <= down,
        ;
    }
}

/// What the frame of every panel comes to.
pub proof fn lemma_frame(sections: Seq<SectionShape>, m: Metrics, work: Rect)
    requires
        layout::measurable(sections, m, work),
    ensures
        ({
            let frame = layout::frame_of(sections, m, work);
            let order = layout::middle(sections);
            let widths = layout::halves(sections, m, work);
            &&& arrange::frame_fits(frame)
            &&& frame.cols == layout::panel_cols(sections, m, work)
            &&& frame.cols >= 1
            &&& frame.clear == layout::clear_rows(m)
            &&& frame.capped == layout::capped_across(m, work)
            &&& frame.down == layout::rows_down(m, work)
            &&& frame.across == center::sum(widths)
            &&& frame.across == layout::center_room(sections, m, work)
            &&& frame.rows == center::tallest(sections, order, widths)
            &&& frame.across <= frame.cols
            &&& widths.len() == order.len()
            &&& forall|i: int| 0 <= i < widths.len() ==> #[trigger] widths[i] >= 1
        }),
{
    let clear = layout::clear_rows(m);
    let order = layout::middle(sections);
    arrange::lemma_planned(sections, clear);
    arrange::lemma_asked_bounded(sections, clear, sections.len());
    center::center_boxes_sit_in_order(sections, sections.len());
    lemma_fits(m, work);
    layout::lemma_clear(m);
    let asked = center::asked(sections, order);
    center::lemma_sum_at_least(asked);
    if let Some(node) = tree::planned(sections) {
        lemma_want_bounded(node, sections, layout::capped_across(m, work) as nat);
    }
    let cols = layout::panel_cols(sections, m, work);
    center::center_widths_fit_the_budget(asked, cols as nat);
    layout::lemma_tallest_bounded(sections, clear, order, layout::halves(sections, m, work));
}

pub proof fn lemma_settled_fit(
    sections: Seq<SectionShape>,
    frame: Frame,
    holes: Holes,
    passes: nat,
)
    requires
        arrange::fits_in_room(sections, frame.clear as nat),
        arrange::frame_fits(frame),
        arrange::holes_fit(frame, holes),
    ensures
        arrange::holes_fit(frame, arrange::settled(sections, frame, holes, passes)),
        passes > 0 ==> (arrange::settled(sections, frame, holes, passes).reserve is Some
            <==> frame.across > 0 && frame.rows > 0),
    decreases passes,
{
    if passes > 0 {
        arrange::lemma_pass_bounded(sections, frame, holes);
        let next = arrange::moved(sections, frame, holes);
        lemma_settled_fit(sections, frame, next, (passes - 1) as nat);
    }
}

/// What the lattice of every panel comes to.
pub proof fn lemma_sketch(sections: Seq<SectionShape>, m: Metrics, work: Rect)
    requires
        layout::measurable(sections, m, work),
    ensures
        ({
            let frame = layout::frame_of(sections, m, work);
            let holes = arrange::holes_of(sections, frame);
            let sketch = layout::sketched(sections, m, work);
            &&& arrange::holes_fit(frame, holes)
            &&& sketch.reserve == holes.reserve
            &&& sketch.reserve is Some <==> frame.across > 0 && frame.rows > 0
            &&& layout::all_drawable(sketch.treed, sections)
        }),
{
    let frame = layout::frame_of(sections, m, work);
    lemma_frame(sections, m, work);
    lemma_settled_fit(
        sections,
        frame,
        Holes { reserve: None, home: None },
        arrange::PASSES as nat,
    );
    layout::lemma_treed_drawable(sections, frame, arrange::holes_of(sections, frame));
}

/// The centre block never takes more columns than the panel has, so a panel too
/// narrow for it keeps every half rather than letting one hang off the side.
pub proof fn the_centre_fits_the_panel(sections: Seq<SectionShape>, m: Metrics, work: Rect)
    requires
        layout::measurable(sections, m, work),
        layout::sketched(sections, m, work).reserve is Some,
    ensures
        ({
            let block = layout::sketched(sections, m, work).reserve->0;
            let cols = layout::panel_cols(sections, m, work);
            &&& block.col + block.cols <= cols
            &&& block.rows == center::tallest(
                sections,
                layout::middle(sections),
                layout::halves(sections, m, work),
            )
            &&& block.cols == center::sum(layout::halves(sections, m, work))
        }),
{
    lemma_frame(sections, m, work);
    lemma_settled_middle(
        sections,
        layout::frame_of(sections, m, work),
        Holes { reserve: None, home: None },
        arrange::PASSES as nat,
    );
}

/// The columns either side of the centre block, of a panel whose holes have
/// settled.
pub open spec fn in_the_middle(frame: Frame, block: Block) -> bool {
    &&& block.cols == frame.across
    &&& block.rows == frame.rows
    &&& block.col == (frame.cols - frame.across) / 2
}

pub proof fn lemma_settled_middle(
    sections: Seq<SectionShape>,
    frame: Frame,
    holes: Holes,
    passes: nat,
)
    requires
        frame.across <= frame.cols,
        holes.reserve matches Some(block) ==> in_the_middle(frame, block),
    ensures
        arrange::settled(sections, frame, holes, passes).reserve matches Some(block)
            ==> in_the_middle(frame, block),
    decreases passes,
{
    if passes > 0 {
        lemma_settled_middle(
            sections,
            frame,
            arrange::moved(sections, frame, holes),
            (passes - 1) as nat,
        );
    }
}

/// The centre block has as many columns on its left as on its right, and one
/// more on the right only where the width of the panel was fixed.
pub proof fn the_centre_holds_the_middle(sections: Seq<SectionShape>, m: Metrics, work: Rect)
    requires
        layout::measurable(sections, m, work),
        layout::sketched(sections, m, work).reserve is Some,
    ensures
        ({
            let block = layout::sketched(sections, m, work).reserve->0;
            let spare = layout::panel_cols(sections, m, work) - block.col - block.cols;
            spare == block.col || m.fixed_cols > 0 && spare == block.col + 1
        }),
{
    lemma_frame(sections, m, work);
    lemma_sketch(sections, m, work);
    lemma_settled_middle(
        sections,
        layout::frame_of(sections, m, work),
        Holes { reserve: None, home: None },
        arrange::PASSES as nat,
    );
}

pub proof fn lemma_boxed(node: Node, index: usize, i: int)
    requires
        0 <= i < tree::leaves(node).len(),
        tree::leaves(node)[i] == index,
    ensures
        tree::boxes_of(node, index) >= 1,
    decreases node,
{
    match node {
        Node::Cut { near, far, .. } => {
            let k = tree::leaves(*near).len();
            assert(tree::boxes_of(node, index) == tree::boxes_of(*near, index) + tree::boxes_of(
                *far,
                index,
            ));
            if i < k {
                assert(tree::leaves(*near)[i] == index);
                lemma_boxed(*near, index, i);
            } else {
                assert(tree::leaves(*far)[i - k] == index);
                lemma_boxed(*far, index, i - k);
            }
        },
        _ => {},
    }
}

pub proof fn lemma_unboxed(node: Node, index: usize)
    requires
        tree::boxes_of(node, index) >= 1,
    ensures
        exists|i: int| 0 <= i < tree::leaves(node).len() && #[trigger] tree::leaves(node)[i] == index,
    decreases node,
{
    match node {
        Node::Cut { near, far, .. } => {
            assert(tree::boxes_of(node, index) == tree::boxes_of(*near, index) + tree::boxes_of(
                *far,
                index,
            ));
            let k = tree::leaves(*near).len();
            if tree::boxes_of(*near, index) >= 1 {
                lemma_unboxed(*near, index);
                let i = choose|i: int|
                    0 <= i < tree::leaves(*near).len() && #[trigger] tree::leaves(*near)[i]
                        == index;
                assert(tree::leaves(node)[i] == index);
            } else {
                lemma_unboxed(*far, index);
                let i = choose|i: int|
                    0 <= i < tree::leaves(*far).len() && #[trigger] tree::leaves(*far)[i] == index;
                assert(tree::leaves(node)[k + i] == index);
            }
        },
        Node::Leaf(leaf) => {
            assert(tree::leaves(node)[0] == leaf);
        },
        Node::Empty => {},
    }
}

pub proof fn lemma_boxed_twice(node: Node, i: int, j: int)
    requires
        0 <= i < j < tree::leaves(node).len(),
        tree::leaves(node)[i] == tree::leaves(node)[j],
    ensures
        tree::boxes_of(node, tree::leaves(node)[i]) >= 2,
    decreases node,
{
    let index = tree::leaves(node)[i];
    if let Node::Cut { near, far, .. } = node {
        let k = tree::leaves(*near).len();
        assert(tree::boxes_of(node, index) == tree::boxes_of(*near, index) + tree::boxes_of(
            *far,
            index,
        ));
        if j < k {
            assert(tree::leaves(*near)[i] == tree::leaves(*near)[j]);
            lemma_boxed_twice(*near, i, j);
        } else if i >= k {
            assert(tree::leaves(*far)[i - k] == tree::leaves(*far)[j - k]);
            lemma_boxed_twice(*far, i - k, j - k);
        } else {
            assert(tree::leaves(*near)[i] == index && tree::leaves(*far)[j - k] == index);
            lemma_boxed(*near, index, i);
            lemma_boxed(*far, index, j - k);
        }
    }
}

pub proof fn lemma_center_plot(
    sections: Seq<SectionShape>,
    order: Seq<usize>,
    widths: Seq<usize>,
    block: Block,
    n: nat,
    i: int,
)
    requires
        0 <= i < n,
    ensures
        layout::center_plots(sections, order, widths, block, n).len() == n,
        layout::center_plots(sections, order, widths, block, n)[i] == cells::laid(
            Seq::empty(),
            order[i] as int,
            sections[order[i] as int].count as nat,
            block.row as int,
            block.col + center::sum(widths.take(i)),
            num::larger(widths[i] as int, 1),
        ),
    decreases n,
{
    let before = layout::center_plots(sections, order, widths, block, (n - 1) as nat);
    if i < n - 1 {
        lemma_center_plot(sections, order, widths, block, (n - 1) as nat, i);
        assert(layout::center_plots(sections, order, widths, block, n)[i] == before[i]);
    } else if n > 1 {
        lemma_center_plot(sections, order, widths, block, (n - 1) as nat, 0);
    }
}

/// A half of the centre block, laid out in its own columns of it.
pub open spec fn is_half(
    sections: Seq<SectionShape>,
    order: Seq<usize>,
    widths: Seq<usize>,
    block: Block,
    plot: PlotView,
    i: int,
) -> bool {
    &&& order[i] < sections.len()
    &&& center::centred(sections[order[i] as int])
    &&& widths[i] >= 1
    &&& center::sum(widths.take(i)) + widths[i] <= block.cols
    &&& num::over(sections[order[i] as int].count as nat, widths[i] as nat) <= block.rows
    &&& plot == cells::laid(
        Seq::empty(),
        order[i] as int,
        sections[order[i] as int].count as nat,
        block.row as int,
        block.col + center::sum(widths.take(i)),
        widths[i] as int,
    )
}

/// The halves of the centre block, each laid out in its own columns of it.
pub proof fn lemma_halves(sections: Seq<SectionShape>, m: Metrics, work: Rect)
    requires
        layout::measurable(sections, m, work),
    ensures
        ({
            let sketch = layout::sketched(sections, m, work);
            let order = layout::middle(sections);
            let widths = layout::halves(sections, m, work);
            &&& sketch.halves.len() == order.len()
            &&& sketch.reserve is Some <==> order.len() > 0
            &&& layout::all_drawable(sketch.halves, sections)
            &&& forall|i: int|
                0 <= i < order.len() ==> is_half(
                    sections,
                    order,
                    widths,
                    sketch.reserve->0,
                    #[trigger] sketch.halves[i],
                    i,
                )
        }),
{
    let sketch = layout::sketched(sections, m, work);
    let order = layout::middle(sections);
    let widths = layout::halves(sections, m, work);
    let frame = layout::frame_of(sections, m, work);
    lemma_frame(sections, m, work);
    lemma_sketch(sections, m, work);
    arrange::lemma_planned(sections, layout::clear_rows(m));
    center::center_boxes_sit_in_order(sections, sections.len());
    if order.len() == 0 {
        assert(center::sum(widths) == 0);
        assert(sketch.reserve is None);
        assert(sketch.halves.len() == 0);
    } else {
        center::lemma_sum_at_least(widths);
        lemma_tallest(sections, order, widths, 0);
        let (n, d) = (
            sections[order[0] as int].count as int,
            num::larger(widths[0] as int, 1),
        );
        assert((n + d - 1) / d >= 1) by (nonlinear_arith)
            requires
                n >= 1,
                d >= 1,
        ;
        let block = sketch.reserve->0;
        the_centre_fits_the_panel(sections, m, work);
        lemma_center_plot(sections, order, widths, block, order.len(), 0);
        assert forall|i: int| 0 <= i < order.len() implies is_half(
            sections,
            order,
            widths,
            block,
            #[trigger] sketch.halves[i],
            i,
        ) && layout::drawable(sketch.halves[i], sections) by {
            lemma_center_plot(sections, order, widths, block, order.len(), i);
            center::lemma_sum_take(widths, i + 1);
            assert(widths.take(i + 1).drop_last() =~= widths.take(i));
            assert(widths.take(i + 1).last() == widths[i]);
            lemma_tallest(sections, order, widths, i);
            assert(center::centred(sections[order[i] as int]));
            layout::lemma_half_drawable(
                sections,
                layout::clear_rows(m),
                order[i] as int,
                block.row as int,
                block.col + center::sum(widths.take(i)),
                widths[i] as int,
            );
        }
    }
}

pub proof fn lemma_tallest(
    sections: Seq<SectionShape>,
    order: Seq<usize>,
    widths: Seq<usize>,
    i: int,
)
    requires
        0 <= i < order.len(),
    ensures
        center::over_width(sections[order[i] as int].count, widths[i]) <= center::tallest(
            sections,
            order,
            widths,
        ),
    decreases order.len(),
{
    if i < order.len() - 1 {
        assert(order.drop_last()[i] == order[i]);
        lemma_tallest(sections, order.drop_last(), widths, i);
    }
}

/// Every box of a panel belongs to a section of its own, which has tiles to
/// show, and every section with tiles to show has a box.
pub proof fn every_section_with_tiles_has_one_box(
    sections: Seq<SectionShape>,
    m: Metrics,
    work: Rect,
)
    requires
        layout::measurable(sections, m, work),
    ensures
        ({
            let sketch = layout::sketched(sections, m, work);
            let plots = sketch.plots();
            &&& layout::all_drawable(plots, sections)
            &&& forall|i: int|
                0 <= i < plots.len() ==> sections[(#[trigger] plots[i]).section].count > 0
            &&& forall|i: int|
                0 <= i < plots.len() ==> (sections[(#[trigger] plots[i]).section].center is Some
                    <==> i >= sketch.treed.len())
            &&& forall|i: int, j: int|
                0 <= i < j < plots.len() ==> (#[trigger] plots[i]).section != (
                #[trigger] plots[j]).section
            &&& forall|k: int|
                0 <= k < sections.len() && (#[trigger] sections[k]).count > 0 ==> exists|i: int|
                    0 <= i < plots.len() && (#[trigger] plots[i]).section == k
        }),
{
    let sketch = layout::sketched(sections, m, work);
    let plots = sketch.plots();
    let order = layout::middle(sections);
    let frame = layout::frame_of(sections, m, work);
    let holes = arrange::holes_of(sections, frame);
    let k = sketch.treed.len();
    lemma_frame(sections, m, work);
    lemma_sketch(sections, m, work);
    lemma_halves(sections, m, work);
    arrange::lemma_planned(sections, layout::clear_rows(m));
    layout::lemma_treed_drawable(sections, frame, holes);
    center::center_boxes_sit_in_order(sections, sections.len());
    assert forall|i: int| 0 <= i < plots.len() implies {
        let section = sections[(#[trigger] plots[i]).section];
        &&& layout::drawable(plots[i], sections)
        &&& section.count > 0
        &&& (section.center is Some <==> i >= k)
    } by {
        if i < k {
            assert(plots[i] == sketch.treed[i]);
            let node = tree::planned(sections)->0;
            let index = tree::leaves(node)[i];
            lemma_boxed(node, index, i);
            tree::plan_gives_every_section_one_box(sections, index);
        } else {
            assert(plots[i] == sketch.halves[i - k]);
        }
    }
    assert forall|i: int, j: int| 0 <= i < j < plots.len() implies (#[trigger] plots[i]).section
        != (#[trigger] plots[j]).section by {
        if j < k {
            assert(plots[i] == sketch.treed[i] && plots[j] == sketch.treed[j]);
            let node = tree::planned(sections)->0;
            if tree::leaves(node)[i] == tree::leaves(node)[j] {
                lemma_boxed_twice(node, i, j);
                tree::plan_gives_every_section_one_box(sections, tree::leaves(node)[i]);
            }
        } else if i >= k {
            assert(plots[i] == sketch.halves[i - k] && plots[j] == sketch.halves[j - k]);
            assert(center::sits_before(sections, order[i - k], order[j - k]));
        }
    }
    assert forall|s: int| 0 <= s < sections.len() && (
    #[trigger] sections[s]).count > 0 implies exists|i: int|
        0 <= i < plots.len() && (#[trigger] plots[i]).section == s by {
        if sections[s].center is Some {
            assert(center::centred(sections[s]));
            assert(order.contains(s as usize));
            let i = choose|i: int| 0 <= i < order.len() && order[i] == s as usize;
            assert(plots[k + i] == sketch.halves[i]);
        } else {
            tree::plan_gives_every_section_one_box(sections, s as usize);
            let node = tree::planned(sections)->0;
            lemma_unboxed(node, s as usize);
            let i = choose|i: int|
                0 <= i < tree::leaves(node).len() && #[trigger] tree::leaves(node)[i]
                    == s as usize;
            assert(plots[i] == sketch.treed[i]);
        }
    }
}

pub proof fn lemma_counted_apart(sections: Seq<SectionShape>, a: nat, b: nat)
    requires
        a < b <= sections.len(),
    ensures
        layout::counted(sections, a) + sections[a as int].count <= layout::counted(sections, b),
{
    layout::lemma_counted_bounds(sections, 0, a, b);
}

/// Whether no two of a run of boxes belong to one section.
pub open spec fn sections_differ(plots: Seq<PlotView>) -> bool {
    forall|i: int, j: int|
        0 <= i < j < plots.len() ==> (#[trigger] plots[i]).section != (#[trigger] plots[j]).section
}

/// The place in the list of tiles a box's `j`th tile has.
pub open spec fn place_of(sections: Seq<SectionShape>, plot: PlotView, j: int) -> int {
    layout::counted(sections, plot.section as nat) + j
}

pub proof fn lemma_tiles_len(sections: Seq<SectionShape>, m: Metrics, plots: Seq<PlotView>, n: nat)
    ensures
        layout::tiles_of(sections, m, plots, n).len() == layout::counted(
            sections,
            sections.len(),
        ),
    decreases n,
{
    if n > 0 {
        lemma_tiles_len(sections, m, plots, (n - 1) as nat);
    }
}

/// A tile keeps the rectangle its own box gave it, and one its box never placed
/// stays blank.
pub proof fn lemma_drawn(
    sections: Seq<SectionShape>,
    m: Metrics,
    plots: Seq<PlotView>,
    n: nat,
    i: int,
    j: int,
)
    requires
        layout::all_drawable(plots, sections),
        sections_differ(plots),
        0 <= i < plots.len(),
        n <= plots.len(),
        0 <= j < sections[plots[i].section].count,
    ensures
        0 <= place_of(sections, plots[i], j) < layout::tiles_of(sections, m, plots, n).len(),
        layout::tiles_of(sections, m, plots, n)[place_of(sections, plots[i], j)] == (if i < n && j
            < plots[i].slots.len() {
            layout::tile_of(m, plots[i], j)
        } else {
            Rect::spec_blank()
        }),
    decreases n,
{
    lemma_tiles_len(sections, m, plots, n);
    assert(layout::drawable(plots[i], sections));
    let own = plots[i].section as nat;
    lemma_counted_apart(sections, own, sections.len());
    if n > 0 {
        lemma_drawn(sections, m, plots, (n - 1) as nat, i, j);
        let last = plots[n - 1];
        assert(layout::drawable(last, sections));
        if i != n - 1 {
            assert(last.section != plots[i].section) by {
                if i < n - 1 {
                    assert(plots[i].section != plots[n - 1].section);
                } else {
                    assert(plots[n - 1].section != plots[i].section);
                }
            }
            if own < last.section {
                lemma_counted_apart(sections, own, last.section as nat);
            } else {
                lemma_counted_apart(sections, last.section as nat, own);
            }
        }
    }
}

/// Where a tile's rectangle came from.
pub open spec fn drawn_by(
    sections: Seq<SectionShape>,
    m: Metrics,
    plots: Seq<PlotView>,
    tile: Rect,
    t: int,
    i: int,
    j: int,
) -> bool {
    &&& 0 <= i < plots.len()
    &&& 0 <= j < plots[i].slots.len()
    &&& t == place_of(sections, plots[i], j)
    &&& tile == layout::tile_of(m, plots[i], j)
}

pub proof fn lemma_source(
    sections: Seq<SectionShape>,
    m: Metrics,
    plots: Seq<PlotView>,
    n: nat,
    t: int,
)
    requires
        n <= plots.len(),
        0 <= t < layout::tiles_of(sections, m, plots, n).len(),
    ensures
        ({
            let tile = layout::tiles_of(sections, m, plots, n)[t];
            tile == Rect::spec_blank() || exists|i: int, j: int|
                drawn_by(sections, m, plots, tile, t, i, j)
        }),
    decreases n,
{
    if n > 0 {
        let plot = plots[n - 1];
        let first = layout::counted(sections, plot.section as nat) as int;
        let tile = layout::tiles_of(sections, m, plots, n)[t];
        if first <= t < first + plot.slots.len() {
            assert(drawn_by(sections, m, plots, tile, t, n - 1, t - first));
        } else {
            lemma_source(sections, m, plots, (n - 1) as nat, t);
            assert(tile == layout::tiles_of(sections, m, plots, (n - 1) as nat)[t]);
        }
    }
}

/// Whether a tile stands on a cell of the lattice, and is a whole one.
pub open spec fn on_cell(m: Metrics, tile: Rect, row: int, col: int) -> bool {
    &&& 0 <= row < CELLS
    &&& 0 <= col < CELLS
    &&& tile.x == m.x_at(col)
    &&& tile.y == m.y_at(row)
    &&& tile.w == m.tile_w
    &&& tile.h == m.tile_h
}

/// A tile drawn on a cell stands on it.
pub proof fn lemma_on_cell(m: Metrics, row: int, col: int)
    requires
        m.wf(),
        0 <= row < CELLS,
        0 <= col < CELLS,
    ensures
        on_cell(m, m.tile_at(row, col), row, col),
{
    query::lemma_lattice(m, row);
    query::lemma_lattice(m, col);
}

/// Every tile is the same size and stands on a whole row and column of one
/// lattice, whichever box it is in. One that found no cell is blank.
pub proof fn every_tile_stands_on_one_lattice(
    layout: Layout,
    sections: Seq<SectionShape>,
    m: Metrics,
    work: Rect,
    t: int,
)
    requires
        layout::measurable(sections, m, work),
        layout.lays_out(sections, m, work),
        0 <= t < layout.tiles@.len(),
    ensures
        layout.tiles@[t] == Rect::spec_blank() || exists|row: int, col: int| #[trigger]
            on_cell(m, layout.tiles@[t], row, col),
{
    let plots = layout::sketched(sections, m, work).plots();
    every_section_with_tiles_has_one_box(sections, m, work);
    lemma_source(sections, m, plots, plots.len(), t);
    let tile = layout.tiles@[t];
    if tile != Rect::spec_blank() {
        let (i, j) = choose|i: int, j: int| drawn_by(sections, m, plots, tile, t, i, j);
        assert(layout::drawable(plots[i], sections));
        lemma_tile_cell(sections, plots[i], j);
        lemma_on_cell(m, plots[i].tile_row(j), plots[i].tile_col(j));
        assert(on_cell(m, tile, plots[i].tile_row(j), plots[i].tile_col(j)));
    }
}

/// Two tiles on different cells have no point in common.
pub proof fn lemma_cells_apart(m: Metrics, a: (int, int), b: (int, int))
    requires
        m.wf(),
        0 <= a.0 <= CELLS,
        0 <= a.1 <= CELLS,
        0 <= b.0 <= CELLS,
        0 <= b.1 <= CELLS,
        a != b,
    ensures
        !m.tile_at(a.0, a.1).meets(m.tile_at(b.0, b.1)),
{
    query::lemma_lattice(m, a.0);
    query::lemma_lattice(m, a.1);
    query::lemma_lattice(m, b.0);
    query::lemma_lattice(m, b.1);
    let (sx, sy) = (m.step_x(), m.step_y());
    if a.1 < b.1 {
        lemma_steps(a.1, b.1, sx);
    } else if b.1 < a.1 {
        lemma_steps(b.1, a.1, sx);
    } else if a.0 < b.0 {
        lemma_steps(a.0, b.0, sy);
    } else {
        lemma_steps(b.0, a.0, sy);
    }
}

pub proof fn lemma_steps(a: int, b: int, step: int)
    requires
        a < b,
        step >= 0,
    ensures
        a * step + step <= b * step,
{
    assert(a * step + step <= b * step) by (nonlinear_arith)
        requires
            a + 1 <= b,
            step >= 0,
    ;
}

/// A tile on a cell nothing of a block stands on has no point of the block.
pub proof fn lemma_off_the_block(m: Metrics, row: int, col: int, block: Block)
    requires
        m.wf(),
        0 <= row <= CELLS,
        0 <= col <= CELLS,
        block.row + block.rows <= CELLS,
        block.col + block.cols <= CELLS,
        block.rows >= 1,
        block.cols >= 1,
        !block.stands_on(row, col),
    ensures
        !m.tile_at(row, col).meets(layout::block_rect(m, block)),
{
    query::lemma_lattice(m, row);
    query::lemma_lattice(m, col);
    query::lemma_lattice(m, block.row as int);
    query::lemma_lattice(m, block.col as int);
    query::lemma_lattice(m, block.rows as int);
    query::lemma_lattice(m, block.cols as int);
    let (sx, sy) = (m.step_x(), m.step_y());
    lemma_run(m, block.rows as int, block.cols as int);
    if col < block.col {
        lemma_steps(col, block.col as int, sx);
    } else if col >= block.col + block.cols {
        assert(col * sx >= (block.col + block.cols) * sx) by (nonlinear_arith)
            requires
                col >= block.col + block.cols,
                sx >= 0,
        ;
        assert((block.col + block.cols) * sx == block.col * sx + block.cols * sx)
            by (nonlinear_arith);
    } else if row < block.row {
        lemma_steps(row, block.row as int, sy);
    } else {
        assert(row * sy >= (block.row + block.rows) * sy) by (nonlinear_arith)
            requires
                row >= block.row + block.rows,
                sy >= 0,
        ;
        assert((block.row + block.rows) * sy == block.row * sy + block.rows * sy)
            by (nonlinear_arith);
    }
}

/// A run of rows or columns is a whole number of steps, short of one gap.
pub proof fn lemma_run(m: Metrics, rows: int, cols: int)
    ensures
        m.height_of(rows) == rows * m.step_y() - m.gap,
        m.width_of(cols) == cols * m.step_x() - m.gap,
{
    let (w, h, g) = (m.tile_w as int, m.tile_h as int, m.gap as int);
    assert(rows * h + (rows - 1) * g == rows * (h + g) - g) by (nonlinear_arith);
    assert(cols * w + (cols - 1) * g == cols * (w + g) - g) by (nonlinear_arith);
}

/// The cell a tile of a drawable box stands on can be counted.
pub proof fn lemma_tile_cell(sections: Seq<SectionShape>, plot: PlotView, j: int)
    requires
        layout::drawable(plot, sections),
        0 <= j < plot.slots.len(),
    ensures
        plot.takes(plot.tile_row(j), plot.tile_col(j)),
        0 <= plot.tile_row(j) < CELLS,
        0 <= plot.tile_col(j) < CELLS,
{
    let (slot, cols) = (plot.slots[j] as int, plot.cols);
    assert(slot / cols < plot.rows);
    assert(0 <= slot / cols && 0 <= slot % cols < cols) by (nonlinear_arith)
        requires
            slot >= 0,
            cols >= 1,
    ;
}

/// What the boxes of a panel's tree are laid out against.
pub open spec fn ground_of(sections: Seq<SectionShape>, m: Metrics, work: Rect) -> GroundView {
    let frame = layout::frame_of(sections, m, work);
    GroundView {
        sections,
        capped: frame.capped as nat,
        clear: frame.clear as nat,
        holes: arrange::holes_of(sections, frame).blocks(),
    }
}

pub proof fn lemma_leaf_laid(node: Node, ground: GroundView, row: int, col: int, cols: int, i: int)
    requires
        lattice::countable(node, ground),
        0 <= row,
        0 <= cols < usize::MAX,
        0 <= i < place::placed(node, ground, row, col, cols).0.len(),
    ensures
        ({
            let plot = place::placed(node, ground, row, col, cols).0[i];
            &&& 1 <= plot.cols <= usize::MAX
            &&& 0 <= plot.section < ground.sections.len()
            &&& plot == cells::laid(
                ground.holes,
                plot.section,
                ground.sections[plot.section].count as nat,
                plot.row,
                plot.col,
                plot.cols,
            )
        }),
    decreases node,
{
    match node {
        Node::Empty => {},
        Node::Leaf(index) => {
            assert(place::below(ground.sections.len())(index));
        },
        Node::Cut { axis: crate::side::Axis::Across, near, far, .. } => {
            let split = place::split_of(node, ground, cols);
            let spare = num::larger(cols - split, 0);
            let k = place::placed(*near, ground, row, col, split).0.len();
            if i < k {
                lemma_leaf_laid(*near, ground, row, col, split, i);
            } else {
                lemma_leaf_laid(*far, ground, row, col + split, spare, i - k);
            }
        },
        Node::Cut { axis: crate::side::Axis::Down, near, far, .. } => {
            lattice::boxes_lie_in_what_their_subtree_takes(*near, ground, row, col, cols);
            let (above, line) = place::placed(*near, ground, row, col, cols);
            let next = place::next_row(line, ground.clear as int);
            if i < above.len() {
                lemma_leaf_laid(*near, ground, row, col, cols, i);
            } else {
                lemma_leaf_laid(*far, ground, next, col, cols, i - above.len());
            }
        },
    }
}

/// A box of a panel's tree stands on none of the panel's holes.
pub proof fn lemma_tree_tile(
    sections: Seq<SectionShape>,
    m: Metrics,
    work: Rect,
    i: int,
    j: int,
)
    requires
        layout::measurable(sections, m, work),
        0 <= i < layout::sketched(sections, m, work).treed.len(),
        0 <= j < layout::sketched(sections, m, work).treed[i].slots.len(),
    ensures
        ({
            let plot = layout::sketched(sections, m, work).treed[i];
            !cells::blocked(ground_of(sections, m, work).holes, plot.tile_row(j), plot.tile_col(j))
        }),
{
    let frame = layout::frame_of(sections, m, work);
    let ground = ground_of(sections, m, work);
    let plot = layout::sketched(sections, m, work).treed[i];
    lemma_frame(sections, m, work);
    arrange::lemma_planned(sections, layout::clear_rows(m));
    let node = tree::planned(sections)->0;
    lemma_countable(sections, m, work, node);
    lemma_leaf_laid(node, ground, 0, 0, frame.cols as int, i);
    let count = sections[plot.section].count as nat;
    arrange::lemma_heft_bounds(sections, frame.clear as nat, plot.section, sections.len());
    lattice::tiles_read_in_order_around_the_holes(
        ground.holes,
        plot.section,
        count,
        plot.row,
        plot.col,
        plot.cols,
    );
    assert(plot.slots[j] == plot.slots[j]);
}

pub proof fn lemma_countable(sections: Seq<SectionShape>, m: Metrics, work: Rect, node: Node)
    requires
        layout::measurable(sections, m, work),
        tree::planned(sections) == Some(node),
    ensures
        lattice::countable(node, ground_of(sections, m, work)),
{
    let clear = layout::clear_rows(m);
    arrange::lemma_planned(sections, clear);
    assert forall|i: usize| i < sections.len() implies #[trigger] cells::ceiling(
        sections[i as int].count as nat,
    ) <= usize::MAX by {
        arrange::lemma_heft_bounds(sections, clear, i as int, sections.len());
    }
}

/// Each band is a box of the panel.
pub proof fn lemma_band(
    layout: Layout,
    sections: Seq<SectionShape>,
    m: Metrics,
    work: Rect,
    band: int,
)
    requires
        layout::measurable(sections, m, work),
        layout.lays_out(sections, m, work),
        0 <= band < layout.bands@.len(),
    ensures
        ({
            let sketch = layout::sketched(sections, m, work);
            let plot = sketch.plots()[band];
            let got = layout.bands@[band];
            &&& layout.bands@.len() == sketch.plots().len()
            &&& layout::drawable(plot, sections)
            &&& got.section == plot.section
            &&& got.first == layout::counted(sections, plot.section as nat)
            &&& got.count == sections[plot.section].count
            &&& got.count > 0
            &&& got.center <==> band >= sketch.treed.len()
            &&& got@ == layout::bands_of(sections, m, work)[band]
        }),
{
    let sketch = layout::sketched(sections, m, work);
    assert(layout::band_views(layout.bands@).len() == layout.bands@.len());
    assert(layout::bands_of(sections, m, work).len() == sketch.plots().len());
    assert(layout::band_views(layout.bands@)[band] == layout.bands@[band]@);
    every_section_with_tiles_has_one_box(sections, m, work);
    let plot = sketch.plots()[band];
    assert(layout::drawable(plot, sections));
    arrange::lemma_planned(sections, layout::clear_rows(m));
    layout::lemma_counted_bounds(
        sections,
        layout::clear_rows(m),
        plot.section as nat,
        sections.len(),
    );
    if band < sketch.treed.len() {
        assert(plot == sketch.treed[band]);
    } else {
        assert(plot == sketch.halves[band - sketch.treed.len()]);
    }
}

/// Nothing else is laid out underneath the centre block: no tile of any other
/// box has a point of it.
pub proof fn nothing_is_laid_out_under_the_centre(
    layout: Layout,
    sections: Seq<SectionShape>,
    m: Metrics,
    work: Rect,
    band: int,
    t: int,
)
    requires
        layout::measurable(sections, m, work),
        layout.lays_out(sections, m, work),
        layout::sketched(sections, m, work).reserve is Some,
        0 <= band < layout.bands@.len(),
        !layout.bands@[band].center,
        layout.owns(band, t),
    ensures
        !layout.tiles@[t].meets(
            layout::block_rect(m, layout::sketched(sections, m, work).reserve->0),
        ),
{
    let sketch = layout::sketched(sections, m, work);
    let plots = sketch.plots();
    let frame = layout::frame_of(sections, m, work);
    let holes = arrange::holes_of(sections, frame);
    let block = sketch.reserve->0;
    lemma_frame(sections, m, work);
    lemma_sketch(sections, m, work);
    every_section_with_tiles_has_one_box(sections, m, work);
    lemma_band(layout, sections, m, work, band);
    let plot = plots[band];
    assert(plot == sketch.treed[band]);
    let j = t - layout.bands@[band].first;
    lemma_drawn(sections, m, plots, plots.len(), band, j);
    the_centre_fits_the_panel(sections, m, work);
    query::lemma_lattice(m, block.row as int);
    query::lemma_lattice(m, block.col as int);
    if j < plot.slots.len() {
        lemma_tree_tile(sections, m, work, band, j);
        assert(holes.blocks()[0] == block);
        let (row, col) = (plot.tile_row(j), plot.tile_col(j));
        assert(!holes.blocks()[0].stands_on(row, col));
        lemma_tile_cell(sections, plot, j);
        lemma_off_the_block(m, row, col, block);
    }
}

} // verus!
