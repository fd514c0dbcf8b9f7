//! A laid-out panel, taken as a whole.

use vstd::prelude::*;
use crate::arrange;
use crate::bento;
use crate::drops;
use crate::geometry::{Metrics, Rect, CELLS};
use crate::lattice;
use crate::layout;
use crate::layout::Layout;
use crate::query;
use crate::section::SectionShape;
use crate::shape;
use crate::tree;

verus! {

/// Whether the centre block of a panel takes no more than a number of cells.
pub open spec fn centre_within(
    sections: Seq<SectionShape>,
    m: Metrics,
    work: Rect,
    most: int,
) -> bool {
    let frame = layout::frame_of(sections, m, work);
    frame.across * frame.rows <= most
}

/// Whether one tile comes before another as a page is read: left to right, then
/// down.
pub open spec fn read_first(a: Rect, b: Rect) -> bool {
    a.y < b.y || a.y == b.y && a.x < b.x
}

/// Whether a tile stands on a cell of the lattice.
pub open spec fn on_lattice(m: Metrics, tile: Rect) -> bool {
    exists|row: int, col: int| #[trigger] shape::on_cell(m, tile, row, col)
}

/// Every box of a panel has a cell for each of its tiles.
proof fn lemma_found(sections: Seq<SectionShape>, m: Metrics, work: Rect, i: int)
    requires
        layout::measurable(sections, m, work),
        centre_within(sections, m, work, 64),
        0 <= i < layout::sketched(sections, m, work).plots().len(),
    ensures
        ({
            let plot = layout::sketched(sections, m, work).plots()[i];
            plot.slots.len() == sections[plot.section].count
        }),
{
    let plot = layout::sketched(sections, m, work).plots()[i];
    let frame = layout::frame_of(sections, m, work);
    let count = sections[plot.section].count as nat;
    shape::every_section_with_tiles_has_one_box(sections, m, work);
    shape::lemma_sketch(sections, m, work);
    let own = drops::lemma_laid(sections, m, work, i);
    let holes = arrange::holes_of(sections, frame);
    reveal_with_fuel(lattice::area, 3);
    let blocks = holes.blocks();
    if let Some(block) = holes.reserve {
        assert(block.rows * block.cols == frame.across * frame.rows) by (nonlinear_arith)
            requires
                block.rows == frame.rows,
                block.cols == frame.across,
        ;
        assert(blocks[0] == block);
    }
    lemma_homes(sections, frame);
    if let Some(home) = holes.home {
        assert(blocks.last() == home);
        assert(home.rows * home.cols == 1);
        if let Some(block) = holes.reserve {
            assert(blocks.drop_last() =~= seq![block]);
            assert(blocks.drop_last().drop_last() =~= Seq::empty());
        } else {
            assert(blocks.drop_last() =~= Seq::empty());
        }
    } else if let Some(block) = holes.reserve {
        assert(blocks.drop_last() =~= Seq::empty());
        assert(blocks.last() == block);
    }
    assert(lattice::area(blocks) <= 65);
    assert(lattice::area(Seq::empty()) == 0);
    lattice::every_tile_finds_a_cell(own, plot.section, count, plot.row, plot.col, plot.cols);
}

/// The corner is one cell wherever it is kept.
proof fn lemma_homes(sections: Seq<SectionShape>, frame: arrange::Frame)
    ensures
        arrange::holes_of(sections, frame).home matches Some(home) ==> home.rows == 1 && home.cols
            == 1,
{
    lemma_settled_home(
        sections,
        frame,
        arrange::Holes { reserve: None, home: None },
        arrange::PASSES as nat,
    );
}

proof fn lemma_settled_home(
    sections: Seq<SectionShape>,
    frame: arrange::Frame,
    holes: arrange::Holes,
    passes: nat,
)
    requires
        holes.home matches Some(home) ==> home.rows == 1 && home.cols == 1,
    ensures
        arrange::settled(sections, frame, holes, passes).home matches Some(home) ==> home.rows == 1
            && home.cols == 1,
    decreases passes,
{
    if passes > 0 {
        lemma_settled_home(
            sections,
            frame,
            arrange::moved(sections, frame, holes),
            (passes - 1) as nat,
        );
    }
}

/// The section a tile is counted under.
proof fn lemma_section_of(sections: Seq<SectionShape>, t: int, n: nat) -> (k: int)
    requires
        0 <= t < layout::counted(sections, n),
        n <= sections.len(),
    ensures
        0 <= k < n,
        layout::counted(sections, k as nat) <= t < layout::counted(sections, k as nat)
            + sections[k].count,
    decreases n,
{
    if t >= layout::counted(sections, (n - 1) as nat) {
        n - 1
    } else {
        lemma_section_of(sections, t, (n - 1) as nat)
    }
}

/// The box that drew a tile, and which of its tiles that is.
proof fn lemma_drawer(
    layout: Layout,
    sections: Seq<SectionShape>,
    m: Metrics,
    work: Rect,
    t: int,
) -> (at: (int, int))
    requires
        layout::measurable(sections, m, work),
        layout.lays_out(sections, m, work),
        centre_within(sections, m, work, 64),
        0 <= t < layout.tiles@.len(),
    ensures
        ({
            let plots = layout::sketched(sections, m, work).plots();
            &&& 0 <= at.0 < plots.len()
            &&& 0 <= at.1 < plots[at.0].slots.len()
            &&& layout.tiles@[t] == m.tile_at(
                plots[at.0].tile_row(at.1),
                plots[at.0].tile_col(at.1),
            )
            &&& 0 <= plots[at.0].tile_row(at.1) < CELLS
            &&& 0 <= plots[at.0].tile_col(at.1) < CELLS
        }),
{
    let plots = layout::sketched(sections, m, work).plots();
    shape::every_section_with_tiles_has_one_box(sections, m, work);
    shape::lemma_tiles_len(sections, m, plots, plots.len());
    let k = lemma_section_of(sections, t, sections.len());
    assert(sections[k].count > 0);
    let i = choose|i: int| 0 <= i < plots.len() && (#[trigger] plots[i]).section == k;
    let j = t - layout::counted(sections, k as nat);
    lemma_found(sections, m, work, i);
    assert(shape::sections_differ(plots));
    shape::lemma_drawn(sections, m, plots, plots.len(), i, j);
    assert(layout::drawable(plots[i], sections));
    shape::lemma_tile_cell(sections, plots[i], j);
    (i, j)
}

proof fn lemma_kept(sections: Seq<SectionShape>, m: Metrics, work: Rect)
    requires
        layout::measurable(sections, m, work),
        bento::panel_roomy(sections, m, work),
    ensures
        bento::columns_kept(sections, m, work),
{
    arrange::lemma_planned(sections, layout::clear_rows(m));
    if let Some(node) = tree::planned(sections) {
        lattice::a_roomy_subtree_keeps_to_its_columns(
            node,
            shape::ground_of(sections, m, work),
            layout::panel_cols(sections, m, work),
        );
    }
}

proof fn lemma_reads(
    layout: Layout,
    sections: Seq<SectionShape>,
    m: Metrics,
    work: Rect,
    b: int,
    j: int,
    k: int,
)
    requires
        layout::measurable(sections, m, work),
        layout.lays_out(sections, m, work),
        centre_within(sections, m, work, 64),
        0 <= b < layout.bands@.len(),
        0 <= j < k < layout.bands@[b].count,
    ensures
        ({
            let first = layout.bands@[b].first;
            read_first(layout.tiles@[first + j], layout.tiles@[first + k])
        }),
{
    let plots = layout::sketched(sections, m, work).plots();
    let plot = plots[b];
    shape::every_section_with_tiles_has_one_box(sections, m, work);
    shape::lemma_band(layout, sections, m, work, b);
    lemma_found(sections, m, work, b);
    assert(shape::sections_differ(plots));
    shape::lemma_drawn(sections, m, plots, plots.len(), b, j);
    shape::lemma_drawn(sections, m, plots, plots.len(), b, k);
    let holes = drops::lemma_laid(sections, m, work, b);
    lattice::tiles_read_in_order_around_the_holes(
        holes,
        plot.section,
        sections[plot.section].count as nat,
        plot.row,
        plot.col,
        plot.cols,
    );
    assert(plot.slots[j] == plot.slots[j] && plot.slots[k] == plot.slots[k]);
    assert(layout::drawable(plot, sections));
    shape::lemma_tile_cell(sections, plot, j);
    shape::lemma_tile_cell(sections, plot, k);
    let (p, q) = ((plot.tile_row(j), plot.tile_col(j)), (plot.tile_row(k), plot.tile_col(k)));
    assert(lattice::read_before(p, q));
    query::lemma_lattice(m, p.0);
    query::lemma_lattice(m, p.1);
    query::lemma_lattice(m, q.0);
    query::lemma_lattice(m, q.1);
    if p.0 < q.0 {
        shape::lemma_steps(p.0, q.0, m.step_y());
    } else {
        shape::lemma_steps(p.1, q.1, m.step_x());
    }
}

/// The tiles of a panel: as many as its sections have, each a whole tile on one
/// lattice for every box, no two of them with a point in common, and within a
/// box read left to right and then down. It is so wherever every cut across is
/// given a column for each half and the centre block takes no more than
/// sixty-four cells.
pub proof fn the_tiles_of_a_panel(
    layout: Layout,
    sections: Seq<SectionShape>,
    m: Metrics,
    work: Rect,
)
    requires
        layout::measurable(sections, m, work),
        layout.lays_out(sections, m, work),
        bento::panel_roomy(sections, m, work),
        centre_within(sections, m, work, 64),
    ensures
        layout.tiles@.len() == layout::counted(sections, sections.len()),
        forall|t: int|
            0 <= t < layout.tiles@.len() ==> on_lattice(m, #[trigger] layout.tiles@[t]),
        forall|s: int, t: int|
            0 <= s < layout.tiles@.len() && 0 <= t < layout.tiles@.len() && s != t
                ==> !(#[trigger] layout.tiles@[s]).meets(#[trigger] layout.tiles@[t]),
        forall|b: int, j: int, k: int|
            0 <= b < layout.bands@.len() && 0 <= j < k < layout.bands@[b].count
                ==> #[trigger] read_first(
                layout.tiles@[layout.bands@[b].first + j],
                layout.tiles@[layout.bands@[b].first + k],
            ),
{
    let plots = layout::sketched(sections, m, work).plots();
    shape::every_section_with_tiles_has_one_box(sections, m, work);
    shape::lemma_tiles_len(sections, m, plots, plots.len());
    lemma_kept(sections, m, work);
    assert forall|t: int| 0 <= t < layout.tiles@.len() implies on_lattice(
        m,
        #[trigger] layout.tiles@[t],
    ) by {
        let at = lemma_drawer(layout, sections, m, work, t);
        let (row, col) = (plots[at.0].tile_row(at.1), plots[at.0].tile_col(at.1));
        shape::lemma_on_cell(m, row, col);
        assert(shape::on_cell(m, layout.tiles@[t], row, col));
    }
    assert forall|s: int, t: int|
        0 <= s < layout.tiles@.len() && 0 <= t < layout.tiles@.len() && s != t implies !(
    #[trigger] layout.tiles@[s]).meets(#[trigger] layout.tiles@[t]) by {
        bento::tiles_never_overlap(layout, sections, m, work, s, t);
    }
    assert forall|b: int, j: int, k: int|
        0 <= b < layout.bands@.len() && 0 <= j < k < layout.bands@[b].count
            implies #[trigger] read_first(
        layout.tiles@[layout.bands@[b].first + j],
        layout.tiles@[layout.bands@[b].first + k],
    ) by {
        lemma_reads(layout, sections, m, work, b, j, k);
    }
}

/// Whether a point lies in the part of a panel its boxes share out: all of it
/// under the filter strip.
pub open spec fn shared_out(
    layout: Layout,
    sections: Seq<SectionShape>,
    m: Metrics,
    work: Rect,
    x: int,
    y: int,
) -> bool {
    0 <= x < layout::panel_width(sections, m, work) && m.search_h <= y < layout.content_h
}

/// Whether a box of the tree holds a point.
pub open spec fn boxed_by(layout: Layout, b: int, x: int, y: int) -> bool {
    0 <= b < layout.bands@.len() && !layout.bands@[b].center && layout.bands@[b].rect.holds(x, y)
}

/// The bands of a panel: one for each section with something in it and none for
/// the rest, the centre's last. The others part what lies under the filter
/// strip, so a point of it belongs to exactly one of them and no point outside
/// it to any; and every band has its own tiles inside it. It is so wherever some
/// section off the centre has something in it and every cut across is given a
/// column for each half. That every tile is inside its band takes a cell for
/// each of them besides, which a centre block of no more than sixty-four cells
/// leaves.
pub proof fn the_bands_of_a_panel(
    layout: Layout,
    sections: Seq<SectionShape>,
    m: Metrics,
    work: Rect,
)
    requires
        layout::measurable(sections, m, work),
        layout.lays_out(sections, m, work),
        bento::panel_roomy(sections, m, work),
        exists|k: int| 0 <= k < sections.len() && (#[trigger] sections[k]).in_tree(),
    ensures
        forall|b: int|
            0 <= b < layout.bands@.len() ==> {
                let band = #[trigger] layout.bands@[b];
                &&& band.section < sections.len()
                &&& sections[band.section as int].count > 0
                &&& band.center <==> sections[band.section as int].center is Some
            },
        forall|k: int|
            0 <= k < sections.len() && (#[trigger] sections[k]).count > 0 ==> exists|b: int|
                0 <= b < layout.bands@.len() && (#[trigger] layout.bands@[b]).section == k,
        forall|a: int, b: int|
            0 <= a < b < layout.bands@.len() ==> {
                &&& (#[trigger] layout.bands@[a]).section != (#[trigger] layout.bands@[b]).section
                &&& layout.bands@[a].center ==> layout.bands@[b].center
            },
        forall|x: int, y: int| #[trigger]
            shared_out(layout, sections, m, work, x, y) <==> exists|b: int| #[trigger]
                boxed_by(layout, b, x, y),
        forall|a: int, b: int, x: int, y: int| #[trigger]
            boxed_by(layout, a, x, y) && #[trigger] boxed_by(layout, b, x, y) ==> a == b,
        forall|b: int, t: int|
            0 <= b < layout.bands@.len() && #[trigger] layout.owns(b, t) && (
            layout.tiles@[t] != Rect::spec_blank() || centre_within(sections, m, work, 64))
                ==> layout.bands@[b].rect.spans(layout.tiles@[t]),
{
    let one = choose|k: int| 0 <= k < sections.len() && (#[trigger] sections[k]).in_tree();
    arrange::lemma_planned(sections, layout::clear_rows(m));
    tree::plan_gives_every_section_one_box(sections, one as usize);
    assert(tree::planned(sections) is Some);
    let sketch = layout::sketched(sections, m, work);
    let plots = sketch.plots();
    shape::every_section_with_tiles_has_one_box(sections, m, work);
    assert(layout::band_views(layout.bands@).len() == layout.bands@.len());
    assert(layout::bands_of(sections, m, work).len() == plots.len());
    assert forall|b: int| 0 <= b < layout.bands@.len() implies {
        let band = #[trigger] layout.bands@[b];
        &&& band.section < sections.len()
        &&& sections[band.section as int].count > 0
        &&& band.center <==> sections[band.section as int].center is Some
    } by {
        shape::lemma_band(layout, sections, m, work, b);
        assert(sections[plots[b].section].count > 0);
    }
    assert forall|k: int|
        0 <= k < sections.len() && (#[trigger] sections[k]).count > 0 implies exists|b: int|
        0 <= b < layout.bands@.len() && (#[trigger] layout.bands@[b]).section == k by {
        let b = choose|i: int| 0 <= i < plots.len() && (#[trigger] plots[i]).section == k;
        shape::lemma_band(layout, sections, m, work, b);
        assert(layout.bands@[b].section == k);
    }
    assert forall|a: int, b: int| 0 <= a < b < layout.bands@.len() implies {
        &&& (#[trigger] layout.bands@[a]).section != (#[trigger] layout.bands@[b]).section
        &&& layout.bands@[a].center ==> layout.bands@[b].center
    } by {
        shape::lemma_band(layout, sections, m, work, a);
        shape::lemma_band(layout, sections, m, work, b);
        assert(plots[a].section != plots[b].section);
    }
    assert forall|x: int, y: int| #[trigger]
        shared_out(layout, sections, m, work, x, y) <==> exists|b: int| #[trigger]
            boxed_by(layout, b, x, y) by {
        if shared_out(layout, sections, m, work, x, y) {
            bento::bands_cover_the_panel_with_nothing_in_between(
                layout,
                sections,
                m,
                work,
                x,
                y,
            );
            let b = choose|b: int|
                0 <= b < layout.bands@.len() && !(#[trigger] layout.bands@[b]).center
                    && layout.bands@[b].rect.holds(x, y);
            assert(boxed_by(layout, b, x, y));
        }
        if exists|b: int| #[trigger] boxed_by(layout, b, x, y) {
            let b = choose|b: int| #[trigger] boxed_by(layout, b, x, y);
            bento::a_box_stays_under_the_strip(layout, sections, m, work, b);
        }
    }
    assert forall|a: int, b: int, x: int, y: int| #[trigger]
        boxed_by(layout, a, x, y) && #[trigger] boxed_by(layout, b, x, y) implies a == b by {
        if a < b {
            bento::bands_never_share_a_point(layout, sections, m, work, a, b);
        } else if b < a {
            bento::bands_never_share_a_point(layout, sections, m, work, b, a);
        }
    }
    assert forall|b: int, t: int|
        0 <= b < layout.bands@.len() && #[trigger] layout.owns(b, t) && (layout.tiles@[t]
            != Rect::spec_blank() || centre_within(sections, m, work, 64))
            implies layout.bands@[b].rect.spans(layout.tiles@[t]) by {
        if centre_within(sections, m, work, 64) {
            lemma_owned(layout, sections, m, work, b, t);
        }
        bento::every_box_keeps_its_own_tiles_inside_it(layout, sections, m, work, b, t);
    }
}

proof fn lemma_owned(
    layout: Layout,
    sections: Seq<SectionShape>,
    m: Metrics,
    work: Rect,
    b: int,
    t: int,
)
    requires
        layout::measurable(sections, m, work),
        layout.lays_out(sections, m, work),
        centre_within(sections, m, work, 64),
        0 <= b < layout.bands@.len(),
        layout.owns(b, t),
    ensures
        0 <= t < layout.tiles@.len(),
        layout.tiles@[t] != Rect::spec_blank(),
{
    let plots = layout::sketched(sections, m, work).plots();
    shape::every_section_with_tiles_has_one_box(sections, m, work);
    shape::lemma_band(layout, sections, m, work, b);
    assert(shape::sections_differ(plots));
    shape::lemma_drawn(
        sections,
        m,
        plots,
        plots.len(),
        b,
        t - layout.bands@[b].first,
    );
    let at = lemma_drawer(layout, sections, m, work, t);
}

} // verus!
