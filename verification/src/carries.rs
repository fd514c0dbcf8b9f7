//! What a drag shows while it lasts, and what it saves.

use vstd::prelude::*;
use crate::drag;
use crate::drag::List;
use crate::drops;
use crate::events;
use crate::geometry::{Metrics, Rect};
use crate::layout;
use crate::layout::Layout;
use crate::model::{Half, Item, Source};
use crate::order;
use crate::query;
use crate::scene::Scene;
use crate::section::SectionShape;
use crate::session::{Effect, Press, SessionView, State};
use crate::tiles;

verus! {

/// Whether a cursor has gone further from where a tile was pressed than a hand
/// wobbles, across or down.
pub open spec fn travelled(press: Press, x: int, y: int, slop: (int, int)) -> bool {
    ||| x - press.start.0 > slop.0
    ||| press.start.0 - x > slop.0
    ||| y - press.start.1 > slop.1
    ||| press.start.1 - y > slop.1
}

/// A drag follows the scroll: over the left half of a tile as it is drawn, the
/// dragged tile goes before it, and over the right half after it, however far
/// the panel is scrolled. Over a tile before its own run it goes to the front
/// of the run, and over one after the run to the back of it.
pub proof fn a_drag_follows_the_scroll(
    s: SessionView,
    layout: Layout,
    sections: Seq<SectionShape>,
    m: Metrics,
    work: Rect,
    press: Press,
    band: int,
    t: int,
    x: int,
    y: int,
    slop: (int, int),
)
    requires
        layout::measurable(sections, m, work),
        layout.lays_out(sections, m, work),
        s.state.press == Some(press),
        press.dragging || travelled(press, x, y, slop),
        0 <= band < layout.bands@.len(),
        press.band == Some(band as usize),
        layout.bands@[band].first <= press.first,
        press.first + press.count <= layout.bands@[band].first + layout.bands@[band].count,
        layout.bands@[band].first <= t < layout.bands@[band].first + layout.bands@[band].count,
        t < layout.tiles@.len(),
        layout.tiles@[t].x <= x < layout.tiles@[t].x + layout.tiles@[t].w,
        layout.tiles@[t].y - s.state.scroll <= y < layout.tiles@[t].y - s.state.scroll
            + layout.tiles@[t].h,
    ensures
        ({
            let after = drag::dragging(s, layout, x, y, slop).after.state.press;
            let tile = layout.tiles@[t];
            let left = x - tile.x < tile.x + tile.w - x;
            &&& after is Some
            &&& press.first <= t < press.first + press.count ==> after->0.slot == (if left {
                t - press.first
            } else {
                t - press.first + 1
            })
            &&& t < press.first ==> after->0.slot == 0
            &&& t >= press.first + press.count ==> after->0.slot == press.count
        }),
{
    reveal(drag::dragging);
    let owner = layout.bands@[band];
    assert(layout.bands@.len() <= usize::MAX) by {
        vstd::std_specs::vec::axiom_spec_len(&layout.bands);
    }
    let j = t - owner.first;
    assert(layout.tiles@[t].holds(x, y + s.state.scroll));
    drops::a_drop_turns_at_the_centre_of_a_tile(
        layout,
        sections,
        m,
        work,
        band,
        j,
        x,
        y + s.state.scroll,
    );
    assert(press.band->0 as int == band);
    assert(layout.metrics == m);
}

/// A press becomes a drag once the cursor is further from it than a hand
/// wobbles, and stays one wherever the cursor goes then. The tile, its run and
/// where it was gripped are kept, and nothing else of the session changes.
pub proof fn a_press_that_travels_is_a_drag(
    s: SessionView,
    layout: Layout,
    press: Press,
    x: int,
    y: int,
    slop: (int, int),
)
    requires
        s.state.press == Some(press),
        0 <= slop.0,
        0 <= slop.1,
    ensures
        ({
            let turn = drag::dragging(s, layout, x, y, slop);
            let after = turn.after.state.press;
            &&& after is Some
            &&& after->0.dragging <==> press.dragging || travelled(press, x, y, slop)
            &&& after->0 == (Press {
                dragging: after->0.dragging,
                slot: after->0.slot,
                ..press
            })
            &&& press.band is None ==> after->0.slot == press.slot && turn.does.len() == 0
            &&& turn.after == s.with(State { press: after, ..s.state })
            &&& !after->0.dragging ==> turn == s.still()
        }),
{
    reveal(drag::dragging);
}

/// A dragged tile keeps under the cursor: it is drawn as far from where it was
/// as the cursor is from where the tile was pressed. It is lifted once, and the
/// run's other tiles make room at every move.
pub proof fn a_dragged_tile_keeps_under_the_cursor(
    s: SessionView,
    scene: Scene,
    tile: usize,
    x: int,
    y: int,
    to_x: int,
    to_y: int,
    slop: (int, int),
)
    requires
        scene.wf(),
        query::measured(s.state.scroll as int),
        query::measured(x),
        query::measured(y),
        query::measured(to_x),
        query::measured(to_y),
        tile < scene.layout.tiles@.len(),
    ensures
        ({
            let pressed = drag::pressing(s, scene, tile, x, y);
            let press = pressed.after.state.press->0;
            let moved = drag::dragging(pressed.after, scene.layout, to_x, to_y, slop);
            let again = drag::dragging(moved.after, scene.layout, to_x, to_y, slop);
            let rect = scene.layout.tiles@[tile as int];
            let drawn = Effect::Drag {
                tile,
                x: (rect.x + to_x - x) as i64,
                y: (rect.y - s.state.scroll + to_y - y) as i64,
            };
            &&& pressed.after.state.press is Some
            &&& pressed.does == seq![Effect::Capture]
            &&& press.tile == tile
            &&& !press.dragging
            &&& press.start == (x as i64, y as i64)
            &&& pressed.after == s.with(State { press: Some(press), ..s.state })
            &&& press.band is Some && travelled(press, to_x, to_y, slop) ==> {
                &&& moved.does == seq![Effect::Lift(tile), Effect::Preview, drawn]
                &&& again.does == seq![Effect::Preview, drawn]
            }
        }),
{
    reveal(drag::pressing);
    reveal(drag::dragging);
    assert(scene.layout.tiles@[tile as int].near_enough());
    let pressed = drag::pressing(s, scene, tile, x, y);
    let press = pressed.after.state.press->0;
    if press.band is Some && travelled(press, to_x, to_y, slop) {
        let moved = drag::dragging(pressed.after, scene.layout, to_x, to_y, slop);
        let again = drag::dragging(moved.after, scene.layout, to_x, to_y, slop);
        let rect = scene.layout.tiles@[tile as int];
        let drawn = Effect::Drag {
            tile,
            x: (rect.x + to_x - x) as i64,
            y: (rect.y - s.state.scroll + to_y - y) as i64,
        };
        assert(moved.does =~= seq![Effect::Lift(tile), Effect::Preview, drawn]);
        assert(again.does =~= seq![Effect::Preview, drawn]);
    }
}

/// Only a tile whose place is the panel's to keep can be dragged: a pin, a
/// taskbar entry or a favorite, never an empty square, never one on no band,
/// and none at all while something is typed.
pub proof fn only_what_the_panel_keeps_in_order_can_be_dragged(
    s: SessionView,
    scene: Scene,
    tile: usize,
    x: int,
    y: int,
)
    ensures
        ({
            let press = drag::press_on(s, scene, tile, x, y);
            let item = scene.board.tile(tile as int);
            press.band is Some ==> {
                &&& s.query.len() == 0
                &&& 0 <= tile < scene.board.spots@.len()
                &&& item.origin == Source::Manual || item.origin == Source::Taskbar || item.origin
                    == Source::Center
                &&& item.target !is Slot
            }
        }),
        s.query.len() == 0 && tile < scene.board.spots@.len() && scene.board.tile(
            tile as int,
        ).target !is Slot && (scene.board.tile(tile as int).origin == Source::Manual
            || scene.board.tile(tile as int).origin == Source::Taskbar || scene.board.tile(
            tile as int,
        ).origin == Source::Center) && drag::owner_from(scene.layout, tile as int, 0) is Some
            ==> drag::press_on(s, scene, tile, x, y).band is Some,
{
}

/// The band a tile is dragged in is the one that holds it.
pub proof fn a_tile_is_dragged_in_the_band_that_holds_it(layout: Layout, tile: int, from: int)
    requires
        0 <= from <= layout.bands@.len(),
    ensures
        match drag::owner_from(layout, tile, from) {
            Some(band) => {
                &&& from <= band < layout.bands@.len()
                &&& layout.bands@[band].first <= tile
                &&& tile < layout.bands@[band].first + layout.bands@[band].count
            },
            None => forall|i: int|
                #![trigger layout.bands@[i]]
                from <= i < layout.bands@.len() ==> tile < layout.bands@[i].first || tile
                    >= layout.bands@[i].first + layout.bands@[i].count,
        },
    decreases layout.bands@.len() - from,
{
    if from < layout.bands@.len() && !layout.owns(from, tile) {
        a_tile_is_dragged_in_the_band_that_holds_it(layout, tile, from + 1);
    }
}

/// A drag starts where its tile is: dropped without going anywhere the tile
/// would stay, and its run is the stretch of its band that has its group.
pub proof fn a_drag_starts_where_its_tile_is(
    s: SessionView,
    scene: Scene,
    tile: usize,
    x: int,
    y: int,
)
    requires
        scene.wf(),
        query::measured(s.state.scroll as int),
        query::measured(x),
        query::measured(y),
    ensures
        ({
            let press = drag::press_on(s, scene, tile, x, y);
            press.band is Some ==> {
                &&& press.first + press.slot == tile
                &&& press.slot < press.count
                &&& !drag::saves(scene, press)
            }
        }),
{
    crate::conduct::a_press_fits_the_panel_it_was_taken_on(s, scene, tile, x, y);
    let press = drag::press_on(s, scene, tile, x, y);
    if press.band is Some {
        a_tile_is_dragged_in_the_band_that_holds_it(scene.layout, tile as int, 0);
        let band = drag::owner_from(scene.layout, tile as int, 0)->0;
        assert(scene.layout.bands.len() == scene.layout.bands@.len());
        assert(press.band->0 == band);
        let owner = scene.layout.bands@[band];
        let groups = drag::groups(scene.board);
        assert(owner@.wf());
        assert(scene.board.spots.len() == groups.len());
        assert(order::same_source(groups, tile as int, tile as int));
        order::a_run_is_one_source_inside_one_band(
            groups,
            owner.first as int,
            owner.count as int,
            tile as int,
        );
        drag::a_tile_dropped_where_it_was_saves_nothing(scene, press);
    }
}

proof fn lemma_order_fits(press: Press)
    requires
        press.first <= press.tile < press.first + press.count <= usize::MAX,
    ensures
        drag::order_of(press).len() == press.count,
        forall|p: int|
            0 <= p < press.count ==> #[trigger] drag::order_of(press)[p] < press.count,
{
    let from = (press.tile - press.first) as usize;
    order::moving_a_tile_shifts_only_what_it_passes(press.count as nat, from, press.slot);
    assert forall|p: int| 0 <= p < press.count implies #[trigger] drag::order_of(press)[p]
        < press.count by {
        assert(drag::order_of(press)[p] == order::order_after(
            press.count as nat,
            from,
            press.slot,
        )[p]);
    }
}

/// What is shown while a tile is dragged is the order that would be saved: each
/// of the run's other tiles stands in the place that order gives it, and the
/// dragged tile is not among them.
pub proof fn the_preview_is_the_order_that_would_be_saved(press: Press, n: nat)
    requires
        press.first <= press.tile < press.first + press.count <= usize::MAX,
        n <= press.count,
    ensures
        ({
            let shown = drag::shuffled(press, n);
            let order = drag::order_of(press);
            &&& forall|p: int|
                #![trigger order[p]]
                0 <= p < n && press.first + order[p] != press.tile ==> shown.contains(
                    ((press.first + order[p]) as usize, (press.first + p) as usize),
                )
            &&& forall|k: int|
                #![trigger shown[k]]
                0 <= k < shown.len() ==> {
                    &&& shown[k].0 != press.tile
                    &&& press.first <= shown[k].1 < press.first + n
                    &&& shown[k].0 == press.first + order[shown[k].1 - press.first]
                }
        }),
    decreases n,
{
    lemma_order_fits(press);
    if n > 0 {
        the_preview_is_the_order_that_would_be_saved(press, (n - 1) as nat);
        let before = drag::shuffled(press, (n - 1) as nat);
        let shown = drag::shuffled(press, n);
        let order = drag::order_of(press);
        assert(order[n - 1] < press.count);
        assert forall|p: int|
            #![trigger order[p]]
            0 <= p < n && press.first + order[p] != press.tile implies shown.contains(
            ((press.first + order[p]) as usize, (press.first + p) as usize),
        ) by {
            let entry = ((press.first + order[p]) as usize, (press.first + p) as usize);
            if p < n - 1 {
                let k = choose|k: int| 0 <= k < before.len() && before[k] == entry;
                assert(shown[k] == entry);
            } else {
                assert(shown[shown.len() - 1] == entry);
            }
        }
        assert forall|k: int|
            #![trigger shown[k]]
            0 <= k < shown.len() implies {
            &&& shown[k].0 != press.tile
            &&& press.first <= shown[k].1 < press.first + n
            &&& shown[k].0 == press.first + order[shown[k].1 - press.first]
        } by {
            if k < before.len() {
                assert(shown[k] == before[k]);
            }
        }
    }
}

/// What a drag writes: a pin and a favorite by what the shell opens, a taskbar
/// entry by its title; a pin to the section's own list, a taskbar entry to the
/// order kept of the taskbar's, and a favorite to the list of its own half of
/// the block. Nothing else has an order to write.
pub proof fn each_source_is_written_to_its_own_list(
    origin: Source,
    item: Item,
    center: Option<usize>,
)
    ensures
        ({
            let list = drag::list_of(origin, center);
            let key = drag::key_of(origin, item);
            &&& origin == Source::Manual <==> list == Some(List::Pins)
            &&& origin == Source::Taskbar <==> list == Some(List::Taskbar)
            &&& origin == Source::Center && center == Some(1usize) ==> list == Some(
                List::Center(Half::Sites),
            )
            &&& origin == Source::Center && center != Some(1usize) ==> list == Some(
                List::Center(Half::Apps),
            )
            &&& list is None <==> origin != Source::Manual && origin != Source::Taskbar && origin
                != Source::Center
            &&& origin == Source::Taskbar ==> key == Some(item.title@)
            &&& (origin == Source::Manual || origin == Source::Center) ==> match item.target {
                crate::model::Target::Shell(name) => key == Some(name@),
                _ => key is None,
            }
        }),
{
}

/// A drag that ends somewhere else is saved where it can be: let go over
/// another place of its run, a tile of a list the panel keeps whose run all
/// have names is written in the new order, with the dragged tile's name where
/// it was dropped.
pub proof fn a_drag_that_moved_something_is_saved(scene: Scene, press: Press)
    requires
        press.first <= press.tile < press.first + press.count <= usize::MAX,
        press.band is Some,
        press.band->0 < scene.layout.bands@.len(),
        scene.layout.bands@[press.band->0 as int].section < scene.board.sections@.len(),
        press.first + press.count <= scene.board.spots@.len(),
        press.slot <= press.count,
        press.slot != press.tile - press.first,
        press.slot != press.tile - press.first + 1,
        ({
            let origin = scene.board.tile(press.tile as int).origin;
            let section = scene.layout.bands@[press.band->0 as int].section;
            &&& drag::list_of(origin, scene.board.sections@[section as int].center) is Some
            &&& forall|t: int|
                press.first <= t < press.first + press.count ==> drag::key_of(
                    origin,
                    #[trigger] scene.board.tile(t),
                ) is Some
        }),
    ensures
        drag::saves(scene, press),
        ({
            let origin = scene.board.tile(press.tile as int).origin;
            let to = if press.slot < press.tile - press.first {
                press.slot as int
            } else {
                press.slot - 1
            };
            drag::name_at(scene.board, press, origin, to) == drag::key_of(
                origin,
                scene.board.tile(press.tile as int),
            )
        }),
{
    let from = (press.tile - press.first) as usize;
    let count = press.count as nat;
    lemma_order_fits(press);
    order::moving_a_tile_shifts_only_what_it_passes(count, from, press.slot);
    let origin = scene.board.tile(press.tile as int).origin;
    let to = if press.slot < from {
        press.slot as int
    } else {
        press.slot - 1
    };
    let order = drag::order_of(press);
    assert(order == order::order_after(count, from, press.slot));
    assert(order[to] == from);
    assert(!drag::unmoved(press));
    assert forall|i: int| 0 <= i < press.count implies (#[trigger] drag::name_at(
        scene.board,
        press,
        origin,
        i,
    )) is Some by {
        assert(order[i] < press.count);
        let t = press.first + order[i];
        assert(scene.board.has(t));
        assert(drag::key_of(origin, scene.board.tile(t)) is Some);
    }
}

/// A press let go of puts its tile back: the capture is given up, the tile is
/// drawn as it was, and everything goes back where the layout says. Losing the
/// capture to something else does the same and is no click.
pub proof fn a_press_let_go_of_puts_everything_back(s: SessionView, press: Press)
    requires
        s.state.press == Some(press),
    ensures
        events::uncaught(s).after == s.with(State { press: None, ..s.state }),
        events::uncaught(s).does == seq![
            Effect::ReleaseCapture,
            Effect::Repaint(press.tile),
            Effect::Reposition,
        ],
{
    reveal(events::uncaught);
}

/// Without a press there is nothing to drag and nothing to let go of.
pub proof fn nothing_pressed_is_nothing_dragged(
    s: SessionView,
    layout: Layout,
    x: int,
    y: int,
    slop: (int, int),
)
    requires
        s.state.press is None,
    ensures
        drag::dragging(s, layout, x, y, slop) == s.still(),
        events::uncaught(s) == s.still(),
{
    reveal(drag::dragging);
    reveal(events::uncaught);
}

/// Whether a tile can be taken away is whether it is a pin of the panel's own.
pub proof fn only_the_panels_own_pins_can_be_taken_away(
    board: crate::board::Board,
    tile: usize,
)
    ensures
        tiles::is_removable(board, tile) <==> tile < board.spots@.len() && board.tile(
            tile as int,
        ).origin == Source::Manual,
{
}

/// A tile is dragged among its own: every tile of its run is of its group, and
/// the run stops only at the ends of its band or at a tile of another group.
pub proof fn a_tile_is_dragged_among_its_own(
    s: SessionView,
    scene: Scene,
    tile: usize,
    x: int,
    y: int,
)
    requires
        scene.wf(),
    ensures
        ({
            let press = drag::press_on(s, scene, tile, x, y);
            let board = scene.board;
            press.band matches Some(b) ==> {
                let band = scene.layout.bands@[b as int];
                let end = press.first + press.count;
                &&& b < scene.layout.bands@.len()
                &&& band.first <= press.first <= tile < end <= band.first + band.count
                &&& forall|t: int|
                    press.first <= t < end ==> (#[trigger] board.tile(t)).group == board.tile(
                        tile as int,
                    ).group
                &&& press.first > band.first ==> board.tile(press.first - 1).group != board.tile(
                    tile as int,
                ).group
                &&& end < band.first + band.count && end < board.spots@.len() ==> board.tile(
                    end,
                ).group != board.tile(tile as int).group
            }
        }),
{
    let press = drag::press_on(s, scene, tile, x, y);
    if press.band is Some {
        a_tile_is_dragged_in_the_band_that_holds_it(scene.layout, tile as int, 0);
        let band = drag::owner_from(scene.layout, tile as int, 0)->0;
        assert(scene.layout.bands.len() == scene.layout.bands@.len());
        assert(press.band->0 == band);
        let owner = scene.layout.bands@[band];
        let groups = drag::groups(scene.board);
        assert(owner@.wf());
        assert(scene.board.spots.len() == groups.len());
        assert(order::same_source(groups, tile as int, tile as int));
        order::a_run_is_one_source_inside_one_band(
            groups,
            owner.first as int,
            owner.count as int,
            tile as int,
        );
        let end = press.first + press.count;
        assert forall|t: int| press.first <= t < end implies (#[trigger] scene.board.tile(t)).group
            == scene.board.tile(tile as int).group by {
            assert(order::same_source(groups, tile as int, t));
            assert(groups[t] == scene.board.tile(t).group);
        }
        if press.first > owner.first {
            assert(!order::same_source(groups, tile as int, press.first - 1));
        }
        if end < owner.first + owner.count && end < groups.len() {
            assert(!order::same_source(groups, tile as int, end));
        }
    }
}

/// A drop short of the middle of a box's first cell goes before all its tiles,
/// and a drop under its last row after them all.
pub proof fn a_drop_outside_a_box_goes_to_an_end_of_it(
    m: Metrics,
    band: layout::BandView,
    x: int,
    y: int,
)
    requires
        m.wf(),
        band.wf(),
    ensures
        2 * (x - band.cells.x) < m.tile_w && y < band.cells.y + m.step_y() ==> query::slot_under(
            m,
            band,
            x,
            y,
        ) == 0,
        y >= band.cells.y + band.cells.rows * m.step_y() ==> query::slot_under(m, band, x, y) == (
        if query::held(band.cells.filled) <= band.count {
            query::held(band.cells.filled)
        } else {
            band.count as nat
        }),
{
    let cells = band.cells;
    let (sx, sy) = (m.step_x(), m.step_y());
    if 2 * (x - cells.x) < m.tile_w && y < cells.y + sy {
        let (dx, dy) = (2 * (x - cells.x) + m.tile_w + 2 * m.gap, y - cells.y);
        assert(dx / (2 * sx) < 1) by (nonlinear_arith)
            requires
                dx < 2 * sx,
                sx > 0,
        ;
        assert(dy / sy < 1) by (nonlinear_arith)
            requires
                dy < sy,
                sy > 0,
        ;
        assert(query::row_under(m, cells, y) == 0 && query::column_under(m, cells, x) == 0);
        assert(0 * cells.cols == 0);
        assert(cells.filled.take(0) =~= Seq::empty());
    }
    if y >= cells.y + cells.rows * sy {
        let (rows, dy) = (cells.rows as int, y - cells.y);
        assert(dy / sy >= rows) by (nonlinear_arith)
            requires
                dy >= rows * sy,
                sy > 0,
        ;
        assert(query::row_under(m, cells, y) == rows);
        assert(cells.filled.take(cells.filled.len() as int) =~= cells.filled);
    }
}

} // verus!
