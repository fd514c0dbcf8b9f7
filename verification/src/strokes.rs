//! What each key comes to.

use vstd::prelude::*;
use crate::clicks;
use crate::geometry::PX;
use crate::keys;
use crate::keys::Key;
use crate::layout::Layout;
use crate::model::Mode;
use crate::scene::{EditOption, Scene};
use crate::session;
use crate::session::{Effect, SessionView, State};

verus! {

/// Nothing but what is scrolled.
pub open spec fn only_scrolled(before: SessionView, after: SessionView) -> bool {
    &&& after.state == (State { scroll: after.state.scroll, ..before.state })
    &&& after.query == before.query
    &&& after.pending == before.pending
}

proof fn lemma_revealed(s: SessionView, layout: Layout, index: int)
    ensures
        only_scrolled(s, keys::revealing(s, layout, index).after),
{
    reveal(keys::scrolling);
}

proof fn lemma_chosen(s: SessionView, layout: Layout, len: nat, index: int)
    requires
        0 <= index,
        0 < len <= usize::MAX,
    ensures
        ({
            let after = keys::choosing(s, layout, len, index).after;
            let tile = if index < len {
                index
            } else {
                len - 1
            };
            &&& after.state == (State {
                selected: Some(tile as usize),
                scroll: after.state.scroll,
                ..s.state
            })
            &&& after.query == s.query
            &&& after.pending == s.pending
        }),
{
    reveal(keys::choosing);
    let tile = if index < len {
        index
    } else {
        len - 1
    };
    let chosen = session::selecting(s, Some(tile as usize));
    lemma_revealed(chosen.after, layout, tile);
}

/// Outside layout editing an arrow moves the selection: Left and Right by one
/// tile, Up and Down by a row of the panel's columns, and never off either end.
/// Nothing but the selection and what is scrolled changes, and the key is
/// claimed.
pub proof fn an_arrow_moves_by_a_tile_or_a_row(
    s: SessionView,
    scene: Scene,
    repeat: bool,
    tile: usize,
)
    requires
        s.state.mode != Mode::Layout,
        s.state.selected == Some(tile),
        tile < scene.board.spots@.len() <= usize::MAX,
    ensures
        ({
            let last = scene.board.spots@.len() - 1;
            let row = if scene.layout.cols >= 1 {
                scene.layout.cols as int
            } else {
                1
            };
            let at = |key: Key| keys::keying(s, scene, key, repeat).0.after.state.selected;
            &&& at(Key::Left) == Some((if tile >= 1 {
                tile - 1
            } else {
                0
            }) as usize)
            &&& at(Key::Right) == Some((if tile + 1 <= last {
                tile + 1
            } else {
                last
            }) as usize)
            &&& at(Key::Up) == Some((if tile >= row {
                tile - row
            } else {
                0
            }) as usize)
            &&& at(Key::Down) == Some((if tile + row <= last {
                tile + row
            } else {
                last
            }) as usize)
        }),
        forall|key: Key|
            key == Key::Left || key == Key::Right || key == Key::Up || key == Key::Down ==> {
                let (turn, claimed) = #[trigger] keys::keying(s, scene, key, repeat);
                &&& claimed
                &&& turn.after.query == s.query
                &&& turn.after.pending == s.pending
                &&& turn.after.state == (State {
                    selected: turn.after.state.selected,
                    scroll: turn.after.state.scroll,
                    ..s.state
                })
            },
{
    reveal(keys::keying);
    reveal(keys::moving);
    let len = scene.board.spots@.len();
    let row = if scene.layout.cols >= 1 {
        scene.layout.cols as int
    } else {
        1
    };
    lemma_chosen(s, scene.layout, len, keys::stepped(s.state.selected, len, -1));
    lemma_chosen(s, scene.layout, len, keys::stepped(s.state.selected, len, 1));
    lemma_chosen(s, scene.layout, len, keys::stepped(s.state.selected, len, -row));
    lemma_chosen(s, scene.layout, len, keys::stepped(s.state.selected, len, row));
}

/// Up never leaves a later tile selected than was, and Down never an earlier
/// one; and a step there and back ends where it began wherever neither end of
/// the grid was met.
pub proof fn an_arrow_and_its_opposite_undo_each_other(
    s: SessionView,
    scene: Scene,
    repeat: bool,
    tile: usize,
)
    requires
        s.state.mode != Mode::Layout,
        s.state.selected == Some(tile),
        tile < scene.board.spots@.len() <= usize::MAX,
    ensures
        ({
            let row = if scene.layout.cols >= 1 {
                scene.layout.cols as int
            } else {
                1
            };
            let up = keys::keying(s, scene, Key::Up, repeat).0.after;
            let down = keys::keying(s, scene, Key::Down, repeat).0.after;
            let left = keys::keying(s, scene, Key::Left, repeat).0.after;
            let right = keys::keying(s, scene, Key::Right, repeat).0.after;
            &&& up.state.selected->0 <= tile <= down.state.selected->0
            &&& left.state.selected->0 <= tile <= right.state.selected->0
            &&& tile >= row ==> keys::keying(
                up,
                scene,
                Key::Down,
                repeat,
            ).0.after.state.selected == Some(tile)
            &&& tile + row < scene.board.spots@.len() ==> keys::keying(
                down,
                scene,
                Key::Up,
                repeat,
            ).0.after.state.selected == Some(tile)
            &&& tile >= 1 ==> keys::keying(
                left,
                scene,
                Key::Right,
                repeat,
            ).0.after.state.selected == Some(tile)
            &&& tile + 1 < scene.board.spots@.len() ==> keys::keying(
                right,
                scene,
                Key::Left,
                repeat,
            ).0.after.state.selected == Some(tile)
        }),
{
    an_arrow_moves_by_a_tile_or_a_row(s, scene, repeat, tile);
    let up = keys::keying(s, scene, Key::Up, repeat).0.after;
    let down = keys::keying(s, scene, Key::Down, repeat).0.after;
    let left = keys::keying(s, scene, Key::Left, repeat).0.after;
    let right = keys::keying(s, scene, Key::Right, repeat).0.after;
    an_arrow_moves_by_a_tile_or_a_row(up, scene, repeat, up.state.selected->0);
    an_arrow_moves_by_a_tile_or_a_row(down, scene, repeat, down.state.selected->0);
    an_arrow_moves_by_a_tile_or_a_row(left, scene, repeat, left.state.selected->0);
    an_arrow_moves_by_a_tile_or_a_row(right, scene, repeat, right.state.selected->0);
}

/// With nothing selected an arrow starts at an end of the grid: the first tile
/// going on, the last going back. Home and End name those ends, whatever was
/// selected. On an empty grid none of them does anything.
pub proof fn the_ends_of_the_grid_are_where_walking_starts(
    s: SessionView,
    scene: Scene,
    repeat: bool,
)
    requires
        s.state.mode != Mode::Layout,
        scene.board.spots@.len() <= usize::MAX,
    ensures
        ({
            let len = scene.board.spots@.len();
            let at = |key: Key| keys::keying(s, scene, key, repeat).0.after.state.selected;
            &&& len > 0 ==> at(Key::Home) == Some(0usize)
            &&& len > 0 ==> at(Key::End) == Some((len - 1) as usize)
            &&& len > 0 && s.state.selected is None ==> {
                &&& at(Key::Right) == Some(0usize)
                &&& at(Key::Down) == Some(0usize)
                &&& at(Key::Left) == Some((len - 1) as usize)
                &&& at(Key::Up) == Some((len - 1) as usize)
            }
            &&& len == 0 ==> forall|key: Key|
                key == Key::Left || key == Key::Right || key == Key::Up || key == Key::Down || key
                    == Key::Home || key == Key::End ==> #[trigger] keys::keying(
                    s,
                    scene,
                    key,
                    repeat,
                ) == (s.still(), true)
        }),
{
    reveal(keys::keying);
    reveal(keys::moving);
    let len = scene.board.spots@.len();
    if len > 0 {
        lemma_chosen(s, scene.layout, len, 0);
        lemma_chosen(s, scene.layout, len, len - 1);
        lemma_chosen(s, scene.layout, len, usize::MAX as int);
    } else {
        reveal(keys::choosing);
    }
}

/// Enter on the grid is a click on the selected tile, and nothing where none is
/// selected. Escape and Control never move the selection onto a tile, and a key
/// the panel does not know is left alone.
pub proof fn enter_is_a_click_on_the_selected_tile(s: SessionView, scene: Scene, repeat: bool)
    requires
        s.state.mode != Mode::Layout,
    ensures
        s.state.selected matches Some(tile) ==> keys::keying(s, scene, Key::Enter, repeat) == (
            clicks::activating(s, scene, tile),
            true,
        ),
        s.state.selected is None ==> keys::keying(s, scene, Key::Enter, repeat) == (
            s.still(),
            true,
        ),
        keys::keying(s, scene, Key::Other, repeat) == (s.still(), false),
{
    reveal(keys::keying);
}

/// Control is the latch, once a press: held down it does nothing more, and
/// pressed again it lets go of what it held.
pub proof fn control_latches_once_a_press(s: SessionView, scene: Scene)
    requires
        s.state.mode != Mode::Layout,
    ensures
        keys::keying(s, scene, Key::Control, true) == (s.still(), true),
        ({
            let (turn, claimed) = keys::keying(s, scene, Key::Control, false);
            &&& claimed
            &&& turn.after.state.stay == !s.state.stay
            &&& s.state.stay ==> turn.after.state.target is None && turn.after.pending is None
            &&& !s.state.stay ==> turn.after.state.target == s.state.target && turn.after.pending
                == s.pending
            &&& turn.after.state.mode == s.state.mode
            &&& turn.after.state.visible == s.state.visible
            &&& turn.after.query == s.query
            &&& turn.does == seq![Effect::FrameTarget, Effect::Rebuild]
        }),
{
    reveal(keys::keying);
    reveal(session::latching);
}

/// A scroll goes where it is asked, kept to what there is to scroll: no further
/// up than the top, no further down than the foot, nowhere on a panel that fits,
/// and not at all for less than half a pixel. Nothing else changes.
pub proof fn a_scroll_goes_where_it_is_asked(s: SessionView, layout: Layout, to: int)
    requires
        0 <= layout.max_scroll,
        0 <= s.state.scroll <= layout.max_scroll,
    ensures
        ({
            let turn = keys::scrolling(s, layout, to);
            let at = turn.after.state.scroll;
            &&& turn.after == s.with(State { scroll: at, ..s.state })
            &&& 0 <= at <= layout.max_scroll
            &&& 0 <= to <= layout.max_scroll ==> -PX < 2 * (at - to) < PX
            &&& to < 0 ==> 2 * at < PX
            &&& to > layout.max_scroll ==> 2 * (layout.max_scroll - at) < PX
            &&& at == s.state.scroll || at == to || (to < 0 && at == 0) || (to
                > layout.max_scroll && at == layout.max_scroll)
            &&& turn.does == if at == s.state.scroll {
                Seq::<Effect>::empty()
            } else {
                seq![Effect::Reposition]
            }
        }),
{
    reveal(keys::scrolling);
}

/// While the bento is rearranged, Escape and Enter leave the mode, and with a
/// box picked an arrow takes the option its way: across is the lane on that
/// side, up is earlier in the list, and down is later. It is claimed whether or
/// not it applies, and nothing else is.
pub proof fn an_arrow_takes_the_option_its_way(
    s: SessionView,
    scene: Scene,
    key: Key,
    option: EditOption,
    repeat: bool,
)
    requires
        s.state.mode == Mode::Layout,
    ensures
        key == Key::Escape || key == Key::Enter ==> keys::keying(s, scene, key, repeat) == (
            session::leaving(s),
            true,
        ),
        s.state.edit is Some && ((key == Key::Left && option == EditOption::Left) || (key
            == Key::Right && option == EditOption::Right) || (key == Key::Up && option
            == EditOption::MoveUp) || (key == Key::Down && option == EditOption::MoveDown)) ==> {
            let (turn, claimed) = keys::keying(s, scene, key, repeat);
            &&& claimed
            &&& (forall|i: int|
                0 <= i < scene.options@.len() && (#[trigger] scene.options@[i]).option == option
                    ==> scene.options@[i].allowed) && (exists|i: int|
                0 <= i < scene.options@.len() && (#[trigger] scene.options@[i]).option == option)
                ==> turn == clicks::applying(s, scene, option)
            &&& (forall|i: int|
                0 <= i < scene.options@.len() && (#[trigger] scene.options@[i]).option == option
                    ==> !scene.options@[i].allowed) ==> turn == s.still()
        },
        key == Key::Control || key == Key::Home || key == Key::End || key == Key::Other
            ==> keys::keying(s, scene, key, repeat) == (s.still(), false),
        s.state.edit is None && (key == Key::Up || key == Key::Down) ==> keys::keying(
            s,
            scene,
            key,
            repeat,
        ) == (s.still(), false),
{
    reveal(keys::keying);
    reveal(keys::edit_keying);
    lemma_offered(scene, option, 0);
}

proof fn lemma_offered(scene: Scene, option: EditOption, from: int)
    requires
        0 <= from <= scene.options@.len(),
    ensures
        ({
            let options = scene.options@;
            let offered = crate::scene::offered_from(options, option, from);
            &&& (forall|i: int|
                from <= i < options.len() && (#[trigger] options[i]).option == option
                    ==> !options[i].allowed) ==> !offered
            &&& (forall|i: int|
                from <= i < options.len() && (#[trigger] options[i]).option == option
                    ==> options[i].allowed) && (exists|i: int|
                from <= i < options.len() && (#[trigger] options[i]).option == option) ==> offered
        }),
    decreases scene.options@.len() - from,
{
    if from < scene.options@.len() && scene.options@[from].option != option {
        lemma_offered(scene, option, from + 1);
    }
}

/// With no box picked, Left and Right walk the boxes on screen: one on or one
/// back from the box that is picked, the first or the last of them where the
/// list ends, and none of the centre block's.
pub proof fn arrows_walk_the_boxes(s: SessionView, boxes: Seq<usize>, at: int)
    requires
        0 <= at < boxes.len(),
        s.state.edit == Some(boxes[at]),
        forall|i: int, j: int|
            0 <= i < boxes.len() && 0 <= j < boxes.len() && i != j ==> #[trigger] boxes[i]
                != #[trigger] boxes[j],
    ensures
        keys::stepping(s, boxes, 1).after.state.edit == Some(boxes[if at + 1 < boxes.len() {
            at + 1
        } else {
            at
        }]),
        keys::stepping(s, boxes, -1).after.state.edit == Some(boxes[if at > 0 {
            at - 1
        } else {
            0
        }]),
        keys::stepping(s, boxes, 1).does == seq![Effect::Rebuild],
        keys::stepping(s, boxes, -1).does == seq![Effect::Rebuild],
{
    lemma_box_place(boxes, at, 0);
}

proof fn lemma_box_place(boxes: Seq<usize>, at: int, from: int)
    requires
        0 <= from <= at < boxes.len(),
        forall|i: int, j: int|
            0 <= i < boxes.len() && 0 <= j < boxes.len() && i != j ==> #[trigger] boxes[i]
                != #[trigger] boxes[j],
    ensures
        keys::box_place(boxes, boxes[at], from) == Some(at),
    decreases at - from,
{
    if from < at {
        assert(boxes[from] != boxes[at]);
        lemma_box_place(boxes, at, from + 1);
    }
}

/// With no box picked yet, Right comes to the second box and Left to the first,
/// and a panel of one box has only that one to come to.
pub proof fn walking_the_boxes_starts_at_the_first(s: SessionView, boxes: Seq<usize>)
    requires
        s.state.edit is None,
    ensures
        boxes.len() == 0 ==> keys::stepping(s, boxes, 1) == s.still() && keys::stepping(
            s,
            boxes,
            -1,
        ) == s.still(),
        boxes.len() > 0 ==> keys::stepping(s, boxes, -1).after.state.edit == Some(boxes[0]),
        boxes.len() == 1 ==> keys::stepping(s, boxes, 1).after.state.edit == Some(boxes[0]),
        boxes.len() > 1 ==> keys::stepping(s, boxes, 1).after.state.edit == Some(boxes[1]),
{
}

/// The boxes the arrows walk are the ones on screen that are not the centre
/// block's, in the order they are drawn.
pub proof fn the_boxes_walked_are_those_outside_the_block(scene: Scene, n: nat)
    requires
        n <= scene.layout.bands@.len(),
    ensures
        scene.boxes_upto(n) == scene.layout.bands@.take(n as int).filter(outside()).map_values(
            section_of(),
        ),
    decreases n,
{
    reveal(Seq::filter);
    let bands = scene.layout.bands@;
    if n == 0 {
        assert(bands.take(0) =~= Seq::empty());
        assert(scene.boxes_upto(0) =~= bands.take(0).filter(outside()).map_values(section_of()));
    } else {
        the_boxes_walked_are_those_outside_the_block(scene, (n - 1) as nat);
        assert(bands.take(n as int).drop_last() =~= bands.take(n - 1));
        assert(bands.take(n as int).last() == bands[n - 1]);
        assert(scene.boxes_upto(n) =~= bands.take(n as int).filter(outside()).map_values(
            section_of(),
        ));
    }
}

/// Not being half of the centre block.
pub open spec fn outside() -> spec_fn(crate::layout::Band) -> bool {
    |band: crate::layout::Band| !band.center
}

/// The section a band shows.
pub open spec fn section_of() -> spec_fn(crate::layout::Band) -> usize {
    |band: crate::layout::Band| band.section
}

/// A tile is brought on screen by the nearest way: one that is there stays where
/// it is, one above what is shown comes just under the strip, and one below it
/// just above the foot, to within half a pixel.
pub proof fn a_tile_comes_on_screen_the_nearest_way(s: SessionView, layout: Layout, index: int)
    requires
        layout.wf(),
        0 <= s.state.scroll <= layout.max_scroll,
        0 <= index < layout.tiles@.len(),
        layout.tiles@[index].h >= 0,
    ensures
        ({
            let tile = layout.tiles@[index];
            let (top, foot) = (tile.y - s.state.scroll, tile.y + tile.h - s.state.scroll);
            let strip = if layout.metrics.search_h <= layout.panel.h {
                layout.metrics.search_h as int
            } else {
                layout.panel.h as int
            };
            let turn = keys::revealing(s, layout, index);
            let (up, down) = (tile.y - strip, tile.y + tile.h - layout.panel.h);
            &&& strip <= top && foot <= layout.panel.h ==> turn == s.still()
            &&& top < strip && 0 <= up ==> -PX < 2 * (turn.after.state.scroll - up) < PX
            &&& strip <= top && layout.panel.h < foot && down <= layout.max_scroll ==> -PX < 2 * (
            turn.after.state.scroll - down) < PX
        }),
{
    reveal(keys::scrolling);
    assert(layout.tiles@[index].near_enough());
}

} // verus!
