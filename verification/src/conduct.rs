//! What holds of every session, whatever reaches the window.

use vstd::prelude::*;
use crate::clicks;
use crate::drag;
use crate::events;
use crate::events::{Message, World};
use crate::keys;
use crate::keys::Key;
use crate::layout::Layout;
use crate::menu::Command;
use crate::model::{Mode, Target};
use crate::num;
use crate::order;
use crate::query;
use crate::scene;
use crate::scene::{EditOption, Scene};
use crate::session;
use crate::session::{Effect, Press, SessionView, State};
use crate::settings::Setting;

verus! {

/// One thing, or none.
pub open spec fn one(yes: bool) -> nat {
    if yes {
        1
    } else {
        0
    }
}

/// How many things there are for Escape to undo: the question, the settings,
/// the menu, the latch, what has been typed, and the panel itself.
pub open spec fn things_up(s: SessionView) -> nat {
    one(s.asking()) + one(s.state.settings_up) + one(s.state.menu_up) + one(s.state.stay)
        + one(s.query.len() > 0) + one(s.state.visible)
}

/// Each press of Escape on the grid undoes one thing, and the panel itself goes
/// last.
pub proof fn escape_undoes_one_thing(s: SessionView, scene: Scene, repeat: bool)
    requires
        s.state.visible,
        s.state.mode == Mode::Grid,
    ensures
        ({
            let after = keys::keying(s, scene, Key::Escape, repeat).0.after;
            &&& things_up(after) == things_up(s) - 1
            &&& after.state.visible == (things_up(s) > 1)
            &&& keys::keying(s, scene, Key::Escape, repeat).1
        }),
{
    reveal(keys::keying);
    reveal(session::escaping);
    reveal(session::hiding);
    reveal(session::querying);
}

/// With nothing up for it to undo, Escape is what dismisses the panel, and the
/// window it was summoned over comes back.
pub proof fn escape_dismisses_a_bare_panel(s: SessionView, scene: Scene, repeat: bool)
    requires
        s.state.visible,
        s.state.mode == Mode::Grid,
        !s.state.settings_up,
        !s.state.menu_up,
        !s.state.stay,
        s.query.len() == 0,
    ensures
        keys::keying(s, scene, Key::Escape, repeat) == (session::hiding(s, true), true),
        !session::hiding(s, true).after.state.visible,
{
    reveal(keys::keying);
    reveal(session::escaping);
    reveal(session::hiding);
}

/// Escape backs out of a mode before anything else, and leaves the panel up and
/// what was typed as it is.
pub proof fn escape_leaves_a_mode_first(s: SessionView, scene: Scene, repeat: bool)
    requires
        s.state.visible,
        s.state.mode != Mode::Grid,
    ensures
        ({
            let after = keys::keying(s, scene, Key::Escape, repeat).0.after;
            &&& after.state.mode == Mode::Grid
            &&& after.state.edit is None
            &&& after.state.visible
            &&& after.query == s.query
        }),
{
    reveal(keys::keying);
    reveal(keys::edit_keying);
    reveal(session::leaving);
    reveal(session::latching);
}

/// A mode is no one-way door: the square that turns one on turns it off again,
/// on whatever grid it then stands.
pub proof fn a_mode_square_turns_its_mode_on_and_off(
    s: SessionView,
    before: Scene,
    tile: usize,
    after: Scene,
    again: usize,
    mode: Mode,
)
    requires
        before.board.has(tile as int),
        before.board.tile(tile as int).target == Target::Mode(mode),
        after.board.has(again as int),
        after.board.tile(again as int).target == Target::Mode(mode),
        before.board.sections@.len() > 0,
        s.query.len() == 0,
        s.state.mode != mode,
    ensures
        ({
            let on = clicks::activating(s, before, tile).after;
            let off = clicks::activating(on, after, again).after;
            &&& on.state.mode == mode
            &&& off.state.mode == Mode::Grid
            &&& off.state.visible == s.state.visible
            &&& off.query == s.query
        }),
{
    reveal(clicks::activating);
    reveal(session::entering);
    reveal(session::unpointed);
    reveal(session::leaving);
    reveal(session::latching);
}

/// A mode that takes clicks never swallows its own square, wherever nothing is
/// drawn over it.
pub proof fn a_mode_never_swallows_its_own_square(
    s: SessionView,
    scene: Scene,
    tile: int,
    x: int,
    y: int,
)
    requires
        s.state.mode.takes_clicks(),
        !s.state.settings_up,
        !s.state.menu_up,
        !scene::over(scene.home, x, y),
        !scene::over(scene.plate, x, y),
        scene.tile_under(x, y, s.state.scroll as int) == Some(tile),
        scene.board.has(tile),
        scene.board.tile(tile).target == Target::Mode(s.state.mode),
        0 <= tile <= usize::MAX,
    ensures
        events::downing(s, scene, x, y).after.state.mode == Mode::Grid,
{
    reveal(events::downing);
    reveal(events::taken);
    reveal(clicks::mode_clicking);
    reveal(clicks::activating);
    reveal(session::leaving);
    reveal(session::latching);
}

/// The corner button leaves whatever mode is on, and the panel stays up.
pub proof fn the_corner_button_leaves_any_mode(s: SessionView)
    requires
        s.state.mode != Mode::Grid,
    ensures
        session::pressing_home(s).after.state.mode == Mode::Grid,
        session::pressing_home(s).after.state.visible == s.state.visible,
        session::pressing_home(s).after.query == s.query,
{
    reveal(session::pressing_home);
    reveal(session::leaving);
    reveal(session::latching);
}

/// Latching twice holds nothing: the latch is where it was, and nothing is
/// picked or waited for once it is off.
pub proof fn latching_twice_changes_the_latch_back(s: SessionView)
    ensures
        ({
            let twice = session::latching(session::latching(s).after).after;
            &&& twice.state.stay == s.state.stay
            &&& twice.state.target is None
            &&& twice.pending is None
        }),
{
    reveal(session::latching);
}

/// A character that was typed can be taken back, and one that is not taken
/// leaves nothing to take back.
pub proof fn a_typed_character_can_be_taken_back(typed: Seq<char>, c: char)
    requires
        !session::is_control(c),
    ensures
        ({
            let longer = session::typed(typed, c);
            if c == ' ' && typed.len() == 0 {
                longer == typed
            } else {
                session::typed(longer, '\u{8}') == typed
            }
        }),
{
    assert(typed.push(c).drop_last() =~= typed);
}

/// Nothing of one summoning is left for the next.
pub proof fn nothing_of_one_summoning_is_left_for_the_next(
    s: SessionView,
    restore: bool,
    front: Option<u64>,
)
    requires
        s.state.visible,
    ensures
        ({
            let gone = session::hiding(s, restore).after;
            let next = session::summoning(gone, front).after;
            &&& !gone.state.visible
            &&& next == (SessionView {
                state: State {
                    popup: s.state.popup,
                    caller: front,
                    ..State::hidden(s.state.own)
                },
                query: Seq::empty(),
                pending: None,
            })
        }),
{
    reveal(session::hiding);
    reveal(session::summoning);
}

/// A hidden panel has no keyboard: keys and characters are left to whoever has
/// one.
pub proof fn a_hidden_panel_has_no_keyboard(
    s: SessionView,
    scene: Scene,
    world: World,
    message: Message,
)
    requires
        !s.state.visible,
        message is KeyDown || message is Typed,
    ensures
        events::handled(s, scene, world, message) == (s.still(), false),
{
}

/// A drag is never a click: letting it go starts nothing and leaves the panel
/// up.
pub proof fn a_drag_is_never_a_click(s: SessionView, scene: Scene, press: Press, x: int, y: int)
    requires
        s.state.press == Some(press),
        press.dragging,
    ensures
        ({
            let up = events::upping(s, scene, x, y);
            &&& up.after == s.with(State { handled_down: false, press: None, ..s.state })
            &&& up.does == if press.band is Some {
                seq![Effect::ReleaseCapture, Effect::SaveOrder(press)]
            } else {
                drag::cancelling(press)
            }
        }),
{
    reveal(events::upping);
    reveal(events::lifted);
}

/// A click is done when the button comes up on the tile it went down on, and
/// nowhere else.
pub proof fn a_click_ends_on_the_tile_it_began_on(
    s: SessionView,
    scene: Scene,
    press: Press,
    x: int,
    y: int,
)
    requires
        s.state.press == Some(press),
        !press.dragging,
    ensures
        ({
            let up = s.with(State { handled_down: false, press: None, ..s.state });
            let on = scene.tile_under(x, y, s.state.scroll as int) == Some(press.tile as int);
            events::upping(s, scene, x, y).after == if on {
                clicks::activating(up, scene, press.tile).after
            } else {
                up
            }
        }),
{
    reveal(events::upping);
    reveal(events::lifted);
}

/// What the button going down already did is not done again when it comes up.
pub proof fn a_handled_click_is_done_once(s: SessionView, scene: Scene, x: int, y: int)
    requires
        s.state.handled_down,
        s.state.press is None,
    ensures
        events::upping(s, scene, x, y) == s.with(
            State { handled_down: false, ..s.state },
        ).still(),
{
    reveal(events::upping);
    reveal(events::lifted);
    assert(s.with(State { handled_down: false, press: None, ..s.state }) == s.with(
        State { handled_down: false, ..s.state },
    ));
}

/// The panel never asks its own window to close.
pub proof fn the_panel_never_closes_itself(s: SessionView, scene: Scene, tile: usize)
    ensures
        !clicks::closing(s, scene, tile).does.contains(Effect::Close(s.state.own)),
        clicks::closing(s, scene, tile).after == s,
{
    reveal(clicks::closing);
}

/// What the config says already is not written again: a box asked into the lane
/// it is in, or to show as many tiles as it does.
pub proof fn what_the_config_says_is_not_written_again(
    s: SessionView,
    scene: Scene,
    option: EditOption,
    count: nat,
)
    ensures
        option.put_in() is Some && scene.spelled == option.put_in() ==> clicks::applying(
            s,
            scene,
            option,
        ) == s.still(),
        clicks::edited(s, scene.board) matches Some((title, _)) && clicks::cap_from(
            scene.config.sections@,
            title,
            0,
        ) == count ==> clicks::show_count(s, scene, count).len() == 0,
{
    reveal(clicks::applying);
}

/// Hovering changes nothing but what is lit: not the mode, not the selection,
/// not what is typed.
pub proof fn hovering_only_lights(s: SessionView, to: Option<usize>)
    ensures
        session::hovering(s, to).after == s.with(State { hover: to, ..s.state }),
        forall|i: int|
            0 <= i < session::hovering(s, to).does.len() ==> {
                let effect = #[trigger] session::hovering(s, to).does[i];
                effect is Repaint || effect is RefreshLanding
            },
{
    if s.state.hover == to {
        assert(s.with(State { hover: to, ..s.state }) == s);
    }
}

/// What every session keeps to: its offset can be measured, a press taken on
/// the panel still fits it, columns are held only while something is typed, and
/// the reset question never waits across a close of the settings.
pub open spec fn sound(s: SessionView, layout: Layout) -> bool {
    &&& query::measured(s.state.scroll as int)
    &&& s.state.press matches Some(press) ==> drag::fits(press, layout)
    &&& s.query.len() == 0 ==> s.state.frozen_cols == 0
    &&& s.state.asking_reset ==> s.state.settings_up
}

/// What is true of most of what a session does: it lets go of things or leaves
/// them as they are.
spec fn eases(s: SessionView, t: SessionView) -> bool {
    &&& t.state.scroll == s.state.scroll || t.state.scroll == 0
    &&& t.state.press == s.state.press || t.state.press is None
    &&& (t.query == s.query && t.state.frozen_cols == s.state.frozen_cols) || (t.query.len() == 0
        && t.state.frozen_cols == 0)
    &&& (t.state.asking_reset ==> t.state.settings_up) || (t.state.asking_reset
        == s.state.asking_reset && t.state.settings_up == s.state.settings_up)
}

proof fn lemma_surfaces(s: SessionView, scene: Scene, mode: Mode, restore: bool)
    ensures
        eases(s, session::latching(s).after),
        eases(s, session::leaving(s).after),
        eases(s, session::entering(s, scene.board.sections@.len() > 0, mode).after),
        eases(s, session::hiding(s, restore).after),
        eases(s, session::pressing_home(s).after),
{
    reveal(session::latching);
    reveal(session::leaving);
    reveal(session::entering);
    reveal(session::unpointed);
    reveal(session::hiding);
    reveal(session::pressing_home);
}

proof fn lemma_going(s: SessionView, scene: Scene, tile: usize)
    ensures
        eases(s, clicks::going(s, scene.config.dry_run, tile).after),
        eases(s, clicks::picking(s, scene.board, scene.config.dry_run, tile).after),
{
    reveal(clicks::going);
    reveal(clicks::picking);
    reveal(session::hiding);
}

proof fn lemma_boxing(s: SessionView, scene: Scene, x: int, y: int, tile: usize)
    ensures
        eases(s, clicks::boxing(s, scene, x, y).after),
        eases(s, clicks::closing(s, scene, tile).after),
{
    reveal(clicks::boxing);
    reveal(clicks::closing);
}

proof fn lemma_activating(s: SessionView, scene: Scene, tile: usize)
    ensures
        eases(s, clicks::activating(s, scene, tile).after),
{
    reveal(clicks::activating);
    reveal(clicks::arranging);
    lemma_going(s, scene, tile);
    lemma_surfaces(s, scene, Mode::Favorites, true);
    if scene.board.has(tile as int) {
        if let Target::Mode(mode) = scene.board.tile(tile as int).target {
            lemma_surfaces(s, scene, mode, true);
        }
    }
}

proof fn lemma_mode_clicking(s: SessionView, scene: Scene, x: int, y: int)
    ensures
        eases(s, clicks::mode_clicking(s, scene, x, y).after),
{
    reveal(clicks::mode_clicking);
    reveal(clicks::edit_clicking);
    reveal(clicks::applying);
    reveal(clicks::favoring);
    lemma_surfaces(s, scene, Mode::Grid, true);
    lemma_boxing(s, scene, x, y, 0);
    if let Some(tile) = scene.tile_under(x, y, s.state.scroll as int) {
        lemma_activating(s, scene, tile as usize);
        lemma_boxing(s, scene, x, y, tile as usize);
    }
}

proof fn lemma_commands(s: SessionView, scene: Scene, setting: Setting, command: Command)
    ensures
        s.state.settings_up ==> eases(s, clicks::setting(s, scene.config, setting).after),
        eases(s, clicks::command(s, scene.board.sections@.len() > 0, command).after),
{
    reveal(clicks::setting);
    reveal(clicks::command);
    let closed = s.with(State { menu_up: false, ..s.state });
    if let Some(mode) = command.mode() {
        lemma_surfaces(closed, scene, mode, true);
    }
}

/// A press taken on the panel fits it.
pub proof fn a_press_fits_the_panel_it_was_taken_on(
    s: SessionView,
    scene: Scene,
    tile: usize,
    x: int,
    y: int,
)
    requires
        scene.wf(),
        query::measured(s.state.scroll as int),
        query::measured(x),
        query::measured(y),
    ensures
        drag::fits(drag::press_on(s, scene, tile, x, y), scene.layout),
{
    if tile < scene.layout.tiles@.len() {
        assert(scene.layout.tiles@[tile as int].near_enough());
    }
    if let Some((band, first, count)) = drag::drag_run(scene, s.query, tile) {
        lemma_owner_owns(scene.layout, tile as int, 0);
        let owner = scene.layout.bands@[band];
        assert(scene.layout.bands@[band]@.wf());
        let groups = drag::groups(scene.board);
        assert(order::same_source(groups, tile as int, tile as int));
        order::a_run_is_one_source_inside_one_band(
            groups,
            owner.first as int,
            owner.count as int,
            tile as int,
        );
        assert(scene.layout.bands.len() == scene.layout.bands@.len());
        assert(scene.board.spots.len() == groups.len());
        assert(first + count <= groups.len());
    }
}

proof fn lemma_owner_owns(layout: Layout, tile: int, from: int)
    requires
        0 <= from,
    ensures
        drag::owner_from(layout, tile, from) matches Some(band) ==> 0 <= band
            < layout.bands@.len() && layout.owns(band, tile),
    decreases layout.bands@.len() - from,
{
    if from < layout.bands@.len() && !layout.owns(from, tile) {
        lemma_owner_owns(layout, tile, from + 1);
    }
}

proof fn lemma_downing(s: SessionView, scene: Scene, x: int, y: int)
    requires
        scene.wf(),
        sound(s, scene.layout),
        query::measured(x),
        query::measured(y),
    ensures
        sound(events::downing(s, scene, x, y).after, scene.layout),
{
    reveal(events::downing);
    reveal(events::taken);
    reveal(events::settings_away);
    reveal(events::menu_away);
    reveal(drag::pressing);
    let taken = s.with(State { handled_down: true, ..s.state });
    lemma_surfaces(taken, scene, Mode::Grid, true);
    lemma_mode_clicking(taken, scene, x, y);
    if let Some(i) = scene::square_from(scene.settings@, x, y, 0) {
        lemma_commands(taken, scene, scene.settings@[i].0, Command::Close);
    }
    if let Some(i) = scene::square_from(scene.menu@, x, y, 0) {
        lemma_commands(taken, scene, Setting::Done, scene.menu@[i].0);
    }
    if let Some(tile) = scene.tile_under(x, y, s.state.scroll as int) {
        a_press_fits_the_panel_it_was_taken_on(s, scene, tile as usize, x, y);
    }
}

proof fn lemma_upping(s: SessionView, scene: Scene, x: int, y: int)
    requires
        sound(s, scene.layout),
    ensures
        sound(events::upping(s, scene, x, y).after, scene.layout),
{
    reveal(events::upping);
    reveal(events::lifted);
    let up = s.with(State { handled_down: false, press: None, ..s.state });
    lemma_surfaces(up, scene, Mode::Grid, true);
    if let Some(press) = s.state.press {
        lemma_activating(up, scene, press.tile);
    }
}

proof fn lemma_scrolling(s: SessionView, layout: Layout, to: int)
    requires
        layout.wf(),
        sound(s, layout),
    ensures
        sound(keys::scrolling(s, layout, to).after, layout),
{
    reveal(keys::scrolling);
}

proof fn lemma_choosing(s: SessionView, layout: Layout, len: nat, index: int)
    requires
        layout.wf(),
        sound(s, layout),
    ensures
        sound(keys::choosing(s, layout, len, index).after, layout),
{
    reveal(keys::choosing);
    reveal(keys::scrolling);
}

proof fn lemma_keying(s: SessionView, scene: Scene, key: Key, repeat: bool)
    requires
        scene.wf(),
        sound(s, scene.layout),
    ensures
        sound(keys::keying(s, scene, key, repeat).0.after, scene.layout),
{
    reveal(keys::keying);
    reveal(keys::edit_keying);
    reveal(keys::moving);
    let len = scene.board.spots@.len();
    let row = num::larger(scene.layout.cols as int, 1);
    lemma_surfaces(s, scene, Mode::Grid, true);
    if let Some(tile) = s.state.selected {
        lemma_activating(s, scene, tile);
    }
    if let Some(option) = keys::arrow_option(key) {
        lemma_applying(s, scene, option);
    }
    lemma_escaping(s, scene.layout);
    lemma_choosing(s, scene.layout, len, 0);
    lemma_choosing(s, scene.layout, len, usize::MAX as int);
    lemma_choosing(s, scene.layout, len, keys::stepped(s.state.selected, len, -1));
    lemma_choosing(s, scene.layout, len, keys::stepped(s.state.selected, len, 1));
    lemma_choosing(s, scene.layout, len, keys::stepped(s.state.selected, len, -row));
    lemma_choosing(s, scene.layout, len, keys::stepped(s.state.selected, len, row));
}

proof fn lemma_applying(s: SessionView, scene: Scene, option: EditOption)
    ensures
        eases(s, clicks::applying(s, scene, option).after),
{
    reveal(clicks::applying);
    lemma_surfaces(s, scene, Mode::Grid, true);
}

proof fn lemma_querying(s: SessionView, layout: Layout, to: Seq<char>)
    requires
        sound(s, layout),
    ensures
        sound(session::querying(s, layout.cols, to).after, layout),
{
    reveal(session::querying);
}

proof fn lemma_escaping(s: SessionView, layout: Layout)
    requires
        sound(s, layout),
    ensures
        sound(session::escaping(s, layout.cols).after, layout),
{
    reveal(session::escaping);
    reveal(session::hiding);
    lemma_querying(s, layout, Seq::empty());
}

proof fn lemma_dragging(s: SessionView, layout: Layout, x: int, y: int, slop: (int, int))
    requires
        sound(s, layout),
    ensures
        sound(drag::dragging(s, layout, x, y, slop).after, layout),
{
    reveal(drag::dragging);
}

proof fn lemma_pointing(s: SessionView, scene: Scene, x: int, y: int)
    ensures
        eases(s, events::pointing(s, scene, x, y).after),
        eases(s, events::departing(s).after),
{
    reveal(events::pointing);
    reveal(events::over_top);
    reveal(events::departing);
}

proof fn lemma_toggling(s: SessionView, world: World)
    ensures
        eases(s, session::toggling(s, world.front, world.neutralized).after),
        eases(s, events::settling(s, world.front).after),
        eases(s, events::blurring(s).0.after),
        eases(s, events::following(s).after),
{
    reveal(session::toggling);
    reveal(session::summoning);
    reveal(session::hiding);
    reveal(events::settling);
    reveal(events::blurring);
    reveal(events::following);
}

/// Whatever reaches the window, a session keeps to what every session keeps to.
pub proof fn every_message_leaves_a_sound_session(
    s: SessionView,
    scene: Scene,
    world: World,
    message: Message,
)
    requires
        scene.wf(),
        sound(s, scene.layout),
    ensures
        sound(events::handled(s, scene, world, message).0.after, scene.layout),
{
    lemma_toggling(s, world);
    match message {
        Message::MouseMove { x, y } => {
            let (x, y) = (events::pixels(x), events::pixels(y));
            let slop = (events::pixels(world.slop.0), events::pixels(world.slop.1));
            lemma_dragging(s, scene.layout, x, y, slop);
            lemma_pointing(s, scene, x, y);
        },
        Message::MouseLeave => {
            lemma_pointing(s, scene, 0, 0);
        },
        Message::ButtonDown { x, y } => {
            lemma_downing(s, scene, events::pixels(x), events::pixels(y));
        },
        Message::ButtonUp { x, y } => {
            lemma_upping(s, scene, events::pixels(x), events::pixels(y));
        },
        Message::Wheel(turn) => {
            lemma_scrolling(s, scene.layout, s.state.scroll - events::pixels(turn));
        },
        Message::KeyDown { key, repeat } => {
            lemma_keying(s, scene, key, repeat);
        },
        Message::Typed(c) => {
            reveal(session::typing);
            lemma_querying(s, scene.layout, session::typed(s.query, c));
        },
        Message::RightUp { .. } => {
            reveal(events::popping);
        },
        Message::CaptureLost => {
            reveal(events::uncaught);
        },
        _ => {},
    }
}

} // verus!
