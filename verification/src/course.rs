//! How a session goes, from one thing that reaches it to the next.

use vstd::prelude::*;
use crate::clicks;
use crate::drag;
use crate::events;
use crate::events::{Message, TrayClick, World};
use crate::finds;
use crate::keys;
use crate::keys::Key;
use crate::model::Mode;
use crate::scene;
use crate::scene::Scene;
use crate::session;
use crate::session::{Effect, SessionView, State};

verus! {

/// A mode comes up bare: it is on, no box is picked, no list aimed at, no tile
/// pointed at or selected. The one that moves windows latches the panel open.
/// Nothing is entered while something is typed, nor with no box on the panel.
pub proof fn a_mode_comes_up_bare(s: SessionView, boxed: bool, mode: Mode)
    ensures
        s.query.len() > 0 || !boxed ==> session::entering(s, boxed, mode) == s.still(),
        s.query.len() == 0 && boxed ==> {
            let after = session::entering(s, boxed, mode).after;
            &&& after.state == (State {
                mode,
                edit: None,
                filling: None,
                hover: None,
                selected: None,
                stay: s.state.stay || mode == Mode::Move,
                hover_option: None,
                hover_menu: None,
                hover_setting: None,
                hover_home: false,
                ..s.state
            })
            &&& after.query == s.query
            &&& after.pending == s.pending
        },
{
    reveal(session::entering);
    reveal(session::unpointed);
}

proof fn lemma_unpointed(s: SessionView, effect: Effect)
    requires
        session::unpointed(s).does.contains(effect),
    ensures
        effect is Repaint || effect is RefreshLanding,
{
    reveal(session::unpointed);
}

/// A mode asks for what it shows on the way in: the one that moves windows has
/// its target framed, and the one with every bookmark has them fetched. Then the
/// panel is read, made and put in its place anew.
pub proof fn a_mode_asks_for_what_it_shows(s: SessionView, mode: Mode)
    requires
        s.query.len() == 0,
    ensures
        ({
            let does = session::entering(s, true, mode).does;
            let n = does.len() as int;
            &&& n >= 3
            &&& does[n - 3] == Effect::Reload
            &&& does[n - 2] == Effect::Rebuild
            &&& does[n - 1] == Effect::Reposition
            &&& mode == Mode::Move ==> does[0] == Effect::FrameTarget
            &&& mode == Mode::AllBookmarks ==> does[0] == Effect::WantTree
            &&& does.contains(Effect::FrameTarget) ==> mode == Mode::Move
            &&& does.contains(Effect::WantTree) ==> mode == Mode::AllBookmarks
        }),
{
    reveal(session::entering);
    let does = session::entering(s, true, mode).does;
    let bare = session::unpointed(session::switched(s, mode)).does;
    let asked = session::asking(mode);
    let last = seq![Effect::Reload, Effect::Rebuild, Effect::Reposition];
    assert(does == asked + bare + last);
    assert forall|effect: Effect| does.contains(effect) implies asked.contains(effect)
        || bare.contains(effect) || last.contains(effect) by {
        let i = choose|i: int| 0 <= i < does.len() && does[i] == effect;
        if i < asked.len() {
            assert(asked[i] == effect);
        } else if i < asked.len() + bare.len() {
            assert(bare[i - asked.len()] == effect);
        } else {
            assert(last[i - asked.len() - bare.len()] == effect);
        }
    }
    if bare.contains(Effect::FrameTarget) {
        lemma_unpointed(session::switched(s, mode), Effect::FrameTarget);
    }
    if bare.contains(Effect::WantTree) {
        lemma_unpointed(session::switched(s, mode), Effect::WantTree);
    }
}

/// Leaving a mode puts the panel back on its grid and keeps it up, with what is
/// typed and what is pointed at. The latch goes off with the mode it came on
/// with, and stays as it was after any other.
pub proof fn leaving_a_mode_comes_back_to_the_grid(s: SessionView)
    ensures
        ({
            let turn = session::leaving(s);
            let after = turn.after.state;
            let unlatched = s.state.mode == Mode::Move && s.state.stay;
            &&& after == (State {
                mode: Mode::Grid,
                edit: None,
                filling: None,
                hover_box: None,
                hover_option: None,
                hover_menu: None,
                hover_setting: None,
                hover_home: false,
                stay: s.state.stay && s.state.mode != Mode::Move,
                target: if unlatched {
                    None
                } else {
                    s.state.target
                },
                ..s.state
            })
            &&& turn.after.query == s.query
            &&& turn.after.pending == if unlatched {
                None
            } else {
                s.pending
            }
            &&& turn.does == (if unlatched {
                seq![Effect::FrameTarget, Effect::Rebuild]
            } else {
                Seq::empty()
            }) + seq![Effect::Reload, Effect::Rebuild, Effect::Reposition, Effect::KeepFocus]
        }),
{
    reveal(session::leaving);
    reveal(session::latching);
}

/// Entering a mode and leaving it again is where the session was, with nothing
/// picked, pointed at or selected.
pub proof fn a_mode_entered_and_left_leaves_the_grid(s: SessionView, mode: Mode)
    requires
        s.state.mode == Mode::Grid,
        s.query.len() == 0,
        !s.state.stay,
    ensures
        ({
            let back = session::leaving(session::entering(s, true, mode).after).after;
            &&& back.state.mode == Mode::Grid
            &&& !back.state.stay
            &&& back.state.visible == s.state.visible
            &&& back.state.scroll == s.state.scroll
            &&& back.state.menu_up == s.state.menu_up
            &&& back.state.settings_up == s.state.settings_up
            &&& back.state.caller == s.state.caller
            &&& back.state.hover is None
            &&& back.state.selected is None
            &&& back.query == s.query
        }),
{
    a_mode_comes_up_bare(s, true, mode);
    leaving_a_mode_comes_back_to_the_grid(session::entering(s, true, mode).after);
}

/// A panel that goes away lets go of everything: the ring, the heartbeat, the
/// question whether the focus is lost, the window and what was drawn, in that
/// order. The window it came up over comes back only where it is asked for and
/// is not the panel itself. A panel that is not up does not go away.
pub proof fn a_panel_that_goes_lets_go_of_everything(s: SessionView, restore: bool)
    ensures
        !s.state.visible ==> session::hiding(s, restore) == s.still(),
        s.state.visible ==> {
            let turn = session::hiding(s, restore);
            let back = restore && s.state.caller is Some && s.state.caller != Some(s.state.own);
            &&& turn.does == seq![
                Effect::HideRing,
                Effect::MarkShown(false),
                Effect::StopHeartbeat,
                Effect::StopAsking,
                Effect::HideWindow,
            ] + (if back {
                seq![Effect::RestoreCaller, Effect::DropVisuals]
            } else {
                seq![Effect::DropVisuals]
            })
            &&& !turn.after.state.visible
            &&& turn.after.state.mode == Mode::Grid
            &&& !turn.after.state.stay
            &&& turn.after.state.target is None
            &&& turn.after.state.press is None
            &&& turn.after.state.selected is None
            &&& !turn.after.state.menu_up
            &&& !turn.after.state.settings_up
            &&& !turn.after.state.asking_reset
            &&& !turn.after.state.arranging
            &&& turn.after.state.frozen_cols == 0
            &&& turn.after.state.own == s.state.own
            &&& turn.after.state.caller == s.state.caller
            &&& turn.after.query.len() == 0
            &&& turn.after.pending is None
        },
{
    reveal(session::hiding);
    if s.state.visible {
        let turn = session::hiding(s, restore);
        let back = restore && s.state.caller is Some && s.state.caller != Some(s.state.own);
        assert(turn.does =~= seq![
            Effect::HideRing,
            Effect::MarkShown(false),
            Effect::StopHeartbeat,
            Effect::StopAsking,
            Effect::HideWindow,
        ] + (if back {
            seq![Effect::RestoreCaller, Effect::DropVisuals]
        } else {
            seq![Effect::DropVisuals]
        }));
    }
}

/// The one key takes the panel away while it is up and brings it up while it is
/// not, over the window in front, scrolled to the top with nothing typed. A
/// panel put out of action is not brought up.
pub proof fn the_key_shows_and_dismisses(s: SessionView, front: Option<u64>, neutralized: bool)
    ensures
        ({
            let turn = session::toggling(s, front, neutralized);
            &&& s.state.visible ==> turn == session::hiding(s, true)
            &&& !s.state.visible && neutralized ==> turn == s.still()
            &&& !s.state.visible && !neutralized ==> {
                &&& turn.does == seq![Effect::Reload, Effect::Rebuild, Effect::Show]
                &&& turn.after.query.len() == 0
                &&& turn.after.pending == s.pending
                &&& turn.after.state == (State {
                    caller: front,
                    frozen_cols: 0,
                    scroll: 0,
                    hover: None,
                    hover_option: None,
                    hover_menu: None,
                    hover_setting: None,
                    hover_home: false,
                    ..s.state
                })
            }
        }),
{
    reveal(session::toggling);
    reveal(session::summoning);
}

/// A panel whose grid was built is shown: its window comes up, takes the focus,
/// starts its heartbeat, is marked as up, and last of all frames its target. One
/// that could not be built is not.
pub proof fn a_built_panel_is_shown(s: SessionView, built: bool)
    ensures
        !built ==> session::showing(s, built) == s.still(),
        built ==> {
            let turn = session::showing(s, built);
            &&& turn.after == s.with(State { visible: true, ..s.state })
            &&& turn.does == seq![
                Effect::ShowWindow,
                Effect::TakeFocus,
                Effect::StartHeartbeat,
                Effect::MarkShown(true),
                Effect::FrameTarget,
            ]
        },
{
}

/// The columns a panel has when the first character is typed are held for as
/// long as anything is, and let go with the last. The selection starts anew with
/// every change, and a query that does not change does nothing.
pub proof fn columns_are_held_while_something_is_typed(
    s: SessionView,
    cols: usize,
    query: Seq<char>,
)
    ensures
        ({
            let turn = session::querying(s, cols, query);
            &&& query == s.query ==> turn == s.still()
            &&& query != s.query ==> {
                &&& turn.after.query == query
                &&& turn.after.pending == s.pending
                &&& turn.does == seq![Effect::Follow]
                &&& turn.after.state == (State {
                    selected: None,
                    frozen_cols: turn.after.state.frozen_cols,
                    ..s.state
                })
                &&& query.len() == 0 ==> turn.after.state.frozen_cols == 0
                &&& query.len() > 0 && s.query.len() == 0 ==> turn.after.state.frozen_cols == cols
                &&& query.len() > 0 && s.query.len() > 0 ==> turn.after.state.frozen_cols
                    == s.state.frozen_cols
            }
        }),
{
    reveal(session::querying);
}

/// What a character does to what is typed: backspace takes the last one back,
/// backspace with control takes them all, a space leads nothing, no control
/// character is taken, and any other is put on the end.
pub proof fn what_a_character_does_to_what_is_typed(query: Seq<char>, c: char)
    ensures
        ({
            let after = session::typed(query, c);
            &&& c == '\u{8}' && query.len() > 0 ==> after.len() == query.len() - 1 && after
                == query.take(query.len() - 1)
            &&& c == '\u{8}' && query.len() == 0 ==> after.len() == 0
            &&& c == '\u{7F}' ==> after.len() == 0
            &&& c < ' ' && c != '\u{8}' ==> after == query
            &&& '\u{7F}' < c && c <= '\u{9F}' ==> after == query
            &&& c == ' ' && query.len() == 0 ==> after == query
            &&& (c == ' ' && query.len() > 0) || (' ' < c && c < '\u{7F}') || '\u{9F}' < c ==> after
                == query.push(c)
        }),
{
    if c == '\u{8}' && query.len() > 0 {
        assert(session::typed(query, c) =~= query.take(query.len() - 1));
    }
}

/// Typing goes to what is typed, except while the bento is rearranged: that mode
/// owns the keyboard.
pub proof fn typing_goes_to_what_is_typed(s: SessionView, cols: usize, c: char)
    ensures
        s.state.mode == Mode::Layout ==> session::typing(s, cols, c) == s.still(),
        s.state.mode != Mode::Layout ==> session::typing(s, cols, c) == session::querying(
            s,
            cols,
            session::typed(s.query, c),
        ),
        s.state.mode != Mode::Layout ==> session::typing(s, cols, c).after.query == session::typed(
            s.query,
            c,
        ),
{
    reveal(session::typing);
    reveal(session::querying);
}

/// On the grid the corner button backs out one surface at a time: the question,
/// then the settings. With neither up it opens the menu and closes it. The panel
/// keeps the focus through all of it.
pub proof fn the_corner_button_backs_out_one_surface(s: SessionView)
    requires
        s.state.mode == Mode::Grid,
    ensures
        ({
            let turn = session::pressing_home(s);
            let after = turn.after.state;
            &&& turn.does == seq![Effect::Rebuild, Effect::KeepFocus]
            &&& turn.after.query == s.query
            &&& after.visible == s.state.visible
            &&& s.state.settings_up && s.state.asking_reset ==> after.settings_up
                && !after.asking_reset && after.menu_up == s.state.menu_up
            &&& s.state.settings_up && !s.state.asking_reset ==> !after.settings_up
                && !after.asking_reset && after.menu_up == s.state.menu_up
            &&& !s.state.settings_up ==> after.menu_up == !s.state.menu_up && !after.settings_up
        }),
{
    reveal(session::pressing_home);
}

/// Escape on the grid undoes what is on top: the question, then the settings,
/// then the menu, then the latch, then what is typed, and then the panel. What
/// lies under it stays.
pub proof fn escape_undoes_what_is_on_top(s: SessionView, cols: usize)
    requires
        s.state.visible,
    ensures
        ({
            let turn = session::escaping(s, cols);
            let after = turn.after.state;
            let up = s.state;
            &&& up.settings_up && up.asking_reset ==> !after.asking_reset && after.settings_up
                && after.menu_up == up.menu_up && after.stay == up.stay && turn.after.query
                == s.query && after.visible
            &&& up.settings_up && !up.asking_reset ==> !after.settings_up && after.menu_up
                == up.menu_up && after.stay == up.stay && turn.after.query == s.query
                && after.visible
            &&& !up.settings_up && up.menu_up ==> !after.menu_up && after.stay == up.stay
                && turn.after.query == s.query && after.visible
            &&& !up.settings_up && !up.menu_up && up.stay ==> !after.stay && after.target is None
                && turn.after.query == s.query && after.visible
            &&& !up.settings_up && !up.menu_up && !up.stay && s.query.len() > 0
                ==> turn.after.query.len() == 0 && after.visible && after.frozen_cols == 0
                && turn.does == seq![Effect::Follow]
            &&& !up.settings_up && !up.menu_up && !up.stay && s.query.len() == 0 ==> turn
                == session::hiding(s, true)
            &&& (up.settings_up || up.menu_up || up.stay) ==> turn.does == seq![Effect::Rebuild]
        }),
{
    reveal(session::escaping);
    reveal(session::querying);
}

/// The focus is gone for good only where something else really has it: while the
/// panel is up, with no context menu of its own, no move in flight, and another
/// window in front. The asking stops either way.
pub proof fn the_focus_is_lost_only_to_another_window(s: SessionView, front: Option<u64>)
    ensures
        ({
            let turn = events::settling(s, front);
            let lost = s.state.visible && !s.state.popup && !s.state.arranging && front != Some(
                s.state.own,
            );
            &&& turn.does.len() > 0 && turn.does[0] == Effect::StopAsking
            &&& !lost ==> turn.after == s && turn.does.len() == 1
            &&& lost ==> turn.after == session::hiding(s, false).after && turn.does == seq![
                Effect::StopAsking,
            ] + session::hiding(s, false).does
        }),
{
    reveal(events::settling);
}

/// Losing the focus dismisses the panel without putting the caller back, except
/// where the panel gave it away itself: to its own context menu, to a window it
/// is moving, or in a mode that takes clicks, which asks again a moment later.
pub proof fn losing_the_focus_dismisses(s: SessionView)
    ensures
        ({
            let (turn, claimed) = events::blurring(s);
            let working = s.state.mode == Mode::Layout || s.state.mode == Mode::Favorites
                || s.state.mode == Mode::Close;
            &&& s.state.popup ==> turn == s.still() && !claimed
            &&& !s.state.popup ==> claimed
            &&& !s.state.popup && s.state.arranging ==> turn == s.still()
            &&& !s.state.popup && !s.state.arranging && working ==> turn.after == s && turn.does
                == seq![Effect::AskAgain]
            &&& !s.state.popup && !s.state.arranging && !working ==> turn == session::hiding(
                s,
                false,
            )
        }),
{
    reveal(events::blurring);
}

/// The button going down is for whatever is on top: the corner button, then the
/// settings, then the menu, then a mode that takes clicks, and last a tile,
/// which is pressed and not yet clicked. All but the tile are done with when the
/// button comes up.
pub proof fn the_button_goes_to_what_is_on_top(s: SessionView, scene: Scene, x: int, y: int)
    ensures
        ({
            let turn = events::downing(s, scene, x, y);
            let taken = s.with(State { handled_down: true, ..s.state });
            let home = scene.home matches Some(home) && finds::inside(home, x, y);
            let working = s.state.mode == Mode::Layout || s.state.mode == Mode::Favorites
                || s.state.mode == Mode::Close;
            &&& home ==> turn == session::pressing_home(taken)
            &&& !home && s.state.settings_up ==> match scene::square_from(
                scene.settings@,
                x,
                y,
                0,
            ) {
                Some(i) => turn == clicks::setting(taken, scene.config, scene.settings@[i].0),
                None => {
                    &&& !turn.after.state.settings_up
                    &&& !turn.after.state.asking_reset
                    &&& turn.after.state.menu_up == s.state.menu_up
                    &&& turn.does == seq![Effect::Rebuild]
                },
            }
            &&& !home && !s.state.settings_up && s.state.menu_up ==> match scene::square_from(
                scene.menu@,
                x,
                y,
                0,
            ) {
                Some(i) => turn == clicks::command(
                    taken,
                    scene.board.sections@.len() > 0,
                    scene.menu@[i].0,
                ),
                None => !turn.after.state.menu_up && turn.does == seq![Effect::Rebuild],
            }
            &&& !home && !s.state.settings_up && !s.state.menu_up && working ==> turn
                == clicks::mode_clicking(taken, scene, x, y)
            &&& !home && !s.state.settings_up && !s.state.menu_up && !working
                ==> match scene.tile_under(x, y, s.state.scroll as int) {
                Some(t) => turn == drag::pressing(s, scene, t as usize, x, y),
                None => turn == s.still(),
            }
        }),
{
    reveal(events::downing);
    reveal(events::taken);
    reveal(events::settings_away);
    reveal(events::menu_away);
}

/// A click on the panel's own padding dismisses it, and puts back the window it
/// came up over. Nothing else with no tile pressed does: not a click something
/// already took, not one in a mode or on a surface, not one on the corner
/// button, on the strip or on a tile.
pub proof fn a_click_on_the_padding_dismisses(s: SessionView, scene: Scene, x: int, y: int)
    requires
        s.state.press is None,
    ensures
        ({
            let turn = events::upping(s, scene, x, y);
            let up = s.with(State { handled_down: false, press: None, ..s.state });
            let home = scene.home matches Some(home) && finds::inside(home, x, y);
            let elsewhere = s.state.handled_down || s.state.mode != Mode::Grid || s.state.menu_up
                || s.state.settings_up || home || scene.on_strip(s.query, y) || scene.tile_under(
                x,
                y,
                s.state.scroll as int,
            ) is Some;
            turn == if elsewhere {
                up.still()
            } else {
                session::hiding(up, true)
            }
        }),
{
    reveal(events::upping);
    reveal(events::lifted);
}

/// A press that never travelled and comes up on its own tile is a click there;
/// anything else that was not a drag of a kept tile only puts the tile back.
pub proof fn a_press_comes_up_as_a_click_or_is_put_back(
    s: SessionView,
    scene: Scene,
    x: int,
    y: int,
)
    requires
        s.state.press is Some,
    ensures
        ({
            let press = s.state.press->0;
            let turn = events::upping(s, scene, x, y);
            let up = s.with(State { handled_down: false, press: None, ..s.state });
            let back = seq![
                Effect::ReleaseCapture,
                Effect::Repaint(press.tile),
                Effect::Reposition,
            ];
            let on = scene.tile_under(x, y, s.state.scroll as int) == Some(press.tile as int);
            &&& press.dragging && press.band is Some ==> turn.after == up && turn.does == seq![
                Effect::ReleaseCapture,
                Effect::SaveOrder(press),
            ]
            &&& press.dragging && press.band is None ==> turn.after == up && turn.does == back
            &&& !press.dragging && !on ==> turn.after == up && turn.does == back
            &&& !press.dragging && on ==> {
                let clicked = clicks::activating(up, scene, press.tile);
                turn.after == clicked.after && turn.does == back + clicked.does
            }
        }),
{
    reveal(events::upping);
    reveal(events::lifted);
}

proof fn lemma_over_top(s: SessionView, scene: Scene, x: int, y: int)
    ensures
        ({
            let after = events::over_top(s, scene, x, y).after;
            &&& after.query == s.query
            &&& after.pending == s.pending
            &&& after.state == (State {
                hover: after.state.hover,
                hover_box: after.state.hover_box,
                hover_option: after.state.hover_option,
                hover_menu: after.state.hover_menu,
                hover_setting: after.state.hover_setting,
                ..s.state
            })
        }),
{
    reveal(events::over_top);
}

proof fn lemma_home(s: SessionView, scene: Scene, x: int, y: int)
    ensures
        ({
            let home = scene.home matches Some(home) && finds::inside(home, x, y);
            let homed = events::over_home(s, scene::over(scene.home, x, y)).after;
            &&& homed.query == s.query
            &&& homed.pending == s.pending
            &&& homed.state == (State { hover_home: home, ..s.state })
            &&& events::pointing(s, scene, x, y).after == events::over_top(
                homed,
                scene,
                x,
                y,
            ).after
        }),
{
    reveal(events::pointing);
}

/// The pointer only lights: nothing is clicked, typed, scrolled or picked by
/// it, and the corner button is lit exactly while the pointer is on it.
pub proof fn the_pointer_only_lights(s: SessionView, scene: Scene, x: int, y: int)
    ensures
        ({
            let after = events::pointing(s, scene, x, y).after;
            let home = scene.home matches Some(home) && finds::inside(home, x, y);
            &&& after.query == s.query
            &&& after.pending == s.pending
            &&& after.state == (State {
                hover: after.state.hover,
                hover_box: after.state.hover_box,
                hover_option: after.state.hover_option,
                hover_menu: after.state.hover_menu,
                hover_setting: after.state.hover_setting,
                hover_home: home,
                ..s.state
            })
        }),
{
    lemma_home(s, scene, x, y);
    lemma_over_top(
        events::over_home(s, scene::over(scene.home, x, y)).after,
        scene,
        x,
        y,
    );
}

/// On a surface the pointer lights that surface's own squares: the settings
/// before the menu under them, and neither lights a tile.
pub proof fn the_pointer_lights_the_squares_of_a_surface(
    s: SessionView,
    scene: Scene,
    x: int,
    y: int,
)
    ensures
        ({
            let after = events::pointing(s, scene, x, y).after.state;
            &&& s.state.settings_up ==> {
                &&& after.hover_setting == events::place(events::live_setting(scene, x, y, 0))
                &&& after.hover_menu == s.state.hover_menu
                &&& after.hover == s.state.hover
            }
            &&& !s.state.settings_up && s.state.menu_up ==> {
                &&& after.hover_menu == events::place(scene::square_from(scene.menu@, x, y, 0))
                &&& after.hover_setting == s.state.hover_setting
                &&& after.hover == s.state.hover
            }
        }),
{
    lemma_home(s, scene, x, y);
    reveal(events::over_top);
}

/// While the bento is rearranged the pointer lights the option it is on, and off
/// the plate the box it is in: a box does not light up through the plate.
pub proof fn the_pointer_lights_a_box_or_an_option(s: SessionView, scene: Scene, x: int, y: int)
    requires
        !s.state.settings_up,
        !s.state.menu_up,
        s.state.mode == Mode::Layout,
    ensures
        ({
            let after = events::pointing(s, scene, x, y).after.state;
            let plate = scene.plate matches Some(plate) && finds::inside(plate, x, y);
            &&& after.hover_option == events::live_option(scene, x, y)
            &&& plate ==> after.hover_box == s.state.hover_box
            &&& !plate ==> after.hover_box == events::live_box(
                scene,
                x,
                y,
                s.state.scroll as int,
            )
            &&& after.hover == s.state.hover
        }),
{
    lemma_home(s, scene, x, y);
    reveal(events::over_top);
}

/// On the grid the pointer lights the tile it is on, and none under the corner
/// button.
pub proof fn the_pointer_lights_the_tile_it_is_on(s: SessionView, scene: Scene, x: int, y: int)
    requires
        !s.state.settings_up,
        !s.state.menu_up,
        s.state.mode != Mode::Layout,
    ensures
        ({
            let after = events::pointing(s, scene, x, y).after.state;
            let home = scene.home matches Some(home) && finds::inside(home, x, y);
            after.hover == if home {
                None
            } else {
                events::place(scene.tile_under(x, y, s.state.scroll as int))
            }
        }),
{
    lemma_home(s, scene, x, y);
    reveal(events::over_top);
}

proof fn lemma_top_again(s: SessionView, scene: Scene, x: int, y: int)
    ensures
        ({
            let first = events::over_top(s, scene, x, y);
            events::over_top(first.after, scene, x, y) == first.after.still()
        }),
{
    reveal(events::over_top);
    let first = events::over_top(s, scene, x, y);
    let again = events::over_top(first.after, scene, x, y);
    assert(again.does =~= Seq::empty());
}

/// Pointing where the pointer already is draws nothing anew.
pub proof fn pointing_where_it_is_draws_nothing(s: SessionView, scene: Scene, x: int, y: int)
    ensures
        ({
            let first = events::pointing(s, scene, x, y).after;
            let again = events::pointing(first, scene, x, y);
            &&& again.after == first
            &&& again.does == if s.state.tracking {
                Seq::<Effect>::empty()
            } else {
                seq![Effect::Track]
            }
        }),
{
    let over = scene::over(scene.home, x, y);
    let homed = events::over_home(s, over).after;
    let first = events::pointing(s, scene, x, y).after;
    lemma_home(s, scene, x, y);
    lemma_over_top(homed, scene, x, y);
    lemma_top_again(homed, scene, x, y);
    assert(events::over_home(first, over) == first.still());
    reveal(events::pointing);
    let again = events::pointing(first, scene, x, y);
    assert(again.does =~= if s.state.tracking {
        Seq::<Effect>::empty()
    } else {
        seq![Effect::Track]
    });
}

/// Word of the pointer leaving is asked for first of all, wherever it is not
/// asked for already.
pub proof fn word_of_the_pointer_leaving_is_asked_for(
    s: SessionView,
    scene: Scene,
    x: int,
    y: int,
)
    requires
        !s.state.tracking,
    ensures
        events::pointing(s, scene, x, y).does.len() > 0,
        events::pointing(s, scene, x, y).does[0] == Effect::Track,
{
    reveal(events::pointing);
}

/// An option lights where it applies and the pointer is on it, a settings square
/// likewise, and a box by the section it shows.
pub proof fn only_what_applies_lights(scene: Scene, x: int, y: int, scroll: int)
    ensures
        events::live_option(scene, x, y) matches Some(i) ==> {
            &&& i < scene.options@.len()
            &&& finds::inside(scene.options@[i as int].rect, x, y)
            &&& scene.options@[i as int].allowed
        },
        match scene.box_under(x, y, scroll) {
            Some(band) => events::live_box(scene, x, y, scroll) == Some(
                scene.layout.bands@[band].section,
            ),
            None => events::live_box(scene, x, y, scroll) is None,
        },
{
    finds::the_option_under_a_point_is_drawn_there(scene.options@, x, y, 0);
    vstd::std_specs::vec::axiom_spec_len(&scene.options);
}

/// A settings square lights where the pointer is on it and it applies, and is
/// the first such.
pub proof fn a_settings_square_lights_where_it_applies(scene: Scene, x: int, y: int, from: int)
    requires
        0 <= from <= scene.settings@.len(),
    ensures
        match events::live_setting(scene, x, y, from) {
            Some(i) => {
                &&& from <= i < scene.settings@.len()
                &&& finds::inside(scene.settings@[i].1, x, y)
                &&& scene.settings@[i].0.applies_to(scene.config)
                &&& forall|k: int|
                    from <= k < i && finds::inside((#[trigger] scene.settings@[k]).1, x, y)
                        ==> !scene.settings@[k].0.applies_to(scene.config)
            },
            None => forall|k: int|
                from <= k < scene.settings@.len() && finds::inside(
                    (#[trigger] scene.settings@[k]).1,
                    x,
                    y,
                ) ==> !scene.settings@[k].0.applies_to(scene.config),
        },
    decreases scene.settings@.len() - from,
{
    if from < scene.settings@.len() && !(finds::inside(scene.settings@[from].1, x, y)
        && scene.settings@[from].0.applies_to(scene.config)) {
        a_settings_square_lights_where_it_applies(scene, x, y, from + 1);
    }
}

/// The pointer leaving puts out what it lit: the tile, or while the bento is
/// rearranged the box and the option. Word of its leaving has to be asked for
/// again.
pub proof fn the_pointer_leaving_puts_out_what_it_lit(s: SessionView)
    ensures
        ({
            let turn = events::departing(s);
            let after = turn.after.state;
            &&& !after.tracking
            &&& turn.after.query == s.query
            &&& s.state.mode == Mode::Layout ==> {
                &&& after == (State {
                    tracking: false,
                    hover_box: None,
                    hover_option: None,
                    ..s.state
                })
                &&& turn.does.contains(Effect::RefreshBoxes) <==> s.state.hover_box is Some
                &&& turn.does.contains(Effect::RefreshOptions) <==> s.state.hover_option is Some
            }
            &&& s.state.mode != Mode::Layout ==> {
                &&& after == (State { tracking: false, hover: None, ..s.state })
                &&& forall|tile: usize|
                    turn.does.contains(Effect::Repaint(tile)) <==> #[trigger] is_at(
                        s.state.hover,
                        tile,
                    )
            }
        }),
{
    reveal(events::departing);
    let turn = events::departing(s);
    if s.state.mode == Mode::Layout {
        if s.state.hover_box is Some {
            assert(turn.does[0] == Effect::RefreshBoxes);
        }
        if s.state.hover_option is Some {
            assert(turn.does.last() == Effect::RefreshOptions);
        }
    } else if s.state.hover is Some {
        assert(turn.does[0] == Effect::Repaint(s.state.hover->0));
    }
}

/// Whether a mark is on a tile.
pub open spec fn is_at(mark: Option<usize>, tile: usize) -> bool {
    mark == Some(tile)
}

/// The pointer moving from one tile to another has both drawn anew, and one that
/// stays has neither. The squares a favorite lands in are looked at again when
/// it moves while the block is being filled, and at no other time.
pub proof fn a_moving_pointer_draws_both_tiles(s: SessionView, to: Option<usize>)
    requires
        s.state.hover != to,
    ensures
        ({
            let does = session::hovering(s, to).does;
            &&& s.state.hover matches Some(from) ==> does.contains(Effect::Repaint(from))
            &&& to matches Some(tile) ==> does.contains(Effect::Repaint(tile))
            &&& does.contains(Effect::RefreshLanding) <==> s.state.mode == Mode::Favorites
        }),
{
    let does = session::hovering(s, to).does;
    let at = if s.state.hover is Some {
        1int
    } else {
        0int
    };
    if let Some(from) = s.state.hover {
        assert(does[0] == Effect::Repaint(from));
    }
    if let Some(tile) = to {
        assert(does[at] == Effect::Repaint(tile));
    }
    if s.state.mode == Mode::Favorites {
        assert(does.last() == Effect::RefreshLanding);
    }
}

/// The selection moving from one tile to another has both drawn anew, and
/// nothing else.
pub proof fn a_moving_selection_draws_both_tiles(s: SessionView, to: Option<usize>)
    ensures
        ({
            let turn = session::selecting(s, to);
            &&& turn.after == s.with(State { selected: to, ..s.state })
            &&& s.state.selected == to ==> turn.does.len() == 0
            &&& s.state.selected != to ==> turn.does == match (s.state.selected, to) {
                (Some(from), Some(tile)) => seq![Effect::Repaint(from), Effect::Repaint(tile)],
                (Some(from), None) => seq![Effect::Repaint(from)],
                (None, Some(tile)) => seq![Effect::Repaint(tile)],
                (None, None) => Seq::empty(),
            }
        }),
{
    if s.state.selected == to {
        assert(s.with(State { selected: to, ..s.state }) == s);
    } else {
        assert(session::selecting(s, to).does =~= match (s.state.selected, to) {
            (Some(from), Some(tile)) => seq![Effect::Repaint(from), Effect::Repaint(tile)],
            (Some(from), None) => seq![Effect::Repaint(from)],
            (None, Some(tile)) => seq![Effect::Repaint(tile)],
            (None, None) => Seq::empty(),
        });
    }
}

/// The words of a mouse message are the point across and the point down, each
/// signed, so a point left of the panel or above it comes out below zero.
pub proof fn a_point_is_two_signed_words(x: int, y: int)
    requires
        -0x8000 <= x < 0x8000,
        -0x8000 <= y < 0x8000,
    ensures
        ({
            let low = if x < 0 {
                x + 0x1_0000
            } else {
                x
            };
            let high = if y < 0 {
                y + 0x1_0000
            } else {
                y
            };
            let packed = low + high * 0x1_0000;
            &&& events::signed(packed % 0x1_0000) == x
            &&& events::signed(packed / 0x1_0000 % 0x1_0000) == y
        }),
{
}

/// Where each message goes, and whether it is claimed.
pub proof fn each_message_goes_where_it_belongs(s: SessionView, scene: Scene, world: World)
    ensures
        ({
            let does = |message: Message| events::handled(s, scene, world, message);
            let toggled = (session::toggling(s, world.front, world.neutralized), true);
            let followed = if s.state.visible {
                s.doing(Effect::Follow)
            } else {
                s.still()
            };
            &&& does(Message::Hotkey(1)) == toggled
            &&& does(Message::Summon) == toggled
            &&& does(Message::Tray(TrayClick::Left)) == toggled
            &&& does(Message::Tray(TrayClick::Right)) == (s.doing(Effect::ShowTrayMenu), true)
            &&& does(Message::Tray(TrayClick::Other)) == (s.still(), true)
            &&& does(Message::Timer(1)) == (s.doing(Effect::Beat), true)
            &&& does(Message::Timer(2)) == (events::settling(s, world.front), true)
            &&& does(Message::ModelChanged) == (followed, true)
            &&& does(Message::TabsChanged) == (followed, true)
            &&& does(Message::Paired) == (s.doing(Effect::RefreshTray), true)
            &&& does(Message::ConfigChanged) == (s.doing(Effect::ReloadConfig), true)
            &&& does(Message::IconReady) == (
                if s.state.visible {
                    s.doing(Effect::FillIcons)
                } else {
                    s.still()
                },
                true,
            )
            &&& does(Message::DisplayChanged) == (followed, s.state.visible)
            &&& does(Message::MouseLeave) == (events::departing(s), true)
            &&& does(Message::CaptureLost) == (events::uncaught(s), true)
            &&& does(Message::Deactivated) == events::blurring(s)
            &&& does(Message::Other) == (s.still(), false)
        }),
        forall|id: i32|
            id != 1 ==> #[trigger] events::handled(s, scene, world, Message::Hotkey(id)) == (
                s.still(),
                false,
            ),
{
    reveal(events::following);
}

/// Whole pixels reach the session as lengths, sixty-four to each: a move drags
/// what is pressed and points otherwise, a wheel turned away brings the content
/// down, and a right click puts a context menu where it was.
pub proof fn whole_pixels_reach_the_session_as_lengths(
    s: SessionView,
    scene: Scene,
    world: World,
    x: i16,
    y: i16,
)
    ensures
        ({
            let does = |message: Message| events::handled(s, scene, world, message);
            let (px, py) = (x * 64, y * 64);
            &&& does(Message::MouseMove { x, y }) == (
                if s.state.press is Some {
                    drag::dragging(
                        s,
                        scene.layout,
                        px,
                        py,
                        (world.slop.0 * 64, world.slop.1 * 64),
                    )
                } else {
                    events::pointing(s, scene, px, py)
                },
                true,
            )
            &&& does(Message::ButtonDown { x, y }) == (events::downing(s, scene, px, py), true)
            &&& does(Message::ButtonUp { x, y }) == (events::upping(s, scene, px, py), true)
            &&& does(Message::Wheel(y)) == (
                keys::scrolling(s, scene.layout, s.state.scroll - py),
                true,
            )
            &&& does(Message::RightUp { x, y }).1
            &&& does(Message::RightUp { x, y }).0.after == s.with(State { popup: true, ..s.state })
            &&& does(Message::RightUp { x, y }).0.does == seq![
                Effect::ShowPopup { x: px as i64, y: py as i64 },
            ]
        }),
{
    reveal(events::popping);
}

/// A panel that is up has the keyboard: keys and characters go to it, with the
/// columns it has.
pub proof fn a_panel_that_is_up_has_the_keyboard(
    s: SessionView,
    scene: Scene,
    world: World,
    key: Key,
    repeat: bool,
    c: char,
)
    requires
        s.state.visible,
    ensures
        events::handled(s, scene, world, Message::KeyDown { key, repeat }) == keys::keying(
            s,
            scene,
            key,
            repeat,
        ),
        events::handled(s, scene, world, Message::Typed(c)) == (
            session::typing(s, scene.layout.cols, c),
            true,
        ),
{
}

/// A new session is a panel that was never up: hidden, on its grid, with nothing
/// on it pointed at, picked, pressed, scrolled or held.
pub proof fn a_new_session_has_nothing_up(own: u64)
    ensures
        ({
            let state = State::hidden(own);
            &&& state.own == own
            &&& !state.visible && !state.tracking && !state.popup
            &&& state.mode == Mode::Grid
            &&& state.edit is None && state.filling is None
            &&& state.hover is None && state.selected is None && state.hover_box is None
            &&& !state.menu_up && !state.settings_up && !state.asking_reset
            &&& !state.handled_down && !state.stay && !state.arranging
            &&& state.target is None && state.caller is None
            &&& state.frozen_cols == 0 && state.scroll == 0
            &&& state.press is None
        }),
{
}

/// A control character is one of the codes set aside for them: those before the
/// space, the delete, and those up to the no-break space.
pub proof fn control_characters_are_the_codes_set_aside(c: char)
    ensures
        c < ' ' ==> session::is_control(c),
        c == '\u{7F}' ==> session::is_control(c),
        '\u{7F}' < c && c < '\u{A0}' ==> session::is_control(c),
        ' ' <= c && c < '\u{7F}' ==> !session::is_control(c),
        '\u{A0}' <= c ==> !session::is_control(c),
{
}

} // verus!
