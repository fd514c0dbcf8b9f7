//! What each click comes to.

use vstd::prelude::*;
use crate::clicks;
use crate::config::{Change, Config};
use crate::menu::Command;
use crate::model::{Kind, Mode, Move, Source, Target};
use crate::scene;
use crate::scene::{EditOption, Scene};
use crate::session;
use crate::session::{Effect, Lane, Picked, SessionView, State};
use crate::settings;
use crate::settings::Setting;

verus! {

/// Favouring goes both ways: a tile the block holds is taken out of it, and any
/// other tile the block takes is put into the list of its own half. The session
/// itself does not change, and what the block would not take is left alone.
pub proof fn favouring_goes_both_ways(s: SessionView, scene: Scene, tile: usize)
    requires
        tile < scene.board.spots@.len(),
        scene.board.tile(tile as int).target !is Slot,
    ensures
        ({
            let item = scene.board.tile(tile as int);
            let turn = clicks::favoring(s, scene, tile);
            &&& turn.after == s
            &&& scene.board.center_takes(scene.drawn, item) ==> {
                &&& turn.does == seq![Effect::ForgetInCenter(tile)] <==> item.origin
                    == Source::Center
                &&& turn.does == seq![Effect::AddToCenter { half: item.half, tile }]
                    <==> item.origin != Source::Center
            }
            &&& !scene.board.center_takes(scene.drawn, item) ==> turn.does.len() == 0
        }),
{
    reveal(clicks::favoring);
    let item = scene.board.tile(tile as int);
    let (forget, keep) = (
        seq![Effect::ForgetInCenter(tile)],
        seq![Effect::AddToCenter { half: item.half, tile }],
    );
    assert(forget[0] != keep[0]);
}

/// An empty square aims the mode at its list, and the square of the list it is
/// aimed at turns the mode off. A tile there is not does nothing.
pub proof fn an_empty_square_aims_at_its_list(s: SessionView, scene: Scene, tile: usize)
    ensures
        tile >= scene.board.spots@.len() ==> clicks::favoring(s, scene, tile) == s.still(),
        tile < scene.board.spots@.len() && scene.board.tile(tile as int).target is Slot ==> {
            let half = scene.board.half_of(scene.drawn, tile as int);
            let turn = clicks::favoring(s, scene, tile);
            if half is Some && half == s.state.filling {
                turn == session::leaving(s)
            } else {
                &&& turn.after == s.with(State { filling: half, ..s.state })
                &&& turn.does == seq![Effect::RefreshLanding]
            }
        },
{
    reveal(clicks::favoring);
}

/// A click while closing asks the window behind the tile to close, or says that
/// it would. A tile with nothing open behind it, the panel's own window and a
/// tile there is not are left alone.
pub proof fn a_click_while_closing_closes_what_is_behind_it(
    s: SessionView,
    scene: Scene,
    tile: usize,
)
    ensures
        ({
            let turn = clicks::closing(s, scene, tile);
            let behind = scene.board.window_behind(scene.board.tile(tile as int));
            &&& turn.after == s
            &&& tile >= scene.board.spots@.len() || behind is None || behind == Some(s.state.own)
                ==> turn.does.len() == 0
            &&& tile < scene.board.spots@.len() && behind is Some && behind != Some(s.state.own)
                ==> turn.does == if scene.config.dry_run {
                seq![Effect::SayWouldClose(behind->0)]
            } else {
                seq![Effect::Close(behind->0)]
            }
        }),
{
    reveal(clicks::closing);
}

/// Going to a tile takes the panel away first and does not put the window it
/// came up over back. A dry run says what it would have gone to, takes the panel
/// away and does put that window back.
pub proof fn going_to_a_tile_takes_the_panel_away(s: SessionView, dry: bool, tile: usize)
    requires
        s.state.visible,
    ensures
        ({
            let turn = clicks::going(s, dry, tile);
            &&& !turn.after.state.visible
            &&& turn.after.query.len() == 0
            &&& turn.does.contains(Effect::HideWindow)
            &&& !dry ==> turn.does.last() == Effect::Activate(tile) && !turn.does.contains(
                Effect::RestoreCaller,
            )
            &&& dry ==> turn.does[0] == Effect::SayWould(tile) && !turn.does.contains(
                Effect::Activate(tile),
            ) && (turn.does.contains(Effect::RestoreCaller) <==> s.state.caller is Some
                && s.state.caller != Some(s.state.own))
        }),
{
    reveal(clicks::going);
    reveal(session::hiding);
    let turn = clicks::going(s, dry, tile);
    if dry {
        assert(turn.does[5] == Effect::HideWindow);
        if s.state.caller is Some && s.state.caller != Some(s.state.own) {
            assert(turn.does[6] == Effect::RestoreCaller);
        }
    } else {
        assert(turn.does[4] == Effect::HideWindow);
    }
}

/// A click on something that opens goes to it, and takes it as the thing to move
/// while the latch holds the panel open. A new tab is gone to either way, and a
/// tile there is not does nothing.
pub proof fn a_click_goes_or_picks(s: SessionView, scene: Scene, tile: usize)
    ensures
        tile >= scene.board.spots@.len() ==> clicks::activating(s, scene, tile) == s.still(),
        tile < scene.board.spots@.len() ==> {
            let turn = clicks::activating(s, scene, tile);
            let dry = scene.config.dry_run;
            match scene.board.tile(tile as int).target {
                Target::Window(_) | Target::Shell(_) | Target::Tab => turn == if s.state.stay {
                    clicks::picking(s, scene.board, dry, tile)
                } else {
                    clicks::going(s, dry, tile)
                },
                Target::NewTab => turn == clicks::going(s, dry, tile),
                Target::Stay => turn == session::latching(s),
                Target::Arrange(to) => turn == clicks::arranging(s, scene.moving, to),
                Target::Mode(mode) => turn == if s.state.mode == mode {
                    session::leaving(s)
                } else {
                    session::entering(s, scene.board.sections@.len() > 0, mode)
                },
                Target::Slot => {
                    let on = session::entering(s, scene.board.sections@.len() > 0, Mode::Favorites);
                    &&& turn.after.state.filling == scene.board.half_of(scene.drawn, tile as int)
                    &&& turn.after == on.after.with(
                        State { filling: turn.after.state.filling, ..on.after.state },
                    )
                    &&& turn.does == on.does + seq![Effect::RefreshLanding]
                },
            }
        },
{
    reveal(clicks::activating);
}

/// Picking holds the panel open and points at a window: the one behind the tile
/// where there is one; else an app or a folder is started, and its window is
/// waited for; else what was pointed at stays. The panel is never left.
pub proof fn picking_points_at_a_window(s: SessionView, scene: Scene, dry: bool, tile: usize)
    ensures
        ({
            let item = scene.board.tile(tile as int);
            let turn = clicks::picking(s, scene.board, dry, tile);
            let behind = scene.board.window_behind(item);
            let starts = behind is None && (item.kind == Kind::App || item.kind == Kind::Folder);
            let after = turn.after;
            &&& after.state.stay
            &&& after.state.visible == s.state.visible
            &&& after.state.mode == s.state.mode
            &&& after.query == s.query
            &&& behind is Some ==> after.state.target == behind && after.pending is None
            &&& starts ==> after.state.target is None && after.pending == (match item.app {
                Some(app) => Some(app@),
                None => None,
            })
            &&& behind is None && !starts ==> after.state.target == s.state.target && after.pending
                == s.pending
            &&& turn.does == (if starts {
                seq![
                    if dry {
                        Effect::SayWould(tile)
                    } else {
                        Effect::Launch(tile)
                    },
                    Effect::FrameTarget,
                    Effect::Rebuild,
                ]
            } else {
                seq![Effect::FrameTarget, Effect::Rebuild]
            })
        }),
{
    reveal(clicks::picking);
    let item = scene.board.tile(tile as int);
    let turn = clicks::picking(s, scene.board, dry, tile);
    if scene.board.window_behind(item) is None && (item.kind == Kind::App || item.kind
        == Kind::Folder) {
        assert(turn.does =~= seq![
            if dry {
                Effect::SayWould(tile)
            } else {
                Effect::Launch(tile)
            },
            Effect::FrameTarget,
            Effect::Rebuild,
        ]);
    }
}

/// A move is sent to the window the bar points at, the way its tile says, and
/// the panel stays up for the next. With no window there is nothing to send.
pub proof fn a_move_is_sent_to_the_window_pointed_at(
    s: SessionView,
    moving: Option<u64>,
    to: Move,
)
    ensures
        moving is None ==> clicks::arranging(s, moving, to) == s.still(),
        moving matches Some(handle) ==> {
            let turn = clicks::arranging(s, moving, to);
            &&& turn.after == s.with(State { arranging: true, ..s.state })
            &&& turn.does == seq![Effect::Arrange { handle, to }]
        },
{
    reveal(clicks::arranging);
}

/// Each square of the big menu closes it and does what it says: three turn their
/// mode on, three have something picked, one opens the settings with no question
/// on them, and one does nothing more.
pub proof fn each_menu_square_closes_the_menu(s: SessionView, boxed: bool, command: Command)
    ensures
        ({
            let turn = clicks::command(s, boxed, command);
            let closed = s.with(State { menu_up: false, ..s.state });
            &&& !turn.after.state.menu_up
            &&& turn.after.state.visible == s.state.visible
            &&& turn.after.query == s.query
            &&& match command {
                Command::EditLayout => turn == session::entering(closed, boxed, Mode::Layout),
                Command::Favorites => turn == session::entering(closed, boxed, Mode::Favorites),
                Command::CloseApps => turn == session::entering(closed, boxed, Mode::Close),
                Command::AddApp => turn.after == closed && turn.does == seq![
                    Effect::Pick(Picked::App),
                ],
                Command::AddFolder => turn.after == closed && turn.does == seq![
                    Effect::Pick(Picked::Folder),
                ],
                Command::AddFile => turn.after == closed && turn.does == seq![
                    Effect::Pick(Picked::File),
                ],
                Command::Settings => turn.after.state.settings_up
                    && !turn.after.state.asking_reset && turn.does == seq![Effect::Rebuild],
                Command::Close => turn.after.state.settings_up == s.state.settings_up && turn.does
                    == seq![Effect::Rebuild],
            }
        }),
{
    reveal(clicks::command);
    reveal(session::entering);
    reveal(session::unpointed);
}

/// Each settings square does what it says. Done and the file put the settings
/// away; Reset asks, and its two answers put the question away, only one of them
/// putting the layout back; every other square writes its next value and leaves
/// the session as it is. A square that does not apply does nothing.
pub proof fn each_settings_square_does_what_it_says(
    s: SessionView,
    config: Config,
    setting: Setting,
)
    ensures
        ({
            let turn = clicks::setting(s, config, setting);
            let (up, asked) = (turn.after.state.settings_up, turn.after.state.asking_reset);
            &&& turn.after.state.visible == s.state.visible
            &&& turn.after.state.mode == s.state.mode
            &&& turn.after.query == s.query
            &&& match setting {
                Setting::Done => !up && !asked && turn.does == seq![Effect::Rebuild],
                Setting::OpenFile => !up && !asked && turn.does == seq![
                    Effect::OpenConfig,
                    Effect::Rebuild,
                ],
                Setting::Reset => if settings::is_stock(config) {
                    turn == s.still()
                } else {
                    &&& up == s.state.settings_up && asked
                    &&& turn.does == seq![Effect::Rebuild, Effect::KeepFocus]
                },
                Setting::ResetNo => up == s.state.settings_up && !asked && turn.does == seq![
                    Effect::Rebuild,
                    Effect::KeepFocus,
                ],
                Setting::ResetYes => up == s.state.settings_up && !asked && turn.does == seq![
                    Effect::ResetLayout,
                ],
                Setting::CenterHolds => turn.after == s && turn.does == if config.center.rows > 0
                    && config.center.columns > 0 {
                    seq![Effect::Write(setting.writes(config)->0)]
                } else {
                    Seq::empty()
                },
                Setting::Tiles | Setting::Labels | Setting::Columns | Setting::Browser => turn.after
                    == s && turn.does == seq![Effect::Write(setting.writes(config)->0)],
            }
        }),
{
    reveal(clicks::setting);
}

/// The options of a box do what they say. Fewer and More are one tile less and
/// one more than the box shows, and never none; a lane is the lane named; up and
/// down move the section that way; and what the config says already is not
/// written again. Nothing but the way out changes the session.
pub proof fn each_option_does_what_it_says(s: SessionView, scene: Scene, section: usize)
    requires
        s.state.edit == Some(section),
        section < scene.board.sections@.len(),
        scene.board.sections@[section as int].items@.len() < usize::MAX,
    ensures
        ({
            let title = scene.board.sections@[section as int].title@;
            let shown = scene.board.sections@[section as int].items@.len() as int;
            let cap = clicks::cap_from(scene.config.sections@, title, 0) as int;
            let fewer = if shown > 1 {
                shown - 1
            } else {
                1
            };
            let does = |option: EditOption| clicks::applying(s, scene, option).does;
            let lane = |option: EditOption, lane: Lane|
                does(option) == if scene.spelled == Some(lane) {
                    Seq::empty()
                } else {
                    seq![Effect::SetLane(lane)]
                };
            &&& does(EditOption::Fewer) == if cap == fewer {
                Seq::empty()
            } else {
                seq![Effect::SetShown(fewer as usize)]
            }
            &&& does(EditOption::More) == if cap == shown + 1 {
                Seq::empty()
            } else {
                seq![Effect::SetShown((shown + 1) as usize)]
            }
            &&& lane(EditOption::Left, Lane::Left)
            &&& lane(EditOption::Right, Lane::Right)
            &&& lane(EditOption::FullWidth, Lane::Full)
            &&& does(EditOption::MoveUp) == seq![Effect::MoveSection(true)]
            &&& does(EditOption::MoveDown) == seq![Effect::MoveSection(false)]
        }),
        forall|option: EditOption|
            option != EditOption::Done ==> (#[trigger] clicks::applying(s, scene, option)).after
                == s,
        clicks::applying(s, scene, EditOption::Done) == session::leaving(s),
{
    reveal(clicks::applying);
}

/// The options of the block resize it by one column or one row the way they
/// say, step what it holds, or switch it on and off, whichever box is picked.
pub proof fn the_blocks_options_change_the_block(s: SessionView, scene: Scene)
    ensures
        ({
            let does = |option: EditOption| clicks::applying(s, scene, option).does;
            let resized = |option: EditOption, across: isize, down: isize|
                does(option) == (match settings::resized(scene.config, across, down) {
                    Some(change) => seq![Effect::WriteCenter(change)],
                    None => Seq::empty(),
                });
            &&& resized(EditOption::CenterNarrower, (-1) as isize, 0)
            &&& resized(EditOption::CenterWider, 1, 0)
            &&& resized(EditOption::CenterShorter, 0, (-1) as isize)
            &&& resized(EditOption::CenterTaller, 0, 1)
            &&& does(EditOption::CenterHolds) == seq![
                Effect::WriteCenter(
                    Change::CenterContents(
                        settings::contents_after(scene.config.center.contents),
                    ),
                ),
            ]
            &&& does(EditOption::CenterOn) == seq![
                Effect::WriteCenter(settings::toggled(scene.config)),
            ]
        }),
{
    reveal(clicks::applying);
}

/// With no box picked there is none to change: no tile count, no lane and no
/// place is written.
pub proof fn no_box_picked_is_no_box_changed(s: SessionView, scene: Scene, option: EditOption)
    requires
        s.state.edit is None,
        option == EditOption::Fewer || option == EditOption::More || option == EditOption::Left
            || option == EditOption::Right || option == EditOption::FullWidth || option
            == EditOption::MoveUp || option == EditOption::MoveDown,
    ensures
        clicks::applying(s, scene, option) == s.still(),
{
    reveal(clicks::applying);
}

/// A click on a box picks it, a click on the box that is picked puts it away,
/// and a click on no box picks none and leaves the pick alone.
pub proof fn a_box_is_picked_and_put_away(
    s: SessionView,
    scene: Scene,
    section: usize,
    x: int,
    y: int,
)
    requires
        scene.section_under(x, y, s.state.scroll as int) == Some(section as int),
    ensures
        ({
            let picked = clicks::boxing(s, scene, x, y);
            let again = clicks::boxing(picked.after, scene, x, y);
            &&& picked.after.state.edit == if s.state.edit == Some(section) {
                None
            } else {
                Some(section)
            }
            &&& s.state.edit != Some(section) ==> again.after.state.edit is None
            &&& picked.does == seq![Effect::Rebuild]
            &&& picked.after.state.mode == s.state.mode
        }),
{
    reveal(clicks::boxing);
}

/// A click while a box is being edited is the option it lands on, where that
/// applies. Anywhere else on the plate it is nothing, and off the plate it picks
/// the box under it. The panel keeps the focus through all of them.
pub proof fn a_click_on_the_plate_stays_on_the_plate(s: SessionView, scene: Scene, x: int, y: int)
    ensures
        ({
            let turn = clicks::edit_clicking(s, scene, x, y);
            let on_plate = scene.plate matches Some(plate) && plate.x <= x < plate.x + plate.w
                && plate.y <= y < plate.y + plate.h;
            &&& turn.does.last() == Effect::KeepFocus
            &&& !on_plate ==> turn == clicks::boxing(s, scene, x, y).and(seq![Effect::KeepFocus])
            &&& on_plate ==> match scene::option_from(scene.options@, x, y, 0) {
                Some(i) => turn == if scene.options@[i].allowed {
                    clicks::applying(s, scene, scene.options@[i].option).and(
                        seq![Effect::KeepFocus],
                    )
                } else {
                    s.still().and(seq![Effect::KeepFocus])
                },
                None => turn == s.still().and(seq![Effect::KeepFocus]),
            }
        }),
{
    reveal(clicks::edit_clicking);
}

/// A click while a mode takes clicks does what the mode is for to the tile under
/// it: favours it while filling the block, closes it while closing. On the
/// panel's own padding it dismisses the panel and puts the caller back.
pub proof fn a_click_does_what_the_mode_is_for(s: SessionView, scene: Scene, x: int, y: int)
    requires
        s.state.mode == Mode::Favorites || s.state.mode == Mode::Close,
    ensures
        ({
            let turn = clicks::mode_clicking(s, scene, x, y);
            match scene.tile_under(x, y, s.state.scroll as int) {
                None => turn == session::hiding(s, true),
                Some(t) => !(scene.board.has(t) && scene.board.tile(t).target is Mode) ==> turn
                    == (if s.state.mode == Mode::Favorites {
                    clicks::favoring(s, scene, t as usize)
                } else {
                    clicks::closing(s, scene, t as usize)
                }).and(seq![Effect::KeepFocus]),
            }
        }),
{
    reveal(clicks::mode_clicking);
}

/// While the bento is rearranged a click is one on the options or the boxes,
/// wherever it is not on a mode's own square.
pub proof fn a_click_while_rearranging_edits(s: SessionView, scene: Scene, x: int, y: int)
    requires
        s.state.mode == Mode::Layout,
        !(scene.tile_under(x, y, s.state.scroll as int) matches Some(t) && scene.board.has(t)
            && scene.board.tile(t).target is Mode),
    ensures
        clicks::mode_clicking(s, scene, x, y) == clicks::edit_clicking(s, scene, x, y),
{
    reveal(clicks::mode_clicking);
}

/// The box being edited is called by its own title and counted by its own
/// tiles.
pub proof fn the_edited_box_is_the_one_picked(s: SessionView, scene: Scene, section: usize)
    ensures
        s.state.edit is None ==> clicks::edited(s, scene.board) is None,
        s.state.edit == Some(section) && section >= scene.board.sections@.len() ==> clicks::edited(
            s,
            scene.board,
        ) is None,
        s.state.edit == Some(section) && section < scene.board.sections@.len() ==> clicks::edited(
            s,
            scene.board,
        ) == Some(
            (
                scene.board.sections@[section as int].title@,
                scene.board.sections@[section as int].items@.len(),
            ),
        ),
        scene.edits_center(s.state.edit) <==> (s.state.edit matches Some(edit) && edit
            < scene.board.sections@.len() && scene.board.sections@[edit as int].center is Some),
{
}

} // verus!
