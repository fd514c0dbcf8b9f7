//! What is lit goes with what is made anew.

use vstd::prelude::*;
use crate::answers;
use crate::answers::{PopupChoice, TrayChoice};
use crate::board::Board;
use crate::clicks;
use crate::drag;
use crate::events;
use crate::events::{Message, World};
use crate::keys;
use crate::keys::Key;
use crate::layout::Layout;
use crate::menu::Command;
use crate::model::{Mode, Target};
use crate::num;
use crate::scene;
use crate::scene::{EditOption, Scene};
use crate::session;
use crate::session::{Effect, SessionView, State, Turn};
use crate::settings::Setting;

verus! {

/// Whether no square of the panel is lit: no option, nothing in the menu or the
/// settings, and not the corner button.
pub open spec fn dark(s: SessionView) -> bool {
    &&& s.state.hover_option is None
    &&& s.state.hover_menu is None
    &&& s.state.hover_setting is None
    &&& !s.state.hover_home
}

/// Whether a turn that makes everything anew leaves nothing lit.
pub open spec fn starts_dark(turn: Turn) -> bool {
    turn.does.contains(Effect::Rebuild) ==> dark(turn.after)
}

/// Whether some effects make nothing anew.
spec fn builds_nothing(does: Seq<Effect>) -> bool {
    forall|i: int| 0 <= i < does.len() ==> #[trigger] does[i] != Effect::Rebuild
}

proof fn lemma_nothing(turn: Turn)
    requires
        builds_nothing(turn.does),
    ensures
        starts_dark(turn),
{
    if turn.does.contains(Effect::Rebuild) {
        let i = choose|i: int| 0 <= i < turn.does.len() && turn.does[i] == Effect::Rebuild;
        assert(turn.does[i] != Effect::Rebuild);
    }
}

/// More to be done, none of it a rebuild, changes nothing.
proof fn lemma_more(turn: Turn, before: Seq<Effect>, more: Seq<Effect>)
    requires
        starts_dark(turn),
        builds_nothing(before),
        builds_nothing(more),
    ensures
        starts_dark(Turn { after: turn.after, does: before + turn.does + more }),
{
    let does = before + turn.does + more;
    if does.contains(Effect::Rebuild) {
        let i = choose|i: int| 0 <= i < does.len() && does[i] == Effect::Rebuild;
        if i < before.len() {
            assert(before[i] != Effect::Rebuild);
        } else if i < before.len() + turn.does.len() {
            assert(turn.does[i - before.len()] == Effect::Rebuild);
        } else {
            assert(more[i - before.len() - turn.does.len()] != Effect::Rebuild);
        }
    }
}

proof fn lemma_after(turn: Turn, more: Seq<Effect>)
    requires
        starts_dark(turn),
        builds_nothing(more),
    ensures
        starts_dark(turn.and(more)),
{
    lemma_more(turn, Seq::empty(), more);
    assert(Seq::<Effect>::empty() + turn.does + more =~= turn.does + more);
}

proof fn lemma_before(turn: Turn, before: Seq<Effect>)
    requires
        starts_dark(turn),
        builds_nothing(before),
    ensures
        starts_dark(Turn { after: turn.after, does: before + turn.does }),
{
    lemma_more(turn, before, Seq::empty());
    assert(before + turn.does + Seq::<Effect>::empty() =~= before + turn.does);
}

proof fn lemma_hiding(s: SessionView, restore: bool)
    ensures
        builds_nothing(session::hiding(s, restore).does),
        starts_dark(session::hiding(s, restore)),
{
    reveal(session::hiding);
    lemma_nothing(session::hiding(s, restore));
}

proof fn lemma_modes(s: SessionView, boxed: bool, mode: Mode)
    ensures
        starts_dark(session::latching(s)),
        starts_dark(session::leaving(s)),
        starts_dark(session::entering(s, boxed, mode)),
        starts_dark(session::pressing_home(s)),
{
    reveal(session::latching);
    reveal(session::leaving);
    reveal(session::entering);
    reveal(session::pressing_home);
    lemma_nothing(s.still());
}

proof fn lemma_querying(s: SessionView, cols: usize, query: Seq<char>)
    ensures
        starts_dark(session::querying(s, cols, query)),
{
    reveal(session::querying);
    lemma_nothing(session::querying(s, cols, query));
}

proof fn lemma_escaping(s: SessionView, cols: usize)
    ensures
        starts_dark(session::escaping(s, cols)),
{
    reveal(session::escaping);
    lemma_hiding(s, true);
    lemma_querying(s, cols, Seq::empty());
}

proof fn lemma_toggling(s: SessionView, front: Option<u64>, neutralized: bool)
    ensures
        starts_dark(session::toggling(s, front, neutralized)),
{
    reveal(session::toggling);
    reveal(session::summoning);
    lemma_hiding(s, true);
    lemma_nothing(s.still());
}

proof fn lemma_setting(s: SessionView, scene: Scene, setting: Setting)
    ensures
        starts_dark(clicks::setting(s, scene.config, setting)),
{
    reveal(clicks::setting);
    let turn = clicks::setting(s, scene.config, setting);
    match setting {
        Setting::Done | Setting::OpenFile | Setting::Reset | Setting::ResetNo => {
            if turn == s.still() {
                lemma_nothing(turn);
            }
        },
        _ => {
            lemma_nothing(turn);
        },
    }
}

proof fn lemma_command(s: SessionView, boxed: bool, command: Command)
    ensures
        starts_dark(clicks::command(s, boxed, command)),
{
    reveal(clicks::command);
    let turn = clicks::command(s, boxed, command);
    let closed = s.with(State { menu_up: false, ..s.state });
    match command.mode() {
        Some(mode) => {
            lemma_modes(closed, boxed, mode);
        },
        None => match command {
            Command::AddApp | Command::AddFolder | Command::AddFile => {
                lemma_nothing(turn);
            },
            _ => {},
        },
    }
}

proof fn lemma_going(s: SessionView, scene: Scene, tile: usize)
    ensures
        starts_dark(clicks::going(s, scene.config.dry_run, tile)),
        starts_dark(clicks::picking(s, scene.board, scene.config.dry_run, tile)),
{
    reveal(clicks::going);
    reveal(clicks::picking);
    lemma_hiding(s, true);
    lemma_hiding(s, false);
    lemma_nothing(clicks::going(s, scene.config.dry_run, tile));
}

proof fn lemma_activating(s: SessionView, scene: Scene, tile: usize)
    ensures
        starts_dark(clicks::activating(s, scene, tile)),
{
    reveal(clicks::activating);
    reveal(clicks::arranging);
    let boxed = scene.board.sections@.len() > 0;
    lemma_nothing(s.still());
    if scene.board.has(tile as int) {
        match scene.board.tile(tile as int).target {
            Target::Slot => {
                let on = session::entering(s, boxed, Mode::Favorites);
                lemma_modes(s, boxed, Mode::Favorites);
                lemma_after(on, seq![Effect::RefreshLanding]);
            },
            Target::Mode(mode) => {
                lemma_modes(s, boxed, mode);
            },
            Target::Stay => {
                lemma_modes(s, boxed, Mode::Grid);
            },
            Target::Arrange(to) => {
                lemma_nothing(clicks::arranging(s, scene.moving, to));
            },
            _ => {
                lemma_going(s, scene, tile);
            },
        }
    }
}

proof fn lemma_favoring(s: SessionView, scene: Scene, tile: usize)
    ensures
        starts_dark(clicks::favoring(s, scene, tile)),
        starts_dark(clicks::closing(s, scene, tile)),
{
    reveal(clicks::favoring);
    reveal(clicks::closing);
    lemma_modes(s, true, Mode::Grid);
    lemma_nothing(clicks::closing(s, scene, tile));
    if clicks::favoring(s, scene, tile) != session::leaving(s) {
        lemma_nothing(clicks::favoring(s, scene, tile));
    }
}

proof fn lemma_applying(s: SessionView, scene: Scene, option: EditOption)
    ensures
        starts_dark(clicks::applying(s, scene, option)),
{
    reveal(clicks::applying);
    lemma_modes(s, true, Mode::Grid);
    if option != EditOption::Done {
        lemma_nothing(clicks::applying(s, scene, option));
    }
}

proof fn lemma_editing(s: SessionView, scene: Scene, x: int, y: int)
    ensures
        starts_dark(clicks::edit_clicking(s, scene, x, y)),
{
    reveal(clicks::edit_clicking);
    reveal(clicks::boxing);
    lemma_nothing(s.still());
    if let Some(i) = scene::option_from(scene.options@, x, y, 0) {
        lemma_applying(s, scene, scene.options@[i].option);
        lemma_after(
            clicks::applying(s, scene, scene.options@[i].option),
            seq![Effect::KeepFocus],
        );
    }
    lemma_after(s.still(), seq![Effect::KeepFocus]);
    lemma_after(clicks::boxing(s, scene, x, y), seq![Effect::KeepFocus]);
}

proof fn lemma_mode_clicking(s: SessionView, scene: Scene, x: int, y: int)
    ensures
        starts_dark(clicks::mode_clicking(s, scene, x, y)),
{
    reveal(clicks::mode_clicking);
    lemma_nothing(s.still());
    lemma_editing(s, scene, x, y);
    lemma_hiding(s, true);
    if let Some(tile) = scene.tile_under(x, y, s.state.scroll as int) {
        let tile = tile as usize;
        lemma_activating(s, scene, tile);
        lemma_favoring(s, scene, tile);
        lemma_after(clicks::activating(s, scene, tile), seq![Effect::KeepFocus]);
        lemma_after(clicks::favoring(s, scene, tile), seq![Effect::KeepFocus]);
        lemma_after(clicks::closing(s, scene, tile), seq![Effect::KeepFocus]);
    }
}

proof fn lemma_downing(s: SessionView, scene: Scene, x: int, y: int)
    ensures
        starts_dark(events::downing(s, scene, x, y)),
{
    reveal(events::downing);
    reveal(events::settings_away);
    reveal(events::menu_away);
    reveal(drag::pressing);
    let taken = events::taken(s);
    lemma_nothing(s.still());
    lemma_modes(taken, true, Mode::Grid);
    lemma_mode_clicking(taken, scene, x, y);
    if let Some(i) = scene::square_from(scene.settings@, x, y, 0) {
        lemma_setting(taken, scene, scene.settings@[i].0);
    }
    if let Some(i) = scene::square_from(scene.menu@, x, y, 0) {
        lemma_command(taken, scene.board.sections@.len() > 0, scene.menu@[i].0);
    }
    if let Some(tile) = scene.tile_under(x, y, s.state.scroll as int) {
        lemma_nothing(drag::pressing(s, scene, tile as usize, x, y));
    }
}

proof fn lemma_upping(s: SessionView, scene: Scene, x: int, y: int)
    ensures
        starts_dark(events::upping(s, scene, x, y)),
{
    reveal(events::upping);
    let up = events::lifted(s);
    lemma_nothing(up.still());
    lemma_hiding(up, true);
    if let Some(press) = s.state.press {
        lemma_activating(up, scene, press.tile);
        lemma_before(clicks::activating(up, scene, press.tile), drag::cancelling(press));
        lemma_nothing(Turn { after: up, does: drag::cancelling(press) });
        lemma_nothing(
            Turn { after: up, does: seq![Effect::ReleaseCapture, Effect::SaveOrder(press)] },
        );
    }
}

proof fn lemma_pointing(s: SessionView, scene: Scene, x: int, y: int)
    ensures
        starts_dark(events::pointing(s, scene, x, y)),
        starts_dark(events::departing(s)),
{
    reveal(events::pointing);
    reveal(events::over_top);
    reveal(events::departing);
    lemma_nothing(events::pointing(s, scene, x, y));
    lemma_nothing(events::departing(s));
}

proof fn lemma_choosing(s: SessionView, layout: Layout, len: nat, index: int)
    ensures
        starts_dark(keys::choosing(s, layout, len, index)),
{
    reveal(keys::choosing);
    reveal(keys::scrolling);
    lemma_nothing(keys::choosing(s, layout, len, index));
}

proof fn lemma_keying(s: SessionView, scene: Scene, key: Key, repeat: bool)
    ensures
        starts_dark(keys::keying(s, scene, key, repeat).0),
{
    reveal(keys::keying);
    reveal(keys::edit_keying);
    reveal(keys::moving);
    let len = scene.board.spots@.len();
    let row = num::larger(scene.layout.cols as int, 1);
    lemma_nothing(s.still());
    lemma_modes(s, true, Mode::Grid);
    lemma_escaping(s, scene.layout.cols);
    if let Some(tile) = s.state.selected {
        lemma_activating(s, scene, tile);
    }
    if let Some(option) = keys::arrow_option(key) {
        lemma_applying(s, scene, option);
    }
    lemma_choosing(s, scene.layout, len, 0);
    lemma_choosing(s, scene.layout, len, usize::MAX as int);
    lemma_choosing(s, scene.layout, len, keys::stepped(s.state.selected, len, -1));
    lemma_choosing(s, scene.layout, len, keys::stepped(s.state.selected, len, 1));
    lemma_choosing(s, scene.layout, len, keys::stepped(s.state.selected, len, -row));
    lemma_choosing(s, scene.layout, len, keys::stepped(s.state.selected, len, row));
}

proof fn lemma_losing(s: SessionView, world: World)
    ensures
        starts_dark(events::settling(s, world.front)),
        starts_dark(events::blurring(s).0),
        starts_dark(events::following(s)),
        starts_dark(events::uncaught(s)),
{
    reveal(events::settling);
    reveal(events::blurring);
    reveal(events::following);
    reveal(events::uncaught);
    lemma_hiding(s, false);
    lemma_nothing(events::settling(s, world.front));
    lemma_nothing(events::blurring(s).0);
    lemma_nothing(events::following(s));
    lemma_nothing(events::uncaught(s));
}

/// Whatever reaches the window, a panel that is made anew over it has no square
/// lit: neither a surface that comes up again nor the button remembers where the
/// pointer was the last time.
pub proof fn a_panel_made_anew_has_nothing_lit(
    s: SessionView,
    scene: Scene,
    world: World,
    message: Message,
)
    ensures
        starts_dark(events::handled(s, scene, world, message).0),
{
    lemma_nothing(s.still());
    match message {
        Message::Hotkey(_) | Message::Summon | Message::Tray(_) => {
            lemma_toggling(s, world.front, world.neutralized);
            lemma_nothing(s.doing(Effect::ShowTrayMenu));
        },
        Message::MouseMove { x, y } => {
            reveal(drag::dragging);
            let (x, y) = (events::pixels(x), events::pixels(y));
            let slop = (events::pixels(world.slop.0), events::pixels(world.slop.1));
            lemma_nothing(drag::dragging(s, scene.layout, x, y, slop));
            lemma_pointing(s, scene, x, y);
        },
        Message::MouseLeave => {
            lemma_pointing(s, scene, 0, 0);
        },
        Message::ButtonDown { x, y } => {
            lemma_downing(s, scene, events::pixels(x), events::pixels(y));
        },
        Message::ButtonUp { x, y } => {
            lemma_upping(s, scene, events::pixels(x), events::pixels(y));
        },
        Message::Wheel(turn) => {
            reveal(keys::scrolling);
            lemma_nothing(
                keys::scrolling(s, scene.layout, s.state.scroll - events::pixels(turn)),
            );
        },
        Message::KeyDown { key, repeat } => {
            lemma_keying(s, scene, key, repeat);
        },
        Message::Typed(c) => {
            reveal(session::typing);
            lemma_querying(s, scene.layout.cols, session::typed(s.query, c));
        },
        Message::RightUp { x, y } => {
            reveal(events::popping);
            lemma_nothing(events::popping(s, events::pixels(x), events::pixels(y)));
        },
        _ => {
            lemma_losing(s, world);
            lemma_nothing(s.doing(Effect::Beat));
            lemma_nothing(s.doing(Effect::RefreshTray));
            lemma_nothing(s.doing(Effect::FillIcons));
            lemma_nothing(s.doing(Effect::ReloadConfig));
        },
    }
}

/// The same of every answer the world gives: what was written, what was moved,
/// what changed under the panel, and what was picked from a menu.
pub proof fn a_panel_made_anew_on_an_answer_has_nothing_lit(
    s: SessionView,
    scene: Scene,
    board: Board,
    layout: Layout,
    held: Option<Seq<char>>,
    title: Seq<char>,
    front: Option<u64>,
    neutralized: bool,
    tile: Option<usize>,
    tray: TrayChoice,
    popup: PopupChoice,
    ok: bool,
)
    ensures
        starts_dark(answers::wrote_setting(s, ok)),
        starts_dark(answers::reset_layout(s, ok)),
        starts_dark(answers::changed_center(s, ok)),
        starts_dark(answers::blocked(s, board)),
        starts_dark(answers::shifted(s, board, title)),
        starts_dark(answers::caught_up(s, board, layout, held)),
        starts_dark(answers::from_tray(s, front, neutralized, tray)),
        starts_dark(answers::from_popup(s, scene, tile, popup)),
{
    lemma_nothing(s.still());
    lemma_toggling(s, front, neutralized);
    lemma_hiding(s, false);
    lemma_after(session::hiding(s, false), seq![Effect::Quit]);
    if !(tray is Toggle) {
        lemma_nothing(answers::from_tray(s, front, neutralized, tray));
    }
    let closed = answers::unpopped(s);
    lemma_modes(closed, scene.board.sections@.len() > 0, Mode::Layout);
    match popup {
        PopupChoice::EditLayout => {},
        PopupChoice::PinApp | PopupChoice::Unpin | PopupChoice::OpenLocation => {
            reveal(answers::tile_popup);
            lemma_hiding(closed, false);
            lemma_nothing(answers::from_popup(s, scene, tile, popup));
        },
        PopupChoice::Center | PopupChoice::Uncenter => {
            reveal(answers::tile_popup);
            lemma_nothing(closed.still());
            if let Some(tile) = tile {
                lemma_favoring(closed, scene, tile);
            }
        },
        _ => {
            lemma_nothing(answers::from_popup(s, scene, tile, popup));
        },
    }
}

} // verus!
