//! What an answer from the world comes to.

use vstd::prelude::*;
use crate::answers;
use crate::answers::{PopupChoice, TrayChoice};
use crate::at;
use crate::board::Board;
use crate::clicks;
use crate::drag;
use crate::finds;
use crate::layout::Layout;
use crate::model::{Mode, Section, Source, Target};
use crate::pairing;
use crate::pairing::{BridgeStep, Rebind};
use crate::popup;
use crate::scene::Scene;
use crate::session;
use crate::session::{Effect, Picked, Press, SessionView, State};

verus! {

/// Each line of the tray's menu does what it says. Only the way out changes the
/// session, by taking the panel away first, and the one that shows or dismisses
/// the panel.
pub proof fn each_tray_line_does_what_it_says(
    s: SessionView,
    front: Option<u64>,
    neutralized: bool,
    index: usize,
)
    ensures
        ({
            let chosen = |choice: TrayChoice| answers::from_tray(s, front, neutralized, choice);
            &&& chosen(TrayChoice::Toggle) == session::toggling(s, front, neutralized)
            &&& chosen(TrayChoice::AddApp) == s.doing(Effect::Pick(Picked::App))
            &&& chosen(TrayChoice::AddFolder) == s.doing(Effect::Pick(Picked::Folder))
            &&& chosen(TrayChoice::AddFile) == s.doing(Effect::Pick(Picked::File))
            &&& chosen(TrayChoice::EditConfig) == s.doing(Effect::OpenConfig)
            &&& chosen(TrayChoice::PairBrowser) == s.doing(Effect::PairBrowser)
            &&& chosen(TrayChoice::Forget(index)) == s.doing(Effect::ForgetBrowser(index))
            &&& chosen(TrayChoice::Nothing) == s.still()
            &&& chosen(TrayChoice::Exit).does.last() == Effect::Quit
            &&& !chosen(TrayChoice::Exit).does.contains(Effect::RestoreCaller)
            &&& !chosen(TrayChoice::Exit).after.state.visible
        }),
{
    reveal(session::hiding);
}

/// The context menu is gone whatever was picked from it. The lines of the panel
/// itself do what they say with no tile, and a tile's lines need one.
pub proof fn each_line_of_the_context_menu_does_what_it_says(
    s: SessionView,
    scene: Scene,
    tile: Option<usize>,
)
    ensures
        ({
            let chosen = |choice: PopupChoice| answers::from_popup(s, scene, tile, choice);
            let closed = s.with(State { popup: false, ..s.state });
            &&& chosen(PopupChoice::AddApp) == closed.doing(Effect::Pick(Picked::App))
            &&& chosen(PopupChoice::AddFolder) == closed.doing(Effect::Pick(Picked::Folder))
            &&& chosen(PopupChoice::AddFile) == closed.doing(Effect::Pick(Picked::File))
            &&& chosen(PopupChoice::EditLayout) == session::entering(
                closed,
                scene.board.sections@.len() > 0,
                Mode::Layout,
            )
            &&& chosen(PopupChoice::Settings) == closed.doing(Effect::OpenConfig)
            &&& chosen(PopupChoice::Nothing) == closed.still()
            &&& tile is None ==> chosen(PopupChoice::PinApp) == closed.still() && chosen(
                PopupChoice::Unpin,
            ) == closed.still() && chosen(PopupChoice::Center) == closed.still() && chosen(
                PopupChoice::Uncenter,
            ) == closed.still() && chosen(PopupChoice::OpenLocation) == closed.still()
        }),
{
    reveal(answers::unpopped);
}

/// The lines a tile has act on that tile: a running window's app is pinned, a
/// pin of the shell's is taken away, both lines of the block favour it, and its
/// file is shown on disk once the panel is out of the way.
pub proof fn a_tiles_lines_act_on_that_tile(s: SessionView, scene: Scene, tile: usize)
    requires
        tile < scene.board.spots@.len(),
    ensures
        ({
            let chosen = |choice: PopupChoice| answers::from_popup(s, scene, Some(tile), choice);
            let closed = s.with(State { popup: false, ..s.state });
            let item = scene.board.tile(tile as int);
            &&& chosen(PopupChoice::PinApp) == if item.target is Window && item.icon_source is Some {
                closed.doing(Effect::Pin(tile))
            } else {
                closed.still()
            }
            &&& chosen(PopupChoice::Unpin) == if answers::unpinned(scene, tile) is Some {
                closed.doing(Effect::Unpin(tile))
            } else {
                closed.still()
            }
            &&& chosen(PopupChoice::Center) == clicks::favoring(closed, scene, tile)
            &&& chosen(PopupChoice::Uncenter) == clicks::favoring(closed, scene, tile)
            &&& chosen(PopupChoice::OpenLocation) == if item.icon_source is Some {
                session::hiding(closed, false).and(seq![Effect::Locate(tile)])
            } else {
                closed.still()
            }
        }),
{
    reveal(answers::unpopped);
    reveal(answers::tile_popup);
}

/// An app is pinned by the file of its window, and only a window's is.
pub proof fn an_app_is_pinned_by_the_file_of_its_window(board: Board, tile: usize)
    ensures
        tile < board.spots@.len() && board.tile(tile as int).target is Window
            ==> answers::pinned_app(board, tile) == (match board.tile(tile as int).icon_source {
            Some(source) => Some(source@),
            None => None,
        }),
        tile >= board.spots@.len() || board.tile(tile as int).target !is Window
            ==> answers::pinned_app(board, tile) is None,
{
}

/// A pin is taken out of the section whose box holds its tile, by the name the
/// shell opens it by.
pub proof fn a_pin_is_taken_out_of_its_own_section(scene: Scene, tile: usize)
    ensures
        match answers::unpinned(scene, tile) {
            Some((section, name)) => {
                &&& 0 <= section < scene.board.sections@.len()
                &&& tile < scene.board.spots@.len()
                &&& scene.board.tile(tile as int).target is Shell
                &&& scene.board.tile(tile as int).target->Shell_0@ == name
                &&& drag::owner_from(scene.layout, tile as int, 0) is Some
                &&& scene.layout.bands@[drag::owner_from(
                    scene.layout,
                    tile as int,
                    0,
                )->0].section == section
            },
            None => tile >= scene.board.spots@.len() || scene.board.tile(
                tile as int,
            ).target !is Shell || drag::owner_from(scene.layout, tile as int, 0) is None
                || scene.layout.bands@[drag::owner_from(
                scene.layout,
                tile as int,
                0,
            )->0].section >= scene.board.sections@.len(),
        },
{
}

/// Catching up with a model that changed: the scroll is kept to what there now
/// is, nothing is under the pointer, the window that was waited for is taken if
/// it came and waited for still if it did not, and the selection follows its
/// item where that is still on the panel. What is typed stays.
pub proof fn catching_up_keeps_what_is_still_there(
    s: SessionView,
    board: Board,
    layout: Layout,
    held: Option<Seq<char>>,
)
    requires
        0 <= layout.max_scroll,
        board.spots@.len() <= usize::MAX,
    ensures
        ({
            let turn = answers::caught_up(s, board, layout, held);
            let after = turn.after.state;
            let came = s.pending matches Some(app) && board.window_from(app, 0) is Some;
            &&& turn.does == seq![Effect::FrameTarget, Effect::Rebuild]
            &&& turn.after.query == s.query
            &&& 0 <= after.scroll <= layout.max_scroll
            &&& 0 <= s.state.scroll <= layout.max_scroll ==> after.scroll == s.state.scroll
            &&& s.state.scroll > layout.max_scroll ==> after.scroll == layout.max_scroll
            &&& after.hover is None
            &&& came ==> after.target == board.window_from(s.pending->0, 0) && turn.after.pending
                is None
            &&& !came ==> after.target == s.state.target && turn.after.pending == s.pending
            &&& held is None ==> after.selected == s.state.selected
            &&& held matches Some(id) ==> match board.known_from(id, 0) {
                Some(t) => after.selected == Some(t as usize),
                None => after.selected == s.state.selected,
            }
            &&& after.mode == s.state.mode
            &&& after.visible == s.state.visible
            &&& after.stay == s.state.stay
            &&& after.edit == s.state.edit
        }),
{
}

/// The pointer's item is followed to where it went, and lets go of the pointer
/// where it went off the panel.
pub proof fn the_pointed_at_item_is_followed(
    s: SessionView,
    board: Board,
    previous: Option<Seq<char>>,
)
    ensures
        previous is None ==> answers::hover_followed(s, board, previous) == s.still(),
        previous matches Some(id) ==> {
            let after = answers::hover_followed(s, board, previous).after;
            match board.known_from(id, 0) {
                Some(t) => after.state.hover == Some(t as usize),
                None => after.state.hover is None,
            }
        },
{
}

/// A section is found again by its title: the first that has it.
pub proof fn a_section_is_found_by_its_title(
    sections: Seq<Section>,
    title: Seq<char>,
    from: int,
)
    requires
        0 <= from <= sections.len(),
    ensures
        match answers::titled_from(sections, title, from) {
            Some(i) => {
                &&& from <= i < sections.len()
                &&& sections[i].title@ == title
                &&& forall|k: int| from <= k < i ==> (#[trigger] sections[k]).title@ != title
            },
            None => forall|k: int|
                from <= k < sections.len() ==> (#[trigger] sections[k]).title@ != title,
        },
    decreases sections.len() - from,
{
    if from < sections.len() && sections[from].title@ != title {
        a_section_is_found_by_its_title(sections, title, from + 1);
    }
}

/// A moved section stays the one being edited, wherever in the list it came to,
/// and the block is pointed at by the first of its halves. The panel is made
/// anew.
pub proof fn editing_follows_what_moved(
    s: SessionView,
    board: Board,
    title: Seq<char>,
)
    ensures
        ({
            let moved = answers::shifted(s, board, title);
            let block = answers::blocked(s, board);
            &&& moved.does == seq![Effect::Rebuild]
            &&& block.does == seq![Effect::Rebuild]
            &&& match answers::titled_from(board.sections@, title, 0) {
                Some(i) => moved.after.state.edit == Some(i as usize),
                None => moved.after.state.edit == s.state.edit,
            }
            &&& match board.block_from(0) {
                Some(i) => block.after.state.edit == Some(i as usize),
                None => block.after.state.edit is None,
            }
            &&& moved.after.state.mode == s.state.mode
            &&& block.after.state.mode == s.state.mode
            &&& moved.after.query == s.query
            &&& block.after.query == s.query
        }),
{
}

/// What was written is read back: a setting, the layout put back to stock, or a
/// change of the block has the config read again and the panel made anew, and
/// what was not written leaves the panel as it is. A reset that failed says so.
pub proof fn what_was_written_is_read_back(s: SessionView)
    ensures
        answers::wrote_setting(s, true).does == seq![
            Effect::ReloadConfig,
            Effect::Rebuild,
            Effect::KeepFocus,
        ],
        answers::wrote_setting(s, false) == s.still(),
        answers::reset_layout(s, true).does == seq![
            Effect::ReloadConfig,
            Effect::Rebuild,
            Effect::KeepFocus,
        ],
        answers::reset_layout(s, false).does == seq![
            Effect::SayResetFailed,
            Effect::Rebuild,
            Effect::KeepFocus,
        ],
        answers::changed_center(s, true).does == seq![Effect::ReloadConfig, Effect::Rebuild],
        answers::changed_center(s, false) == s.still(),
        answers::wrote_setting(s, true).after.state.mode == s.state.mode,
        answers::reset_layout(s, true).after.state.settings_up == s.state.settings_up,
        answers::changed_center(s, true).after.state.mode == s.state.mode,
        answers::wrote_setting(s, true).after.query == s.query,
        answers::reset_layout(s, true).after.query == s.query,
        answers::changed_center(s, true).after.query == s.query,
{
}

/// A move that is done with is no longer in flight. The ring follows the window,
/// and the focus comes back where the move took it. Nothing else changes.
pub proof fn a_move_that_is_done_gives_the_focus_back(s: SessionView)
    ensures
        !answers::after_move(s, true).after.state.arranging,
        !answers::after_move(s, false).after.state.arranging,
        answers::after_move(s, true).does == seq![Effect::FrameTarget, Effect::TakeFocus],
        answers::after_move(s, false).does == seq![Effect::FrameTarget],
        answers::after_move(s, true).after.state.target == s.state.target,
        answers::after_move(s, true).after.state.stay == s.state.stay,
        answers::after_move(s, true).after.query == s.query,
{
}

/// An order that was written is read back, and one that was not puts everything
/// back where it was.
pub proof fn an_order_that_was_not_written_is_put_back(press: Press)
    ensures
        answers::after_saving(press, true) == seq![Effect::ReloadConfig],
        answers::after_saving(press, false) == seq![
            Effect::ReleaseCapture,
            Effect::Repaint(press.tile),
            Effect::Reposition,
        ],
{
}

/// The best match is selected, or nothing where nothing matches, and only the
/// selection changes. Word of the pointer leaving stays asked for once it was.
pub proof fn the_best_match_is_selected(s: SessionView, best: Option<usize>, ok: bool)
    ensures
        answers::matched(s, best).state.selected == best,
        answers::matched(s, best).state.hover == s.state.hover,
        answers::matched(s, best).query == s.query,
        answers::heard(s, true).state.tracking,
        answers::heard(s, false).state.tracking == s.state.tracking,
        answers::heard(s, ok).state.hover == s.state.hover,
{
}

/// A hotkey is bound again only where it is another: swapped where one was
/// bound, and bound where none was.
pub proof fn a_hotkey_is_bound_again_only_where_it_changed(
    before: Seq<char>,
    after: Seq<char>,
    bound: bool,
)
    ensures
        pairing::rebinding(before, before, bound) == Rebind::Keep,
        before != after ==> pairing::rebinding(before, after, true) == Rebind::Swap,
        before != after ==> pairing::rebinding(before, after, false) == Rebind::Bind,
{
}

/// Adding a tile is called after the box it lands in, where that has a name.
pub proof fn adding_is_called_after_the_box_it_lands_in(title: Seq<char>)
    ensures
        title.len() > 0 ==> popup::add_words(Some(title)) == "Add to "@ + title,
        title.len() == 0 ==> popup::add_words(Some(title)) == "Add this app"@,
        popup::add_words(None) == "Add this app"@,
{
}

/// Taking a pin away is called after the box it is in, where that has a name.
pub proof fn removing_is_called_after_the_box_it_is_in(scene: Scene, tile: usize)
    ensures
        match drag::owner_from(scene.layout, tile as int, 0) {
            None => popup::remove_words(scene, tile) == "Remove"@,
            Some(band) => {
                let section = scene.layout.bands@[band].section as int;
                &&& section >= scene.board.sections@.len() ==> popup::remove_words(scene, tile)
                    == "Remove"@
                &&& section < scene.board.sections@.len() ==> popup::remove_words(scene, tile) == (
                if scene.board.sections@[section].title@.len() > 0 {
                    "Remove from "@ + scene.board.sections@[section].title@
                } else {
                    "Remove"@
                })
            },
        },
{
}

/// A line of the context menu is offered exactly where picking it does
/// something: pinning on a window with a file, unpinning on a pin of the panel's
/// own, and one of the block's two lines on what the block could keep, the way
/// that tile would go.
pub proof fn a_line_is_offered_where_it_does_something(
    scene: Scene,
    tile: usize,
    destination: Option<Seq<char>>,
)
    requires
        tile < scene.board.spots@.len(),
    ensures
        ({
            let item = scene.board.tile(tile as int);
            let pins = popup::pin_lines(scene, tile, destination);
            let block = popup::center_lines(item);
            &&& item.target is Window && item.icon_source is Some ==> pins == seq![
                Some((PopupChoice::PinApp, popup::add_words(destination))),
            ]
            &&& item.target is Shell && item.origin == Source::Manual ==> pins == seq![
                Some((PopupChoice::Unpin, popup::remove_words(scene, tile))),
            ]
            &&& !(item.target is Window && item.icon_source is Some) && !(item.target is Shell
                && item.origin == Source::Manual) ==> pins.len() == 0
            &&& item.center_name() is None ==> block.len() == 0
            &&& item.center_name() is Some && item.origin == Source::Center ==> block == seq![
                Some((PopupChoice::Uncenter, "Remove from Center"@)),
            ]
            &&& item.center_name() is Some && item.origin != Source::Center ==> block == seq![
                Some((PopupChoice::Center, "Add to Center"@)),
            ]
        }),
{
}

/// The context menu is a tile's own lines, a rule where it has any, and then the
/// panel's, which end with the settings. A point on no tile has the panel's
/// alone. The layout is not offered while something is typed nor with nothing on
/// the panel.
pub proof fn the_context_menu_is_the_tiles_lines_and_the_panels(
    scene: Scene,
    tile: Option<usize>,
    typing: bool,
    destination: Option<Seq<char>>,
    locatable: bool,
)
    ensures
        ({
            let menu = popup::menu_lines(scene, tile, typing, destination, locatable);
            let panel = popup::panel_lines(scene, typing);
            let layout = Some((PopupChoice::EditLayout, "Edit layout"@));
            let n = menu.len() as int;
            &&& panel.len() == if !typing && scene.board.sections@.len() > 0 {
                5nat
            } else {
                4nat
            }
            &&& panel[0] == Some((PopupChoice::AddApp, "Add app..."@))
            &&& panel[1] == Some((PopupChoice::AddFolder, "Add folder..."@))
            &&& panel[2] == Some((PopupChoice::AddFile, "Add file or shortcut..."@))
            &&& !typing && scene.board.sections@.len() > 0 ==> panel[3] == layout
            &&& panel.last() == Some((PopupChoice::Settings, "Settings..."@))
            &&& tile is None ==> menu == panel
            &&& tile matches Some(t) ==> (t >= scene.board.spots@.len() ==> menu == panel)
            &&& tile matches Some(t) ==> t < scene.board.spots@.len() ==> {
                let own = popup::pin_lines(scene, t, destination) + popup::center_lines(
                    scene.board.tile(t as int),
                ) + (if locatable {
                    seq![Some((PopupChoice::OpenLocation, "Open file location"@))]
                } else {
                    Seq::empty()
                });
                menu == if own.len() == 0 {
                    panel
                } else {
                    own + seq![None] + panel
                }
            }
        }),
{
    let menu = popup::menu_lines(scene, tile, typing, destination, locatable);
    let panel = popup::panel_lines(scene, typing);
    match tile {
        Some(t) => {
            if t < scene.board.spots@.len() {
                let own = popup::pin_lines(scene, t, destination) + popup::center_lines(
                    scene.board.tile(t as int),
                ) + (if locatable {
                    seq![Some((PopupChoice::OpenLocation, "Open file location"@))]
                } else {
                    Seq::empty()
                });
                if own.len() == 0 {
                    assert(menu =~= panel);
                } else {
                    assert(menu =~= own + seq![None] + panel);
                }
            } else {
                assert(menu =~= panel);
            }
        },
        None => {
            assert(menu =~= panel);
        },
    }
}

/// Pairing a browser needs a bridge that listens: one that does needs nothing,
/// one that is on is started, and one that is off is turned on first.
pub proof fn pairing_needs_a_bridge_that_listens(enabled: bool)
    ensures
        pairing::before_pairing(true, enabled).len() == 0,
        pairing::before_pairing(false, true) == seq![BridgeStep::Start],
        pairing::before_pairing(false, false) == seq![BridgeStep::TurnOn, BridgeStep::Start],
{
}

/// A code is shown only while the bridge listens, and is read in threes. Without
/// one, or with the port taken, pairing is refused and says which.
pub proof fn a_code_is_shown_only_while_the_bridge_listens(
    port: nat,
    code: Option<Seq<char>>,
)
    requires
        code matches Some(code) ==> code.len() >= 3,
    ensures
        ({
            let taken = pairing::pairing_words(false, port, code);
            let said = pairing::pairing_words(true, port, code);
            &&& taken.0 == "Cannot pair right now"@
            &&& taken == pairing::pairing_words(false, port, None)
            &&& code is None ==> said == (
                "Cannot pair right now"@,
                "Could not generate a pairing code."@,
            )
            &&& code matches Some(code) ==> said.0 == "Pair a browser"@ && said.1
                == "Pairing code:  "@ + code.take(3) + "  "@ + code.skip(3)
                + "\n\nOpen the BentoLaunch extension's options page, choose \"Pair with BentoLaunch\", and type this code.\n\nPairing stays open until you close this window."@
            &&& taken.1 == "Another process is using port "@ + at::decimal(port)
                + ", so BentoLaunch's browser bridge is not listening.\n\nClose whatever is using it, or set a different browser.port in bentolaunch.toml, then try again."@
        }),
{
    if let Some(code) = code {
        assert(code.subrange(0, 3) =~= code.take(3));
        assert(code.subrange(3, code.len() as int) =~= code.skip(3));
    }
}

/// The window waited for is a live window of the app that was started.
pub proof fn what_was_waited_for_is_a_window_of_the_app(
    s: SessionView,
    board: Board,
    layout: Layout,
    app: Seq<char>,
)
    requires
        s.pending == Some(app),
        s.state.target is None,
    ensures
        answers::caught_up(s, board, layout, None).after.state.target matches Some(handle)
            ==> exists|t: int|
            0 <= t < board.spots@.len() && finds::is_window_of(#[trigger] board.tile(t), app)
                && board.tile(t).target == Target::Window(handle),
{
    finds::an_app_answers_with_its_first_window(board, app, 0);
}

} // verus!
