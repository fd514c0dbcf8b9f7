//! What is done once the world has answered.

use vstd::prelude::*;
use crate::board;
use crate::board::Board;
use crate::clicks;
use crate::drag;
use crate::drag::cancel_press;
use crate::layout::Layout;
use crate::model::{Mode, Section};
use crate::num;
use crate::scene::Scene;
use crate::session;
use crate::session::{both, just, none, Effect, Picked, Press, Session, SessionView, State, Turn};
use crate::text::same;

verus! {

/// What was picked from the tray's menu.
#[derive(Debug, Clone, Copy, PartialEq, Eq, Structural)]
pub enum TrayChoice {
    Toggle,
    AddApp,
    AddFolder,
    AddFile,
    EditConfig,
    PairBrowser,
    /// Forget a paired browser, by its place in the list.
    Forget(usize),
    Exit,
    Nothing,
}

/// The tray's menu answered.
pub open spec fn from_tray(
    s: SessionView,
    front: Option<u64>,
    neutralized: bool,
    choice: TrayChoice,
) -> Turn {
    match choice {
        TrayChoice::Toggle => session::toggling(s, front, neutralized),
        TrayChoice::AddApp => s.doing(Effect::Pick(Picked::App)),
        TrayChoice::AddFolder => s.doing(Effect::Pick(Picked::Folder)),
        TrayChoice::AddFile => s.doing(Effect::Pick(Picked::File)),
        TrayChoice::EditConfig => s.doing(Effect::OpenConfig),
        TrayChoice::PairBrowser => s.doing(Effect::PairBrowser),
        TrayChoice::Forget(index) => s.doing(Effect::ForgetBrowser(index)),
        TrayChoice::Exit => session::hiding(s, false).and(seq![Effect::Quit]),
        TrayChoice::Nothing => s.still(),
    }
}

/// What can be picked from the menu a right click opens.
#[derive(Debug, Clone, Copy, PartialEq, Eq, Structural)]
pub enum PopupChoice {
    PinApp,
    Unpin,
    /// Into the centre block, or out of it: the same click either way.
    Center,
    Uncenter,
    OpenLocation,
    AddApp,
    AddFolder,
    AddFile,
    EditLayout,
    Settings,
    Nothing,
}

/// What the right-click menu does to a tile.
#[verifier::opaque]
pub open spec fn tile_popup(s: SessionView, scene: Scene, tile: usize, choice: PopupChoice) -> Turn {
    match choice {
        PopupChoice::PinApp => if pinned_app(scene.board, tile) is Some {
            s.doing(Effect::Pin(tile))
        } else {
            s.still()
        },
        PopupChoice::Unpin => if unpinned(scene, tile) is Some {
            s.doing(Effect::Unpin(tile))
        } else {
            s.still()
        },
        PopupChoice::OpenLocation => if scene.board.has(tile as int) && scene.board.tile(
            tile as int,
        ).icon_source is Some {
            session::hiding(s, false).and(seq![Effect::Locate(tile)])
        } else {
            s.still()
        },
        _ => clicks::favoring(s, scene, tile),
    }
}

/// A session with no context menu up.
#[verifier::opaque]
pub open spec fn unpopped(s: SessionView) -> SessionView {
    s.with(State { popup: false, ..s.state })
}

/// The right-click menu answered, for the tile it was opened on.
pub open spec fn from_popup(
    s: SessionView,
    scene: Scene,
    tile: Option<usize>,
    choice: PopupChoice,
) -> Turn {
    let closed = unpopped(s);
    match choice {
        PopupChoice::AddApp => closed.doing(Effect::Pick(Picked::App)),
        PopupChoice::AddFolder => closed.doing(Effect::Pick(Picked::Folder)),
        PopupChoice::AddFile => closed.doing(Effect::Pick(Picked::File)),
        PopupChoice::EditLayout => session::entering(
            closed,
            scene.board.sections@.len() > 0,
            Mode::Layout,
        ),
        PopupChoice::Settings => closed.doing(Effect::OpenConfig),
        PopupChoice::Nothing => closed.still(),
        _ => match tile {
            None => closed.still(),
            Some(tile) => tile_popup(closed, scene, tile, choice),
        },
    }
}

/// The name the app behind a running window is pinned by: its executable.
pub open spec fn pinned_app(board: Board, tile: usize) -> Option<Seq<char>> {
    if board.has(tile as int) && board.tile(tile as int).target is Window {
        board::words(board.tile(tile as int).icon_source)
    } else {
        None
    }
}

/// The name the app behind a running window is pinned by.
pub fn pin_app_of(board: &Board, tile: usize) -> (name: Option<String>)
    requires
        board.wf(),
    ensures
        board::words(name) == pinned_app(*board, tile),
{
    match board.item(tile) {
        Some(item) => if item.target.window().is_some() {
            match &item.icon_source {
                Some(source) => Some(source.clone()),
                None => None,
            }
        } else {
            None
        },
        None => None,
    }
}

/// The section a tile's pin is taken out of, and the name it is listed by.
pub open spec fn unpinned(scene: Scene, tile: usize) -> Option<(int, Seq<char>)> {
    match drag::owner_from(scene.layout, tile as int, 0) {
        Some(band) => {
            let section = scene.layout.bands@[band].section as int;
            if section < scene.board.sections@.len() && scene.board.has(tile as int) {
                match scene.board.tile(tile as int).shell_name() {
                    Some(name) => Some((section, name)),
                    None => None,
                }
            } else {
                None
            }
        },
        None => None,
    }
}

/// The section a tile's pin is taken out of, and the name it is listed by.
pub fn unpin(scene: &Scene, tile: usize) -> (pin: Option<(usize, String)>)
    requires
        scene.wf(),
    ensures
        match (pin, unpinned(*scene, tile)) {
            (Some(pin), Some(want)) => pin.0 == want.0 && pin.1@ == want.1,
            (None, None) => true,
            _ => false,
        },
{
    match drag::find_owner(&scene.layout, tile) {
        None => None,
        Some(band) => {
            let section: usize = scene.layout.bands[band].section;
            if section >= scene.board.sections.len() {
                return None;
            }
            match scene.board.item(tile) {
                None => None,
                Some(item) => match item.shell_target() {
                    Some(name) => Some((section, name.clone())),
                    None => None,
                },
            }
        },
    }
}

/// The model changed under a panel that is up: what was picked is still picked,
/// what was waited for is taken if it came, and the scroll is kept to what
/// there is.
pub open spec fn caught_up(
    s: SessionView,
    board: Board,
    layout: Layout,
    held: Option<Seq<char>>,
) -> Turn {
    let scrolled = State {
        scroll: num::between(s.state.scroll as int, 0, layout.max_scroll as int) as i64,
        hover: None,
        ..s.state
    };
    let opened = match s.pending {
        Some(app) => board.window_from(app, 0),
        None => None,
    };
    let kept = match held {
        Some(id) => board.known_from(id, 0),
        None => None,
    };
    Turn {
        after: SessionView {
            pending: if opened is Some {
                None
            } else {
                s.pending
            },
            state: State {
                target: if opened is Some {
                    opened
                } else {
                    scrolled.target
                },
                selected: match kept {
                    Some(tile) => Some(tile as usize),
                    None => scrolled.selected,
                },
                ..scrolled
            },
            ..s
        }.unlit(),
        does: seq![Effect::FrameTarget, Effect::Rebuild],
    }
}

/// The hovered item followed to where it went rather than whatever landed under
/// the cursor's old place.
pub open spec fn hover_followed(s: SessionView, board: Board, previous: Option<Seq<char>>) -> Turn {
    match previous {
        None => s.still(),
        Some(id) => session::hovering(
            s,
            match board.known_from(id, 0) {
                Some(tile) => Some(tile as usize),
                None => None,
            },
        ),
    }
}

/// Where a section is in the list, from `from` on, by its title.
pub open spec fn titled_from(sections: Seq<Section>, title: Seq<char>, from: int) -> Option<int>
    decreases sections.len() - from,
{
    if from >= sections.len() {
        None
    } else if sections[from].title@ == title {
        Some(from)
    } else {
        titled_from(sections, title, from + 1)
    }
}

/// A setting written, or not.
pub open spec fn wrote_setting(s: SessionView, ok: bool) -> Turn {
    if ok {
        Turn {
            after: s.unlit(),
            does: seq![Effect::ReloadConfig, Effect::Rebuild, Effect::KeepFocus],
        }
    } else {
        s.still()
    }
}

/// The layout put back to stock, or not.
pub open spec fn reset_layout(s: SessionView, ok: bool) -> Turn {
    Turn {
        after: s.unlit(),
        does: seq![
            if ok {
                Effect::ReloadConfig
            } else {
                Effect::SayResetFailed
            },
            Effect::Rebuild,
            Effect::KeepFocus,
        ],
    }
}

/// The centre block changed, or not.
pub open spec fn changed_center(s: SessionView, changed: bool) -> Turn {
    if changed {
        Turn { after: s.unlit(), does: seq![Effect::ReloadConfig, Effect::Rebuild] }
    } else {
        s.still()
    }
}

/// The block pointed at, wherever its sections are now.
pub open spec fn blocked(s: SessionView, board: Board) -> Turn {
    let edit = match board.block_from(0) {
        Some(section) => Some(section as usize),
        None => None,
    };
    Turn { after: s.with(State { edit, ..s.state }).unlit(), does: seq![Effect::Rebuild] }
}

/// A moved section followed to its place.
pub open spec fn shifted(s: SessionView, board: Board, title: Seq<char>) -> Turn {
    let edit = match titled_from(board.sections@, title, 0) {
        Some(section) => Some(section as usize),
        None => s.state.edit,
    };
    Turn { after: s.with(State { edit, ..s.state }).unlit(), does: seq![Effect::Rebuild] }
}

/// The best match selected.
pub open spec fn matched(s: SessionView, best: Option<usize>) -> SessionView {
    s.with(State { selected: best, ..s.state })
}

/// Word of the pointer leaving asked for, or not.
pub open spec fn heard(s: SessionView, ok: bool) -> SessionView {
    s.with(State { tracking: s.state.tracking || ok, ..s.state })
}

/// A window moved, or not.
pub open spec fn after_move(s: SessionView, moved: bool) -> Turn {
    Turn {
        after: s.with(State { arranging: false, ..s.state }),
        does: if moved {
            seq![Effect::FrameTarget, Effect::TakeFocus]
        } else {
            seq![Effect::FrameTarget]
        },
    }
}

/// An order written, or not.
pub open spec fn after_saving(press: Press, ok: bool) -> Seq<Effect> {
    if ok {
        seq![Effect::ReloadConfig]
    } else {
        drag::cancelling(press)
    }
}

impl Session {
    /// The model was pulled and narrowed, and this is the best match.
    pub fn reloaded(&mut self, best: Option<usize>)
        ensures
            final(self)@ == matched(old(self)@, best),
    {
        self.state.selected = best;
    }

    /// Word of the pointer leaving was asked for.
    pub fn hears(&mut self, ok: bool)
        ensures
            final(self)@ == heard(old(self)@, ok),
    {
        self.state.tracking = self.state.tracking || ok;
    }

    /// A window was moved, or would not be. The ring has to go with it, and the
    /// move may have taken the front away.
    pub fn arranged(&mut self, moved: bool) -> (effects: Vec<Effect>)
        ensures
            final(self)@ == after_move(old(self)@, moved).after,
            effects@ == after_move(old(self)@, moved).does,
    {
        self.state.arranging = false;
        if moved {
            both(Effect::FrameTarget, Effect::TakeFocus)
        } else {
            just(Effect::FrameTarget)
        }
    }

    /// A setting was written, or could not be. The square says its new value on
    /// the click that caused it.
    pub fn setting_written(&mut self, ok: bool) -> (effects: Vec<Effect>)
        ensures
            final(self)@ == wrote_setting(old(self)@, ok).after,
            effects@ == wrote_setting(old(self)@, ok).does,
    {
        if !ok {
            return none();
        }
        self.unlight();
        let mut effects = both(Effect::ReloadConfig, Effect::Rebuild);
        effects.push(Effect::KeepFocus);
        assert(effects@ =~= seq![Effect::ReloadConfig, Effect::Rebuild, Effect::KeepFocus]);
        effects
    }

    /// The layout was put back to stock, or could not be: then there is no
    /// change to read off the panel, and it is said.
    pub fn layout_reset(&mut self, ok: bool) -> (effects: Vec<Effect>)
        ensures
            final(self)@ == reset_layout(old(self)@, ok).after,
            effects@ == reset_layout(old(self)@, ok).does,
    {
        self.unlight();
        let mut effects = just(
            if ok {
                Effect::ReloadConfig
            } else {
                Effect::SayResetFailed
            },
        );
        effects.push(Effect::Rebuild);
        effects.push(Effect::KeepFocus);
        assert(effects@ =~= reset_layout(old(self)@, ok).does);
        effects
    }

    /// The centre block was changed, or was not.
    pub fn center_changed(&mut self, changed: bool) -> (effects: Vec<Effect>)
        ensures
            final(self)@ == changed_center(old(self)@, changed).after,
            effects@ == changed_center(old(self)@, changed).does,
    {
        if changed {
            self.unlight();
            both(Effect::ReloadConfig, Effect::Rebuild)
        } else {
            none()
        }
    }

    /// One of the block's own settings was written: stay pointed at the block,
    /// whose sections the reload made anew.
    pub fn point_at_block(&mut self, board: &Board) -> (effects: Vec<Effect>)
        ensures
            final(self)@ == blocked(old(self)@, *board).after,
            effects@ == blocked(old(self)@, *board).does,
    {
        let section = board.center_section();
        self.state.edit = section;
        self.unlight();
        just(Effect::Rebuild)
    }

    /// A section was moved in the list: follow the section rather than the
    /// place, and keep the place when the section is gone.
    pub fn section_moved(&mut self, board: &Board, title: &str) -> (effects: Vec<Effect>)
        ensures
            final(self)@ == shifted(old(self)@, *board, title@).after,
            effects@ == shifted(old(self)@, *board, title@).does,
    {
        if let Some(section) = find_titled(&board.sections, title) {
            self.state.edit = Some(section);
        }
        self.unlight();
        just(Effect::Rebuild)
    }

    /// The tray's menu was answered.
    pub fn tray_chosen(&mut self, front: Option<u64>, neutralized: bool, choice: TrayChoice) -> (effects:
        Vec<Effect>)
        ensures
            final(self)@ == from_tray(old(self)@, front, neutralized, choice).after,
            effects@ == from_tray(old(self)@, front, neutralized, choice).does,
    {
        match choice {
            TrayChoice::Toggle => self.toggle(front, neutralized),
            TrayChoice::AddApp => just(Effect::Pick(Picked::App)),
            TrayChoice::AddFolder => just(Effect::Pick(Picked::Folder)),
            TrayChoice::AddFile => just(Effect::Pick(Picked::File)),
            TrayChoice::EditConfig => just(Effect::OpenConfig),
            TrayChoice::PairBrowser => just(Effect::PairBrowser),
            TrayChoice::Forget(index) => just(Effect::ForgetBrowser(index)),
            TrayChoice::Exit => {
                let mut effects = self.dismiss(false);
                let ghost gone = effects@;
                effects.push(Effect::Quit);
                assert(effects@ =~= gone + seq![Effect::Quit]);
                effects
            },
            TrayChoice::Nothing => none(),
        }
    }

    fn popup_on_tile(&mut self, scene: &Scene, tile: usize, choice: PopupChoice) -> (effects: Vec<
        Effect,
    >)
        requires
            scene.wf(),
        ensures
            final(self)@ == tile_popup(old(self)@, *scene, tile, choice).after,
            effects@ == tile_popup(old(self)@, *scene, tile, choice).does,
    {
        proof {
            reveal(tile_popup);
        }
        match choice {
            PopupChoice::PinApp => if pin_app_of(&scene.board, tile).is_some() {
                just(Effect::Pin(tile))
            } else {
                none()
            },
            PopupChoice::Unpin => if unpin(scene, tile).is_some() {
                just(Effect::Unpin(tile))
            } else {
                none()
            },
            PopupChoice::OpenLocation => {
                let known = match scene.board.item(tile) {
                    Some(item) => item.icon_source.is_some(),
                    None => false,
                };
                if known {
                    let mut effects = self.dismiss(false);
                    let ghost gone = effects@;
                    effects.push(Effect::Locate(tile));
                    assert(effects@ =~= gone + seq![Effect::Locate(tile)]);
                    effects
                } else {
                    none()
                }
            },
            _ => self.toggle_center(scene, tile),
        }
    }

    fn close_popup(&mut self)
        ensures
            final(self)@ == unpopped(old(self)@),
    {
        proof {
            reveal(unpopped);
        }
        self.state.popup = false;
    }

    /// The right-click menu was answered.
    pub fn popup_chosen(&mut self, scene: &Scene, tile: Option<usize>, choice: PopupChoice) -> (effects:
        Vec<Effect>)
        requires
            scene.wf(),
        ensures
            final(self)@ == from_popup(old(self)@, *scene, tile, choice).after,
            effects@ == from_popup(old(self)@, *scene, tile, choice).does,
    {
        self.close_popup();
        match choice {
            PopupChoice::AddApp => just(Effect::Pick(Picked::App)),
            PopupChoice::AddFolder => just(Effect::Pick(Picked::Folder)),
            PopupChoice::AddFile => just(Effect::Pick(Picked::File)),
            PopupChoice::EditLayout => self.enter_mode(
                scene.board.sections.len() > 0,
                Mode::Layout,
            ),
            PopupChoice::Settings => just(Effect::OpenConfig),
            PopupChoice::Nothing => none(),
            _ => match tile {
                Some(tile) => self.popup_on_tile(scene, tile, choice),
                None => none(),
            },
        }
    }

    /// Catch up with a model that changed, once it was pulled and laid out.
    /// `held` is what was selected before.
    #[verifier::rlimit(40)]
    pub fn catch_up(&mut self, board: &Board, layout: &Layout, held: Option<&str>) -> (effects: Vec<
        Effect,
    >)
        requires
            board.wf(),
            layout.wf(),
        ensures
            ({
                let id = match held {
                    Some(id) => Some(id@),
                    None => None,
                };
                &&& final(self)@ == caught_up(old(self)@, *board, *layout, id).after
                &&& effects@ == caught_up(old(self)@, *board, *layout, id).does
            }),
    {
        let scroll = layout.clamp_scroll(self.state.scroll);
        // The app picked a moment ago has opened. It is what the bar was pointed
        // at, so take it.
        let opened = match &self.pending {
            Some(app) => board.window_named(app.as_str()),
            None => None,
        };
        // Reloading picks the query's best match, which is wrong when a window
        // merely opened. Put the selection back if it still exists.
        let kept = match held {
            Some(id) => board.tile_known_as(id),
            None => None,
        };
        let target = if opened.is_some() {
            opened
        } else {
            self.state.target
        };
        let selected = if kept.is_some() {
            kept
        } else {
            self.state.selected
        };
        self.state = State { scroll, hover: None, target, selected, ..self.state };
        if opened.is_some() {
            self.pending = None;
        }
        self.unlight();
        both(Effect::FrameTarget, Effect::Rebuild)
    }

    /// Follow the hovered item, once the grid was rebuilt. `previous` is what
    /// was hovered before.
    pub fn follow_hover(&mut self, board: &Board, previous: Option<&str>) -> (effects: Vec<Effect>)
        requires
            board.wf(),
        ensures
            ({
                let id = match previous {
                    Some(id) => Some(id@),
                    None => None,
                };
                &&& final(self)@ == hover_followed(old(self)@, *board, id).after
                &&& effects@ == hover_followed(old(self)@, *board, id).does
            }),
    {
        match previous {
            Some(id) => self.set_hover(board.tile_known_as(id)),
            None => none(),
        }
    }
}

fn find_titled(sections: &Vec<Section>, title: &str) -> (at: Option<usize>)
    ensures
        board::same_slot(at, titled_from(sections@, title@, 0)),
{
    let n: usize = sections.len();
    let mut i: usize = 0;
    while i < n
        invariant
            i <= n,
            n == sections@.len(),
            titled_from(sections@, title@, 0) == titled_from(sections@, title@, i as int),
        decreases n - i,
    {
        if same(sections[i].title.as_str(), title) {
            return Some(i);
        }
        i += 1;
    }
    None
}

/// The order a drag ended in was written, or was not: then everything goes back.
pub fn order_saved(press: &Press, ok: bool) -> (effects: Vec<Effect>)
    ensures
        effects@ == after_saving(*press, ok),
{
    if ok {
        just(Effect::ReloadConfig)
    } else {
        cancel_press(press)
    }
}

} // verus!
