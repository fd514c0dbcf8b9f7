//! What is going on while the panel is up, and how it changes.
//!
//! Everything here is a decision: the session takes an event, changes, and says
//! what is to be done about it in the world. Doing it is for whoever owns the
//! window.

use vstd::prelude::*;
use crate::config::Change;
use crate::model::{Half, Mode, Move};

verus! {

/// A pressed tile, which may still turn out to be either a click or a drag.
#[derive(Debug, Clone, Copy, PartialEq, Eq)]
pub struct Press {
    /// The tile under the press.
    pub tile: usize,
    /// Its band, if this tile's order is the panel's to rearrange.
    pub band: Option<usize>,
    /// The tiles this drag may reorder: the first, and how many. One source's
    /// run inside the band.
    pub first: usize,
    pub count: usize,
    /// Where in the tile it was pressed, so a drag does not jump to the cursor.
    pub grab: (i64, i64),
    pub start: (i64, i64),
    /// Past the threshold: no longer a click.
    pub dragging: bool,
    /// Insertion slot within the run the cursor is currently over.
    pub slot: usize,
}

/// The plain values of a session.
#[derive(Debug, Clone, Copy, PartialEq, Eq)]
pub struct State {
    pub visible: bool,
    /// Whether the pointer leaving the window will be heard of. Without asking,
    /// it is not, and hover sticks on the last tile.
    pub tracking: bool,
    /// What a click on a tile means right now.
    pub mode: Mode,
    /// Which box has been picked, as an index of its section.
    pub edit: Option<usize>,
    /// The half of the centre block the mode was aimed at.
    pub filling: Option<Half>,
    pub hover: Option<usize>,
    /// Independent of `hover`: cursor and keyboard may disagree.
    pub selected: Option<usize>,
    /// The box under the pointer while editing, as an index of its section.
    pub hover_box: Option<usize>,
    pub hover_option: Option<usize>,
    pub hover_menu: Option<usize>,
    pub hover_setting: Option<usize>,
    pub hover_home: bool,
    /// A context menu is up.
    pub popup: bool,
    /// The big menu the corner button opens is up.
    pub menu_up: bool,
    pub settings_up: bool,
    /// The reset question is up, in place of the settings squares.
    pub asking_reset: bool,
    /// The last button-down was taken by something drawn over the grid, so its
    /// release means nothing.
    pub handled_down: bool,
    /// Clicking a window picks it as the target instead of switching to it. A
    /// latch, not a held key.
    pub stay: bool,
    /// A move is in flight.
    pub arranging: bool,
    /// The window the move tiles act on. `None` means the caller.
    pub target: Option<u64>,
    /// The window that was in front when the panel was shown.
    pub caller: Option<u64>,
    /// The panel's own window.
    pub own: u64,
    /// The column count held for the query's duration. 0 when idle.
    pub frozen_cols: usize,
    pub scroll: i64,
    pub press: Option<Press>,
}

impl State {
    /// A panel that has never been shown.
    pub open spec fn hidden(own: u64) -> State {
        State {
            visible: false,
            tracking: false,
            mode: Mode::Grid,
            edit: None,
            filling: None,
            hover: None,
            selected: None,
            hover_box: None,
            hover_option: None,
            hover_menu: None,
            hover_setting: None,
            hover_home: false,
            popup: false,
            menu_up: false,
            settings_up: false,
            asking_reset: false,
            handled_down: false,
            stay: false,
            arranging: false,
            target: None,
            caller: None,
            own,
            frozen_cols: 0,
            scroll: 0,
            press: None,
        }
    }
}

/// What is picked when a tile is added by hand.
#[derive(Debug, Clone, Copy, PartialEq, Eq, Structural)]
pub enum Picked {
    App,
    Folder,
    File,
}

/// Which band across the panel a box sits in.
#[derive(Debug, Clone, Copy, PartialEq, Eq, Structural)]
pub enum Lane {
    Left,
    Right,
    Full,
}

/// One thing to be done in the world.
#[derive(Debug, Clone, Copy, PartialEq, Eq)]
pub enum Effect {
    /// Pull the model, narrow it by the query and lay it out; the best match is
    /// handed back to `reloaded`.
    Reload,
    /// The same because the model changed: what was hovered and selected is
    /// followed to where it went.
    Follow,
    /// Make everything on the panel anew.
    Rebuild,
    /// Show the panel; whether it could be built goes to `show`.
    Show,
    Reposition,
    Repaint(usize),
    RefreshLanding,
    RefreshMenu,
    RefreshSettings,
    RefreshOptions,
    RefreshBoxes,
    /// Put the ring around the window the bar acts on.
    FrameTarget,
    HideRing,
    /// Put the keyboard and the mouse back on the panel.
    KeepFocus,
    TakeFocus,
    ShowWindow,
    HideWindow,
    RestoreCaller,
    DropVisuals,
    StartHeartbeat,
    StopHeartbeat,
    /// Ask, a moment later, whether the focus is still lost.
    AskAgain,
    StopAsking,
    /// Say that the panel is up, or that it is not.
    MarkShown(bool),
    Beat,
    /// Ask for word of the pointer leaving; the answer goes to `tracking`.
    Track,
    Capture,
    ReleaseCapture,
    /// Ask the browser for every bookmark.
    WantTree,
    OpenConfig,
    /// Have something picked, and pin what was.
    Pick(Picked),
    /// Pin the app behind a tile.
    Pin(usize),
    /// Take a tile's pin away.
    Unpin(usize),
    /// Show where on disk a tile's file is.
    Locate(usize),
    /// Write a setting; the answer goes to `setting_written`.
    Write(Change),
    /// Put the layout back to stock; the answer goes to `layout_reset`.
    ResetLayout,
    SayResetFailed,
    ReloadConfig,
    /// Go to what a tile stands for.
    Activate(usize),
    /// Start what a tile stands for, without leaving for it.
    Launch(usize),
    /// Say what would have been done with a tile.
    SayWould(usize),
    /// Move a window; the answer goes to `arranged`.
    Arrange { handle: u64, to: Move },
    /// Ask a window to close.
    Close(u64),
    SayWouldClose(u64),
    /// Write a tile into a list of the centre block; the answer goes to
    /// `center_changed`.
    AddToCenter { half: Half, tile: usize },
    ForgetInCenter(usize),
    /// Put the box being edited in a lane.
    SetLane(Lane),
    /// Let the box being edited show this many tiles.
    SetShown(usize),
    /// Move the section of the box being edited along the list: `true` is up,
    /// to an earlier place. Once it was moved, `section_moved` follows it.
    MoveSection(bool),
    /// Write one of the block's own settings, and stay pointed at the block:
    /// once it was written, by `point_at_block`.
    WriteCenter(Change),
    /// Lift a tile out of the flow, above its neighbours.
    Lift(usize),
    /// Slide a run's other tiles into the order they would take.
    Preview,
    /// Draw a tile with its corner at a point.
    Drag { tile: usize, x: i64, y: i64 },
    /// Write the order a drag ended in.
    SaveOrder(Press),
    ShowPopup { x: i64, y: i64 },
    ShowTrayMenu,
    PairBrowser,
    ForgetBrowser(usize),
    RefreshTray,
    FillIcons,
    Quit,
}

/// A session as a value.
#[verifier::ext_equal]
pub struct SessionView {
    pub state: State,
    pub query: Seq<char>,
    pub pending: Option<Seq<char>>,
}

/// What is going on while the panel is up.
pub struct Session {
    pub state: State,
    /// What has been typed to narrow the panel.
    pub query: Vec<char>,
    /// An app was picked with nothing of it open. Its window is taken as the
    /// target when it turns up.
    pub pending: Option<String>,
}

impl View for Session {
    type V = SessionView;

    open spec fn view(&self) -> SessionView {
        SessionView {
            state: self.state,
            query: self.query@,
            pending: match self.pending {
                Some(app) => Some(app@),
                None => None,
            },
        }
    }
}

/// A session after an event, and what is to be done about it.
#[verifier::ext_equal]
pub struct Turn {
    pub after: SessionView,
    pub does: Seq<Effect>,
}

impl SessionView {
    /// Nothing changed and nothing is to be done.
    pub open spec fn still(self) -> Turn {
        Turn { after: self, does: Seq::empty() }
    }

    /// Nothing changed and one thing is to be done.
    pub open spec fn doing(self, effect: Effect) -> Turn {
        Turn { after: self, does: seq![effect] }
    }

    pub open spec fn with(self, state: State) -> SessionView {
        SessionView { state, ..self }
    }

    /// Everything on the panel made anew: no square of it is lit until the
    /// pointer says where it is.
    pub open spec fn unlit(self) -> SessionView {
        self.with(
            State {
                hover_option: None,
                hover_menu: None,
                hover_setting: None,
                hover_home: false,
                ..self.state
            },
        )
    }

    pub open spec fn in_mode(self) -> bool {
        self.state.mode != Mode::Grid
    }

    pub open spec fn editing(self) -> bool {
        self.state.mode == Mode::Layout
    }

    /// Whether the reset question is up. It is one of the settings, and goes
    /// where they go.
    pub open spec fn asking(self) -> bool {
        self.state.asking_reset && self.state.settings_up
    }
}

impl Turn {
    /// The same with more to be done.
    pub open spec fn and(self, more: Seq<Effect>) -> Turn {
        Turn { does: self.does + more, ..self }
    }

    /// One turn and then another.
    pub open spec fn then_turn(self, next: Turn) -> Turn {
        Turn { after: next.after, does: self.does + next.does }
    }
}

/// Nothing to be done.
pub(crate) fn none() -> (effects: Vec<Effect>)
    ensures
        effects@ == Seq::<Effect>::empty(),
{
    let effects: Vec<Effect> = Vec::new();
    assert(effects@ =~= Seq::empty());
    effects
}

/// One thing to be done.
pub(crate) fn just(effect: Effect) -> (effects: Vec<Effect>)
    ensures
        effects@ == seq![effect],
{
    let mut effects: Vec<Effect> = Vec::new();
    effects.push(effect);
    assert(effects@ =~= seq![effect]);
    effects
}

/// Two things to be done, in order.
pub(crate) fn both(first: Effect, second: Effect) -> (effects: Vec<Effect>)
    ensures
        effects@ == seq![first, second],
{
    let mut effects: Vec<Effect> = Vec::new();
    effects.push(first);
    effects.push(second);
    assert(effects@ =~= seq![first, second]);
    effects
}

impl Session {
    /// A session for a panel that has never been shown.
    pub fn new(own: u64) -> (session: Session)
        ensures
            session@ == (SessionView {
                state: State::hidden(own),
                query: Seq::empty(),
                pending: None,
            }),
    {
        let query: Vec<char> = Vec::new();
        assert(query@ =~= Seq::empty());
        Session {
            state: State {
                visible: false,
                tracking: false,
                mode: Mode::Grid,
                edit: None,
                filling: None,
                hover: None,
                selected: None,
                hover_box: None,
                hover_option: None,
                hover_menu: None,
                hover_setting: None,
                hover_home: false,
                popup: false,
                menu_up: false,
                settings_up: false,
                asking_reset: false,
                handled_down: false,
                stay: false,
                arranging: false,
                target: None,
                caller: None,
                own,
                frozen_cols: 0,
                scroll: 0,
                press: None,
            },
            query,
            pending: None,
        }
    }

    /// Whether a mode is on: what holds the panel open, what puts "Done" on the
    /// corner button, and what Escape backs out of.
    pub fn in_mode(&self) -> (yes: bool)
        ensures
            yes == self@.in_mode(),
    {
        self.state.mode != Mode::Grid
    }

    /// Whether the bento is being rearranged.
    pub fn editing(&self) -> (yes: bool)
        ensures
            yes == self@.editing(),
    {
        self.state.mode == Mode::Layout
    }
}

/// The repaints a mark moving from one tile to another needs.
pub open spec fn repaints(from: Option<usize>, to: Option<usize>) -> Seq<Effect> {
    (match from {
        Some(tile) => seq![Effect::Repaint(tile)],
        None => Seq::empty(),
    }) + (match to {
        Some(tile) => seq![Effect::Repaint(tile)],
        None => Seq::empty(),
    })
}

/// The pointer moving to a tile, or off them all.
pub open spec fn hovering(s: SessionView, to: Option<usize>) -> Turn {
    if s.state.hover == to {
        s.still()
    } else {
        Turn {
            after: s.with(State { hover: to, ..s.state }),
            does: repaints(s.state.hover, to) + (if s.state.mode == Mode::Favorites {
                seq![Effect::RefreshLanding]
            } else {
                Seq::empty()
            }),
        }
    }
}

/// The selection moving to a tile, or off them all.
pub open spec fn selecting(s: SessionView, to: Option<usize>) -> Turn {
    if s.state.selected == to {
        s.still()
    } else {
        Turn {
            after: s.with(State { selected: to, ..s.state }),
            does: repaints(s.state.selected, to),
        }
    }
}

/// The stay-open latch changing over. Turned off, it lets go of what was picked
/// and of what was waited for.
#[verifier::opaque]
pub open spec fn latching(s: SessionView) -> Turn {
    let stay = !s.state.stay;
    Turn {
        after: (if stay {
            s.with(State { stay, ..s.state })
        } else {
            SessionView { pending: None, ..s.with(State { stay, target: None, ..s.state }) }
        }).unlit(),
        does: seq![Effect::FrameTarget, Effect::Rebuild],
    }
}

/// What a mode asks for on the way in.
pub open spec fn asking(mode: Mode) -> Seq<Effect> {
    (if mode == Mode::Move {
        seq![Effect::FrameTarget]
    } else {
        Seq::empty()
    }) + (if mode == Mode::AllBookmarks {
        seq![Effect::WantTree]
    } else {
        Seq::empty()
    })
}

/// A session with a mode switched on and nothing picked in it yet.
pub open spec fn switched(s: SessionView, mode: Mode) -> SessionView {
    s.with(
        State {
            stay: s.state.stay || mode == Mode::Move,
            mode,
            edit: None,
            filling: None,
            ..s.state
        },
    )
}

/// Neither the pointer nor the keyboard on any tile.
#[verifier::opaque]
pub open spec fn unpointed(s: SessionView) -> Turn {
    let unhovered = hovering(s, None);
    unhovered.then_turn(selecting(unhovered.after, None))
}

/// A mode being turned on. Never while something is typed, and never with no
/// box on the panel: filtering is the thing being done right now.
#[verifier::opaque]
pub open spec fn entering(s: SessionView, boxed: bool, mode: Mode) -> Turn {
    if s.query.len() > 0 || !boxed {
        s.still()
    } else {
        let bare = unpointed(switched(s, mode));
        Turn {
            after: bare.after.unlit(),
            does: asking(mode) + bare.does + seq![
                Effect::Reload,
                Effect::Rebuild,
                Effect::Reposition,
            ],
        }
    }
}

/// The mode that is on being left. The panel stays up: a mode is something done
/// on the way to using the panel.
#[verifier::opaque]
pub open spec fn leaving(s: SessionView) -> Turn {
    let unlatched = if s.state.mode == Mode::Move && s.state.stay {
        latching(s)
    } else {
        s.still()
    };
    let state = unlatched.after.state;
    Turn {
        after: unlatched.after.with(
            State { mode: Mode::Grid, edit: None, filling: None, hover_box: None, ..state },
        ).unlit(),
        does: unlatched.does + seq![
            Effect::Reload,
            Effect::Rebuild,
            Effect::Reposition,
            Effect::KeepFocus,
        ],
    }
}

/// The panel going away. Nothing of one summoning is left for the next.
#[verifier::opaque]
pub open spec fn hiding(s: SessionView, restore: bool) -> Turn {
    if !s.state.visible {
        s.still()
    } else {
        let restores = restore && s.state.caller is Some && s.state.caller != Some(s.state.own);
        Turn {
            after: SessionView {
                state: State {
                    hover: s.state.hover,
                    popup: s.state.popup,
                    caller: s.state.caller,
                    scroll: s.state.scroll,
                    ..State::hidden(s.state.own)
                },
                query: Seq::empty(),
                pending: None,
            },
            does: seq![
                Effect::HideRing,
                Effect::MarkShown(false),
                Effect::StopHeartbeat,
                Effect::StopAsking,
                Effect::HideWindow,
            ] + (if restores {
                seq![Effect::RestoreCaller]
            } else {
                Seq::empty()
            }) + seq![Effect::DropVisuals],
        }
    }
}

/// The panel about to be shown over a window: a query belongs to one summoning.
#[verifier::opaque]
pub open spec fn summoning(s: SessionView, front: Option<u64>) -> Turn {
    Turn {
        after: SessionView {
            state: State { caller: front, frozen_cols: 0, scroll: 0, hover: None, ..s.state },
            query: Seq::empty(),
            ..s
        }.unlit(),
        does: seq![Effect::Reload, Effect::Rebuild, Effect::Show],
    }
}

/// The panel shown, once its grid is built.
pub open spec fn showing(s: SessionView, built: bool) -> Turn {
    if !built {
        s.still()
    } else {
        Turn {
            after: s.with(State { visible: true, ..s.state }),
            does: seq![
                Effect::ShowWindow,
                Effect::TakeFocus,
                Effect::StartHeartbeat,
                Effect::MarkShown(true),
                Effect::FrameTarget,
            ],
        }
    }
}

/// The query becoming something else. The column count freezes on the first
/// character and is let go with the last, so narrowing only ever shortens the
/// panel.
#[verifier::opaque]
pub open spec fn querying(s: SessionView, cols: usize, query: Seq<char>) -> Turn {
    if s.query == query {
        s.still()
    } else {
        Turn {
            after: SessionView {
                state: State {
                    frozen_cols: if query.len() == 0 {
                        0
                    } else if s.query.len() == 0 {
                        cols
                    } else {
                        s.state.frozen_cols
                    },
                    selected: None,
                    ..s.state
                },
                query,
                ..s
            },
            does: seq![Effect::Follow],
        }
    }
}

/// Whether a character is a control one.
pub open spec fn is_control(c: char) -> bool {
    c <= '\u{1F}' || '\u{7F}' <= c <= '\u{9F}'
}

/// What a query becomes when a character is typed: a printable one extends it,
/// backspace shortens it, and backspace with control clears it. A leading space
/// would raise an empty strip and mean nothing.
pub open spec fn typed(query: Seq<char>, c: char) -> Seq<char> {
    if c == '\u{8}' {
        if query.len() > 0 {
            query.drop_last()
        } else {
            query
        }
    } else if c == '\u{7F}' {
        Seq::empty()
    } else if c == ' ' && query.len() == 0 || is_control(c) {
        query
    } else {
        query.push(c)
    }
}

/// A character typed. The mode that rearranges the bento owns the keyboard.
#[verifier::opaque]
pub open spec fn typing(s: SessionView, cols: usize, c: char) -> Turn {
    if s.editing() {
        s.still()
    } else {
        querying(s, cols, typed(s.query, c))
    }
}

/// The corner button clicked: leave whatever mode is on, or back out one
/// surface, or open and close the big menu.
#[verifier::opaque]
pub open spec fn pressing_home(s: SessionView) -> Turn {
    if s.in_mode() {
        leaving(s)
    } else {
        Turn {
            after: s.with(
                if s.asking() {
                    State { asking_reset: false, ..s.state }
                } else if s.state.settings_up {
                    State { settings_up: false, asking_reset: false, ..s.state }
                } else {
                    State { menu_up: !s.state.menu_up, ..s.state }
                },
            ).unlit(),
            does: seq![Effect::Rebuild, Effect::KeepFocus],
        }
    }
}

/// Escape outside a mode: each press undoes one thing rather than throwing the
/// whole panel away.
#[verifier::opaque]
pub open spec fn escaping(s: SessionView, cols: usize) -> Turn {
    let rebuilt = |state: State| Turn {
        after: s.with(state).unlit(),
        does: seq![Effect::Rebuild],
    };
    if s.asking() {
        rebuilt(State { asking_reset: false, ..s.state })
    } else if s.state.settings_up {
        rebuilt(State { settings_up: false, asking_reset: false, ..s.state })
    } else if s.state.menu_up {
        rebuilt(State { menu_up: false, ..s.state })
    } else if s.state.stay {
        rebuilt(State { stay: false, target: None, ..s.state })
    } else if s.query.len() == 0 {
        hiding(s, true)
    } else {
        querying(s, cols, Seq::empty())
    }
}

fn add_repaints(effects: &mut Vec<Effect>, from: Option<usize>, to: Option<usize>)
    ensures
        final(effects)@ == old(effects)@ + repaints(from, to),
{
    if let Some(tile) = from {
        effects.push(Effect::Repaint(tile));
    }
    if let Some(tile) = to {
        effects.push(Effect::Repaint(tile));
    }
    assert(effects@ =~= old(effects)@ + repaints(from, to));
}

/// Whether two places are one.
fn same_tile(a: Option<usize>, b: Option<usize>) -> (yes: bool)
    ensures
        yes == (a == b),
{
    match (a, b) {
        (Some(a), Some(b)) => a == b,
        (None, None) => true,
        _ => false,
    }
}

/// Whether a character is a control one.
fn control(c: char) -> (yes: bool)
    ensures
        yes == is_control(c),
{
    c <= '\u{1F}' || ('\u{7F}' <= c && c <= '\u{9F}')
}

/// Whether two runs of characters are the same.
fn same_chars(a: &Vec<char>, b: &Vec<char>) -> (yes: bool)
    ensures
        yes == (a@ == b@),
{
    if a.len() != b.len() {
        return false;
    }
    for i in 0..a.len()
        invariant
            a@.len() == b@.len(),
            a@.take(i as int) == b@.take(i as int),
    {
        if a[i] != b[i] {
            assert(a@[i as int] != b@[i as int]);
            return false;
        }
        assert(a@.take(i + 1) =~= b@.take(i + 1));
    }
    assert(a@.take(a@.len() as int) =~= a@);
    assert(b@.take(b@.len() as int) =~= b@);
    true
}

impl Session {
    /// Let go of the lit squares: they are about to be made anew.
    pub(crate) fn unlight(&mut self)
        ensures
            final(self)@ == old(self)@.unlit(),
    {
        self.state.hover_option = None;
        self.state.hover_menu = None;
        self.state.hover_setting = None;
        self.state.hover_home = false;
    }

    /// Move the hover. Only what changed is repainted.
    pub fn set_hover(&mut self, to: Option<usize>) -> (effects: Vec<Effect>)
        ensures
            final(self)@ == hovering(old(self)@, to).after,
            effects@ == hovering(old(self)@, to).does,
    {
        let mut effects = none();
        if same_tile(self.state.hover, to) {
            return effects;
        }
        let previous = self.state.hover;
        self.state.hover = to;
        add_repaints(&mut effects, previous, to);
        if self.state.mode == Mode::Favorites {
            effects.push(Effect::RefreshLanding);
        }
        assert(effects@ =~= hovering(old(self)@, to).does);
        effects
    }

    /// Move the selection.
    pub fn set_selected(&mut self, to: Option<usize>) -> (effects: Vec<Effect>)
        ensures
            final(self)@ == selecting(old(self)@, to).after,
            effects@ == selecting(old(self)@, to).does,
    {
        let mut effects = none();
        if same_tile(self.state.selected, to) {
            return effects;
        }
        let previous = self.state.selected;
        self.state.selected = to;
        add_repaints(&mut effects, previous, to);
        assert(effects@ =~= selecting(old(self)@, to).does);
        effects
    }

    /// Stay open mode, on or off. The tile and the key are two ways into the
    /// one flag, so neither can disagree with the other about what is on.
    pub fn toggle_stay(&mut self) -> (effects: Vec<Effect>)
        ensures
            final(self)@ == latching(old(self)@).after,
            effects@ == latching(old(self)@).does,
    {
        proof {
            reveal(latching);
        }
        self.state.stay = !self.state.stay;
        if !self.state.stay {
            self.state.target = None;
            self.pending = None;
        }
        self.unlight();
        both(Effect::FrameTarget, Effect::Rebuild)
    }

    fn switch_on(&mut self, mode: Mode) -> (effects: Vec<Effect>)
        ensures
            final(self)@ == switched(old(self)@, mode),
            effects@ == asking(mode),
    {
        let mut effects: Vec<Effect> = Vec::new();
        // Move mode is the stay latch plus the squares it exists for.
        if mode == Mode::Move {
            self.state.stay = true;
            effects.push(Effect::FrameTarget);
        }
        // Asked on the way in, every time: asking again is what puts a bookmark
        // saved a minute ago in the list.
        if mode == Mode::AllBookmarks {
            effects.push(Effect::WantTree);
        }
        self.state.mode = mode;
        self.state.edit = None;
        self.state.filling = None;
        assert(effects@ =~= asking(mode));
        effects
    }

    fn point_at_nothing(&mut self) -> (effects: Vec<Effect>)
        ensures
            final(self)@ == unpointed(old(self)@).after,
            effects@ == unpointed(old(self)@).does,
    {
        proof {
            reveal(unpointed);
        }
        let mut effects = self.set_hover(None);
        let mut more = self.set_selected(None);
        effects.append(&mut more);
        effects
    }

    /// Turn a mode on.
    pub fn enter_mode(&mut self, boxed: bool, mode: Mode) -> (effects: Vec<Effect>)
        ensures
            final(self)@ == entering(old(self)@, boxed, mode).after,
            effects@ == entering(old(self)@, boxed, mode).does,
    {
        proof {
            reveal(entering);
        }
        if self.query.len() > 0 || !boxed {
            return none();
        }
        let mut effects = self.switch_on(mode);
        let mut bare = self.point_at_nothing();
        let ghost (asked, more) = (effects@, bare@);
        effects.append(&mut bare);
        self.unlight();
        effects.push(Effect::Reload);
        effects.push(Effect::Rebuild);
        effects.push(Effect::Reposition);
        assert(effects@ =~= asked + more + seq![
            Effect::Reload,
            Effect::Rebuild,
            Effect::Reposition,
        ]);
        effects
    }

    /// Turn the mode that is on off.
    pub fn leave_mode(&mut self) -> (effects: Vec<Effect>)
        ensures
            final(self)@ == leaving(old(self)@).after,
            effects@ == leaving(old(self)@).does,
    {
        proof {
            reveal(leaving);
        }
        let ghost start = self@;
        // The latch came on with the mode, so it goes off with it.
        let mut effects = if self.state.mode == Mode::Move && self.state.stay {
            self.toggle_stay()
        } else {
            Vec::new()
        };
        self.state.mode = Mode::Grid;
        self.state.edit = None;
        self.state.filling = None;
        self.state.hover_box = None;
        self.unlight();
        effects.push(Effect::Reload);
        effects.push(Effect::Rebuild);
        effects.push(Effect::Reposition);
        effects.push(Effect::KeepFocus);
        assert(effects@ =~= leaving(start).does);
        effects
    }

    /// Take the panel away. Restoring the caller is the panel undoing its own
    /// activation; it is skipped when something else is about to be activated.
    pub fn dismiss(&mut self, restore: bool) -> (effects: Vec<Effect>)
        ensures
            final(self)@ == hiding(old(self)@, restore).after,
            effects@ == hiding(old(self)@, restore).does,
    {
        proof {
            reveal(hiding);
        }
        let ghost start = self@;
        let mut effects = none();
        if !self.state.visible {
            return effects;
        }
        let restores = restore && match self.state.caller {
            Some(caller) => caller != self.state.own,
            None => false,
        };
        self.state = State {
            visible: false,
            tracking: false,
            mode: Mode::Grid,
            edit: None,
            filling: None,
            hover: self.state.hover,
            selected: None,
            hover_box: None,
            hover_option: None,
            hover_menu: None,
            hover_setting: None,
            hover_home: false,
            popup: self.state.popup,
            menu_up: false,
            settings_up: false,
            asking_reset: false,
            handled_down: false,
            stay: false,
            arranging: false,
            target: None,
            caller: self.state.caller,
            own: self.state.own,
            frozen_cols: 0,
            scroll: self.state.scroll,
            press: None,
        };
        self.query = Vec::new();
        self.pending = None;
        effects.push(Effect::HideRing);
        effects.push(Effect::MarkShown(false));
        effects.push(Effect::StopHeartbeat);
        effects.push(Effect::StopAsking);
        effects.push(Effect::HideWindow);
        if restores {
            effects.push(Effect::RestoreCaller);
        }
        effects.push(Effect::DropVisuals);
        assert(self.query@ =~= Seq::empty());
        assert(effects@ =~= hiding(start, restore).does);
        effects
    }

    /// Get ready to show the panel over a window.
    pub fn summon(&mut self, front: Option<u64>) -> (effects: Vec<Effect>)
        ensures
            final(self)@ == summoning(old(self)@, front).after,
            effects@ == summoning(old(self)@, front).does,
    {
        proof {
            reveal(summoning);
        }
        self.state.caller = front;
        self.state.frozen_cols = 0;
        self.state.scroll = 0;
        self.state.hover = None;
        self.query = Vec::new();
        assert(self.query@ =~= Seq::empty());
        self.unlight();
        let mut effects = both(Effect::Reload, Effect::Rebuild);
        effects.push(Effect::Show);
        assert(effects@ =~= seq![Effect::Reload, Effect::Rebuild, Effect::Show]);
        effects
    }

    /// Show the panel, once its grid is built.
    pub fn show(&mut self, built: bool) -> (effects: Vec<Effect>)
        ensures
            final(self)@ == showing(old(self)@, built).after,
            effects@ == showing(old(self)@, built).does,
    {
        let mut effects: Vec<Effect> = Vec::new();
        if built {
            self.state.visible = true;
            effects.push(Effect::ShowWindow);
            effects.push(Effect::TakeFocus);
            effects.push(Effect::StartHeartbeat);
            effects.push(Effect::MarkShown(true));
            // Last, so it can ask whether the panel is up and get the truth.
            effects.push(Effect::FrameTarget);
        }
        assert(effects@ =~= showing(old(self)@, built).does);
        effects
    }

    /// The panel summoned or dismissed, by the key that does both. One that was
    /// put out of action after a fault is not shown again.
    pub fn toggle(&mut self, front: Option<u64>, neutralized: bool) -> (effects: Vec<Effect>)
        ensures
            ({
                let s = old(self)@;
                let turn = toggling(s, front, neutralized);
                final(self)@ == turn.after && effects@ == turn.does
            }),
    {
        proof {
            reveal(toggling);
        }
        if self.state.visible {
            self.dismiss(true)
        } else if neutralized {
            none()
        } else {
            self.summon(front)
        }
    }

    /// Take a query.
    pub fn set_query(&mut self, cols: usize, query: Vec<char>) -> (effects: Vec<Effect>)
        ensures
            final(self)@ == querying(old(self)@, cols, query@).after,
            effects@ == querying(old(self)@, cols, query@).does,
    {
        proof {
            reveal(querying);
        }
        if same_chars(&self.query, &query) {
            return none();
        }
        if self.query.len() == 0 {
            self.state.frozen_cols = cols;
        }
        self.query = query;
        if self.query.len() == 0 {
            self.state.frozen_cols = 0;
        }
        // A changed query gets a fresh answer to what Enter takes.
        self.state.selected = None;
        just(Effect::Follow)
    }

    /// A character was typed.
    pub fn on_char(&mut self, cols: usize, c: char) -> (effects: Vec<Effect>)
        ensures
            final(self)@ == typing(old(self)@, cols, c).after,
            effects@ == typing(old(self)@, cols, c).does,
    {
        proof {
            reveal(typing);
            reveal(querying);
        }
        let ghost start = self@;
        if self.editing() {
            return none();
        }
        let mut query = self.query.clone();
        assert(query@ =~= self.query@);
        if c == '\u{8}' {
            query.pop();
        } else if c == '\u{7F}' {
            query = Vec::new();
        } else if (c == ' ' && query.len() == 0) || control(c) {
            return none();
        } else {
            query.push(c);
        }
        assert(query@ =~= typed(start.query, c));
        self.set_query(cols, query)
    }

    /// The corner button was clicked.
    pub fn press_home(&mut self) -> (effects: Vec<Effect>)
        ensures
            final(self)@ == pressing_home(old(self)@).after,
            effects@ == pressing_home(old(self)@).does,
    {
        proof {
            reveal(pressing_home);
        }
        if self.in_mode() {
            return self.leave_mode();
        }
        // Backs out one surface at a time, the same order Escape unwinds in.
        if self.state.asking_reset && self.state.settings_up {
            self.state.asking_reset = false;
        } else if self.state.settings_up {
            self.state.settings_up = false;
            self.state.asking_reset = false;
        } else {
            self.state.menu_up = !self.state.menu_up;
        }
        self.unlight();
        both(Effect::Rebuild, Effect::KeepFocus)
    }

    /// Escape was pressed outside a mode.
    pub fn escape(&mut self, cols: usize) -> (effects: Vec<Effect>)
        ensures
            final(self)@ == escaping(old(self)@, cols).after,
            effects@ == escaping(old(self)@, cols).does,
    {
        proof {
            reveal(escaping);
        }
        if self.state.asking_reset && self.state.settings_up {
            self.state.asking_reset = false;
        } else if self.state.settings_up {
            self.state.settings_up = false;
            self.state.asking_reset = false;
        } else if self.state.menu_up {
            self.state.menu_up = false;
        } else if self.state.stay {
            self.state.stay = false;
            self.state.target = None;
        } else if self.query.len() == 0 {
            return self.dismiss(true);
        } else {
            let empty: Vec<char> = Vec::new();
            assert(empty@ =~= Seq::empty());
            return self.set_query(cols, empty);
        }
        self.unlight();
        just(Effect::Rebuild)
    }
}

/// The panel summoned or dismissed.
#[verifier::opaque]
pub open spec fn toggling(s: SessionView, front: Option<u64>, neutralized: bool) -> Turn {
    if s.state.visible {
        hiding(s, true)
    } else if neutralized {
        s.still()
    } else {
        summoning(s, front)
    }
}

} // verus!
