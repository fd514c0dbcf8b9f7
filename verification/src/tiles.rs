//! What each tile looks like and allows, where the session stands.

use vstd::prelude::*;
use crate::board;
use crate::board::{Board, Drawn};
use crate::model::{Half, Item, Mode, Source, Target};
use crate::paint;
use crate::paint::{mark_of, mark_of_mode, Mark};
use crate::session::State;

verus! {

impl Item {
    /// What the shell is handed to open the item.
    pub open spec fn shell_name(self) -> Option<Seq<char>> {
        match self.target {
            Target::Shell(name) => Some(name@),
            _ => None,
        }
    }

    /// What the shell is handed to open the item.
    pub fn shell_target(&self) -> (name: Option<&String>)
        ensures
            match (name, self.shell_name()) {
                (Some(name), Some(want)) => name@ == want,
                (None, None) => true,
                _ => false,
            },
    {
        match &self.target {
            Target::Shell(name) => Some(name),
            _ => None,
        }
    }

    /// What putting the item in the centre block would write down. Something
    /// the shell or the browser can be handed later, never a handle: a favorite
    /// outlives the window, the tab and the browser it came from.
    pub open spec fn center_name(self) -> Option<Seq<char>> {
        if self.target is Slot {
            None
        } else if self.link is Some {
            board::words(self.link)
        } else if self.shell_name() is Some {
            self.shell_name()
        } else if self.target is Window {
            // A window stands for its app.
            board::words(self.icon_source)
        } else {
            None
        }
    }

    /// What putting the item in the centre block would write down.
    pub fn center_target(&self) -> (name: Option<String>)
        ensures
            board::words(name) == self.center_name(),
    {
        if self.target.is_slot() {
            return None;
        }
        if let Some(link) = &self.link {
            return Some(link.clone());
        }
        if let Some(name) = self.shell_target() {
            return Some(name.clone());
        }
        if self.target.window().is_some() {
            if let Some(source) = &self.icon_source {
                return Some(source.clone());
            }
        }
        None
    }
}

impl Board {
    /// Whether the centre block would take an item, or give it back.
    ///
    /// Only what would be added to a list that is not drawn, or to one with no
    /// empty square left, is refused: a click with no visible result reads as
    /// the panel ignoring it. A block that is not drawn at all has no square to
    /// land on and needs none: the write is what makes it appear.
    pub open spec fn center_takes(&self, drawn: Drawn, item: Item) -> bool {
        &&& item.origin == Source::Center || {
            &&& drawn.draws_any(item.half)
            &&& self.block_from(0) is Some ==> self.landing(drawn, item.half) is Some
        }
        &&& item.center_name() is Some
    }

    /// What favoriting an item would write down, and which list it goes in.
    /// `None` when the block would not show it.
    pub fn center_would(&self, drawn: &Drawn, item: &Item) -> (would: Option<(Half, String)>)
        requires
            self.wf(),
        ensures
            would is Some <==> self.center_takes(*drawn, *item),
            would matches Some(got) ==> got.0 == item.half && Some(got.1@) == item.center_name(),
    {
        if item.origin != Source::Center {
            if !drawn.shows(item.half) {
                return None;
            }
            if self.center_section().is_some() {
                let slots = self.landing_slots(drawn);
                let landing = match item.half {
                    Half::Apps => slots.0,
                    Half::Sites => slots.1,
                };
                if landing.is_none() {
                    return None;
                }
            }
        }
        match item.center_target() {
            Some(name) => Some((item.half, name)),
            None => None,
        }
    }
}

/// Whether a tile is one the current mode cannot act on, given the window the
/// move tiles act on. Drawn dim rather than taken away: tiles are found by
/// aiming at where they were last time.
pub open spec fn is_inert(
    board: Board,
    drawn: Drawn,
    moving: Option<u64>,
    mode: Mode,
    item: Item,
) -> bool {
    if item.target is Mode {
        // The way out of a mode is never dim.
        false
    } else {
        match mode {
            Mode::Favorites => item.target !is Slot && !board.center_takes(drawn, item),
            // Nothing open behind it, so there is nothing to close.
            Mode::Close => board.window_behind(item) is None,
            _ => item.target is Arrange && moving is None,
        }
    }
}

/// Whether a tile is one the current mode cannot act on.
pub fn inert(
    board: &Board,
    drawn: &Drawn,
    moving: Option<u64>,
    mode: Mode,
    item: &Item,
) -> (yes: bool)
    requires
        board.wf(),
    ensures
        yes == is_inert(*board, *drawn, moving, mode, *item),
{
    if item.target.is_mode() {
        return false;
    }
    match mode {
        Mode::Favorites => !item.target.is_slot() && board.center_would(drawn, item).is_none(),
        Mode::Close => board.window_for(item).is_none(),
        _ => matches!(item.target, Target::Arrange(_)) && moving.is_none(),
    }
}

/// Whether a tile is switched on: the square of the mode that is on, what the
/// centre block is already holding while it is being filled, and the latch that
/// holds the panel open.
pub open spec fn is_lit(mode: Mode, stay: bool, item: Item) -> bool {
    match item.target {
        Target::Mode(on) => mode == on,
        _ => if mode == Mode::Favorites && item.origin == Source::Center {
            item.target !is Slot
        } else {
            item.target is Stay && stay
        },
    }
}

/// Whether a tile is switched on. One more click switches it off.
pub fn lit(mode: Mode, stay: bool, item: &Item) -> (yes: bool)
    ensures
        yes == is_lit(mode, stay, *item),
{
    if let Target::Mode(on) = &item.target {
        return mode == *on;
    }
    if mode == Mode::Favorites && item.origin == Source::Center {
        return !item.target.is_slot();
    }
    matches!(item.target, Target::Stay) && stay
}

/// The fills a tile can have, by what each says.
#[derive(Debug, Clone, Copy, PartialEq, Eq, Structural)]
pub enum Fill {
    Plain,
    /// The other of the two a run of groups alternates between.
    Banded,
    Hovered,
    /// Switched on, or held.
    Held,
    Selected,
}

/// The fill of a tile at rest. Banded by parity of the group's position, not by
/// source: two groups can share a source and still need telling apart.
pub open spec fn resting(item: Item) -> Fill {
    if item.group % 2 == 1 {
        Fill::Banded
    } else {
        Fill::Plain
    }
}

/// The fill of a tile. Unavailable beats every other state, hover included: a
/// tile that lights up under the pointer is promising a click. After that hover
/// beats selection: a tile that did not light up reads as dead.
pub open spec fn fill_of(
    board: Board,
    drawn: Drawn,
    moving: Option<u64>,
    state: State,
    tile: usize,
) -> Fill {
    if !board.has(tile as int) {
        if state.hover == Some(tile) {
            Fill::Hovered
        } else if state.selected == Some(tile) {
            Fill::Selected
        } else {
            Fill::Plain
        }
    } else {
        let item = board.tile(tile as int);
        if is_inert(board, drawn, moving, state.mode, item) {
            resting(item)
        } else if state.hover == Some(tile) {
            Fill::Hovered
        } else if is_lit(state.mode, state.stay, item) {
            Fill::Held
        } else if state.selected == Some(tile) {
            Fill::Selected
        } else {
            resting(item)
        }
    }
}

fn is_tile(at: Option<usize>, tile: usize) -> (yes: bool)
    ensures
        yes == (at == Some(tile)),
{
    match at {
        Some(at) => at == tile,
        None => false,
    }
}

/// The fill of a tile.
pub fn tile_fill(
    board: &Board,
    drawn: &Drawn,
    moving: Option<u64>,
    state: &State,
    tile: usize,
) -> (fill: Fill)
    requires
        board.wf(),
    ensures
        fill == fill_of(*board, *drawn, moving, *state, tile),
{
    let hovered = is_tile(state.hover, tile);
    let selected = is_tile(state.selected, tile);
    match board.item(tile) {
        None => if hovered {
            Fill::Hovered
        } else if selected {
            Fill::Selected
        } else {
            Fill::Plain
        },
        Some(item) => {
            let rest = if item.group % 2 == 1 {
                Fill::Banded
            } else {
                Fill::Plain
            };
            if inert(board, drawn, moving, state.mode, item) {
                rest
            } else if hovered {
                Fill::Hovered
            } else if lit(state.mode, state.stay, item) {
                Fill::Held
            } else if selected {
                Fill::Selected
            } else {
                rest
            }
        },
    }
}

/// A tile the current mode cannot act on never lights up, wherever the pointer
/// and the selection are.
pub proof fn an_unavailable_tile_never_lights_up(
    board: Board,
    drawn: Drawn,
    moving: Option<u64>,
    state: State,
    tile: usize,
)
    requires
        board.has(tile as int),
        is_inert(board, drawn, moving, state.mode, board.tile(tile as int)),
    ensures
        fill_of(board, drawn, moving, state, tile) == resting(board.tile(tile as int)),
{
}

/// The square that turns a mode off is never drawn as unavailable, and is lit
/// while the mode is on.
pub proof fn the_way_out_of_a_mode_is_always_lit(
    board: Board,
    drawn: Drawn,
    moving: Option<u64>,
    stay: bool,
    item: Item,
)
    requires
        item.target is Mode,
    ensures
        forall|mode: Mode| !is_inert(board, drawn, moving, mode, item),
        is_lit(item.target->Mode_0, stay, item),
{
}

/// Whether a tile wears the mark that says a click takes it out of the centre
/// block. Only where a click destroys something: a fill that says "this one is
/// switched on" does not say which way the next click goes.
pub open spec fn is_badged(mode: Mode, item: Item) -> bool {
    mode == Mode::Favorites && item.origin == Source::Center && item.target !is Slot
}

/// The corner mark saying what a click does to a tile right now.
pub fn badge(mode: Mode, item: &Item) -> (mark: Option<Mark>)
    ensures
        mark == (if is_badged(mode, *item) {
            Some(Mark::Minus)
        } else {
            None
        }),
{
    if mode == Mode::Favorites && item.origin == Source::Center && !item.target.is_slot() {
        Some(Mark::Minus)
    } else {
        None
    }
}

/// The figure on an action tile. An ordinary tile has an icon and none.
pub open spec fn figure_on(stay: bool, item: Item) -> Option<Mark> {
    match item.target {
        Target::Arrange(to) => Some(paint::picture_of(to)),
        Target::NewTab => Some(Mark::Plus),
        Target::Slot => Some(Mark::Slot),
        Target::Mode(mode) => Some(paint::picture_of_mode(mode)),
        Target::Stay => Some(Mark::Latch { on: stay }),
        _ => None,
    }
}

/// What the latch calls itself while it holds the panel open: the window that
/// was picked, or that one is to be.
pub open spec fn latch_name(board: Board, target: Option<u64>) -> Seq<char> {
    match target {
        None => "Pick a window"@,
        Some(handle) => match board.tile_from(handle, 0) {
            Some(tile) => board.tile(tile).title@,
            None => "Pick a window"@,
        },
    }
}

/// The figure on an action tile, and what to call it now. Neither for an
/// ordinary tile, which has an icon and a fixed name.
pub fn action_face(board: &Board, state: &State, item: &Item) -> (face: (
    Option<Mark>,
    Option<String>,
))
    requires
        board.wf(),
    ensures
        face.0 == figure_on(state.stay, *item),
        board::words(face.1) == (if item.target is Stay && state.stay {
            Some(latch_name(*board, state.target))
        } else {
            None
        }),
{
    match &item.target {
        Target::Arrange(to) => (Some(mark_of(*to)), None),
        Target::NewTab => (Some(Mark::Plus), None),
        Target::Slot => (Some(Mark::Slot), None),
        Target::Mode(mode) => (Some(mark_of_mode(*mode)), None),
        Target::Stay => {
            let mark = Some(Mark::Latch { on: state.stay });
            if !state.stay {
                return (mark, None);
            }
            if let Some(handle) = state.target {
                if let Some(tile) = board.tile_with(handle) {
                    if let Some(item) = board.item(tile) {
                        return (mark, Some(item.title.clone()));
                    }
                }
            }
            (mark, Some("Pick a window".to_owned()))
        },
        _ => (None, None),
    }
}

/// The window the move tiles are pointed at: the pick if there is one,
/// otherwise whatever the panel came up over. Whether it can be moved is for
/// the desktop to say.
pub open spec fn pointed_at(state: State) -> Option<u64> {
    match state.target {
        Some(handle) => Some(handle),
        None => match state.caller {
            Some(caller) if caller != state.own => Some(caller),
            _ => None,
        },
    }
}

/// The window the move tiles are pointed at.
pub fn aimed_at(state: &State) -> (handle: Option<u64>)
    ensures
        handle == pointed_at(*state),
{
    match state.target {
        Some(handle) => Some(handle),
        None => match state.caller {
            Some(caller) => if caller != state.own {
                Some(caller)
            } else {
                None
            },
            None => None,
        },
    }
}

/// Whether a tile is ringed as the one the move bar acts on.
pub open spec fn is_aimed_at(board: Board, moving: Option<u64>, item: Item) -> bool {
    moving is Some && board.window_behind(item) == moving
}

/// Whether a tile is ringed as the one the move bar acts on: the window's own
/// tile, and any pin of the same app.
pub fn is_target(board: &Board, moving: Option<u64>, item: &Item) -> (yes: bool)
    requires
        board.wf(),
    ensures
        yes == is_aimed_at(*board, moving, *item),
{
    match (moving, board.window_for(item)) {
        (Some(moving), Some(handle)) => moving == handle,
        _ => false,
    }
}

/// Whether a tile is ringed as the square a list's next favorite lands in.
///
/// Hover wins: pointing at something says where that would go. With nothing of
/// use under the pointer it falls back to the list the mode was aimed at, and
/// to both when it was aimed at neither.
pub open spec fn list_lit(board: Board, drawn: Drawn, state: State, half: Half) -> bool {
    let shown = match state.hover {
        Some(tile) => board.has(tile as int) && board.tile(tile as int).origin != Source::Center
            && board.center_takes(drawn, board.tile(tile as int)),
        None => false,
    };
    if shown {
        board.tile(state.hover->0 as int).half == half
    } else {
        match state.filling {
            Some(aimed) => aimed == half,
            None => true,
        }
    }
}

/// Which lists' landing squares are ringed: apps, and sites.
pub fn landing_lit(board: &Board, drawn: &Drawn, state: &State) -> (lit: (bool, bool))
    requires
        board.wf(),
    ensures
        lit.0 == list_lit(*board, *drawn, *state, Half::Apps),
        lit.1 == list_lit(*board, *drawn, *state, Half::Sites),
{
    if let Some(tile) = state.hover {
        if let Some(item) = board.item(tile) {
            if item.origin != Source::Center && board.center_would(drawn, item).is_some() {
                return (item.half == Half::Apps, item.half == Half::Sites);
            }
        }
    }
    match state.filling {
        Some(half) => (half == Half::Apps, half == Half::Sites),
        None => (true, true),
    }
}

/// Whether the ring on an empty square is shown.
pub open spec fn is_ringed(board: Board, drawn: Drawn, state: State, tile: usize) -> bool {
    ||| list_lit(board, drawn, state, Half::Apps) && board.landing(drawn, Half::Apps) == Some(
        tile as int,
    )
    ||| list_lit(board, drawn, state, Half::Sites) && board.landing(drawn, Half::Sites) == Some(
        tile as int,
    )
}

/// Whether the ring on an empty square is shown.
pub fn ringed(board: &Board, drawn: &Drawn, state: &State, tile: usize) -> (yes: bool)
    requires
        board.wf(),
    ensures
        yes == is_ringed(*board, *drawn, *state, tile),
{
    let slots = board.landing_slots(drawn);
    let on = landing_lit(board, drawn, state);
    (on.0 && is_tile(slots.0, tile)) || (on.1 && is_tile(slots.1, tile))
}

/// Whether a tile can be taken away. Only pins of the panel's own can: a
/// taskbar entry belongs to the taskbar.
pub open spec fn is_removable(board: Board, tile: usize) -> bool {
    board.has(tile as int) && board.tile(tile as int).origin == Source::Manual
}

pub fn removable(board: &Board, tile: usize) -> (yes: bool)
    requires
        board.wf(),
    ensures
        yes == is_removable(*board, tile),
{
    match board.item(tile) {
        Some(item) => item.origin == Source::Manual,
        None => false,
    }
}

/// Whether a tile's place is the panel's to keep. Window tiles are ordered by
/// use, so a saved order would fight every change of focus. Never while
/// filtering: writing back a subset's order would drop every pin the query hid.
pub open spec fn is_draggable(board: Board, query: Seq<char>, tile: usize) -> bool {
    &&& query.len() == 0
    &&& board.has(tile as int)
    &&& {
        let item = board.tile(tile as int);
        &&& item.origin == Source::Manual || item.origin == Source::Taskbar || item.origin
            == Source::Center
        // An empty slot is a place, not a tile.
        &&& item.target !is Slot
    }
}

pub fn draggable(board: &Board, query: &Vec<char>, tile: usize) -> (yes: bool)
    requires
        board.wf(),
    ensures
        yes == is_draggable(*board, query@, tile),
{
    if query.len() > 0 {
        return false;
    }
    match board.item(tile) {
        Some(item) => (item.origin == Source::Manual || item.origin == Source::Taskbar
            || item.origin == Source::Center) && !item.target.is_slot(),
        None => false,
    }
}

} // verus!
