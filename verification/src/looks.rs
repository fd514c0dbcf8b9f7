//! What a tile's look says of it.

use vstd::prelude::*;
use crate::board;
use crate::board::{Board, Drawn};
use crate::model::{Half, Item, Mode, Source, Target};
use crate::paint;
use crate::paint::Mark;
use crate::session::State;
use crate::tiles;
use crate::tiles::Fill;

verus! {

/// A favorite is written down as something that outlives its window: the
/// address it has, else what the shell opens, else the file behind the window.
/// An empty square, and anything with none of these, is nothing to keep.
pub proof fn a_favorite_outlives_its_window(item: Item)
    ensures
        item.target is Slot ==> item.center_name() is None,
        item.target !is Slot && item.link is Some ==> item.center_name() == Some(item.link->0@),
        item.link is None ==> match item.target {
            Target::Shell(name) => item.center_name() == Some(name@),
            Target::Window(_) => item.center_name() == (match item.icon_source {
                Some(source) => Some(source@),
                None => None,
            }),
            _ => item.center_name() is None,
        },
{
}

/// The block takes what it can show. Whatever it already holds it gives back.
/// Anything else needs its own list drawn, and once the block is on the panel
/// an empty square of that list to land in.
pub proof fn the_block_takes_what_it_can_show(board: Board, drawn: Drawn, item: Item)
    ensures
        item.center_name() is None ==> !board.center_takes(drawn, item),
        item.origin == Source::Center && item.center_name() is Some ==> board.center_takes(
            drawn,
            item,
        ),
        item.origin != Source::Center && !drawn.draws(0, item.half) && !drawn.draws(1, item.half)
            ==> !board.center_takes(drawn, item),
        item.origin != Source::Center && item.center_name() is Some && (drawn.draws(0, item.half)
            || drawn.draws(1, item.half)) ==> {
            &&& board.landing(drawn, item.half) is Some ==> board.center_takes(drawn, item)
            &&& board.block_from(0) is None ==> board.center_takes(drawn, item)
            &&& board.block_from(0) is Some && board.landing(drawn, item.half) is None
                ==> !board.center_takes(drawn, item)
        },
{
}

/// A tile is dim where the mode cannot act on it: in the favorites what the
/// block would not take, while closing what has nothing open, and anywhere else
/// a move with no window to move. A mode's own square never is.
pub proof fn a_tile_is_dim_where_the_mode_cannot_act_on_it(
    board: Board,
    drawn: Drawn,
    moving: Option<u64>,
    mode: Mode,
    item: Item,
)
    ensures
        ({
            let dim = tiles::is_inert(board, drawn, moving, mode, item);
            &&& item.target is Mode ==> !dim
            &&& item.target !is Mode && mode == Mode::Favorites ==> (dim <==> item.target !is Slot
                && !board.center_takes(drawn, item))
            &&& item.target !is Mode && mode == Mode::Close ==> (dim <==> board.window_behind(item)
                is None)
            &&& mode != Mode::Favorites && mode != Mode::Close ==> (dim <==> item.target is Arrange
                && moving is None)
        }),
{
}

/// A tile is lit where it is switched on: a mode's square while the mode is on
/// and at no other time, the latch while it holds, and what the block already
/// holds while the block is being filled.
pub proof fn a_tile_is_lit_where_it_is_switched_on(mode: Mode, stay: bool, item: Item)
    ensures
        ({
            let lit = tiles::is_lit(mode, stay, item);
            &&& item.target matches Target::Mode(on) ==> (lit <==> mode == on)
            &&& item.target is Stay && !(mode == Mode::Favorites && item.origin == Source::Center)
                ==> lit == stay
            &&& item.target is Slot ==> !lit
            &&& item.target !is Mode && item.target !is Stay && item.target !is Slot ==> (lit <==> mode
                == Mode::Favorites && item.origin == Source::Center)
        }),
{
}

/// The fill of a tile says one thing at a time. The pointer comes first, then
/// being switched on, then the selection, and at rest every other group is
/// banded. A dim tile is at rest whatever is on it.
pub proof fn a_fill_says_one_thing_at_a_time(
    board: Board,
    drawn: Drawn,
    moving: Option<u64>,
    state: State,
    tile: usize,
)
    requires
        tile < board.spots@.len(),
    ensures
        ({
            let item = board.tile(tile as int);
            let fill = tiles::fill_of(board, drawn, moving, state, tile);
            let dim = tiles::is_inert(board, drawn, moving, state.mode, item);
            let lit = tiles::is_lit(state.mode, state.stay, item);
            let (hovered, selected) = (state.hover == Some(tile), state.selected == Some(tile));
            &&& fill == Fill::Hovered <==> !dim && hovered
            &&& fill == Fill::Held <==> !dim && !hovered && lit
            &&& fill == Fill::Selected <==> !dim && !hovered && !lit && selected
            &&& fill == Fill::Banded ==> item.group % 2 == 1
            &&& fill == Fill::Plain ==> item.group % 2 == 0
        }),
{
}

/// The mark that says a click takes a tile out of the block is on what a click
/// takes out of the block, and on nothing else.
pub proof fn the_minus_is_on_what_a_click_takes_away(mode: Mode, item: Item)
    ensures
        tiles::is_badged(mode, item) <==> mode == Mode::Favorites && item.origin == Source::Center
            && item.target !is Slot,
{
}

/// An action tile wears its own figure: where the window goes, a plus, an empty
/// square, the mode it turns on, or the latch as it stands. What opens something
/// has an icon and no figure.
pub proof fn an_action_wears_its_own_figure(stay: bool, item: Item)
    ensures
        match item.target {
            Target::Window(_) | Target::Shell(_) | Target::Tab => tiles::figure_on(
                stay,
                item,
            ) is None,
            Target::NewTab => tiles::figure_on(stay, item) == Some(Mark::Plus),
            Target::Slot => tiles::figure_on(stay, item) == Some(Mark::Slot),
            Target::Stay => tiles::figure_on(stay, item) == Some(Mark::Latch { on: stay }),
            Target::Arrange(to) => tiles::figure_on(stay, item) == Some(paint::picture_of(to)),
            Target::Mode(mode) => tiles::figure_on(stay, item) == Some(
                paint::picture_of_mode(mode),
            ),
        },
{
}

/// The latch is called after the window that was picked while that is on the
/// panel, and asks for one to be picked otherwise.
pub proof fn the_latch_names_the_window_it_holds(board: Board, target: Option<u64>, t: int)
    ensures
        target is None ==> tiles::latch_name(board, target) == "Pick a window"@,
        target matches Some(handle) && board.tile_from(handle, 0) is None ==> tiles::latch_name(
            board,
            target,
        ) == "Pick a window"@,
        target matches Some(handle) && board.tile_from(handle, 0) == Some(t) ==> tiles::latch_name(
            board,
            target,
        ) == board.tile(t).title@,
{
}

/// The move tiles are pointed at the window that was picked, else at the one
/// the panel came up over, and never at the panel itself unless it was picked.
pub proof fn the_bar_points_at_the_pick_or_the_caller(state: State)
    ensures
        state.target is Some ==> tiles::pointed_at(state) == state.target,
        state.target is None && state.caller != Some(state.own) ==> tiles::pointed_at(state)
            == state.caller,
        state.target is None && state.caller == Some(state.own) ==> tiles::pointed_at(state) is None,
{
}

/// What the bar acts on is ringed: the tile of that window, and any tile the
/// window is behind. With no window there is no ring.
pub proof fn what_the_bar_acts_on_is_ringed(board: Board, moving: Option<u64>, item: Item)
    ensures
        moving is None ==> !tiles::is_aimed_at(board, moving, item),
        moving matches Some(handle) ==> (tiles::is_aimed_at(board, moving, item)
            <==> board.window_behind(item) == Some(handle)),
        moving matches Some(handle) ==> (item.target == Target::Window(handle)
            ==> tiles::is_aimed_at(board, moving, item)),
{
}

/// The ring says where the next favorite goes. Pointing at something the block
/// would take rings its own list alone; pointing at nothing of use rings the
/// list the mode is aimed at, and both where it is aimed at neither.
pub proof fn the_ring_says_where_the_next_favorite_goes(
    board: Board,
    drawn: Drawn,
    state: State,
    half: Half,
)
    ensures
        ({
            let lit = tiles::list_lit(board, drawn, state, half);
            let of_use = state.hover matches Some(tile) && tile < board.spots@.len()
                && board.tile(tile as int).origin != Source::Center && board.center_takes(
                drawn,
                board.tile(tile as int),
            );
            &&& of_use ==> (lit <==> board.tile(state.hover->0 as int).half == half)
            &&& !of_use && state.filling is Some ==> (lit <==> state.filling == Some(half))
            &&& !of_use && state.filling is None ==> lit
        }),
{
}

/// An empty square is ringed exactly where a list that is ringed lands in it.
pub proof fn a_square_is_ringed_where_something_would_land(
    board: Board,
    drawn: Drawn,
    state: State,
    tile: usize,
)
    ensures
        tiles::is_ringed(board, drawn, state, tile) <==> exists|half: Half|
            #[trigger] tiles::list_lit(board, drawn, state, half) && board.landing(drawn, half)
                == Some(tile as int),
{
    if tiles::is_ringed(board, drawn, state, tile) {
        if tiles::list_lit(board, drawn, state, Half::Apps) && board.landing(drawn, Half::Apps)
            == Some(tile as int) {
        } else {
            assert(tiles::list_lit(board, drawn, state, Half::Sites));
        }
    }
}

/// Which modes take a click off the grid: the ones that rearrange it, fill the
/// block or close things.
pub proof fn three_modes_take_the_click(mode: Mode)
    ensures
        mode.spec_takes_clicks() <==> mode == Mode::Layout || mode == Mode::Favorites || mode
            == Mode::Close,
{
}

/// What the shell is handed is the name of what it opens, and nothing for what
/// it does not open.
pub proof fn the_shell_is_handed_what_it_opens(item: Item)
    ensures
        match item.target {
            Target::Shell(name) => item.shell_name() == Some(name@),
            _ => item.shell_name() is None,
        },
        item.target matches Target::Window(handle) ==> item.target.handle() == Some(handle),
        item.target !is Window ==> item.target.handle() is None,
        board::words(item.link) == (match item.link {
            Some(link) => Some(link@),
            None => None,
        }),
{
}

} // verus!
