//! What is found when something is looked for.

use vstd::prelude::*;
use crate::board;
use crate::board::{Board, Drawn};
use crate::clicks;
use crate::config::SectionConfig;
use crate::geometry::Rect;
use crate::layout::Band;
use crate::model::{Half, Item, Section, Target};
use crate::scene;
use crate::scene::{OptionSquare, Scene};

verus! {

proof fn lemma_spot(sections: Seq<Section>, n: nat, i: int, j: int)
    requires
        0 <= i < n <= sections.len() <= usize::MAX,
        0 <= j < sections[i].items@.len(),
    ensures
        board::base_of(sections, i as nat) + j < board::flat(sections, n).len(),
        board::flat(sections, n)[board::base_of(sections, i as nat) + j] == (i as usize, j as usize),
    decreases n,
{
    board::lemma_flat(sections, (n - 1) as nat);
    if i < n - 1 {
        lemma_spot(sections, (n - 1) as nat, i, j);
    }
}

/// The tiles of a panel are the items of its sections, section after section and
/// each in its own order: the `j`th item of a section is the tile that many
/// after all those of the sections before it, and there is no other tile.
pub proof fn a_tile_is_an_item_of_its_section(board: Board, i: int, j: int)
    requires
        board.wf(),
        0 <= i < board.sections@.len(),
        0 <= j < board.sections@[i].items@.len(),
    ensures
        ({
            let t = board::base_of(board.sections@, i as nat) + j;
            &&& 0 <= t < board.spots@.len()
            &&& board.tile(t) == board.sections@[i].items@[j]
        }),
        board.spots@.len() == board::base_of(board.sections@, board.sections@.len()),
{
    vstd::std_specs::vec::axiom_spec_len(&board.sections);
    vstd::std_specs::vec::axiom_spec_len(&board.sections@[i].items);
    board::lemma_flat(board.sections@, board.sections@.len());
    lemma_spot(board.sections@, board.sections@.len(), i, j);
}

/// A section's tiles start right after those of the section before it.
pub proof fn sections_follow_one_another(sections: Seq<Section>, i: nat)
    requires
        i < sections.len(),
    ensures
        board::base_of(sections, 0) == 0,
        board::base_of(sections, i + 1) == board::base_of(sections, i)
            + sections[i as int].items@.len(),
{
}

/// Whether an item is a live window of an app.
pub open spec fn is_window_of(item: Item, app: Seq<char>) -> bool {
    item.target is Window && item.app is Some && item.app->0@ == app
}

/// A window of an app is the first of its windows on the panel, and there is
/// none only where no tile is one.
pub proof fn an_app_answers_with_its_first_window(board: Board, app: Seq<char>, from: int)
    requires
        0 <= from <= board.spots@.len(),
    ensures
        match board.window_from(app, from) {
            Some(handle) => exists|t: int|
                {
                    &&& from <= t < board.spots@.len()
                    &&& is_window_of(#[trigger] board.tile(t), app)
                    &&& board.tile(t).target == Target::Window(handle)
                    &&& forall|u: int|
                        from <= u < t ==> !is_window_of(#[trigger] board.tile(u), app)
                },
            None => forall|t: int|
                from <= t < board.spots@.len() ==> !is_window_of(#[trigger] board.tile(t), app),
        },
    decreases board.spots@.len() - from,
{
    if from < board.spots@.len() {
        if is_window_of(board.tile(from), app) {
            assert(board.tile(from).target == Target::Window(board.window_from(app, from)->0));
        } else {
            an_app_answers_with_its_first_window(board, app, from + 1);
        }
    }
}

/// A window's tile answers with that window, and any other item with a window
/// of its app. One that is neither a window nor of an app has nothing open
/// behind it.
pub proof fn a_window_is_behind_its_own_tile(board: Board, item: Item)
    ensures
        item.target matches Target::Window(handle) ==> board.window_behind(item) == Some(handle),
        item.target !is Window && item.app is None ==> board.window_behind(item) is None,
        item.target !is Window && item.app is Some ==> board.window_behind(item)
            == board.window_from(item.app->0@, 0),
{
}

/// The tile of a window is the first that is that window.
pub proof fn a_window_is_found_by_its_handle(board: Board, handle: u64, from: int)
    requires
        0 <= from <= board.spots@.len(),
    ensures
        match board.tile_from(handle, from) {
            Some(t) => {
                &&& from <= t < board.spots@.len()
                &&& board.tile(t).target == Target::Window(handle)
                &&& forall|u: int|
                    from <= u < t ==> (#[trigger] board.tile(u)).target != Target::Window(handle)
            },
            None => forall|t: int|
                from <= t < board.spots@.len() ==> (#[trigger] board.tile(t)).target
                    != Target::Window(handle),
        },
    decreases board.spots@.len() - from,
{
    if from < board.spots@.len() && board.tile(from).target != Target::Window(handle) {
        a_window_is_found_by_its_handle(board, handle, from + 1);
    }
}

/// An item is followed by its id: to the first tile that has it.
pub proof fn an_item_is_followed_by_its_id(board: Board, id: Seq<char>, from: int)
    requires
        0 <= from <= board.spots@.len(),
    ensures
        match board.known_from(id, from) {
            Some(t) => {
                &&& from <= t < board.spots@.len()
                &&& board.tile(t).id@ == id
                &&& forall|u: int| from <= u < t ==> (#[trigger] board.tile(u)).id@ != id
            },
            None => forall|t: int|
                from <= t < board.spots@.len() ==> (#[trigger] board.tile(t)).id@ != id,
        },
    decreases board.spots@.len() - from,
{
    if from < board.spots@.len() && board.tile(from).id@ != id {
        an_item_is_followed_by_its_id(board, id, from + 1);
    }
}

/// The first empty square of a half is the first of its items that is one.
pub proof fn a_half_is_filled_from_its_first_empty_square(items: Seq<Item>, from: int)
    requires
        0 <= from <= items.len(),
    ensures
        match board::slot_from(items, from) {
            Some(i) => {
                &&& from <= i < items.len()
                &&& items[i].target is Slot
                &&& forall|k: int| from <= k < i ==> (#[trigger] items[k]).target !is Slot
            },
            None => forall|k: int| from <= k < items.len() ==> (#[trigger] items[k]).target !is Slot,
        },
    decreases items.len() - from,
{
    if from < items.len() && items[from].target !is Slot {
        a_half_is_filled_from_its_first_empty_square(items, from + 1);
    }
}

proof fn lemma_landing(board: Board, drawn: Drawn, half: Half, n: nat, i: int)
    requires
        0 <= i < n <= board.sections@.len(),
        board.sections@[i].center matches Some(place) && drawn.draws(place, half),
        forall|k: int|
            #![trigger board.sections@[k]]
            i < k < n ==> !(board.sections@[k].center matches Some(place) && drawn.draws(
                place,
                half,
            )),
    ensures
        board.landing_among(drawn, half, n) == (match board::slot_from(
            board.sections@[i].items@,
            0,
        ) {
            Some(slot) => Some(board::base_of(board.sections@, i as nat) + slot),
            None => None,
        }),
    decreases n,
{
    if i < n - 1 {
        assert(!(board.sections@[n - 1].center matches Some(place) && drawn.draws(place, half)));
        lemma_landing(board, drawn, half, (n - 1) as nat, i);
    }
}

/// A list's next favorite lands in the first empty square of the half drawing
/// that list: a tile of the panel that is an empty square, with none before it
/// in that half. Where the half has none there is nowhere to land.
pub proof fn a_favorite_lands_in_the_first_empty_square(
    board: Board,
    drawn: Drawn,
    half: Half,
    i: int,
)
    requires
        board.wf(),
        0 <= i < board.sections@.len(),
        board.sections@[i].center matches Some(place) && drawn.draws(place, half),
        forall|k: int|
            #![trigger board.sections@[k]]
            0 <= k < board.sections@.len() && k != i ==> !(board.sections@[k].center matches Some(
                place,
            ) && drawn.draws(place, half)),
    ensures
        match board.landing(drawn, half) {
            Some(t) => {
                let base = board::base_of(board.sections@, i as nat) as int;
                &&& base <= t < base + board.sections@[i].items@.len()
                &&& 0 <= t < board.spots@.len()
                &&& board.tile(t).target is Slot
                &&& forall|u: int|
                    base <= u < t ==> (#[trigger] board.tile(u)).target !is Slot
            },
            None => forall|j: int|
                0 <= j < board.sections@[i].items@.len() ==> (
                #[trigger] board.sections@[i].items@[j]).target !is Slot,
        },
{
    let items = board.sections@[i].items@;
    let base = board::base_of(board.sections@, i as nat) as int;
    lemma_landing(board, drawn, half, board.sections@.len(), i);
    a_half_is_filled_from_its_first_empty_square(items, 0);
    if let Some(t) = board.landing(drawn, half) {
        a_tile_is_an_item_of_its_section(board, i, t - base);
        assert forall|u: int| base <= u < t implies (#[trigger] board.tile(u)).target !is Slot by {
            a_tile_is_an_item_of_its_section(board, i, u - base);
            assert(items[u - base].target !is Slot);
        }
    }
}

proof fn lemma_no_landing(board: Board, drawn: Drawn, half: Half, n: nat)
    requires
        n <= board.sections@.len(),
        forall|k: int|
            #![trigger board.sections@[k]]
            0 <= k < n ==> !(board.sections@[k].center matches Some(place) && drawn.draws(
                place,
                half,
            )),
    ensures
        board.landing_among(drawn, half, n) is None,
    decreases n,
{
    if n > 0 {
        assert(!(board.sections@[n - 1].center matches Some(place) && drawn.draws(place, half)));
        lemma_no_landing(board, drawn, half, (n - 1) as nat);
    }
}

/// A list that is not drawn has nowhere for a favorite to land.
pub proof fn a_list_that_is_not_drawn_has_nowhere_to_land(board: Board, drawn: Drawn, half: Half)
    requires
        !drawn.draws(0, half),
        !drawn.draws(1, half),
    ensures
        board.landing(drawn, half) is None,
{
    lemma_no_landing(board, drawn, half, board.sections@.len());
}

/// Each half of the block draws the lists it is said to draw, and there are no
/// more than two halves.
pub proof fn a_half_draws_the_lists_it_is_given(drawn: Drawn, place: usize)
    ensures
        drawn.draws(0, Half::Apps) == drawn.apps.0,
        drawn.draws(1, Half::Apps) == drawn.apps.1,
        drawn.draws(0, Half::Sites) == drawn.sites.0,
        drawn.draws(1, Half::Sites) == drawn.sites.1,
        place > 1 ==> !drawn.draws(place, Half::Apps) && !drawn.draws(place, Half::Sites),
        drawn.draws_any(Half::Apps) == (drawn.apps.0 || drawn.apps.1),
        drawn.draws_any(Half::Sites) == (drawn.sites.0 || drawn.sites.1),
{
}

/// An empty square belongs to the list its half draws, and to the apps where
/// its half draws both. A tile outside the block belongs to neither.
pub proof fn a_square_belongs_to_the_list_of_its_half(
    board: Board,
    drawn: Drawn,
    i: int,
    j: int,
)
    requires
        board.wf(),
        0 <= i < board.sections@.len(),
        0 <= j < board.sections@[i].items@.len(),
    ensures
        ({
            let t = board::base_of(board.sections@, i as nat) + j;
            match board.sections@[i].center {
                None => board.half_of(drawn, t) is None,
                Some(place) => board.half_of(drawn, t) == if drawn.draws(place, Half::Apps) {
                    Some(Half::Apps)
                } else if drawn.draws(place, Half::Sites) {
                    Some(Half::Sites)
                } else {
                    None
                },
            }
        }),
{
    vstd::std_specs::vec::axiom_spec_len(&board.sections);
    board::lemma_flat(board.sections@, board.sections@.len());
    lemma_spot(board.sections@, board.sections@.len(), i, j);
}

/// The block is the first section that is half of it.
pub proof fn the_block_is_its_first_half(board: Board, from: int)
    requires
        0 <= from <= board.sections@.len(),
    ensures
        match board.block_from(from) {
            Some(i) => {
                &&& from <= i < board.sections@.len()
                &&& board.sections@[i].center is Some
                &&& forall|k: int|
                    from <= k < i ==> (#[trigger] board.sections@[k]).center is None
            },
            None => forall|k: int|
                from <= k < board.sections@.len() ==> (#[trigger] board.sections@[k]).center is None,
        },
    decreases board.sections@.len() - from,
{
    if from < board.sections@.len() && board.sections@[from].center is None {
        the_block_is_its_first_half(board, from + 1);
    }
}

/// Whether a point is in a rectangle, its left and top edges included and its
/// right and bottom ones not.
pub open spec fn inside(rect: Rect, x: int, y: int) -> bool {
    rect.x <= x && x < rect.x + rect.w && rect.y <= y && y < rect.y + rect.h
}

proof fn lemma_tile_found(tiles: Seq<Rect>, x: int, y: int, from: int)
    requires
        0 <= from <= tiles.len(),
    ensures
        match scene::under_from(tiles, x, y, from) {
            Some(t) => {
                &&& from <= t < tiles.len()
                &&& inside(tiles[t], x, y)
                &&& forall|u: int| from <= u < t ==> !inside(#[trigger] tiles[u], x, y)
            },
            None => forall|u: int| from <= u < tiles.len() ==> !inside(#[trigger] tiles[u], x, y),
        },
    decreases tiles.len() - from,
{
    if from < tiles.len() && !inside(tiles[from], x, y) {
        lemma_tile_found(tiles, x, y, from + 1);
    }
}

/// The tile under a point is the first that is drawn there at the scroll, and a
/// point off the panel or between tiles is on none.
pub proof fn the_tile_under_a_point_is_drawn_there(scene: Scene, x: int, y: int, scroll: int)
    ensures
        ({
            let on_panel = 0 <= x < scene.layout.panel.w && 0 <= y < scene.layout.panel.h;
            let tiles = scene.layout.tiles@;
            match scene.tile_under(x, y, scroll) {
                Some(t) => {
                    &&& on_panel
                    &&& 0 <= t < tiles.len()
                    &&& tiles[t].x <= x < tiles[t].x + tiles[t].w
                    &&& tiles[t].y - scroll <= y < tiles[t].y - scroll + tiles[t].h
                    &&& forall|u: int|
                        0 <= u < t ==> !inside(#[trigger] tiles[u], x, y + scroll)
                },
                None => on_panel ==> forall|u: int|
                    0 <= u < tiles.len() ==> !inside(#[trigger] tiles[u], x, y + scroll),
            }
        }),
{
    lemma_tile_found(scene.layout.tiles@, x, y + scroll, 0);
}

/// The square under a point is the first drawn there.
pub proof fn the_square_under_a_point_is_drawn_there<T>(
    squares: Seq<(T, Rect)>,
    x: int,
    y: int,
    from: int,
)
    requires
        0 <= from <= squares.len(),
    ensures
        match scene::square_from(squares, x, y, from) {
            Some(i) => {
                &&& from <= i < squares.len()
                &&& inside(squares[i].1, x, y)
                &&& forall|k: int| from <= k < i ==> !inside((#[trigger] squares[k]).1, x, y)
            },
            None => forall|k: int|
                from <= k < squares.len() ==> !inside((#[trigger] squares[k]).1, x, y),
        },
    decreases squares.len() - from,
{
    if from < squares.len() && !inside(squares[from].1, x, y) {
        the_square_under_a_point_is_drawn_there(squares, x, y, from + 1);
    }
}

/// The option under a point is the first drawn there.
pub proof fn the_option_under_a_point_is_drawn_there(
    options: Seq<OptionSquare>,
    x: int,
    y: int,
    from: int,
)
    requires
        0 <= from <= options.len(),
    ensures
        match scene::option_from(options, x, y, from) {
            Some(i) => {
                &&& from <= i < options.len()
                &&& inside(options[i].rect, x, y)
                &&& forall|k: int| from <= k < i ==> !inside((#[trigger] options[k]).rect, x, y)
            },
            None => forall|k: int|
                from <= k < options.len() ==> !inside((#[trigger] options[k]).rect, x, y),
        },
    decreases options.len() - from,
{
    if from < options.len() && !inside(options[from].rect, x, y) {
        the_option_under_a_point_is_drawn_there(options, x, y, from + 1);
    }
}

proof fn lemma_band_found(bands: Seq<Band>, center: bool, x: int, y: int, from: int)
    requires
        0 <= from <= bands.len(),
    ensures
        match scene::band_from(bands, center, x, y, from) {
            Some(i) => {
                &&& from <= i < bands.len()
                &&& bands[i].center == center
                &&& inside(bands[i].rect, x, y)
                &&& forall|k: int|
                    from <= k < i && (#[trigger] bands[k]).center == center ==> !inside(
                        bands[k].rect,
                        x,
                        y,
                    )
            },
            None => forall|k: int|
                from <= k < bands.len() && (#[trigger] bands[k]).center == center ==> !inside(
                    bands[k].rect,
                    x,
                    y,
                ),
        },
    decreases bands.len() - from,
{
    if from < bands.len() && !(bands[from].center == center && inside(bands[from].rect, x, y)) {
        lemma_band_found(bands, center, x, y, from + 1);
    }
}

/// The box under a point is one drawn there at the scroll, and half of the
/// centre block wherever the block is: its halves stand inside the rectangle of
/// whatever box wraps around them. Where no box is drawn there is none.
pub proof fn the_box_under_a_point_is_the_block_first(
    scene: Scene,
    x: int,
    y: int,
    scroll: int,
)
    ensures
        ({
            let bands = scene.layout.bands@;
            match scene.box_under(x, y, scroll) {
                Some(i) => {
                    &&& 0 <= i < bands.len()
                    &&& inside(bands[i].rect, x, y + scroll)
                    &&& !bands[i].center ==> forall|k: int|
                        0 <= k < bands.len() && (#[trigger] bands[k]).center ==> !inside(
                            bands[k].rect,
                            x,
                            y + scroll,
                        )
                },
                None => forall|k: int|
                    0 <= k < bands.len() ==> !inside((#[trigger] bands[k]).rect, x, y + scroll),
            }
        }),
{
    lemma_band_found(scene.layout.bands@, true, x, y + scroll, 0);
    lemma_band_found(scene.layout.bands@, false, x, y + scroll, 0);
}

/// A point picks the section of the box it is in, and either half of the centre
/// block picks the block: the first of its halves.
pub proof fn either_half_picks_the_block(scene: Scene, x: int, y: int, scroll: int)
    ensures
        match scene.box_under(x, y, scroll) {
            None => scene.section_under(x, y, scroll) is None,
            Some(i) => {
                let band = scene.layout.bands@[i];
                &&& !band.center ==> scene.section_under(x, y, scroll) == Some(
                    band.section as int,
                )
                &&& band.center && scene.board.block_from(0) is Some ==> scene.section_under(
                    x,
                    y,
                    scroll,
                ) == scene.board.block_from(0)
            },
        },
{
}

/// A box shows as many tiles at most as the first section of the config with
/// its title says, and all of them where no section has it.
pub proof fn a_box_is_capped_by_the_section_of_its_title(
    sections: Seq<SectionConfig>,
    title: Seq<char>,
    from: int,
)
    requires
        0 <= from <= sections.len(),
    ensures
        (forall|k: int| from <= k < sections.len() ==> (#[trigger] sections[k]).title@ != title)
            ==> clicks::cap_from(sections, title, from) == 0,
        forall|i: int|
            #![trigger sections[i]]
            from <= i < sections.len() && sections[i].title@ == title && (forall|k: int|
                from <= k < i ==> (#[trigger] sections[k]).title@ != title) ==> clicks::cap_from(
                sections,
                title,
                from,
            ) == sections[i].max_items,
    decreases sections.len() - from,
{
    if from < sections.len() && sections[from].title@ != title {
        a_box_is_capped_by_the_section_of_its_title(sections, title, from + 1);
        assert forall|i: int|
            #![trigger sections[i]]
            from <= i < sections.len() && sections[i].title@ == title && (forall|k: int|
                from <= k < i ==> (#[trigger] sections[k]).title@ != title) implies clicks::cap_from(
            sections,
            title,
            from,
        ) == sections[i].max_items by {
            assert(i > from);
        }
    } else if from < sections.len() {
        assert forall|i: int|
            #![trigger sections[i]]
            from <= i < sections.len() && sections[i].title@ == title && (forall|k: int|
                from <= k < i ==> (#[trigger] sections[k]).title@ != title) implies clicks::cap_from(
            sections,
            title,
            from,
        ) == sections[i].max_items by {
            if i > from {
                assert(sections[from].title@ != title);
            }
        }
    }
}

/// The strip swallows a click anywhere along its row while something is typed,
/// and is not there otherwise.
pub proof fn the_strip_takes_its_whole_row(scene: Scene, typed: Seq<char>, y: int)
    ensures
        typed.len() == 0 ==> !scene.on_strip(typed, y),
        typed.len() > 0 && 0 <= y < scene.layout.panel.h ==> (scene.on_strip(typed, y) <==> y
            < scene.layout.metrics.search_h),
        y < 0 ==> !scene.on_strip(typed, y),
{
}

} // verus!
