//! What a mode or a question puts up in the middle of the panel.

use vstd::prelude::*;
use crate::geometry;
use crate::geometry::Rect;
use crate::menu;
use crate::menu::{centred_grid, surround, Command, COMMANDS};
use crate::num;
use crate::scene::EditOption;
use crate::settings::{Setting, CONFIRM_RESET, SETTINGS};
use crate::stretch;

verus! {

/// Squares to aim at, and the plate under them that makes them one object
/// rather than several floating ones.
pub struct Overlay<T> {
    pub squares: Vec<(T, Rect)>,
    pub plate: Rect,
}

/// The squares that are up while the settings are. The question replaces the
/// surface rather than sitting on it: two squares where there were eight is a
/// change nobody can miss.
pub open spec fn settings_up(asking: bool) -> Seq<Setting> {
    if asking {
        CONFIRM_RESET@
    } else {
        SETTINGS@
    }
}

/// The rectangles of a set of centred squares.
pub open spec fn places(panel: Rect, count: nat, tile_w: int, tile_h: int, gap: int) -> Seq<Rect> {
    Seq::new(count, |n: int| menu::square(panel, count, tile_w, tile_h, gap, n))
}

/// The plate under a set of centred squares.
pub open spec fn plate_of(panel: Rect, count: nat, tile_w: int, tile_h: int, gap: int) -> Rect {
    menu::padded(stretch::covering(places(panel, count, tile_w, tile_h, gap)), gap)
}

proof fn lemma_square_near(panel: Rect, count: nat, tile_w: int, tile_h: int, gap: int, n: int)
    requires
        menu::squares_fit(panel, count, tile_w, tile_h, gap),
        0 <= n < count,
    ensures
        menu::square(panel, count, tile_w, tile_h, gap, n).near_enough(),
{
    let across = num::smaller(count as int, menu::MENU_COLS as int);
    let rows = num::over(count, menu::MENU_COLS as nat) as int;
    let (col, row) = (n % 4, n / 4);
    geometry::lemma_span(across, tile_w, gap);
    geometry::lemma_span(rows, tile_h, gap);
    geometry::lemma_cells(col, tile_w + gap);
    geometry::lemma_cells(row, tile_h + gap);
    assert(col <= across - 1 && row <= rows - 1);
    assert(col * (tile_w + gap) + tile_w <= across * tile_w + (across - 1) * gap)
        by (nonlinear_arith)
        requires
            0 <= col <= across - 1,
            tile_w > 0,
            gap >= 0,
    ;
    assert(row * (tile_h + gap) + tile_h <= rows * tile_h + (rows - 1) * gap)
        by (nonlinear_arith)
        requires
            0 <= row <= rows - 1,
            tile_h > 0,
            gap >= 0,
    ;
}

proof fn lemma_places_near(panel: Rect, count: nat, tile_w: int, tile_h: int, gap: int)
    requires
        menu::squares_fit(panel, count, tile_w, tile_h, gap),
    ensures
        stretch::all_near(places(panel, count, tile_w, tile_h, gap)),
{
    let squares = places(panel, count, tile_w, tile_h, gap);
    assert forall|i: int| 0 <= i < squares.len() implies (#[trigger] squares[i]).near_enough()
        && squares[i].w >= 0 && squares[i].h >= 0 by {
        lemma_square_near(panel, count, tile_w, tile_h, gap, i);
    }
}

/// Squares over the middle of the panel, and the plate under them. `None` with
/// no squares to put up.
pub open spec fn is_overlay<T>(
    overlay: Option<Overlay<T>>,
    up: Seq<T>,
    panel: Rect,
    tile_w: int,
    tile_h: int,
    gap: int,
) -> bool {
    match overlay {
        None => up.len() == 0,
        Some(overlay) => {
            &&& up.len() > 0
            &&& overlay.squares@ == Seq::new(
                up.len(),
                |n: int| (up[n], menu::square(panel, up.len(), tile_w, tile_h, gap, n)),
            )
            &&& overlay.plate == plate_of(panel, up.len(), tile_w, tile_h, gap)
        },
    }
}

fn overlay<T: Copy>(up: &[T], panel: Rect, tile_w: i64, tile_h: i64, gap: i64) -> (overlay: Option<
    Overlay<T>,
>)
    requires
        menu::squares_fit(panel, up@.len(), tile_w as int, tile_h as int, gap as int),
    ensures
        is_overlay(overlay, up@, panel, tile_w as int, tile_h as int, gap as int),
{
    let ghost (w, h, g) = (tile_w as int, tile_h as int, gap as int);
    let count: usize = up.len();
    if count == 0 {
        return None;
    }
    let rects = centred_grid(panel, count, tile_w, tile_h, gap);
    proof {
        assert(rects@ =~= places(panel, count as nat, w, h, g));
        lemma_places_near(panel, count as nat, w, h, g);
    }
    let mut squares: Vec<(T, Rect)> = Vec::new();
    for n in 0..count
        invariant
            up@.len() == count,
            rects@ == places(panel, count as nat, w, h, g),
            squares@ =~= Seq::new(
                n as nat,
                |k: int| (up@[k], menu::square(panel, up@.len(), w, h, g, k)),
            ),
    {
        squares.push((up[n], rects[n]));
    }
    let plate = surround(&rects, gap);
    Some(Overlay { squares, plate })
}

/// The settings, or the question one of them asks, over the middle of the
/// panel.
pub fn settings_surface(asking: bool, panel: Rect, tile_w: i64, tile_h: i64, gap: i64) -> (overlay:
    Option<Overlay<Setting>>)
    requires
        menu::squares_fit(panel, 8, tile_w as int, tile_h as int, gap as int),
    ensures
        is_overlay(
            overlay,
            settings_up(asking),
            panel,
            tile_w as int,
            tile_h as int,
            gap as int,
        ),
{
    if asking {
        self::overlay(CONFIRM_RESET.as_slice(), panel, tile_w, tile_h, gap)
    } else {
        self::overlay(SETTINGS.as_slice(), panel, tile_w, tile_h, gap)
    }
}

/// The options of the box being edited, over the middle of the panel. Kept in
/// place whether or not they can be taken: the squares must not reshuffle as
/// the answer changes.
pub fn options_surface(
    options: &Vec<EditOption>,
    panel: Rect,
    tile_w: i64,
    tile_h: i64,
    gap: i64,
) -> (overlay: Option<Overlay<EditOption>>)
    requires
        menu::squares_fit(panel, options@.len(), tile_w as int, tile_h as int, gap as int),
    ensures
        is_overlay(overlay, options@, panel, tile_w as int, tile_h as int, gap as int),
{
    self::overlay(options.as_slice(), panel, tile_w, tile_h, gap)
}

/// The app's own menu, over the middle of the panel.
pub fn menu_surface(panel: Rect, tile_w: i64, tile_h: i64, gap: i64) -> (overlay: Option<
    Overlay<Command>,
>)
    requires
        menu::squares_fit(panel, 8, tile_w as int, tile_h as int, gap as int),
    ensures
        is_overlay(overlay, COMMANDS@, panel, tile_w as int, tile_h as int, gap as int),
{
    self::overlay(COMMANDS.as_slice(), panel, tile_w, tile_h, gap)
}

/// The plate lies under every one of its squares, with room all round.
pub proof fn the_plate_lies_under_every_square(
    panel: Rect,
    count: nat,
    tile_w: int,
    tile_h: int,
    gap: int,
    n: int,
)
    requires
        menu::squares_fit(panel, count, tile_w, tile_h, gap),
        0 <= n < count,
    ensures
        ({
            let square = menu::square(panel, count, tile_w, tile_h, gap, n);
            let plate = plate_of(panel, count, tile_w, tile_h, gap);
            &&& plate.x + gap <= square.x
            &&& plate.y + gap <= square.y
            &&& square.right() + gap <= plate.right()
            &&& square.bottom() + gap <= plate.bottom()
        }),
{
    let squares = places(panel, count, tile_w, tile_h, gap);
    lemma_places_near(panel, count, tile_w, tile_h, gap);
    lemma_covers(squares, n);
}

proof fn lemma_covers(rects: Seq<Rect>, n: int)
    requires
        stretch::all_near(rects),
        0 <= n < rects.len(),
    ensures
        ({
            let around = stretch::covering(rects);
            &&& around.near_enough()
            &&& around.w >= 0
            &&& around.h >= 0
            &&& around.x <= rects[n].x
            &&& around.y <= rects[n].y
            &&& rects[n].right() <= around.right()
            &&& rects[n].bottom() <= around.bottom()
        }),
    decreases rects.len(),
{
    assert(rects[n].near_enough());
    if rects.len() > 1 {
        let rest = rects.drop_last();
        assert forall|i: int| 0 <= i < rest.len() implies (#[trigger] rest[i]).near_enough()
            && rest[i].w >= 0 && rest[i].h >= 0 by {
            assert(rest[i] == rects[i]);
            assert(rects[i].near_enough());
        }
        assert(rects.last() == rects[rects.len() - 1]);
        assert(rects[rects.len() - 1].near_enough());
        if n < rects.len() - 1 {
            lemma_covers(rest, n);
            assert(rest[n] == rects[n]);
        } else {
            lemma_covers(rest, 0);
        }
    }
}

} // verus!
