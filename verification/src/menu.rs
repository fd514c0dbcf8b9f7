//! Big squares in the middle of the panel: the options, and the app's own menu.

use vstd::prelude::*;
use crate::control::{Control, CONTROLS};
use crate::geometry;
use crate::geometry::{Rect, CELLS, REACH};
use crate::model::Mode;
use crate::num;
use crate::num::div_up;
use crate::stretch;
use crate::stretch::FAR;

verus! {

/// What the app's own button opens: everything the right-click menu has, as
/// squares big enough to aim at.
#[derive(Debug, Clone, Copy, PartialEq, Eq, Structural)]
pub enum Command {
    EditLayout,
    /// Fill and empty the centre block.
    Favorites,
    /// Clicking closes things instead of switching to them.
    CloseApps,
    AddApp,
    AddFolder,
    AddFile,
    Settings,
    Close,
}

/// Two full rows of four. The three modes lead, because they are what this menu
/// is mostly for.
pub const COMMANDS: [Command; 8] = [
    Command::EditLayout,
    Command::Favorites,
    Command::CloseApps,
    Command::Settings,
    Command::AddApp,
    Command::AddFolder,
    Command::AddFile,
    Command::Close,
];

impl Command {
    pub open spec fn mark(self) -> Seq<char> {
        match self {
            Command::EditLayout => "\u{25A6}"@,
            Command::Favorites => "\u{2605}"@,
            Command::CloseApps => "\u{2297}"@,
            Command::AddApp => "+"@,
            Command::AddFolder => "\u{1F5C0}"@,
            Command::AddFile => "\u{1F5CE}"@,
            Command::Settings => "\u{2699}"@,
            Command::Close => "\u{2715}"@,
        }
    }

    pub fn glyph(self) -> (glyph: &'static str)
        ensures
            glyph@ == self.mark(),
    {
        match self {
            Command::EditLayout => "\u{25A6}",
            // A star, in its text presentation. Every mark on these squares is a
            // line drawing from the UI font.
            Command::Favorites => "\u{2605}",
            // A crossed circle, not the plain cross: the plain one already means
            // "close this menu" two squares along.
            Command::CloseApps => "\u{2297}",
            Command::AddApp => "+",
            Command::AddFolder => "\u{1F5C0}",
            Command::AddFile => "\u{1F5CE}",
            Command::Settings => "\u{2699}",
            Command::Close => "\u{2715}",
        }
    }

    pub open spec fn name(self) -> Seq<char> {
        match self {
            Command::EditLayout => "Edit layout"@,
            Command::Favorites => "Favorites"@,
            Command::CloseApps => "Close apps"@,
            Command::AddApp => "Add app"@,
            Command::AddFolder => "Add folder"@,
            Command::AddFile => "Add file"@,
            Command::Settings => "Settings"@,
            Command::Close => "Close menu"@,
        }
    }

    pub fn label(self) -> (label: &'static str)
        ensures
            label@ == self.name(),
    {
        match self {
            Command::EditLayout => "Edit layout",
            Command::Favorites => "Favorites",
            Command::CloseApps => "Close apps",
            Command::AddApp => "Add app",
            Command::AddFolder => "Add folder",
            Command::AddFile => "Add file",
            Command::Settings => "Settings",
            Command::Close => "Close menu",
        }
    }

    pub open spec fn spec_mode(self) -> Option<Mode> {
        match self {
            Command::EditLayout => Some(Mode::Layout),
            Command::Favorites => Some(Mode::Favorites),
            Command::CloseApps => Some(Mode::Close),
            _ => None,
        }
    }

    /// The mode this square turns on, if it turns one on.
    #[verifier::when_used_as_spec(spec_mode)]
    pub fn mode(self) -> (mode: Option<Mode>)
        ensures
            mode == self.spec_mode(),
    {
        match self {
            Command::EditLayout => Some(Mode::Layout),
            Command::Favorites => Some(Mode::Favorites),
            Command::CloseApps => Some(Mode::Close),
            Command::AddApp
            | Command::AddFolder
            | Command::AddFile
            | Command::Settings
            | Command::Close => None,
        }
    }
}

/// How many big squares sit in one row.
pub const MENU_COLS: usize = 4;

/// How long a run of squares is.
pub open spec fn run_of(n: int, tile: int, gap: int) -> int {
    n * tile + (n - 1) * gap
}

/// How far in a run of squares starts to sit in the middle, and never outside
/// the panel.
pub open spec fn margin(panel: int, total: int) -> int {
    num::larger((panel - total) / 2, 0)
}

/// The `n`th of some squares centred in a panel, four to a row.
pub open spec fn square(
    panel: Rect,
    count: nat,
    tile_w: int,
    tile_h: int,
    gap: int,
    n: int,
) -> Rect {
    let across = num::smaller(count as int, MENU_COLS as int);
    let rows = num::over(count, MENU_COLS as nat) as int;
    let left = margin(panel.w as int, run_of(across, tile_w, gap));
    let top = margin(panel.h as int, run_of(rows, tile_h, gap));
    Rect {
        x: (left + (n % MENU_COLS as int) * (tile_w + gap)) as i64,
        y: (top + (n / MENU_COLS as int) * (tile_h + gap)) as i64,
        w: tile_w as i64,
        h: tile_h as i64,
    }
}

/// Whether some squares can be measured.
pub open spec fn squares_fit(panel: Rect, count: nat, tile_w: int, tile_h: int, gap: int) -> bool {
    &&& 0 <= panel.w <= FAR
    &&& 0 <= panel.h <= FAR
    &&& 0 < tile_w <= REACH
    &&& 0 < tile_h <= REACH
    &&& 0 <= gap <= REACH
    &&& count <= CELLS
}

/// Whether some squares can be measured.
pub fn measured(panel: &Rect, count: usize, tile_w: i64, tile_h: i64, gap: i64) -> (fits: bool)
    ensures
        fits == squares_fit(*panel, count as nat, tile_w as int, tile_h as int, gap as int),
{
    0 <= panel.w && panel.w <= FAR && 0 <= panel.h && panel.h <= FAR && 0 < tile_w && tile_w
        <= REACH && 0 < tile_h && tile_h <= REACH && 0 <= gap && gap <= REACH && count <= CELLS
}

fn start_of(panel: i64, n: usize, tile: i64, gap: i64) -> (start: i64)
    requires
        0 <= panel <= FAR,
        1 <= n <= CELLS,
        0 < tile <= REACH,
        0 <= gap <= REACH,
    ensures
        start == margin(panel as int, run_of(n as int, tile as int, gap as int)),
        0 <= start <= FAR,
{
    proof {
        geometry::lemma_span(n as int, tile as int, gap as int);
    }
    let total: i64 = n as i64 * tile + (n as i64 - 1) * gap;
    if panel > total {
        (panel - total) / 2
    } else {
        0
    }
}

/// A grid of big squares, centred in the panel.
///
/// Centred and tile-sized on purpose: this is pointed at, sometimes by gaze,
/// and the middle of the screen is the cheapest place to reach. Panel-local,
/// and not in content space: menus are overlays and must not scroll away from
/// under the pointer.
pub fn centred_grid(panel: Rect, count: usize, tile_w: i64, tile_h: i64, gap: i64) -> (squares: Vec<
    Rect,
>)
    requires
        squares_fit(panel, count as nat, tile_w as int, tile_h as int, gap as int),
    ensures
        squares@ == Seq::new(
            count as nat,
            |n: int| square(panel, count as nat, tile_w as int, tile_h as int, gap as int, n),
        ),
{
    let mut squares: Vec<Rect> = Vec::new();
    if count == 0 {
        return squares;
    }
    let across: usize = if count < MENU_COLS {
        count
    } else {
        MENU_COLS
    };
    let rows = div_up(count, MENU_COLS);
    let left = start_of(panel.w, across, tile_w, gap);
    let top = start_of(panel.h, rows, tile_h, gap);
    for n in 0..count
        invariant
            squares_fit(panel, count as nat, tile_w as int, tile_h as int, gap as int),
            0 <= left <= FAR,
            0 <= top <= FAR,
            left == margin(
                panel.w as int,
                run_of(num::smaller(count as int, MENU_COLS as int), tile_w as int, gap as int),
            ),
            top == margin(
                panel.h as int,
                run_of(
                    num::over(count as nat, MENU_COLS as nat) as int,
                    tile_h as int,
                    gap as int,
                ),
            ),
            squares@ =~= Seq::new(
                n as nat,
                |k: int| square(panel, count as nat, tile_w as int, tile_h as int, gap as int, k),
            ),
    {
        proof {
            geometry::lemma_cells(n as int % 4, tile_w + gap);
            geometry::lemma_cells(n as int / 4, tile_h + gap);
        }
        squares.push(
            Rect {
                x: left + (n % MENU_COLS) as i64 * (tile_w + gap),
                y: top + (n / MENU_COLS) as i64 * (tile_h + gap),
                w: tile_w,
                h: tile_h,
            },
        );
    }
    squares
}

/// The option tiles for the box being edited.
pub fn controls(panel: Rect, tile_w: i64, tile_h: i64, gap: i64) -> (placed: Vec<(Control, Rect)>)
    requires
        squares_fit(panel, 11, tile_w as int, tile_h as int, gap as int),
    ensures
        placed@ == Seq::new(
            11,
            |n: int|
                (CONTROLS@[n], square(panel, 11, tile_w as int, tile_h as int, gap as int, n)),
        ),
{
    let squares = centred_grid(panel, 11, tile_w, tile_h, gap);
    let mut placed: Vec<(Control, Rect)> = Vec::new();
    for n in 0..11
        invariant
            squares@ == Seq::new(
                11,
                |k: int| square(panel, 11, tile_w as int, tile_h as int, gap as int, k),
            ),
            placed@ =~= Seq::new(
                n as nat,
                |k: int|
                    (CONTROLS@[k], square(panel, 11, tile_w as int, tile_h as int, gap as int, k)),
            ),
    {
        placed.push((CONTROLS[n], squares[n]));
    }
    placed
}

/// The squares of the app's own menu.
pub fn commands(panel: Rect, tile_w: i64, tile_h: i64, gap: i64) -> (placed: Vec<(Command, Rect)>)
    requires
        squares_fit(panel, 8, tile_w as int, tile_h as int, gap as int),
    ensures
        placed@ == Seq::new(
            8,
            |n: int| (COMMANDS@[n], square(panel, 8, tile_w as int, tile_h as int, gap as int, n)),
        ),
{
    let squares = centred_grid(panel, 8, tile_w, tile_h, gap);
    let mut placed: Vec<(Command, Rect)> = Vec::new();
    for n in 0..8
        invariant
            squares@ == Seq::new(
                8,
                |k: int| square(panel, 8, tile_w as int, tile_h as int, gap as int, k),
            ),
            placed@ =~= Seq::new(
                n as nat,
                |k: int|
                    (COMMANDS@[k], square(panel, 8, tile_w as int, tile_h as int, gap as int, k)),
            ),
    {
        placed.push((COMMANDS[n], squares[n]));
    }
    placed
}

/// A rectangle with room round it.
pub open spec fn padded(rect: Rect, margin: int) -> Rect {
    Rect {
        x: (rect.x - margin) as i64,
        y: (rect.y - margin) as i64,
        w: (rect.w + 2 * margin) as i64,
        h: (rect.h + 2 * margin) as i64,
    }
}

/// The rectangle around a set of squares, plus a margin. The plate they sit on
/// has to be derived from them, not guessed, or the two drift apart.
pub fn surround(placed: &Vec<Rect>, margin: i64) -> (plate: Rect)
    requires
        placed.len() > 0,
        stretch::all_near(placed@),
        0 <= margin <= REACH,
    ensures
        plate == padded(stretch::covering(placed@), margin as int),
{
    let around = stretch::cover(placed, 0, placed.len());
    assert(placed@.subrange(0, placed@.len() as int) =~= placed@);
    Rect {
        x: around.x - margin,
        y: around.y - margin,
        w: around.w + 2 * margin,
        h: around.h + 2 * margin,
    }
}

/// No two of the squares overlap, and none starts off the panel.
pub proof fn squares_stay_apart(
    panel: Rect,
    count: nat,
    tile_w: int,
    tile_h: int,
    gap: int,
    i: int,
    j: int,
)
    requires
        squares_fit(panel, count, tile_w, tile_h, gap),
        0 <= i < j < count,
    ensures
        !square(panel, count, tile_w, tile_h, gap, i).meets(
            square(panel, count, tile_w, tile_h, gap, j),
        ),
        square(panel, count, tile_w, tile_h, gap, i).x >= 0,
        square(panel, count, tile_w, tile_h, gap, i).y >= 0,
{
    let (a, b) = (
        square(panel, count, tile_w, tile_h, gap, i),
        square(panel, count, tile_w, tile_h, gap, j),
    );
    let (step_x, step_y) = (tile_w + gap, tile_h + gap);
    let across = num::smaller(count as int, 4);
    let rows = num::over(count, 4) as int;
    geometry::lemma_span(across, tile_w, gap);
    geometry::lemma_span(rows, tile_h, gap);
    geometry::lemma_cells(i % 4, step_x);
    geometry::lemma_cells(j % 4, step_x);
    geometry::lemma_cells(i / 4, step_y);
    geometry::lemma_cells(j / 4, step_y);
    if i / 4 == j / 4 {
        let (p, q) = (i % 4, j % 4);
        assert(p + 1 <= q);
        assert((p + 1) * step_x <= q * step_x) by (nonlinear_arith)
            requires
                p + 1 <= q,
                step_x >= 0,
        ;
        assert((p + 1) * step_x == p * step_x + step_x) by (nonlinear_arith);
    } else {
        let (p, q) = (i / 4, j / 4);
        assert(p + 1 <= q);
        assert((p + 1) * step_y <= q * step_y) by (nonlinear_arith)
            requires
                p + 1 <= q,
                step_y >= 0,
        ;
        assert((p + 1) * step_y == p * step_y + step_y) by (nonlinear_arith);
    }
}

} // verus!
