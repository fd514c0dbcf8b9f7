//! Settings as squares: every click steps to the next value.
//!
//! Only what a click can say. Anything needing typing stays in the file.

use vstd::prelude::*;
use crate::config;
use crate::config::{BoxView, Change, Config, Contents, BLOCK_MOST, BLOCK_ROWS};
use crate::geometry::PX;
use crate::num;
use crate::text::same;

verus! {

#[derive(Debug, Clone, Copy, PartialEq, Eq, Structural)]
pub enum Setting {
    Tiles,
    Labels,
    Columns,
    /// Which lists the block holds: apps and sites apart, both in one block, or
    /// one of them alone.
    CenterHolds,
    Browser,
    /// The escape hatch: everything this surface does not cover.
    OpenFile,
    /// Layout back to stock. Asks first, on a surface of its own.
    Reset,
    /// The two answers to that question. Their own squares on their own
    /// surface, not a label the Reset square swaps in.
    ResetNo,
    ResetYes,
    Done,
}

/// What Reset opens: two answers in place of the squares. Keeping it comes
/// first, and neither answer stands where Reset did, so a stray second click
/// misses.
pub const CONFIRM_RESET: [Setting; 2] = [Setting::ResetNo, Setting::ResetYes];

/// Two rows of four. Reset sits one square from Done, the two worst to confuse.
pub const SETTINGS: [Setting; 8] = [
    Setting::Tiles,
    Setting::Labels,
    Setting::Columns,
    Setting::Browser,
    Setting::CenterHolds,
    Setting::Reset,
    Setting::OpenFile,
    Setting::Done,
];

/// The most tiles the block may take either way.
pub const CENTER_MOST: usize = BLOCK_MOST;

/// How many tile sizes there are to step through.
pub const SIZES: usize = 4;

/// A tile size: width, height, and the strip the label gets, which grows with
/// the tile. Smallest first.
pub open spec fn size_of_step(i: int) -> (int, int, int) {
    if i == 0 {
        (100 * PX, 76 * PX, 20 * PX)
    } else if i == 1 {
        (140 * PX, 100 * PX, 24 * PX)
    } else if i == 2 {
        (180 * PX, 128 * PX, 28 * PX)
    } else {
        (220 * PX, 156 * PX, 32 * PX)
    }
}

fn size_step(i: usize) -> (size: (i64, i64, i64))
    ensures
        (size.0 as int, size.1 as int, size.2 as int) == size_of_step(i as int),
{
    match i {
        0 => (100 * PX, 76 * PX, 20 * PX),
        1 => (140 * PX, 100 * PX, 24 * PX),
        2 => (180 * PX, 128 * PX, 28 * PX),
        _ => (220 * PX, 156 * PX, 32 * PX),
    }
}

pub open spec fn size_words(i: int) -> Seq<char> {
    if i == 0 {
        "Tiles \u{00B7} small"@
    } else if i == 1 {
        "Tiles \u{00B7} medium"@
    } else if i == 2 {
        "Tiles \u{00B7} large"@
    } else {
        "Tiles \u{00B7} huge"@
    }
}

pub open spec fn apart(a: int, b: int) -> int {
    if a >= b {
        a - b
    } else {
        b - a
    }
}

/// The tile size nearest a width among the first `n`, and the smaller of two as
/// near.
pub open spec fn nearest_size(width: int, n: nat) -> int
    decreases n,
{
    if n <= 1 {
        0
    } else {
        let best = nearest_size(width, (n - 1) as nat);
        if apart(size_of_step(n - 1).0, width) < apart(size_of_step(best).0, width) {
            n - 1
        } else {
            best
        }
    }
}

/// Nearest preset by width. Nearest rather than exact: a size typed into the
/// file sits between two of these, and the square still has to say something.
pub fn tiles_now(config: &Config) -> (index: usize)
    ensures
        index == nearest_size(config.grid.tile_width as int, SIZES as nat),
        index < SIZES,
{
    let width: i128 = config.grid.tile_width as i128;
    let mut best: usize = 0;
    for i in 1..SIZES
        invariant
            best < i,
            width == config.grid.tile_width,
            best == nearest_size(width as int, i as nat),
    {
        let here: i128 = size_step(i).0 as i128;
        let there: i128 = size_step(best).0 as i128;
        let off: i128 = if here >= width {
            here - width
        } else {
            width - here
        };
        let least: i128 = if there >= width {
            there - width
        } else {
            width - there
        };
        if off < least {
            best = i;
        }
    }
    best
}

/// No preset is nearer a width than the one it reads as, and the one it reads
/// as is the first of those as near.
pub proof fn a_size_reads_as_the_nearest_preset(width: int, n: nat, i: int)
    requires
        0 <= i < n <= SIZES,
    ensures
        0 <= nearest_size(width, n) < n,
        apart(size_of_step(nearest_size(width, n)).0, width) <= apart(size_of_step(i).0, width),
        i < nearest_size(width, n) ==> apart(size_of_step(nearest_size(width, n)).0, width)
            < apart(size_of_step(i).0, width),
    decreases n,
{
    if n > 1 {
        if i < n - 1 {
            a_size_reads_as_the_nearest_preset(width, (n - 1) as nat, i);
        } else {
            a_size_reads_as_the_nearest_preset(width, (n - 1) as nat, 0);
        }
    }
}

/// How many column caps there are to step through.
pub const CAPS: usize = 5;

/// A column cap. 0 is no cap beyond what fits the screen.
pub open spec fn cap_of_step(i: int) -> usize {
    if i == 0 {
        5
    } else if i == 1 {
        7
    } else if i == 2 {
        9
    } else if i == 3 {
        12
    } else {
        0
    }
}

fn cap_step(i: usize) -> (cap: usize)
    ensures
        cap == cap_of_step(i as int),
{
    match i {
        0 => 5,
        1 => 7,
        2 => 9,
        3 => 12,
        _ => 0,
    }
}

/// Which cap on the list a count is, if it is one.
pub open spec fn step_of_cap(cap: usize) -> Option<usize> {
    match cap {
        5 => Some(0usize),
        7 => Some(1usize),
        9 => Some(2usize),
        12 => Some(3usize),
        0 => Some(4usize),
        _ => None,
    }
}

pub fn columns_now(config: &Config) -> (index: Option<usize>)
    ensures
        index == step_of_cap(config.grid.max_columns),
{
    for i in 0..CAPS
        invariant
            forall|k: int| 0 <= k < i ==> #[trigger] cap_of_step(k) != config.grid.max_columns,
    {
        if cap_step(i) == config.grid.max_columns {
            return Some(i);
        }
    }
    assert(cap_of_step(0) == 5 && cap_of_step(1) == 7 && cap_of_step(2) == 9 && cap_of_step(3) == 12
        && cap_of_step(4) == 0);
    None
}

pub open spec fn cap_words(step: Option<usize>) -> Seq<char> {
    match step {
        Some(0) => "Columns \u{00B7} 5"@,
        Some(1) => "Columns \u{00B7} 7"@,
        Some(2) => "Columns \u{00B7} 9"@,
        Some(3) => "Columns \u{00B7} 12"@,
        Some(_) => "Columns \u{00B7} as many as fit"@,
        // A width hand-edited to something off the list. Named rather than
        // snapped, so opening this surface never silently moves a setting the
        // user chose deliberately.
        None => "Columns \u{00B7} as set"@,
    }
}

/// Which of the four answers a block's contents are.
pub open spec fn step_of_contents(contents: Contents) -> usize {
    match contents {
        Contents::Split => 0,
        Contents::One => 1,
        Contents::Apps => 2,
        Contents::Sites => 3,
    }
}

pub open spec fn contents_after(contents: Contents) -> Contents {
    match contents {
        Contents::Split => Contents::One,
        Contents::One => Contents::Apps,
        Contents::Apps => Contents::Sites,
        Contents::Sites => Contents::Split,
    }
}

pub fn holds_now(config: &Config) -> (index: usize)
    ensures
        index == step_of_contents(config.center.contents),
{
    match config.center.contents {
        Contents::Split => 0,
        Contents::One => 1,
        Contents::Apps => 2,
        Contents::Sites => 3,
    }
}

fn holds_next(config: &Config) -> (contents: Contents)
    ensures
        contents == contents_after(config.center.contents),
{
    match (holds_now(config) + 1) % 4 {
        0 => Contents::Split,
        1 => Contents::One,
        2 => Contents::Apps,
        _ => Contents::Sites,
    }
}

pub open spec fn contents_words(contents: Contents) -> Seq<char> {
    match contents {
        Contents::Split => "Center holds \u{00B7} apps + sites"@,
        Contents::One => "Center holds \u{00B7} one block"@,
        Contents::Apps => "Center holds \u{00B7} apps only"@,
        Contents::Sites => "Center holds \u{00B7} sites only"@,
    }
}

pub open spec fn contents_short(contents: Contents) -> Seq<char> {
    match contents {
        Contents::Split => "Apps + sites"@,
        Contents::One => "One block"@,
        Contents::Apps => "Apps only"@,
        Contents::Sites => "Sites only"@,
    }
}

impl Setting {
    pub open spec fn mark(self) -> Seq<char> {
        match self {
            Setting::Tiles => "\u{E8A9}"@,
            Setting::Labels => "\u{E8FD}"@,
            Setting::Columns => "\u{E9A6}"@,
            Setting::Browser => "\u{E774}"@,
            Setting::CenterHolds => "\u{E745}"@,
            Setting::OpenFile => "\u{E8E5}"@,
            Setting::Reset => "\u{E7A7}"@,
            Setting::ResetYes => "\u{E7A7}"@,
            Setting::ResetNo => "\u{E711}"@,
            Setting::Done => "\u{E73E}"@,
        }
    }

    /// The mark on the square. Static: the value is said in words underneath.
    ///
    /// Icon font, never the UI face - almost none of these exist in it.
    pub fn glyph(self) -> (glyph: &'static str)
        ensures
            glyph@ == self.mark(),
    {
        match self {
            // Few big cells against many small ones: the two shape settings,
            // side by side and telling each other apart.
            Setting::Tiles => "\u{E8A9}",
            Setting::Labels => "\u{E8FD}",
            Setting::Columns => "\u{E9A6}",
            Setting::Browser => "\u{E774}",
            // A box split across the middle: the block, and the two lists in it.
            Setting::CenterHolds => "\u{E745}",
            Setting::OpenFile => "\u{E8E5}",
            // Undo, not refresh. Anticlockwise is back to where this started.
            Setting::Reset => "\u{E7A7}",
            Setting::ResetYes => "\u{E7A7}",
            Setting::ResetNo => "\u{E711}",
            Setting::Done => "\u{E73E}",
        }
    }

    /// The setting and the value it is on.
    pub open spec fn words(self, config: Config) -> Seq<char> {
        match self {
            Setting::Tiles => size_words(
                nearest_size(config.grid.tile_width as int, SIZES as nat),
            ),
            Setting::Labels => if config.grid.show_detail {
                "Labels \u{00B7} name + detail"@
            } else {
                "Labels \u{00B7} name only"@
            },
            Setting::Columns => cap_words(step_of_cap(config.grid.max_columns)),
            Setting::CenterHolds => contents_words(config.center.contents),
            Setting::Browser => if config.browser.enabled {
                "Browser \u{00B7} on"@
            } else {
                "Browser \u{00B7} off"@
            },
            Setting::OpenFile => "Open the file"@,
            Setting::Reset => "Reset layout"@,
            Setting::ResetYes => "Reset the layout"@,
            Setting::ResetNo => "Keep my layout"@,
            Setting::Done => "Done"@,
        }
    }

    /// The setting and the value it is on now, in one line.
    ///
    /// A gaze pointer settles long enough to read a line, and the value has to
    /// be on the square itself: there is nowhere else to show it.
    pub fn label(self, config: &Config) -> (label: &'static str)
        ensures
            label@ == self.words(*config),
    {
        match self {
            Setting::Tiles => match tiles_now(config) {
                0 => "Tiles \u{00B7} small",
                1 => "Tiles \u{00B7} medium",
                2 => "Tiles \u{00B7} large",
                _ => "Tiles \u{00B7} huge",
            },
            Setting::Labels => if config.grid.show_detail {
                "Labels \u{00B7} name + detail"
            } else {
                "Labels \u{00B7} name only"
            },
            Setting::Columns => match columns_now(config) {
                Some(0) => "Columns \u{00B7} 5",
                Some(1) => "Columns \u{00B7} 7",
                Some(2) => "Columns \u{00B7} 9",
                Some(3) => "Columns \u{00B7} 12",
                Some(_) => "Columns \u{00B7} as many as fit",
                None => "Columns \u{00B7} as set",
            },
            Setting::CenterHolds => match holds_now(config) {
                0 => "Center holds \u{00B7} apps + sites",
                1 => "Center holds \u{00B7} one block",
                2 => "Center holds \u{00B7} apps only",
                _ => "Center holds \u{00B7} sites only",
            },
            Setting::Browser => if config.browser.enabled {
                "Browser \u{00B7} on"
            } else {
                "Browser \u{00B7} off"
            },
            Setting::OpenFile => "Open the file",
            Setting::Reset => "Reset layout",
            Setting::ResetYes => "Reset the layout",
            Setting::ResetNo => "Keep my layout",
            Setting::Done => "Done",
        }
    }

    /// What one click writes.
    pub open spec fn writes(self, config: Config) -> Option<Change> {
        match self {
            Setting::Tiles => {
                let now = nearest_size(config.grid.tile_width as int, SIZES as nat);
                let size = size_of_step((now + 1) % (SIZES as int));
                Some(
                    Change::Tiles {
                        width: size.0 as i64,
                        height: size.1 as i64,
                        label: size.2 as i64,
                    },
                )
            },
            Setting::Labels => Some(Change::ShowDetail(!config.grid.show_detail)),
            Setting::Columns => Some(
                Change::MaxColumns(
                    match step_of_cap(config.grid.max_columns) {
                        Some(step) => cap_of_step((step + 1) % (CAPS as int)),
                        // Off the list starts at the top of it, rather than
                        // guessing which neighbour the user meant.
                        None => cap_of_step(0),
                    },
                ),
            ),
            Setting::CenterHolds => Some(
                Change::CenterContents(contents_after(config.center.contents)),
            ),
            Setting::Browser => Some(Change::Browser(!config.browser.enabled)),
            _ => None,
        }
    }

    /// What one click writes. `None` for the squares that are not values.
    pub fn next(self, config: &Config) -> (change: Option<Change>)
        ensures
            change == self.writes(*config),
    {
        match self {
            Setting::Tiles => {
                let (width, height, label) = size_step((tiles_now(config) + 1) % SIZES);
                Some(Change::Tiles { width, height, label })
            },
            Setting::Labels => Some(Change::ShowDetail(!config.grid.show_detail)),
            Setting::Columns => {
                let index: usize = match columns_now(config) {
                    Some(index) => (index + 1) % CAPS,
                    None => 0,
                };
                Some(Change::MaxColumns(cap_step(index)))
            },
            Setting::CenterHolds => Some(Change::CenterContents(holds_next(config))),
            Setting::Browser => Some(Change::Browser(!config.browser.enabled)),
            Setting::OpenFile | Setting::Reset | Setting::Done => None,
            Setting::ResetNo | Setting::ResetYes => None,
        }
    }

    /// Whether this square does anything where the config stands.
    pub open spec fn applies_to(self, config: Config) -> bool {
        match self {
            Setting::CenterHolds => config.center.on(),
            Setting::Reset => !is_stock(config),
            _ => true,
        }
    }

    /// Whether this square does anything where the config currently stands.
    ///
    /// Greyed rather than removed: the squares must never reshuffle under the
    /// pointer.
    pub fn applies(self, config: &Config) -> (yes: bool)
        ensures
            yes == self.applies_to(*config),
    {
        match self {
            // Nothing to fill when there is no block.
            Setting::CenterHolds => config.center.on(),
            // Nothing to put back when nothing has been moved.
            Setting::Reset => !layout_is_stock(config),
            _ => true,
        }
    }
}

/// Whether some boxes are the stock ones, followed by any others that do not
/// answer to a stock title.
pub open spec fn stock_first(mine: Seq<BoxView>, stock: Seq<BoxView>) -> bool {
    &&& mine.len() >= stock.len()
    &&& mine.take(stock.len() as int) == stock
    &&& forall|i: int, j: int|
        stock.len() <= i < mine.len() && 0 <= j < stock.len() ==> (#[trigger] mine[i]).title != (
        #[trigger] stock[j]).title
}

/// Whether a config's layout is the stock one. What a box holds is not
/// compared, and neither is a box the user wrote - a reset keeps both.
pub open spec fn is_stock(config: Config) -> bool {
    &&& config.grid == config::stock_grid()
    &&& config.center.rows == config::stock_center().rows
    &&& config.center.columns == config::stock_center().columns
    &&& config.center.contents == config::stock_center().contents
    &&& stock_first(config::box_views(config.sections@), config::stock_boxes())
}

/// One box, as the layout sees it: what it is called, and where it goes.
pub struct Placed<'a> {
    pub title: &'a str,
    pub side: Option<&'a str>,
    pub columns: usize,
    pub max_items: usize,
}

impl<'a> View for Placed<'a> {
    type V = BoxView;

    open spec fn view(&self) -> BoxView {
        BoxView {
            title: self.title@,
            side: match self.side {
                Some(side) => Some(side@),
                None => None,
            },
            columns: self.columns,
            max_items: self.max_items,
        }
    }
}

impl<'a> Placed<'a> {
    /// Whether two boxes are called the same and go to the same place.
    pub fn matches(&self, other: &Placed<'_>) -> (yes: bool)
        ensures
            yes == (self@ == other@),
    {
        let sides = match (self.side, other.side) {
            (Some(mine), Some(theirs)) => same(mine, theirs),
            (None, None) => true,
            _ => false,
        };
        let yes = same(self.title, other.title) && sides && self.columns == other.columns
            && self.max_items == other.max_items;
        assert(yes == (self@ =~= other@));
        yes
    }
}

/// A run of boxes, each as a value.
pub open spec fn placed_views(placed: Seq<Placed<'_>>) -> Seq<BoxView> {
    placed.map_values(|placed: Placed<'_>| placed@)
}

/// Every box, in file order - which is the order down a lane, so the list
/// itself is part of the layout.
pub fn boxes(config: &Config) -> (placed: Vec<Placed<'_>>)
    ensures
        placed_views(placed@) == config::box_views(config.sections@),
{
    let mut placed: Vec<Placed<'_>> = Vec::new();
    for i in 0..config.sections.len()
        invariant
            placed_views(placed@) =~= config::box_views(config.sections@).take(i as int),
    {
        let section = &config.sections[i];
        let side: Option<&str> = match &section.side {
            Some(side) => Some(side.as_str()),
            None => None,
        };
        let one = Placed {
            title: section.title.as_str(),
            side,
            columns: section.columns,
            max_items: section.max_items,
        };
        assert(one@ =~= section@);
        let ghost before = placed_views(placed@);
        placed.push(one);
        assert(placed_views(placed@) =~= before.push(section@));
        assert(config::box_views(config.sections@)[i as int] == section@);
    }
    placed
}

/// Whether resetting would change anything: exactly what a reset writes, and
/// nothing else.
pub fn layout_is_stock(config: &Config) -> (yes: bool)
    ensures
        yes == is_stock(*config),
{
    let stock = Config::default();
    if config.grid != stock.grid || config.center.rows != stock.center.rows || config.center.columns
        != stock.center.columns || config.center.contents != stock.center.contents {
        return false;
    }
    let (mine, theirs) = (boxes(config), boxes(&stock));
    let ghost have = config::box_views(config.sections@);
    let ghost want = config::stock_boxes();
    let known: usize = theirs.len();
    if mine.len() < known {
        return false;
    }
    for i in 0..known
        invariant
            known == theirs@.len(),
            known <= mine@.len(),
            have == config::box_views(config.sections@),
            want == config::stock_boxes(),
            placed_views(mine@) == have,
            placed_views(theirs@) == want,
            forall|k: int| 0 <= k < i ==> #[trigger] have[k] == want[k],
    {
        assert(have[i as int] == mine@[i as int]@);
        assert(want[i as int] == theirs@[i as int]@);
        if !mine[i].matches(&theirs[i]) {
            assert(have.take(known as int)[i as int] != want[i as int]);
            return false;
        }
    }
    assert(have.take(known as int) =~= want);
    // The stock boxes first, exactly. Then anything else, which a reset leaves
    // where it is - unless it answers to a stock title, which a reset would
    // fold into the stock box of that name.
    for i in known..mine.len()
        invariant
            known == theirs@.len(),
            known <= mine@.len(),
            have == config::box_views(config.sections@),
            want == config::stock_boxes(),
            placed_views(mine@) == have,
            placed_views(theirs@) == want,
            forall|k: int, j: int|
                known <= k < i && 0 <= j < known ==> (#[trigger] have[k]).title != (
                #[trigger] want[j]).title,
    {
        assert(have[i as int] == mine@[i as int]@);
        for j in 0..known
            invariant
                known == theirs@.len(),
                known <= i < mine@.len(),
                have[i as int] == mine@[i as int]@,
                have == config::box_views(config.sections@),
                want == config::stock_boxes(),
                placed_views(mine@) == have,
                placed_views(theirs@) == want,
                forall|k: int|
                    0 <= k < j ==> have[i as int].title != (#[trigger] want[k]).title,
        {
            assert(want[j as int] == theirs@[j as int]@);
            if same(mine[i].title, theirs[j].title) {
                assert(have[i as int].title == want[j as int].title);
                return false;
            }
        }
    }
    true
}

/// One direction of the block's shape, stepped and kept to what a block may be.
pub open spec fn stepped(now: usize, by: isize) -> Option<int> {
    if 1 <= now + by <= CENTER_MOST {
        Some(now + by)
    } else {
        None
    }
}

/// What resizing the block writes.
pub open spec fn resized(config: Config, across: isize, down: isize) -> Option<Change> {
    let now = config.center;
    match (stepped(now.columns, across), stepped(now.rows, down)) {
        (Some(columns), Some(rows)) => if columns != now.columns || rows != now.rows {
            Some(Change::CenterSize { columns: columns as usize, rows: rows as usize })
        } else {
            None
        },
        _ => None,
    }
}

fn step_by(now: usize, by: isize) -> (next: Option<usize>)
    ensures
        match (next, stepped(now, by)) {
            (Some(n), Some(m)) => n == m,
            (None, None) => true,
            _ => false,
        },
{
    match now.checked_add_signed(by) {
        Some(n) => if 1 <= n && n <= CENTER_MOST {
            Some(n)
        } else {
            None
        },
        None => None,
    }
}

/// Step the block's shape one tile in one direction.
///
/// The two directions apart, because a block is a shape: three columns with one
/// row of them is a real answer. Clamped rather than wrapped - a Wider that came
/// back round to one column is a button that undoes itself.
pub fn center_resize(config: &Config, across: isize, down: isize) -> (change: Option<Change>)
    ensures
        change == resized(*config, across, down),
{
    let f = &config.center;
    match (step_by(f.columns, across), step_by(f.rows, down)) {
        (Some(columns), Some(rows)) => if columns != f.columns || rows != f.rows {
            Some(Change::CenterSize { columns, rows })
        } else {
            None
        },
        _ => None,
    }
}

/// What switching the block writes.
pub open spec fn toggled(config: Config) -> Change {
    let now = config.center;
    if now.on() {
        Change::CenterSize { columns: now.columns, rows: 0 }
    } else {
        Change::CenterSize {
            columns: num::between(now.columns as int, 1, CENTER_MOST as int) as usize,
            rows: if now.kept_rows > 0 {
                num::smaller(now.kept_rows as int, CENTER_MOST as int) as usize
            } else {
                BLOCK_ROWS
            },
        }
    }
}

/// Switch the block off, or back on at the shape it last had.
///
/// Off is no rows. The columns are left alone and the rows kept in mind, so
/// turning it back on gives back the block that was there rather than a default
/// one. Only a block nobody knows the rows of gets the usual ones.
pub fn center_toggle(config: &Config) -> (change: Change)
    ensures
        change == toggled(*config),
{
    let f = &config.center;
    if f.on() {
        Change::CenterSize { columns: f.columns, rows: 0 }
    } else {
        Change::CenterSize {
            columns: if f.columns < 1 {
                1
            } else if f.columns > CENTER_MOST {
                CENTER_MOST
            } else {
                f.columns
            },
            rows: if f.kept_rows == 0 {
                BLOCK_ROWS
            } else if f.kept_rows > CENTER_MOST {
                CENTER_MOST
            } else {
                f.kept_rows
            },
        }
    }
}

/// Step what the block holds, wrapping. Four answers to one question.
pub fn center_holds_next(config: &Config) -> (change: Change)
    ensures
        change == Change::CenterContents(contents_after(config.center.contents)),
{
    Change::CenterContents(holds_next(config))
}

/// What the block is holding, said short. The block is right beside the square
/// that says it, so it does not need to name itself again.
pub fn center_holds_said(config: &Config) -> (said: &'static str)
    ensures
        said@ == contents_short(config.center.contents),
{
    match holds_now(config) {
        0 => "Apps + sites",
        1 => "One block",
        2 => "Apps only",
        _ => "Sites only",
    }
}

/// A config with one thing written to it.
pub open spec fn written(config: Config, change: Change) -> Config {
    match change {
        Change::Tiles { width, height, label } => Config {
            grid: config::GridConfig {
                tile_width: width,
                tile_height: height,
                label_height: label,
                ..config.grid
            },
            ..config
        },
        Change::ShowDetail(on) => Config {
            grid: config::GridConfig { show_detail: on, ..config.grid },
            ..config
        },
        Change::MaxColumns(cap) => Config {
            grid: config::GridConfig { max_columns: cap, ..config.grid },
            ..config
        },
        Change::CenterContents(contents) => Config {
            center: config::Center { contents, ..config.center },
            ..config
        },
        Change::CenterSize { columns, rows } => Config {
            center: config.center.sized(columns, rows),
            ..config
        },
        Change::Browser(on) => Config { browser: config::Browser { enabled: on }, ..config },
    }
}

/// A config after a square has been clicked some number of times.
pub open spec fn clicked(setting: Setting, config: Config, times: nat) -> Config
    decreases times,
{
    if times == 0 {
        config
    } else {
        let before = clicked(setting, config, (times - 1) as nat);
        match setting.writes(before) {
            Some(change) => written(before, change),
            None => before,
        }
    }
}

proof fn lemma_click(setting: Setting, config: Config, times: nat)
    requires
        times > 0,
    ensures
        clicked(setting, config, times) == (match setting.writes(
            clicked(setting, config, (times - 1) as nat),
        ) {
            Some(change) => written(clicked(setting, config, (times - 1) as nat), change),
            None => clicked(setting, config, (times - 1) as nat),
        }),
        clicked(setting, config, 0) == config,
{
}

proof fn lemma_preset(i: int)
    requires
        0 <= i < SIZES,
    ensures
        nearest_size(size_of_step(i).0, SIZES as nat) == i,
{
    reveal_with_fuel(nearest_size, 5);
}

/// The two toggles come round in two clicks, and what the block holds in four.
pub proof fn clicking_a_toggle_comes_round(config: Config)
    ensures
        clicked(Setting::Labels, config, 2).grid == config.grid,
        clicked(Setting::Browser, config, 2).browser == config.browser,
        clicked(Setting::CenterHolds, config, 4).center == config.center,
{
    lemma_click(Setting::Labels, config, 1);
    lemma_click(Setting::Labels, config, 2);
    lemma_click(Setting::Browser, config, 1);
    lemma_click(Setting::Browser, config, 2);
    lemma_click(Setting::CenterHolds, config, 1);
    lemma_click(Setting::CenterHolds, config, 2);
    lemma_click(Setting::CenterHolds, config, 3);
    lemma_click(Setting::CenterHolds, config, 4);
}

/// The tile sizes come round in four clicks from any preset, stepping up to the
/// largest and wrapping from it.
pub proof fn clicking_tiles_comes_round(config: Config, i: int)
    requires
        0 <= i < SIZES,
        config.grid.tile_width == size_of_step(i).0,
    ensures
        clicked(Setting::Tiles, config, 1).grid.tile_width == size_of_step((i + 1) % 4).0,
        clicked(Setting::Tiles, config, 4).grid.tile_width == config.grid.tile_width,
{
    lemma_click(Setting::Tiles, config, 1);
    lemma_preset(i);
    lemma_click(Setting::Tiles, config, 2);
    lemma_preset((i + 1) % 4);
    lemma_click(Setting::Tiles, config, 3);
    lemma_preset((i + 2) % 4);
    lemma_click(Setting::Tiles, config, 4);
    lemma_preset((i + 3) % 4);
    assert(clicked(Setting::Tiles, config, 1).grid.tile_width == size_of_step((i + 1) % 4).0);
    assert(clicked(Setting::Tiles, config, 2).grid.tile_width == size_of_step((i + 2) % 4).0);
    assert(clicked(Setting::Tiles, config, 3).grid.tile_width == size_of_step((i + 3) % 4).0);
    assert(clicked(Setting::Tiles, config, 4).grid.tile_width == size_of_step((i + 4) % 4).0);
}

/// The column caps come round in five clicks from any on the list.
pub proof fn clicking_columns_comes_round(config: Config)
    requires
        step_of_cap(config.grid.max_columns) is Some,
    ensures
        clicked(Setting::Columns, config, 5).grid == config.grid,
{
    lemma_click(Setting::Columns, config, 1);
    lemma_click(Setting::Columns, config, 2);
    lemma_click(Setting::Columns, config, 3);
    lemma_click(Setting::Columns, config, 4);
    lemma_click(Setting::Columns, config, 5);
}

/// A block switched off and on again comes back at the shape it had, where that
/// was one a block may have.
pub proof fn a_block_comes_back_at_the_shape_it_had(config: Config)
    requires
        1 <= config.center.columns <= CENTER_MOST,
        1 <= config.center.rows <= CENTER_MOST,
    ensures
        config.center.on(),
        ({
            let off = written(config, toggled(config));
            let on = written(off, toggled(off));
            &&& !off.center.on()
            &&& toggled(off) == Change::CenterSize {
                columns: config.center.columns,
                rows: config.center.rows,
            }
            &&& on.center.columns == config.center.columns
            &&& on.center.rows == config.center.rows
            &&& on.center.contents == config.center.contents
        }),
{
}

/// A block that was written to and read back from a file, which has no word for
/// the rows it had, is the block that was written.
pub proof fn reading_the_block_back_loses_nothing(config: Config, change: Change)
    ensures
        ({
            let after = written(config, change).center;
            let read = config::Center { kept_rows: 0, ..after };
            read.read_after(config.center) == after
        }),
{
}

/// A block made wider is made narrower again by one click, and the same for
/// taller and shorter.
pub proof fn a_resize_is_undone_by_its_opposite(config: Config, across: isize, down: isize)
    requires
        resized(config, across, down) is Some,
        1 <= config.center.columns <= CENTER_MOST,
        1 <= config.center.rows <= CENTER_MOST,
        isize::MIN < across,
        isize::MIN < down,
    ensures
        ({
            let moved = written(config, resized(config, across, down)->0);
            let back = resized(moved, (-across) as isize, (-down) as isize);
            &&& back is Some
            &&& written(moved, back->0).center == config.center
        }),
{
}

} // verus!
