//! What is on screen to be pointed at.

use vstd::prelude::*;
use crate::board;
use crate::board::{Board, Drawn};
use crate::config::Config;
use crate::geometry::Rect;
use crate::layout::{Band, Layout};
use crate::menu::Command;
use crate::query;
use crate::session::{Lane, State};
use crate::settings::Setting;

verus! {

/// One option offered for the box being edited, on a panel that puts its boxes
/// in lanes.
#[derive(Debug, Clone, Copy, PartialEq, Eq, Structural)]
pub enum EditOption {
    Left,
    Right,
    FullWidth,
    /// Earlier or later in the list.
    MoveUp,
    MoveDown,
    Fewer,
    More,
    /// The shape of the centre block.
    CenterNarrower,
    CenterWider,
    CenterShorter,
    CenterTaller,
    /// Which lists the block holds.
    CenterHolds,
    CenterOn,
    Done,
}

impl EditOption {
    /// The lane an option puts a box in, if it is one of those.
    pub open spec fn put_in(self) -> Option<Lane> {
        match self {
            EditOption::Left => Some(Lane::Left),
            EditOption::Right => Some(Lane::Right),
            EditOption::FullWidth => Some(Lane::Full),
            _ => None,
        }
    }

    pub fn lane(self) -> (lane: Option<Lane>)
        ensures
            lane == self.put_in(),
    {
        match self {
            EditOption::Left => Some(Lane::Left),
            EditOption::Right => Some(Lane::Right),
            EditOption::FullWidth => Some(Lane::Full),
            _ => None,
        }
    }

    /// How an option changes the columns and the rows of the centre block.
    pub open spec fn reshapes(self) -> (int, int) {
        match self {
            EditOption::CenterNarrower => (-1, 0),
            EditOption::CenterWider => (1, 0),
            EditOption::CenterShorter => (0, -1),
            EditOption::CenterTaller => (0, 1),
            _ => (0, 0),
        }
    }
}

/// An option as it is drawn.
#[derive(Debug, Clone, Copy, PartialEq, Eq)]
pub struct OptionSquare {
    pub option: EditOption,
    pub rect: Rect,
    /// Whether the option applies to the box as it stands. One that does not is
    /// greyed and kept in place: the squares must not reshuffle.
    pub allowed: bool,
    /// Whether the box already is what the option would make it.
    pub held: bool,
}

/// What is on screen to be pointed at, and what it stands for.
pub struct Scene {
    pub config: Config,
    pub board: Board,
    pub layout: Layout,
    /// Which lists of the centre block are drawn, and where.
    pub drawn: Drawn,
    /// The corner button.
    pub home: Option<Rect>,
    /// The squares of the big menu, while it is up.
    pub menu: Vec<(Command, Rect)>,
    /// The settings squares, while they are up.
    pub settings: Vec<(Setting, Rect)>,
    /// The options of the box being edited, while one is.
    pub options: Vec<OptionSquare>,
    /// The plate the options sit on. Anything landing on it belongs to them,
    /// the gaps between squares included.
    pub plate: Option<Rect>,
    /// The window the move tiles act on.
    pub moving: Option<u64>,
    /// The lane the config already puts the box being edited in, in so many
    /// words.
    pub spelled: Option<Lane>,
}

/// The first of some tiles from `from` on that has a point.
pub open spec fn under_from(tiles: Seq<Rect>, x: int, y: int, from: int) -> Option<int>
    decreases tiles.len() - from,
{
    if from >= tiles.len() {
        None
    } else if tiles[from].holds(x, y) {
        Some(from)
    } else {
        under_from(tiles, x, y, from + 1)
    }
}

proof fn lemma_under(tiles: Seq<Rect>, x: int, y: int, from: int, to: int)
    requires
        0 <= from <= to <= tiles.len(),
        forall|i: int| from <= i < to ==> !(#[trigger] tiles[i]).holds(x, y),
    ensures
        under_from(tiles, x, y, from) == under_from(tiles, x, y, to),
    decreases to - from,
{
    if from < to {
        assert(!tiles[from].holds(x, y));
        lemma_under(tiles, x, y, from + 1, to);
    }
}

/// The first of some squares from `from` on that has a point.
pub open spec fn square_from<T>(squares: Seq<(T, Rect)>, x: int, y: int, from: int) -> Option<int>
    decreases squares.len() - from,
{
    if from >= squares.len() {
        None
    } else if squares[from].1.holds(x, y) {
        Some(from)
    } else {
        square_from(squares, x, y, from + 1)
    }
}

/// The first of some squares that has a point.
pub fn square_at<T>(squares: &Vec<(T, Rect)>, x: i64, y: i64) -> (at: Option<usize>)
    ensures
        board::same_slot(at, square_from(squares@, x as int, y as int, 0)),
        at matches Some(i) ==> i < squares.len(),
{
    let n: usize = squares.len();
    let mut i: usize = 0;
    while i < n
        invariant
            i <= n,
            n == squares@.len(),
            square_from(squares@, x as int, y as int, 0) == square_from(
                squares@,
                x as int,
                y as int,
                i as int,
            ),
        decreases n - i,
    {
        if squares[i].1.contains(x, y) {
            return Some(i);
        }
        i += 1;
    }
    None
}

/// The first of the options from `from` on that has a point.
pub open spec fn option_from(options: Seq<OptionSquare>, x: int, y: int, from: int) -> Option<int>
    decreases options.len() - from,
{
    if from >= options.len() {
        None
    } else if options[from].rect.holds(x, y) {
        Some(from)
    } else {
        option_from(options, x, y, from + 1)
    }
}

/// Whether an option is offered and applies, by the first of the squares from
/// `from` on that is it.
pub open spec fn offered_from(options: Seq<OptionSquare>, option: EditOption, from: int) -> bool
    decreases options.len() - from,
{
    if from >= options.len() {
        false
    } else if options[from].option == option {
        options[from].allowed
    } else {
        offered_from(options, option, from + 1)
    }
}

/// Whether a rectangle there may be has a point.
pub open spec fn over(rect: Option<Rect>, x: int, y: int) -> bool {
    rect is Some && rect->0.holds(x, y)
}

fn is_over(rect: &Option<Rect>, x: i64, y: i64) -> (yes: bool)
    ensures
        yes == over(*rect, x as int, y as int),
{
    match rect {
        Some(rect) => rect.contains(x, y),
        None => false,
    }
}

/// The first band from `from` on of the centre block, or not of it, that has a
/// point.
pub open spec fn band_from(bands: Seq<Band>, center: bool, x: int, y: int, from: int) -> Option<
    int,
>
    decreases bands.len() - from,
{
    if from >= bands.len() {
        None
    } else if bands[from].center == center && bands[from].rect.holds(x, y) {
        Some(from)
    } else {
        band_from(bands, center, x, y, from + 1)
    }
}

fn find_band(bands: &Vec<Band>, center: bool, x: i64, y: i64) -> (band: Option<usize>)
    ensures
        board::same_slot(band, band_from(bands@, center, x as int, y as int, 0)),
        band matches Some(i) ==> i < bands.len(),
{
    let n: usize = bands.len();
    let mut i: usize = 0;
    while i < n
        invariant
            i <= n,
            n == bands@.len(),
            band_from(bands@, center, x as int, y as int, 0) == band_from(
                bands@,
                center,
                x as int,
                y as int,
                i as int,
            ),
        decreases n - i,
    {
        if bands[i].center == center && bands[i].rect.contains(x, y) {
            return Some(i);
        }
        i += 1;
    }
    None
}

impl Scene {
    pub open spec fn wf(&self) -> bool {
        &&& self.board.wf()
        &&& self.layout.wf()
    }

    /// The tile under a panel-local point.
    pub open spec fn tile_under(&self, x: int, y: int, scroll: int) -> Option<int> {
        if self.layout.on_panel(x, y) {
            under_from(self.layout.tiles@, x, y + scroll, 0)
        } else {
            None
        }
    }

    /// The tile under a panel-local point.
    pub fn tile_at(&self, x: i64, y: i64, scroll: i64) -> (tile: Option<usize>)
        ensures
            board::same_slot(tile, self.tile_under(x as int, y as int, scroll as int)),
    {
        let tile = self.layout.hit_test(x, y, scroll);
        proof {
            let tiles = self.layout.tiles@;
            match tile {
                Some(i) => {
                    assert(self.layout.first_under(x as int, y + scroll, i as int));
                    lemma_under(tiles, x as int, y + scroll, 0, i as int);
                },
                None => {
                    if self.layout.on_panel(x as int, y as int) {
                        lemma_under(tiles, x as int, y + scroll, 0, tiles.len() as int);
                    }
                },
            }
        }
        tile
    }

    /// Whether a point is on the corner button.
    pub fn on_home(&self, x: i64, y: i64) -> (yes: bool)
        ensures
            yes == over(self.home, x as int, y as int),
    {
        is_over(&self.home, x, y)
    }

    /// Whether a point is on the plate the options sit on.
    pub fn on_plate(&self, x: i64, y: i64) -> (yes: bool)
        ensures
            yes == over(self.plate, x as int, y as int),
    {
        is_over(&self.plate, x, y)
    }

    /// The option under a point.
    pub fn option_at(&self, x: i64, y: i64) -> (at: Option<usize>)
        ensures
            board::same_slot(at, option_from(self.options@, x as int, y as int, 0)),
            at matches Some(i) ==> i < self.options.len(),
    {
        let n: usize = self.options.len();
        let mut i: usize = 0;
        while i < n
            invariant
                i <= n,
                n == self.options@.len(),
                option_from(self.options@, x as int, y as int, 0) == option_from(
                    self.options@,
                    x as int,
                    y as int,
                    i as int,
                ),
            decreases n - i,
        {
            if self.options[i].rect.contains(x, y) {
                return Some(i);
            }
            i += 1;
        }
        None
    }

    /// Whether an option is offered for the box being edited, and applies.
    pub fn offers(&self, option: EditOption) -> (yes: bool)
        ensures
            yes == offered_from(self.options@, option, 0),
    {
        let n: usize = self.options.len();
        let mut i: usize = 0;
        while i < n
            invariant
                i <= n,
                n == self.options@.len(),
                offered_from(self.options@, option, 0) == offered_from(
                    self.options@,
                    option,
                    i as int,
                ),
            decreases n - i,
        {
            if self.options[i].option == option {
                return self.options[i].allowed;
            }
            i += 1;
        }
        false
    }

    /// Which box a panel-local point falls in, for editing. The centre counts,
    /// and is looked for first: its band sits inside the rectangle of whatever
    /// box wrapped around it.
    pub open spec fn box_under(&self, x: int, y: int, scroll: int) -> Option<int> {
        let bands = self.layout.bands@;
        match band_from(bands, true, x, y + scroll, 0) {
            Some(band) => Some(band),
            None => band_from(bands, false, x, y + scroll, 0),
        }
    }

    /// Which box a panel-local point falls in, for editing.
    pub fn box_at(&self, x: i64, y: i64, scroll: i64) -> (band: Option<usize>)
        requires
            query::measured(y as int),
            query::measured(scroll as int),
        ensures
            board::same_slot(band, self.box_under(x as int, y as int, scroll as int)),
            band matches Some(i) ==> i < self.layout.bands@.len(),
    {
        match find_band(&self.layout.bands, true, x, y + scroll) {
            Some(band) => Some(band),
            None => find_band(&self.layout.bands, false, x, y + scroll),
        }
    }

    /// The section a point of the panel picks to edit. Either half of the
    /// centre block means the block: two boxes on the grid and one thing to
    /// configure.
    pub open spec fn section_under(&self, x: int, y: int, scroll: int) -> Option<int> {
        match self.box_under(x, y, scroll) {
            None => None,
            Some(band) => {
                let band = self.layout.bands@[band];
                if band.center && self.board.block_from(0) is Some {
                    self.board.block_from(0)
                } else {
                    Some(band.section as int)
                }
            },
        }
    }

    /// The section a point of the panel picks to edit.
    pub fn section_at(&self, x: i64, y: i64, scroll: i64) -> (section: Option<usize>)
        requires
            query::measured(y as int),
            query::measured(scroll as int),
        ensures
            board::same_slot(section, self.section_under(x as int, y as int, scroll as int)),
    {
        match self.box_at(x, y, scroll) {
            None => None,
            Some(at) => {
                let band = &self.layout.bands[at];
                if band.center {
                    match self.board.center_section() {
                        Some(section) => Some(section),
                        None => Some(band.section),
                    }
                } else {
                    Some(band.section)
                }
            },
        }
    }

    /// Whether the strip swallows a click at a height: dismissing on one there
    /// would read as a bug. The whole row, not just the drawn text.
    pub open spec fn on_strip(&self, query: Seq<char>, y: int) -> bool {
        query.len() > 0 && 0 <= y < self.layout.metrics.search_h && y < self.layout.panel.h
    }

    pub fn search_hit(&self, query: &Vec<char>, y: i64) -> (hit: bool)
        requires
            self.wf(),
        ensures
            hit == self.on_strip(query@, y as int),
    {
        query.len() > 0 && y >= 0 && y < self.layout.search_rect().h
    }

    /// The sections that have a box on screen, in order. Editing moves between
    /// boxes, so it walks these rather than counting sections.
    pub open spec fn boxes_upto(&self, n: nat) -> Seq<usize>
        decreases n,
    {
        if n == 0 {
            Seq::empty()
        } else {
            let before = self.boxes_upto((n - 1) as nat);
            if self.layout.bands@[n - 1].center {
                before
            } else {
                before.push(self.layout.bands@[n - 1].section)
            }
        }
    }

    /// The sections that have a box on screen, in order.
    pub fn boxes(&self) -> (sections: Vec<usize>)
        ensures
            sections@ == self.boxes_upto(self.layout.bands@.len()),
    {
        let mut sections: Vec<usize> = Vec::new();
        for i in 0..self.layout.bands.len()
            invariant
                sections@ == self.boxes_upto(i as nat),
        {
            if !self.layout.bands[i].center {
                sections.push(self.layout.bands[i].section);
            }
        }
        sections
    }

    /// Whether the box being edited is the centre block.
    pub open spec fn edits_center(&self, edit: Option<usize>) -> bool {
        match edit {
            Some(section) => section < self.board.sections@.len()
                && self.board.sections@[section as int].center is Some,
            None => false,
        }
    }

    pub fn editing_center(&self, state: &State) -> (yes: bool)
        ensures
            yes == self.edits_center(state.edit),
    {
        match state.edit {
            Some(section) => section < self.board.sections.len()
                && self.board.sections[section].center.is_some(),
            None => false,
        }
    }
}

} // verus!
