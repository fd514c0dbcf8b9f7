//! Rectangles, and where the lattice falls in them.
//!
//! Lengths and positions are whole numbers of 64ths of a pixel, so halves and
//! quarters of a gap come out exact.

use vstd::prelude::*;

verus! {

/// One pixel.
pub const PX: i64 = 64;

/// The longest length a layout is measured with, on screen or in a tile.
pub const REACH: i64 = 0x1000_0000;

#[derive(Debug, Clone, Copy, PartialEq, Eq, Structural)]
pub struct Rect {
    pub x: i64,
    pub y: i64,
    pub w: i64,
    pub h: i64,
}

impl Rect {
    /// The point is inside, the left and top edges included and the right and
    /// bottom ones not.
    pub open spec fn holds(self, x: int, y: int) -> bool {
        self.x <= x < self.x + self.w && self.y <= y < self.y + self.h
    }

    pub fn contains(&self, x: i64, y: i64) -> (inside: bool)
        ensures
            inside == self.holds(x as int, y as int),
    {
        self.contains_far(x as i128, y as i128)
    }

    /// `contains`, of a point that may lie further off than a length can say.
    pub(crate) fn contains_far(&self, x: i128, y: i128) -> (inside: bool)
        ensures
            inside == self.holds(x as int, y as int),
    {
        let (left, top) = (self.x as i128, self.y as i128);
        let (right, bottom) = (left + self.w as i128, top + self.h as i128);
        left <= x && x < right && top <= y && y < bottom
    }

    pub open spec fn moved_up(self, dy: int) -> Rect {
        Rect { y: (self.y - dy) as i64, ..self }
    }

    pub fn shifted(self, dy: i64) -> (rect: Rect)
        requires
            i64::MIN <= self.y - dy <= i64::MAX,
        ensures
            rect == self.moved_up(dy as int),
    {
        Rect { x: self.x, y: self.y - dy, w: self.w, h: self.h }
    }

    /// The two share some inside.
    pub open spec fn meets(self, other: Rect) -> bool {
        &&& self.x < other.x + other.w
        &&& other.x < self.x + self.w
        &&& self.y < other.y + other.h
        &&& other.y < self.y + self.h
    }

    /// Overlap, edges excluded. Two tiles sharing an edge do not overlap, which
    /// is what makes a tile sitting exactly against the centre block count as
    /// clear of it.
    pub fn overlaps(&self, other: &Rect) -> (hit: bool)
        ensures
            hit == self.meets(*other),
    {
        (self.x as i128) < other.x as i128 + other.w as i128 && (other.x as i128) < self.x as i128
            + self.w as i128 && (self.y as i128) < other.y as i128 + other.h as i128 && (
        other.y as i128) < self.y as i128 + self.h as i128
    }

    /// Content space to panel-local. Bands are handed out whole, so the panel
    /// needs the same shift the tiles get.
    pub fn shifted_by(self, scroll: i64) -> (rect: Rect)
        requires
            i64::MIN <= self.y - scroll <= i64::MAX,
        ensures
            rect == self.moved_up(scroll as int),
    {
        self.shifted(scroll)
    }

    /// Nothing at all, in the corner.
    pub open spec fn spec_blank() -> Rect {
        Rect { x: 0, y: 0, w: 0, h: 0 }
    }

    #[verifier::when_used_as_spec(spec_blank)]
    pub fn blank() -> (rect: Rect)
        ensures
            rect == Rect::spec_blank(),
    {
        Rect { x: 0, y: 0, w: 0, h: 0 }
    }
}

/// The sizes a panel is laid out with.
#[derive(Debug, Clone, Copy, PartialEq, Eq, Structural)]
pub struct Metrics {
    pub tile_w: i64,
    pub tile_h: i64,
    pub gap: i64,
    pub padding: i64,
    /// The most of the work area the panel takes, in millionths.
    pub max_fraction: u32,
    /// Hard cap on columns. 0 means "whatever fits".
    pub max_cols: usize,
    /// Exact column count, 0 to derive it. Only filtering sets it, so the panel
    /// cannot change width per keystroke. Still bounded by the screen.
    pub fixed_cols: usize,
    pub header_h: i64,
    /// How far along the ring's top edge a box's title sits, from its left
    /// corner. Titles cost no layout, so this is not a gap in the grid.
    pub header_gap: i64,
    /// Clear rows between one box and the box stacked under it, as a length
    /// that is rounded to whole rows.
    pub section_gap: i64,
    /// Filter strip above the grid, 0 when not filtering. Does not scroll.
    pub search_h: i64,
}

/// Whether a length can be measured.
pub open spec fn in_reach(n: i64) -> bool {
    -REACH <= n <= REACH
}

impl Metrics {
    /// Tiles have a size, gaps do not fold back on themselves, and no length is
    /// longer than can be counted.
    pub open spec fn wf(self) -> bool {
        &&& 0 < self.tile_w <= REACH
        &&& 0 < self.tile_h <= REACH
        &&& 0 <= self.gap <= REACH
        &&& 0 <= self.padding <= REACH
        &&& 0 <= self.search_h <= REACH
        &&& 0 <= self.header_h <= REACH
        &&& in_reach(self.header_gap)
        &&& in_reach(self.section_gap)
    }

    /// From one column to the next.
    pub open spec fn step_x(self) -> int {
        self.tile_w + self.gap
    }

    /// From one row to the next.
    pub open spec fn step_y(self) -> int {
        self.tile_h + self.gap
    }

    /// The left of a column.
    pub open spec fn x_at(self, col: int) -> int {
        self.padding + col * self.step_x()
    }

    /// The top of a row, in content space.
    pub open spec fn y_at(self, row: int) -> int {
        self.search_h + self.padding + row * self.step_y()
    }

    /// Where a line of the lattice is: the top of a row for an even one and the
    /// bottom of its tiles for an odd one.
    pub open spec fn y_line(self, line: int) -> int {
        self.y_at(line / 2) + if line % 2 == 1 {
            self.tile_h as int
        } else {
            0
        }
    }

    /// How wide a run of columns is.
    pub open spec fn width_of(self, cols: int) -> int {
        cols * self.tile_w + (cols - 1) * self.gap
    }

    /// How tall a run of rows is.
    pub open spec fn height_of(self, rows: int) -> int {
        rows * self.tile_h + (rows - 1) * self.gap
    }

    /// The rectangle of a tile on a cell.
    pub open spec fn tile_at(self, row: int, col: int) -> Rect {
        Rect {
            x: self.x_at(col) as i64,
            y: self.y_at(row) as i64,
            w: self.tile_w,
            h: self.tile_h,
        }
    }
}

/// The most rows or columns a length is taken over.
pub const CELLS: usize = 0x0800_0000;

pub proof fn lemma_cells(n: int, step: int)
    requires
        0 <= n <= CELLS,
        0 <= step <= 2 * REACH,
    ensures
        0 <= n * step <= CELLS * 2 * REACH,
{
    assert(0 <= n * step <= CELLS * 2 * REACH) by (nonlinear_arith)
        requires
            0 <= n <= CELLS,
            0 <= step <= 2 * REACH,
    ;
}

impl Metrics {
    pub fn left_of(&self, col: usize) -> (x: i64)
        requires
            self.wf(),
            col <= CELLS,
        ensures
            x == self.x_at(col as int),
            0 <= x <= CELLS * 2 * REACH + REACH,
    {
        proof {
            lemma_cells(col as int, self.step_x());
        }
        self.padding + col as i64 * (self.tile_w + self.gap)
    }

    pub fn top_of(&self, row: usize) -> (y: i64)
        requires
            self.wf(),
            row <= CELLS,
        ensures
            y == self.y_at(row as int),
            0 <= y <= CELLS * 2 * REACH + 2 * REACH,
    {
        proof {
            lemma_cells(row as int, self.step_y());
        }
        self.search_h + self.padding + row as i64 * (self.tile_h + self.gap)
    }

    pub fn line_at(&self, line: usize) -> (y: i64)
        requires
            self.wf(),
            line <= 2 * CELLS,
        ensures
            y == self.y_line(line as int),
            0 <= y <= CELLS * 2 * REACH + 3 * REACH,
    {
        let y = self.top_of(line / 2);
        if line % 2 == 1 {
            y + self.tile_h
        } else {
            y
        }
    }

    pub fn wide(&self, cols: usize) -> (w: i64)
        requires
            self.wf(),
            1 <= cols <= CELLS,
        ensures
            w == self.width_of(cols as int),
            0 < w <= CELLS * 2 * REACH,
    {
        proof {
            lemma_span(cols as int, self.tile_w as int, self.gap as int);
        }
        cols as i64 * self.tile_w + (cols as i64 - 1) * self.gap
    }

    pub fn tall(&self, rows: usize) -> (h: i64)
        requires
            self.wf(),
            1 <= rows <= CELLS,
        ensures
            h == self.height_of(rows as int),
            0 < h <= CELLS * 2 * REACH,
    {
        proof {
            lemma_span(rows as int, self.tile_h as int, self.gap as int);
        }
        rows as i64 * self.tile_h + (rows as i64 - 1) * self.gap
    }

    pub fn tile(&self, row: usize, col: usize) -> (rect: Rect)
        requires
            self.wf(),
            row <= CELLS,
            col <= CELLS,
        ensures
            rect == self.tile_at(row as int, col as int),
    {
        Rect { x: self.left_of(col), y: self.top_of(row), w: self.tile_w, h: self.tile_h }
    }
}

pub proof fn lemma_span(n: int, tile: int, gap: int)
    requires
        1 <= n <= CELLS,
        0 < tile <= REACH,
        0 <= gap <= REACH,
    ensures
        0 < n * tile <= CELLS * REACH,
        0 <= (n - 1) * gap <= CELLS * REACH,
        n * tile + (n - 1) * gap <= CELLS * 2 * REACH,
{
    assert(0 < n * tile <= CELLS * REACH) by (nonlinear_arith)
        requires
            1 <= n <= CELLS,
            0 < tile <= REACH,
    ;
    assert(0 <= (n - 1) * gap <= CELLS * REACH) by (nonlinear_arith)
        requires
            1 <= n <= CELLS,
            0 <= gap <= REACH,
    ;
}

/// Half a length, to the nearest whole pixel and away from zero from halfway.
pub open spec fn snapped(twice: int) -> int {
    if twice >= 0 {
        (twice + PX) / (2 * PX) * PX
    } else {
        -((-twice + PX) / (2 * PX) * PX)
    }
}

/// Half a length, snapped to whole pixels.
pub fn snap(twice: i64) -> (n: i64)
    requires
        -0x4000_0000_0000_0000 <= twice <= 0x4000_0000_0000_0000,
    ensures
        n == snapped(twice as int),
{
    if twice >= 0 {
        (twice + PX) / (2 * PX) * PX
    } else {
        -((-twice + PX) / (2 * PX) * PX)
    }
}

} // verus!
