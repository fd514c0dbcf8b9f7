//! The panel's one lattice, and one box laid out on it.
//!
//! Every tile sits on whole rows and columns of the lattice, measured from the
//! top left of the content and never from the box a tile happens to be in.

use vstd::prelude::*;

verus! {

/// One cell of the lattice.
#[derive(Debug, Clone, Copy, PartialEq, Eq, Structural)]
pub struct Cell {
    pub row: usize,
    pub col: usize,
}

/// A rectangle of cells the grid is not allowed to fill: the centre block, or
/// the one cell the app's own button holds. Tiles flow around it.
#[derive(Debug, Clone, Copy, PartialEq, Eq, Structural)]
pub struct Block {
    pub row: usize,
    pub col: usize,
    pub rows: usize,
    pub cols: usize,
}

impl Block {
    /// Whether the block stands on a cell.
    pub open spec fn stands_on(self, row: int, col: int) -> bool {
        self.row <= row < self.row + self.rows && self.col <= col < self.col + self.cols
    }

    pub fn covers(&self, row: usize, col: usize) -> (hit: bool)
        ensures
            hit == self.stands_on(row as int, col as int),
    {
        row >= self.row && row - self.row < self.rows && col >= self.col && col - self.col
            < self.cols
    }
}

/// Whether anything stands on a cell.
pub open spec fn blocked(holes: Seq<Block>, row: int, col: int) -> bool {
    exists|i: int| 0 <= i < holes.len() && #[trigger] holes[i].stands_on(row, col)
}

/// Whether anything stands on a cell.
pub fn is_blocked(holes: &Vec<Block>, row: usize, col: usize) -> (hit: bool)
    ensures
        hit == blocked(holes@, row as int, col as int),
{
    for i in 0..holes.len()
        invariant
            forall|j: int| 0 <= j < i ==> !#[trigger] holes@[j].stands_on(row as int, col as int),
    {
        if holes[i].covers(row, col) {
            assert(holes@[i as int].stands_on(row as int, col as int));
            return true;
        }
    }
    false
}

/// Whether one row of a box's cells has free ones on both sides of a hole.
///
/// That is the arrangement a bar must not read across: tiles at the left of the
/// row, then a jump over the centre block, then more at the right. A hole
/// against a side of the box leaves one run and reads fine.
pub open spec fn straddled(holes: Seq<Block>, row: int, col: int, cols: int) -> bool {
    &&& cols > 0
    &&& !blocked(holes, row, col)
    &&& exists|j: int, k: int|
        0 <= j < k < cols && #[trigger] blocked(holes, row, col + j) && !#[trigger] blocked(
            holes,
            row,
            col + k,
        )
}

pub fn straddles(holes: &Vec<Block>, row: usize, col: usize, cols: usize) -> (hit: bool)
    requires
        col + cols <= usize::MAX,
    ensures
        hit == straddled(holes@, row as int, col as int, cols as int),
{
    let mut first: usize = 0;
    while first < cols && !is_blocked(holes, row, col + first)
        invariant
            first <= cols,
            col + cols <= usize::MAX,
            forall|j: int|
                0 <= j < first ==> !#[trigger] blocked(holes@, row as int, col + j),
        ensures
            first <= cols,
            forall|j: int|
                0 <= j < first ==> !#[trigger] blocked(holes@, row as int, col + j),
            first < cols ==> blocked(holes@, row as int, col + first),
        decreases cols - first,
    {
        first += 1;
    }
    if first == cols {
        return false;
    }
    if first == 0 {
        assert(blocked(holes@, row as int, col + 0));
        return false;
    }
    assert(!blocked(holes@, row as int, col + 0));
    for k in first..cols
        invariant
            0 < first < cols,
            col + cols <= usize::MAX,
            blocked(holes@, row as int, col + first),
            !blocked(holes@, row as int, col as int),
            forall|j: int|
                0 <= j < first ==> !#[trigger] blocked(holes@, row as int, col + j),
            forall|j: int| first <= j < k ==> #[trigger] blocked(holes@, row as int, col + j),
    {
        if !is_blocked(holes, row, col + k) {
            assert(blocked(holes@, row as int, col + first as int));
            assert(!blocked(holes@, row as int, col + k as int));
            return true;
        }
    }
    false
}

/// The most rows a bar slides to get clear of a hole.
pub const SLIDES: usize = 64;

/// How many rows down a bar goes to find one it can be read across, given the
/// most it may go.
pub open spec fn slide(holes: Seq<Block>, row: int, col: int, cols: int, most: nat) -> nat
    decreases most,
{
    if most == 0 || !straddled(holes, row, col, cols) {
        0
    } else {
        1 + slide(holes, row + 1, col, cols, (most - 1) as nat)
    }
}

/// The row of lattice a box's first row of tiles takes. A box that fits on one
/// row is a bar and slides down past a hole in the middle of it; any other box
/// flows around the hole from where it stands.
pub open spec fn settles_at(
    holes: Seq<Block>,
    count: nat,
    row: int,
    col: int,
    cols: int,
) -> int {
    if holes.len() > 0 && 0 < count <= cols {
        row + slide(holes, row, col, cols, SLIDES as nat)
    } else {
        row
    }
}

/// How many slots a box looks at before giving up on placing its tiles.
pub open spec fn ceiling(count: nat) -> nat {
    4 * count + 64
}

/// Whether something stands on the cell a slot of a box falls on. Slots run
/// left to right, then down.
pub open spec fn slot_blocked(
    holes: Seq<Block>,
    top: int,
    col: int,
    cols: int,
    slot: int,
) -> bool {
    blocked(holes, top + slot / cols, col + slot % cols)
}

/// The free slots among the first `n` of a box, in reading order.
pub open spec fn free_slots(
    holes: Seq<Block>,
    top: int,
    col: int,
    cols: int,
    n: nat,
) -> Seq<usize>
    decreases n,
{
    if n == 0 {
        Seq::empty()
    } else {
        let before = free_slots(holes, top, col, cols, (n - 1) as nat);
        if slot_blocked(holes, top, col, cols, n - 1) {
            before
        } else {
            before.push((n - 1) as usize)
        }
    }
}

/// The slots a box's tiles take: the first free ones, one a tile.
pub open spec fn taken_slots(
    holes: Seq<Block>,
    count: nat,
    top: int,
    col: int,
    cols: int,
) -> Seq<usize> {
    let free = free_slots(holes, top, col, cols, ceiling(count));
    if free.len() <= count {
        free
    } else {
        free.take(count as int)
    }
}

/// How many rows a run of slots reaches over.
pub open spec fn rows_over(slots: Seq<usize>, cols: int) -> int {
    if slots.len() == 0 {
        0
    } else {
        slots.last() / cols as usize + 1
    }
}

/// One box laid out on the lattice, as a value.
#[verifier::ext_equal]
pub struct PlotView {
    pub section: int,
    pub row: int,
    pub col: int,
    pub cols: int,
    pub top: int,
    pub rows: int,
    pub slots: Seq<usize>,
    pub filled: Seq<bool>,
}

impl PlotView {
    /// The line the box ends on. Line `2 * r` is the top of row `r` and line
    /// `2 * r + 1` the bottom of the tiles in it.
    pub open spec fn bottom(self) -> int {
        bottom_line(self.top, self.rows)
    }
}

/// The line under `rows` rows of tiles starting at row `top`.
pub open spec fn bottom_line(top: int, rows: int) -> int {
    if rows == 0 {
        2 * top
    } else {
        2 * (top + rows) - 1
    }
}

/// A box of `count` tiles laid out from a cell, `cols` columns wide.
pub open spec fn laid(
    holes: Seq<Block>,
    section: int,
    count: nat,
    row: int,
    col: int,
    cols: int,
) -> PlotView {
    let top = settles_at(holes, count, row, col, cols);
    let slots = taken_slots(holes, count, top, col, cols);
    let rows = rows_over(slots, cols);
    PlotView {
        section,
        row,
        col,
        cols,
        top,
        rows,
        slots,
        filled: Seq::new(
            (rows * cols) as nat,
            |i: int| !slot_blocked(holes, top, col, cols, i),
        ),
    }
}

/// One box laid out on the lattice.
pub struct Plot {
    /// Which section the box belongs to.
    pub section: usize,
    /// Where the box was put.
    pub row: usize,
    pub col: usize,
    /// Tile columns inside the box.
    pub cols: usize,
    /// The row its tiles start on, which is further down for a bar that slid.
    pub top: usize,
    /// How many rows of tiles it takes.
    pub rows: usize,
    /// The slot each tile takes, counted from the start of row `top`.
    pub slots: Vec<usize>,
    /// Every cell of every row the box reached, row by row. False only where
    /// a hole took the cell out.
    pub filled: Vec<bool>,
}

impl View for Plot {
    type V = PlotView;

    open spec fn view(&self) -> PlotView {
        PlotView {
            section: self.section as int,
            row: self.row as int,
            col: self.col as int,
            cols: self.cols as int,
            top: self.top as int,
            rows: self.rows as int,
            slots: self.slots@,
            filled: self.filled@,
        }
    }
}

pub proof fn lemma_free_prefix(
    holes: Seq<Block>,
    top: int,
    col: int,
    cols: int,
    m: nat,
    n: nat,
)
    requires
        m <= n,
    ensures
        free_slots(holes, top, col, cols, m).len() <= free_slots(holes, top, col, cols, n).len(),
        free_slots(holes, top, col, cols, n).take(
            free_slots(holes, top, col, cols, m).len() as int,
        ) == free_slots(holes, top, col, cols, m),
    decreases n,
{
    if m < n {
        lemma_free_prefix(holes, top, col, cols, m, (n - 1) as nat);
        let shorter = free_slots(holes, top, col, cols, (n - 1) as nat);
        let longer = free_slots(holes, top, col, cols, n);
        let m_len = free_slots(holes, top, col, cols, m).len() as int;
        assert(longer.take(m_len) =~= shorter.take(m_len));
    } else {
        let all = free_slots(holes, top, col, cols, n);
        assert(all.take(all.len() as int) =~= all);
    }
}

/// Slots come out in reading order, and every one of them is free.
pub proof fn lemma_free_slots(holes: Seq<Block>, top: int, col: int, cols: int, n: nat)
    requires
        n <= usize::MAX,
    ensures
        ({
            let free = free_slots(holes, top, col, cols, n);
            &&& free.len() <= n
            &&& forall|i: int| 0 <= i < free.len() ==> #[trigger] free[i] < n && !slot_blocked(
                holes,
                top,
                col,
                cols,
                free[i] as int,
            )
            &&& forall|i: int, j: int| 0 <= i < j < free.len() ==> free[i] < free[j]
        }),
    decreases n,
{
    if n > 0 {
        lemma_free_slots(holes, top, col, cols, (n - 1) as nat);
    }
}

pub proof fn lemma_slide(holes: Seq<Block>, row: int, col: int, cols: int, most: nat)
    ensures
        slide(holes, row, col, cols, most) <= most,
    decreases most,
{
    if most > 0 {
        lemma_slide(holes, row + 1, col, cols, (most - 1) as nat);
    }
}

fn settle_row(
    holes: &Vec<Block>,
    count: usize,
    row: usize,
    col: usize,
    cols: usize,
) -> (top: usize)
    requires
        row + SLIDES <= usize::MAX,
        col + cols <= usize::MAX,
    ensures
        top == settles_at(holes@, count as nat, row as int, col as int, cols as int),
        row <= top <= row + SLIDES,
{
    if holes.len() == 0 || count == 0 || count > cols {
        return row;
    }
    let mut slid: usize = 0;
    while slid < SLIDES && straddles(holes, row + slid, col, cols)
        invariant
            slid <= SLIDES,
            row + SLIDES <= usize::MAX,
            col + cols <= usize::MAX,
            slide(holes@, row as int, col as int, cols as int, SLIDES as nat) == slid + slide(
                holes@,
                row + slid,
                col as int,
                cols as int,
                (SLIDES - slid) as nat,
            ),
        ensures
            slid <= SLIDES,
            slide(holes@, row as int, col as int, cols as int, SLIDES as nat) == slid,
        decreases SLIDES - slid,
    {
        slid += 1;
    }
    row + slid
}

/// Lay one box out: left to right, then down, stepping over whatever stands in
/// the way. Reading order survives the hole: the tiles flow around it rather
/// than through it.
pub fn lay_box(
    holes: &Vec<Block>,
    section: usize,
    count: usize,
    row: usize,
    col: usize,
    cols: usize,
) -> (plot: Plot)
    requires
        cols >= 1,
        row + SLIDES + ceiling(count as nat) + 1 <= usize::MAX,
        col + cols <= usize::MAX,
        ceiling(count as nat) + cols <= usize::MAX,
    ensures
        plot@ == laid(holes@, section as int, count as nat, row as int, col as int, cols as int),
{
    let top = settle_row(holes, count, row, col, cols);
    let limit: usize = count * 4 + 64;
    let mut slots: Vec<usize> = Vec::new();
    let mut slot: usize = 0;
    while slots.len() < count && slot < limit
        invariant
            cols >= 1,
            limit == ceiling(count as nat),
            slot <= limit,
            top + limit <= usize::MAX,
            col + cols <= usize::MAX,
            slots.len() <= count,
            slots@ == free_slots(holes@, top as int, col as int, cols as int, slot as nat),
        decreases limit - slot,
    {
        assert(slot % cols < cols);
        assert(slot / cols <= slot) by (nonlinear_arith)
            requires
                cols >= 1,
        ;
        if !is_blocked(holes, top + slot / cols, col + slot % cols) {
            slots.push(slot);
        }
        slot += 1;
    }
    proof {
        lemma_free_prefix(
            holes@,
            top as int,
            col as int,
            cols as int,
            slot as nat,
            limit as nat,
        );
        lemma_free_slots(holes@, top as int, col as int, cols as int, slot as nat);
        assert(slots@ =~= taken_slots(
            holes@,
            count as nat,
            top as int,
            col as int,
            cols as int,
        ));
    }
    let rows: usize = if slots.len() == 0 {
        0
    } else {
        let last = slots[slots.len() - 1];
        assert(last / cols <= last) by (nonlinear_arith)
            requires
                cols >= 1,
        ;
        last / cols + 1
    };
    assert(rows * cols <= limit + cols) by {
        if slots.len() > 0 {
            let last = slots@.last() as int;
            vstd::arithmetic::div_mod::lemma_fundamental_div_mod(last, cols as int);
            assert((last / cols as int + 1) * cols == (last / cols as int) * cols + cols)
                by (nonlinear_arith);
            assert(cols * (last / cols as int) == (last / cols as int) * cols) by (nonlinear_arith);
        }
    }
    let area: usize = rows * cols;
    let mut filled: Vec<bool> = Vec::new();
    for i in 0..area
        invariant
            cols >= 1,
            area == rows * cols,
            top + limit <= usize::MAX,
            area <= limit + cols,
            col + cols <= usize::MAX,
            top + rows <= usize::MAX,
            filled@ =~= Seq::new(
                i as nat,
                |k: int| !slot_blocked(holes@, top as int, col as int, cols as int, k),
            ),
    {
        assert(i / cols < rows) by (nonlinear_arith)
            requires
                i < rows * cols,
                cols >= 1,
        ;
        filled.push(!is_blocked(holes, top + i / cols, col + i % cols));
    }
    Plot { section, row, col, cols, top, rows, slots, filled }
}

pub proof fn lemma_taken_slots(
    holes: Seq<Block>,
    count: nat,
    top: int,
    col: int,
    cols: int,
)
    requires
        ceiling(count) <= usize::MAX,
    ensures
        ({
            let slots = taken_slots(holes, count, top, col, cols);
            &&& slots.len() <= count
            &&& forall|j: int|
                0 <= j < slots.len() ==> #[trigger] slots[j] < ceiling(count) && !slot_blocked(
                    holes,
                    top,
                    col,
                    cols,
                    slots[j] as int,
                )
            &&& forall|i: int, j: int| 0 <= i < j < slots.len() ==> slots[i] < slots[j]
        }),
{
    lemma_free_slots(holes, top, col, cols, ceiling(count));
    let free = free_slots(holes, top, col, cols, ceiling(count));
    let slots = taken_slots(holes, count, top, col, cols);
    assert forall|j: int| 0 <= j < slots.len() implies slots[j] == #[trigger] free[j] by {}
    assert forall|j: int| 0 <= j < slots.len() implies #[trigger] slots[j] < ceiling(count)
        && !slot_blocked(holes, top, col, cols, slots[j] as int) by {
        assert(slots[j] == free[j]);
    }
    assert forall|i: int, j: int| 0 <= i < j < slots.len() implies slots[i] < slots[j] by {
        assert(slots[i] == free[i] && slots[j] == free[j]);
    }
}

/// A box reaches no further than the rows it may slide and look over, and its
/// tiles fall on the rows it reaches.
pub proof fn lemma_laid_bounded(
    holes: Seq<Block>,
    section: int,
    count: nat,
    row: int,
    col: int,
    cols: int,
)
    requires
        1 <= cols <= usize::MAX,
        ceiling(count) <= usize::MAX,
    ensures
        ({
            let plot = laid(holes, section, count, row, col, cols);
            &&& row <= plot.top <= row + SLIDES
            &&& 0 <= plot.rows <= ceiling(count)
            &&& plot.slots.len() <= count
            &&& plot.filled.len() == plot.rows * plot.cols
            &&& forall|j: int|
                0 <= j < plot.slots.len() ==> (#[trigger] plot.slots[j]) as int / plot.cols
                    < plot.rows
        }),
{
    lemma_slide(holes, row, col, cols, SLIDES as nat);
    let plot = laid(holes, section, count, row, col, cols);
    lemma_taken_slots(holes, count, plot.top, col, cols);
    let slots = plot.slots;
    if slots.len() > 0 {
        let last = slots.last() as int;
        assert(0 <= last / cols <= last) by (nonlinear_arith)
            requires
                cols >= 1,
                last >= 0,
        ;
        assert forall|j: int| 0 <= j < slots.len() implies (#[trigger] slots[j]) as int / cols
            < plot.rows by {
            let slot = slots[j] as int;
            assert(slot <= last) by {
                if j < slots.len() - 1 {
                    assert(slots[j] < slots[slots.len() - 1]);
                }
            }
            assert(slot / cols <= last / cols) by (nonlinear_arith)
                requires
                    0 <= slot <= last,
                    cols >= 1,
            ;
        }
        assert(plot.rows * cols >= 0) by (nonlinear_arith)
            requires
                plot.rows >= 0,
                cols >= 1,
        ;
    }
}

} // verus!
