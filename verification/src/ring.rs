//! The ring drawn round a box: the boundary of its cells as closed loops.

use vstd::prelude::*;
use crate::geometry::{Metrics, CELLS};
use crate::layout::{Cells, CellsView, Layout};
use crate::query;
use crate::stretch::FAR;

verus! {

impl CellsView {
    /// A whole grid of cells that can be drawn. No columns, or no rows, is no
    /// cells at all.
    pub open spec fn whole(self) -> bool {
        &&& 0 <= self.x <= FAR / 2
        &&& 0 <= self.y <= FAR / 2
        &&& self.cols <= CELLS
        &&& self.rows <= CELLS
        &&& self.filled.len() == self.rows * self.cols
    }

    /// Whether a cell is inside the ring. Out of range is outside, which is
    /// what makes the edge of the grid an edge of the shape.
    pub open spec fn has(self, row: int, col: int) -> bool {
        0 <= row < self.rows && 0 <= col < self.cols && self.filled[row * self.cols + col]
    }
}

pub proof fn lemma_index(row: int, col: int, rows: int, cols: int)
    requires
        0 <= row < rows,
        0 <= col < cols,
    ensures
        0 <= row * cols + col < rows * cols,
        0 <= row * cols <= row * cols + col,
{
    assert(0 <= row * cols && row * cols + col < rows * cols) by (nonlinear_arith)
        requires
            0 <= row < rows,
            0 <= col < cols,
    ;
}

impl Cells {
    /// Whether a cell is inside the ring.
    pub fn at(&self, row: usize, col: usize) -> (inside: bool)
        requires
            self@.whole(),
        ensures
            inside == self@.has(row as int, col as int),
    {
        if row < self.rows && col < self.cols {
            proof {
                lemma_index(row as int, col as int, self.rows as int, self.cols as int);
            }
            let all: usize = self.filled.len();
            self.filled[row * self.cols + col]
        } else {
            false
        }
    }
}

/// One side of a cell, from corner to corner. Corners are columns and rows of
/// the box's own grid.
#[derive(Debug, Clone, Copy)]
pub struct Edge {
    pub from: (usize, usize),
    pub to: (usize, usize),
}

/// A side of a cell that is part of the boundary, or nothing.
pub open spec fn side_if(outside: bool, from: (int, int), to: (int, int)) -> Seq<Edge> {
    if outside {
        seq![
            Edge {
                from: (from.0 as usize, from.1 as usize),
                to: (to.0 as usize, to.1 as usize),
            },
        ]
    } else {
        Seq::empty()
    }
}

/// The sides of one cell that the shape ends at. Directed so the inside is
/// always on the right of travel: right along a top, down a right, left along a
/// bottom, up a left. Holes come out wound the other way for free, which is
/// what a fill rule wants.
pub open spec fn cell_edges(cells: CellsView, row: int, col: int) -> Seq<Edge> {
    if !cells.has(row, col) {
        Seq::empty()
    } else {
        side_if(!cells.has(row - 1, col), (col, row), (col + 1, row)) + side_if(
            !cells.has(row, col + 1),
            (col + 1, row),
            (col + 1, row + 1),
        ) + side_if(!cells.has(row + 1, col), (col + 1, row + 1), (col, row + 1)) + side_if(
            !cells.has(row, col - 1),
            (col, row + 1),
            (col, row),
        )
    }
}

/// The boundary edges of the first `n` cells, in reading order.
pub open spec fn edges_upto(cells: CellsView, n: nat) -> Seq<Edge>
    decreases n,
{
    if n == 0 {
        Seq::empty()
    } else {
        edges_upto(cells, (n - 1) as nat) + cell_edges(
            cells,
            (n - 1) / cells.cols as int,
            (n - 1) % cells.cols as int,
        )
    }
}

/// The whole boundary of a shape.
pub open spec fn boundary(cells: CellsView) -> Seq<Edge> {
    edges_upto(cells, (cells.rows * cells.cols) as nat)
}

fn add_side(
    edges: &mut Vec<Edge>,
    outside: bool,
    from: (usize, usize),
    to: (usize, usize),
)
    ensures
        final(edges)@ == old(edges)@ + side_if(
            outside,
            (from.0 as int, from.1 as int),
            (to.0 as int, to.1 as int),
        ),
{
    let ghost before = edges@;
    if outside {
        edges.push(Edge { from, to });
    }
    assert(edges@ =~= before + side_if(
        outside,
        (from.0 as int, from.1 as int),
        (to.0 as int, to.1 as int),
    ));
}

fn add_cell(cells: &Cells, edges: &mut Vec<Edge>, row: usize, col: usize)
    requires
        cells@.whole(),
        row < cells.rows,
        col < cells.cols,
    ensures
        final(edges)@ == old(edges)@ + cell_edges(cells@, row as int, col as int),
{
    let ghost view = cells@;
    let ghost before = edges@;
    if cells.at(row, col) {
        let above = row > 0 && cells.at(row - 1, col);
        let right = cells.at(row, col + 1);
        let below = cells.at(row + 1, col);
        let left = col > 0 && cells.at(row, col - 1);
        assert(above == view.has(row - 1, col as int));
        assert(left == view.has(row as int, col - 1));
        add_side(edges, !above, (col, row), (col + 1, row));
        add_side(edges, !right, (col + 1, row), (col + 1, row + 1));
        add_side(edges, !below, (col + 1, row + 1), (col, row + 1));
        add_side(edges, !left, (col, row + 1), (col, row));
    }
    assert(edges@ =~= before + cell_edges(view, row as int, col as int));
}

fn collect_edges(cells: &Cells) -> (edges: Vec<Edge>)
    requires
        cells@.whole(),
    ensures
        edges@ == boundary(cells@),
{
    let mut edges: Vec<Edge> = Vec::new();
    let area: usize = cells.filled.len();
    for i in 0..area
        invariant
            cells@.whole(),
            area == cells.rows * cells.cols,
            edges@ == edges_upto(cells@, i as nat),
    {
        assert(cells.cols > 0) by {
            if cells.cols == 0 {
                assert(cells.rows * cells.cols == 0);
            }
        }
        let (row, col): (usize, usize) = (i / cells.cols, i % cells.cols);
        assert(row < cells.rows) by (nonlinear_arith)
            requires
                i < cells.rows * cells.cols,
                cells.cols > 0,
                row == i as int / cells.cols as int,
        ;
        add_cell(cells, &mut edges, row, col);
    }
    edges
}

/// The first edge from `k` on that leaves a corner and is not used yet, and the
/// end of the list when there is none.
pub open spec fn leaving(
    edges: Seq<Edge>,
    used: Seq<bool>,
    here: (usize, usize),
    k: nat,
) -> nat
    decreases edges.len() - k,
{
    if k >= edges.len() {
        edges.len()
    } else if !used[k as int] && edges[k as int].from == here {
        k
    } else {
        leaving(edges, used, here, k + 1)
    }
}

/// How many edges are not used yet.
pub open spec fn unused(used: Seq<bool>) -> nat
    decreases used.len(),
{
    if used.len() == 0 {
        0
    } else {
        unused(used.drop_last()) + if used.last() {
            0nat
        } else {
            1nat
        }
    }
}

pub proof fn lemma_use(used: Seq<bool>, e: int)
    requires
        0 <= e < used.len(),
        !used[e],
    ensures
        unused(used.update(e, true)) == unused(used) - 1,
        unused(used) > 0,
    decreases used.len(),
{
    let after = used.update(e, true);
    if e == used.len() - 1 {
        assert(after.drop_last() =~= used.drop_last());
    } else {
        assert(after.drop_last() =~= used.drop_last().update(e, true));
        lemma_use(used.drop_last(), e);
    }
}

pub proof fn lemma_leaving(
    edges: Seq<Edge>,
    used: Seq<bool>,
    here: (usize, usize),
    k: nat,
)
    requires
        k <= edges.len(),
    ensures
        ({
            let e = leaving(edges, used, here, k);
            &&& k <= e <= edges.len()
            &&& e < edges.len() ==> !used[e as int] && edges[e as int].from == here
            &&& forall|i: int|
                k <= i < e ==> used[i] || (#[trigger] edges[i]).from != here
        }),
    decreases edges.len() - k,
{
    if k < edges.len() && !(!used[k as int] && edges[k as int].from == here) {
        lemma_leaving(edges, used, here, k + 1);
    }
}

/// A walk along unused edges, from the corner it is at back to the one it
/// started from: what is used after it, the corners it passed, and where it
/// ended.
pub open spec fn walked(
    edges: Seq<Edge>,
    used: Seq<bool>,
    corners: Seq<(usize, usize)>,
    first: (usize, usize),
    here: (usize, usize),
) -> (Seq<bool>, Seq<(usize, usize)>, (usize, usize))
    decreases unused(used),
    when used.len() == edges.len()
{
    if here == first {
        (used, corners, here)
    } else {
        let e = leaving(edges, used, here, 0);
        if e >= edges.len() {
            (used, corners.push(here), here)
        } else {
            proof {
                lemma_leaving(edges, used, here, 0);
                lemma_use(used, e as int);
            }
            walked(
                edges,
                used.update(e as int, true),
                corners.push(here),
                first,
                edges[e as int].to,
            )
        }
    }
}

/// The loops a boundary falls into, from one edge of it on: each as every
/// corner it passes, straight ones included.
pub open spec fn loops(edges: Seq<Edge>, used: Seq<bool>, start: nat) -> Seq<
    Seq<(usize, usize)>,
>
    decreases edges.len() - start,
{
    if start >= edges.len() {
        Seq::empty()
    } else if used[start as int] {
        loops(edges, used, start + 1)
    } else {
        let first = edges[start as int].from;
        let (after, corners, end) = walked(
            edges,
            used.update(start as int, true),
            seq![first],
            first,
            edges[start as int].to,
        );
        let rest = loops(edges, after, start + 1);
        if end == first && corners.len() >= 4 {
            seq![corners] + rest
        } else {
            rest
        }
    }
}

/// Whether the boundary turns at a corner: the corners either side of it are
/// not in line with it.
pub open spec fn turns(ring: Seq<(usize, usize)>, i: int) -> bool {
    let n = ring.len() as int;
    let before = ring[(i + n - 1) % n];
    let here = ring[i];
    let after = ring[(i + 1) % n];
    !((before.0 == here.0 && here.0 == after.0) || (before.1 == here.1 && here.1 == after.1))
}

/// The corners the boundary turns at, among the first `n`.
pub open spec fn turning(ring: Seq<(usize, usize)>, n: nat) -> Seq<(usize, usize)>
    decreases n,
{
    if n == 0 {
        Seq::empty()
    } else {
        let before = turning(ring, (n - 1) as nat);
        if turns(ring, n - 1) {
            before.push(ring[n - 1])
        } else {
            before
        }
    }
}

/// The place before one on a loop of `n`.
fn prev_on(i: usize, n: usize) -> (p: usize)
    requires
        i < n,
    ensures
        p == (i + n - 1) % n as int,
        p < n,
{
    if i == 0 {
        assert((n - 1) % n as int == n - 1) by (nonlinear_arith)
            requires
                n > 0,
        ;
        n - 1
    } else {
        assert((i + n - 1) % n as int == i - 1) by (nonlinear_arith)
            requires
                0 < i < n,
        ;
        i - 1
    }
}

/// The place after one on a loop of `n`.
fn next_on(i: usize, n: usize) -> (p: usize)
    requires
        i < n,
    ensures
        p == (i + 1) % n as int,
        p < n,
{
    if i == n - 1 {
        assert(n as int % n as int == 0) by (nonlinear_arith)
            requires
                n > 0,
        ;
        0
    } else {
        assert((i + 1) % n as int == i + 1) by (nonlinear_arith)
            requires
                0 <= i < n - 1,
        ;
        i + 1
    }
}

/// Drop the points a straight run passes through. Three in a line are one
/// corner too many, and every corner costs an arc when this is drawn.
pub fn corners_only(ring: &[(usize, usize)]) -> (corners: Vec<(usize, usize)>)
    ensures
        corners@ == turning(ring@, ring@.len()),
{
    let n: usize = ring.len();
    let mut corners: Vec<(usize, usize)> = Vec::new();
    for i in 0..n
        invariant
            n == ring@.len(),
            corners@ == turning(ring@, i as nat),
    {
        let before = ring[prev_on(i, n)];
        let here = ring[i];
        let after = ring[next_on(i, n)];
        let straight = (before.0 == here.0 && here.0 == after.0) || (before.1 == here.1 && here.1
            == after.1);
        if !straight {
            corners.push(here);
        }
    }
    corners
}

fn find_leaving(edges: &Vec<Edge>, used: &Vec<bool>, here: (usize, usize)) -> (e: usize)
    requires
        used.len() == edges.len(),
    ensures
        e == leaving(edges@, used@, here, 0),
{
    let mut k: usize = 0;
    while k < edges.len() && !(!used[k] && edges[k].from.0 == here.0 && edges[k].from.1 == here.1)
        invariant
            used.len() == edges.len(),
            k <= edges.len(),
            leaving(edges@, used@, here, 0) == leaving(edges@, used@, here, k as nat),
        ensures
            k <= edges.len(),
            leaving(edges@, used@, here, 0) == k,
        decreases edges.len() - k,
    {
        k += 1;
    }
    k
}

/// Follow each edge to the one leaving where it arrived, from one edge round to
/// the corner it left.
fn walk(edges: &Vec<Edge>, used: &mut Vec<bool>, start: usize) -> (got: (
    Vec<(usize, usize)>,
    (usize, usize),
))
    requires
        old(used).len() == edges.len(),
        start < edges.len(),
        !old(used)@[start as int],
    ensures
        ({
            let first = edges@[start as int].from;
            let want = walked(
                edges@,
                old(used)@.update(start as int, true),
                seq![first],
                first,
                edges@[start as int].to,
            );
            &&& final(used)@ == want.0
            &&& got.0@ == want.1
            &&& got.1 == want.2
            &&& final(used).len() == edges.len()
        }),
{
    let first = edges[start].from;
    let mut here = edges[start].to;
    used.set(start, true);
    let mut corners: Vec<(usize, usize)> = Vec::new();
    corners.push(first);
    assert(corners@ =~= seq![first]);
    let ghost goal = walked(edges@, used@, corners@, first, here);
    loop
        invariant_except_break
            walked(edges@, used@, corners@, first, here) == goal,
        invariant
            used.len() == edges.len(),
        ensures
            used.len() == edges.len(),
            used@ == goal.0,
            corners@ == goal.1,
            here == goal.2,
        decreases unused(used@),
    {
        if here.0 == first.0 && here.1 == first.1 {
            break;
        }
        let next = find_leaving(edges, used, here);
        corners.push(here);
        if next >= edges.len() {
            break;
        }
        proof {
            lemma_leaving(edges@, used@, here, 0);
            lemma_use(used@, next as int);
        }
        used.set(next, true);
        here = edges[next].to;
    }
    (corners, here)
}

/// A run of loops, each as a value.
pub open spec fn loop_views(rings: Seq<Vec<(usize, usize)>>) -> Seq<Seq<(usize, usize)>> {
    rings.map_values(|ring: Vec<(usize, usize)>| ring@)
}

/// Whether no edge has been used yet.
pub open spec fn fresh(n: nat) -> Seq<bool> {
    Seq::new(n, |i: int| false)
}

/// Every loop of a boundary.
fn find_loops(edges: &Vec<Edge>) -> (rings: Vec<Vec<(usize, usize)>>)
    ensures
        loop_views(rings@) == loops(edges@, fresh(edges@.len()), 0),
{
    let mut used: Vec<bool> = Vec::new();
    for i in 0..edges.len()
        invariant
            used@ =~= fresh(i as nat),
    {
        used.push(false);
    }
    let mut rings: Vec<Vec<(usize, usize)>> = Vec::new();
    let ghost goal = loops(edges@, used@, 0);
    assert(loop_views(rings@) =~= Seq::empty());
    assert(loop_views(rings@) + goal =~= goal);
    for start in 0..edges.len()
        invariant
            used.len() == edges.len(),
            loop_views(rings@) + loops(edges@, used@, start as nat) == goal,
    {
        if !used[start] {
            let ghost rest = loops(edges@, used@, start as nat);
            let (corners, end) = walk(edges, &mut used, start);
            let first = edges[start].from;
            if end.0 == first.0 && end.1 == first.1 && corners.len() >= 4 {
                let ghost before = loop_views(rings@);
                let ghost ring = corners@;
                rings.push(corners);
                assert(loop_views(rings@) =~= before.push(ring));
                assert(before.push(ring) + loops(edges@, used@, (start + 1) as nat) =~= before
                    + rest);
            }
        }
    }
    assert(loops(edges@, used@, edges@.len()) =~= Seq::empty());
    assert(loop_views(rings@) =~= goal);
    rings
}

/// Which way a length runs.
pub open spec fn sign(n: int) -> int {
    if n > 0 {
        1
    } else if n < 0 {
        -1
    } else {
        0
    }
}

/// Where an edge of a loop starts once it is moved to the right of the way it
/// runs. In screen coordinates that is `(x, y)` to `(-y, x)`.
pub open spec fn moved_edge(ring: Seq<(i64, i64)>, i: int, d: int) -> (int, int) {
    let (from, to) = (ring[i], ring[(i + 1) % ring.len() as int]);
    (from.0 - sign(to.1 - from.1) * d, from.1 + sign(to.0 - from.0) * d)
}

/// Where a corner of a loop lands once every edge has moved: where the edge
/// arriving and the edge leaving cross. One is level and one upright, so the
/// crossing is one coordinate from each.
pub open spec fn moved_corner(ring: Seq<(i64, i64)>, i: int, d: int) -> (int, int) {
    let n = ring.len() as int;
    let arriving = (i + n - 1) % n;
    let (before, here) = (moved_edge(ring, arriving, d), moved_edge(ring, i, d));
    if ring[arriving].1 == ring[i].1 {
        (here.0, before.1)
    } else {
        (before.0, here.1)
    }
}

/// A loop pulled in off the middle of the gutter.
pub open spec fn inset_of(ring: Seq<(i64, i64)>, d: int) -> Seq<(i64, i64)> {
    Seq::new(
        ring.len(),
        |i: int| (moved_corner(ring, i, d).0 as i64, moved_corner(ring, i, d).1 as i64),
    )
}

/// Whether a point lies where it can be drawn.
pub open spec fn drawn(p: (i64, i64)) -> bool {
    query::measured(p.0 as int) && query::measured(p.1 as int)
}

fn sign_of(from: i64, to: i64) -> (s: i64)
    ensures
        s == sign(to - from),
{
    if to > from {
        1
    } else if to < from {
        -1
    } else {
        0
    }
}

fn shift_edge(ring: &[(i64, i64)], i: usize, d: i64) -> (p: (i64, i64))
    requires
        i < ring@.len(),
        0 <= d <= FAR,
        forall|k: int| 0 <= k < ring@.len() ==> drawn(#[trigger] ring@[k]),
    ensures
        p.0 == moved_edge(ring@, i as int, d as int).0,
        p.1 == moved_edge(ring@, i as int, d as int).1,
{
    let n: usize = ring.len();
    let (from, to) = (ring[i], ring[next_on(i, n)]);
    assert(drawn(ring@[i as int]));
    let (across, down) = (sign_of(from.0, to.0), sign_of(from.1, to.1));
    (from.0 - down * d, from.1 + across * d)
}

/// Pull a closed ring in off the gutter's middle, so two boxes side by side
/// leave the other half of the gutter clear between their rings.
///
/// Every edge moves `d` toward the inside and the corners are put back where
/// the moved edges cross. Doing it per point instead would push a reflex corner
/// the wrong way, and a notch would close over the block.
pub fn inset(ring: &[(i64, i64)], d: i64) -> (moved: Vec<(i64, i64)>)
    requires
        0 <= d <= FAR,
        forall|k: int| 0 <= k < ring@.len() ==> drawn(#[trigger] ring@[k]),
    ensures
        moved@ == inset_of(ring@, d as int),
{
    let n: usize = ring.len();
    let mut moved: Vec<(i64, i64)> = Vec::new();
    for i in 0..n
        invariant
            n == ring@.len(),
            0 <= d <= FAR,
            forall|k: int| 0 <= k < ring@.len() ==> drawn(#[trigger] ring@[k]),
            moved@ =~= inset_of(ring@, d as int).take(i as int),
    {
        let arriving = prev_on(i, n);
        let before = shift_edge(ring, arriving, d);
        let here = shift_edge(ring, i, d);
        let corner = if ring[arriving].1 == ring[i].1 {
            (here.0, before.1)
        } else {
            (before.0, here.1)
        };
        moved.push(corner);
    }
    assert(inset_of(ring@, d as int).take(n as int) =~= inset_of(ring@, d as int));
    moved
}

/// A corner of a box's grid in content space: the middle of the gutter, which
/// is the one place a boundary can sit and mean the same thing from both sides.
pub open spec fn gutter(cells: CellsView, m: Metrics, corner: (usize, usize)) -> (int, int) {
    (
        cells.x + corner.0 * m.step_x() - m.gap as int / 2,
        cells.y + corner.1 * m.step_y() - m.gap as int / 2,
    )
}

/// The corners of a loop in content space.
pub open spec fn points(
    cells: CellsView,
    m: Metrics,
    ring: Seq<(usize, usize)>,
) -> Seq<(i64, i64)> {
    ring.map_values(
        |corner: (usize, usize)|
            (gutter(cells, m, corner).0 as i64, gutter(cells, m, corner).1 as i64),
    )
}

/// One loop of a boundary as it is drawn: only the corners it turns at, half of
/// its half of the gutter in from the middle.
pub open spec fn drawn_loop(
    cells: CellsView,
    m: Metrics,
    ring: Seq<(usize, usize)>,
) -> Seq<(i64, i64)> {
    inset_of(points(cells, m, turning(ring, ring.len())), m.gap as int / 4)
}

/// The ring round a box, in content space: one loop for the outside, and one
/// more for every hole strictly inside it.
pub open spec fn rings_of(cells: CellsView, m: Metrics) -> Seq<Seq<(i64, i64)>> {
    let edges = boundary(cells);
    loops(edges, fresh(edges.len()), 0).map_values(
        |ring: Seq<(usize, usize)>| drawn_loop(cells, m, ring),
    )
}

/// Whether a corner lies on a box's own grid.
pub open spec fn on_grid(cells: CellsView, corner: (usize, usize)) -> bool {
    corner.0 <= cells.cols && corner.1 <= cells.rows
}

pub open spec fn all_on_grid(cells: CellsView, ring: Seq<(usize, usize)>) -> bool {
    forall|i: int| 0 <= i < ring.len() ==> on_grid(cells, #[trigger] ring[i])
}

/// Whether every edge of a list joins corners of a box's own grid.
pub open spec fn edges_on_grid(cells: CellsView, edges: Seq<Edge>) -> bool {
    forall|i: int|
        0 <= i < edges.len() ==> on_grid(cells, (#[trigger] edges[i]).from) && on_grid(
            cells,
            edges[i].to,
        )
}

proof fn lemma_edges_on_grid(cells: CellsView, n: nat)
    requires
        cells.whole(),
        n <= cells.rows * cells.cols,
    ensures
        edges_on_grid(cells, edges_upto(cells, n)),
    decreases n,
{
    if n > 0 {
        lemma_edges_on_grid(cells, (n - 1) as nat);
        let before = edges_upto(cells, (n - 1) as nat);
        let (row, col) = ((n - 1) / cells.cols as int, (n - 1) % cells.cols as int);
        let own = cell_edges(cells, row, col);
        let all = edges_upto(cells, n);
        assert forall|i: int| 0 <= i < all.len() implies on_grid(cells, (#[trigger] all[i]).from)
            && on_grid(cells, all[i].to) by {
            if i < before.len() {
                assert(all[i] == before[i]);
            } else {
                assert(all[i] == own[i - before.len()]);
            }
        }
    }
}

proof fn lemma_walked_on_grid(
    cells: CellsView,
    edges: Seq<Edge>,
    used: Seq<bool>,
    corners: Seq<(usize, usize)>,
    first: (usize, usize),
    here: (usize, usize),
)
    requires
        used.len() == edges.len(),
        edges_on_grid(cells, edges),
        all_on_grid(cells, corners),
        on_grid(cells, here),
    ensures
        all_on_grid(cells, walked(edges, used, corners, first, here).1),
        walked(edges, used, corners, first, here).0.len() == edges.len(),
    decreases unused(used),
{
    if here != first {
        let e = leaving(edges, used, here, 0);
        lemma_leaving(edges, used, here, 0);
        if e < edges.len() {
            lemma_use(used, e as int);
            assert(on_grid(cells, edges[e as int].to));
            lemma_walked_on_grid(
                cells,
                edges,
                used.update(e as int, true),
                corners.push(here),
                first,
                edges[e as int].to,
            );
        }
    }
}

proof fn lemma_loops_on_grid(
    cells: CellsView,
    edges: Seq<Edge>,
    used: Seq<bool>,
    start: nat,
)
    requires
        used.len() == edges.len(),
        edges_on_grid(cells, edges),
    ensures
        forall|k: int|
            0 <= k < loops(edges, used, start).len() ==> all_on_grid(
                cells,
                #[trigger] loops(edges, used, start)[k],
            ),
    decreases edges.len() - start,
{
    if start < edges.len() {
        if used[start as int] {
            lemma_loops_on_grid(cells, edges, used, start + 1);
            assert(loops(edges, used, start) == loops(edges, used, start + 1));
        } else {
            let edge = edges[start as int];
            assert(on_grid(cells, edge.from) && on_grid(cells, edge.to));
            let (after, corners, end) = walked(
                edges,
                used.update(start as int, true),
                seq![edge.from],
                edge.from,
                edge.to,
            );
            lemma_walked_on_grid(
                cells,
                edges,
                used.update(start as int, true),
                seq![edge.from],
                edge.from,
                edge.to,
            );
            lemma_loops_on_grid(cells, edges, after, start + 1);
            let rest = loops(edges, after, start + 1);
            let all = loops(edges, used, start);
            assert forall|k: int| 0 <= k < all.len() implies all_on_grid(
                cells,
                #[trigger] all[k],
            ) by {
                if end == edge.from && corners.len() >= 4 {
                    assert(all == seq![corners] + rest);
                    if k > 0 {
                        assert(all[k] == rest[k - 1]);
                    } else {
                        assert(all[0] == corners);
                    }
                } else {
                    assert(all[k] == rest[k]);
                }
            }
        }
    }
}

proof fn lemma_turning_on_grid(cells: CellsView, ring: Seq<(usize, usize)>, n: nat)
    requires
        all_on_grid(cells, ring),
        n <= ring.len(),
    ensures
        all_on_grid(cells, turning(ring, n)),
    decreases n,
{
    if n > 0 {
        lemma_turning_on_grid(cells, ring, (n - 1) as nat);
        assert(on_grid(cells, ring[n - 1]));
    }
}

proof fn lemma_gutter(cells: CellsView, m: Metrics, corner: (usize, usize))
    requires
        cells.whole(),
        m.wf(),
        on_grid(cells, corner),
    ensures
        query::measured(gutter(cells, m, corner).0),
        query::measured(gutter(cells, m, corner).1),
{
    crate::geometry::lemma_cells(corner.0 as int, m.step_x());
    crate::geometry::lemma_cells(corner.1 as int, m.step_y());
}

/// The boundary of a box's cells, as closed rings in content space.
///
/// One ring for the outside, and one more for every hole strictly inside it -
/// the centre block standing in the middle of a box rather than against an edge
/// of it. Every corner is a right angle; rounding them is the drawing's job.
///
/// Points sit a quarter of a gap outside the tiles, so two boxes side by side
/// leave the other half of the gutter clear between their rings.
pub fn ring_of(cells: &Cells, m: &Metrics) -> (rings: Vec<Vec<(i64, i64)>>)
    requires
        cells@.whole(),
        m.wf(),
    ensures
        rings@.len() == rings_of(cells@, *m).len(),
        forall|k: int|
            0 <= k < rings@.len() ==> (#[trigger] rings@[k])@ == rings_of(cells@, *m)[k],
{
    let edges = collect_edges(cells);
    let found = find_loops(&edges);
    let ghost all = loops(edges@, fresh(edges@.len()), 0);
    proof {
        lemma_edges_on_grid(cells@, (cells.rows * cells.cols) as nat);
        lemma_loops_on_grid(cells@, edges@, fresh(edges@.len()), 0);
    }
    let mut rings: Vec<Vec<(i64, i64)>> = Vec::new();
    for k in 0..found.len()
        invariant
            cells@.whole(),
            m.wf(),
            all == loops(boundary(cells@), fresh(boundary(cells@).len()), 0),
            loop_views(found@) == all,
            forall|k: int| 0 <= k < all.len() ==> all_on_grid(cells@, #[trigger] all[k]),
            rings.len() == k,
            forall|i: int|
                0 <= i < k ==> (#[trigger] rings@[i])@ == rings_of(cells@, *m)[i],
    {
        assert(loop_views(found@)[k as int] == found@[k as int]@);
        let corners = corners_only(found[k].as_slice());
        proof {
            assert(all_on_grid(cells@, all[k as int]));
            lemma_turning_on_grid(cells@, all[k as int], all[k as int].len());
        }
        let ghost ring = points(cells@, *m, corners@);
        let mut drawn_at: Vec<(i64, i64)> = Vec::new();
        for i in 0..corners.len()
            invariant
                cells@.whole(),
                m.wf(),
                all_on_grid(cells@, corners@),
                ring == points(cells@, *m, corners@),
                drawn_at@ =~= ring.take(i as int),
                forall|k: int| 0 <= k < drawn_at@.len() ==> drawn(#[trigger] drawn_at@[k]),
        {
            let corner = corners[i];
            assert(on_grid(cells@, corners@[i as int]));
            proof {
                lemma_gutter(cells@, *m, corner);
                crate::geometry::lemma_cells(corner.0 as int, m.step_x());
                crate::geometry::lemma_cells(corner.1 as int, m.step_y());
            }
            let x: i64 = cells.x + corner.0 as i64 * (m.tile_w + m.gap) - m.gap / 2;
            let y: i64 = cells.y + corner.1 as i64 * (m.tile_h + m.gap) - m.gap / 2;
            drawn_at.push((x, y));
        }
        assert(drawn_at@ =~= ring);
        rings.push(inset(drawn_at.as_slice(), m.gap / 4));
    }
    rings
}

impl Layout {
    /// The ring around one box, panel-local, as closed rings of corners.
    ///
    /// More than one when the centre block stands wholly inside the box: an
    /// outer ring and a hole. Empty for a box with no tiles.
    pub fn band_ring(&self, band: usize, scroll: i64) -> (rings: Vec<Vec<(i64, i64)>>)
        requires
            self.wf(),
            query::measured(scroll as int),
        ensures
            ({
                let want = if band < self.bands@.len() {
                    rings_of(self.bands@[band as int].cells@, self.metrics)
                } else {
                    Seq::empty()
                };
                &&& rings@.len() == want.len()
                &&& forall|k: int|
                    0 <= k < rings@.len() ==> (#[trigger] rings@[k])@ == want[k].map_values(
                        |p: (i64, i64)| (p.0, (p.1 - scroll) as i64),
                    )
            }),
            all_within(rings@),
    {
        let mut moved: Vec<Vec<(i64, i64)>> = Vec::new();
        if band >= self.bands.len() {
            return moved;
        }
        let cells = &self.bands[band].cells;
        assert(self.bands@[band as int]@.wf());
        let rings = ring_of(cells, &self.metrics);
        let ghost want = rings_of(cells@, self.metrics);
        let ghost shift = |p: (i64, i64)| (p.0, (p.1 - scroll) as i64);
        for k in 0..rings.len()
            invariant
                self.wf(),
                query::measured(scroll as int),
                rings@.len() == want.len(),
                forall|i: int| 0 <= i < rings@.len() ==> (#[trigger] rings@[i])@ == want[i],
                moved@.len() == k,
                shift == (|p: (i64, i64)| (p.0, (p.1 - scroll) as i64)),
                forall|i: int|
                    0 <= i < k ==> (#[trigger] moved@[i])@ == want[i].map_values(shift),
                want == rings_of(cells@, self.metrics),
                cells@.whole(),
                all_within(moved@),
        {
            let ring = &rings[k];
            proof {
                lemma_rings_drawn(cells@, self.metrics, k as int);
            }
            let mut corners: Vec<(i64, i64)> = Vec::new();
            for i in 0..ring.len()
                invariant
                    query::measured(scroll as int),
                    forall|j: int| 0 <= j < ring@.len() ==> near(#[trigger] ring@[j]),
                    forall|j: int| 0 <= j < corners@.len() ==> within(#[trigger] corners@[j]),
                    shift == (|p: (i64, i64)| (p.0, (p.1 - scroll) as i64)),
                    corners@ =~= ring@.map_values(shift).take(i as int),
            {
                let p = ring[i];
                assert(near(ring@[i as int]));
                corners.push((p.0, p.1 - scroll));
            }
            assert(corners@ =~= ring@.map_values(shift));
            moved.push(corners);
        }
        moved
    }
}

spec fn near(p: (i64, i64)) -> bool {
    -2 * FAR <= p.0 <= 2 * FAR && -2 * FAR <= p.1 <= 2 * FAR
}

/// Whether a point lies where it can be drawn.
pub open spec fn within(p: (i64, i64)) -> bool {
    -4 * FAR <= p.0 <= 4 * FAR && -4 * FAR <= p.1 <= 4 * FAR
}

/// Whether every point of some rings lies where it can be drawn.
pub open spec fn all_within(rings: Seq<Vec<(i64, i64)>>) -> bool {
    forall|k: int, i: int|
        0 <= k < rings.len() && 0 <= i < rings[k]@.len() ==> within(#[trigger] rings[k]@[i])
}

/// Every corner of a drawn ring lies where it can be measured.
proof fn lemma_rings_drawn(cells: CellsView, m: Metrics, k: int)
    requires
        cells.whole(),
        m.wf(),
        0 <= k < rings_of(cells, m).len(),
    ensures
        forall|j: int|
            0 <= j < rings_of(cells, m)[k].len() ==> near(#[trigger] rings_of(cells, m)[k][j]),
{
    let edges = boundary(cells);
    let all = loops(edges, fresh(edges.len()), 0);
    lemma_edges_on_grid(cells, (cells.rows * cells.cols) as nat);
    lemma_loops_on_grid(cells, edges, fresh(edges.len()), 0);
    assert(all_on_grid(cells, all[k]));
    lemma_turning_on_grid(cells, all[k], all[k].len());
    let corners = turning(all[k], all[k].len());
    let ring = points(cells, m, corners);
    assert forall|j: int| 0 <= j < ring.len() implies drawn(#[trigger] ring[j]) by {
        assert(on_grid(cells, corners[j]));
        lemma_gutter(cells, m, corners[j]);
    }
    let moved = inset_of(ring, m.gap as int / 4);
    assert(rings_of(cells, m)[k] == moved);
    assert forall|j: int| 0 <= j < moved.len() implies near(#[trigger] moved[j]) by {
        let n = ring.len() as int;
        let arriving = (j + n - 1) % n;
        assert(0 <= arriving < n);
        assert(drawn(ring[j]) && drawn(ring[arriving]));
    }
}

/// The corners a loop turns at lie on the box's own grid.
pub proof fn lemma_turns_on_grid(cells: CellsView, k: int)
    requires
        cells.whole(),
        0 <= k < loops(boundary(cells), fresh(boundary(cells).len()), 0).len(),
    ensures
        ({
            let corners = loops(boundary(cells), fresh(boundary(cells).len()), 0)[k];
            all_on_grid(cells, turning(corners, corners.len()))
        }),
{
    let edges = boundary(cells);
    let all = loops(edges, fresh(edges.len()), 0);
    lemma_edges_on_grid(cells, (cells.rows * cells.cols) as nat);
    lemma_loops_on_grid(cells, edges, fresh(edges.len()), 0);
    assert(all_on_grid(cells, all[k]));
    lemma_turning_on_grid(cells, all[k], all[k].len());
}

/// Whether a length lies in the gutter before some column or row of a grid, the
/// gutters at either end included.
pub open spec fn in_gutter(at: int, start: int, step: int, gap: int, n: int) -> bool {
    exists|k: int|
        0 <= k <= n && start + #[trigger] (k * step) - gap <= at <= start + k * step
}

/// A ring never crosses a tile: every corner of it lies in the gutters between
/// the rows and columns of its box, or in those around the outside.
pub proof fn ring_corners_stay_in_the_gutters(cells: CellsView, m: Metrics, k: int, j: int)
    requires
        cells.whole(),
        m.wf(),
        0 <= k < rings_of(cells, m).len(),
        0 <= j < rings_of(cells, m)[k].len(),
    ensures
        ({
            let p = rings_of(cells, m)[k][j];
            let gap = m.gap as int;
            &&& in_gutter(p.0 as int, cells.x as int, m.step_x(), gap, cells.cols as int)
            &&& in_gutter(p.1 as int, cells.y as int, m.step_y(), gap, cells.rows as int)
        }),
{
    let edges = boundary(cells);
    let all = loops(edges, fresh(edges.len()), 0);
    lemma_edges_on_grid(cells, (cells.rows * cells.cols) as nat);
    lemma_loops_on_grid(cells, edges, fresh(edges.len()), 0);
    assert(all_on_grid(cells, all[k]));
    lemma_turning_on_grid(cells, all[k], all[k].len());
    let corners = turning(all[k], all[k].len());
    let ring = points(cells, m, corners);
    let d = m.gap as int / 4;
    let n = ring.len() as int;
    let arriving = (j + n - 1) % n;
    assert(rings_of(cells, m)[k] == inset_of(ring, d));
    assert(0 <= arriving < n);
    let (a, b) = (corners[arriving], corners[j]);
    assert(on_grid(cells, a) && on_grid(cells, b));
    lemma_gutter(cells, m, a);
    lemma_gutter(cells, m, b);
    assert(ring[arriving] == (gutter(cells, m, a).0 as i64, gutter(cells, m, a).1 as i64));
    assert(ring[j] == (gutter(cells, m, b).0 as i64, gutter(cells, m, b).1 as i64));
    let moved = moved_corner(ring, j, d);
    let (col, row) = if ring[arriving].1 == ring[j].1 {
        (b.0 as int, a.1 as int)
    } else {
        (a.0 as int, b.1 as int)
    };
    let (x, y) = (cells.x + col * m.step_x(), cells.y + row * m.step_y());
    assert(x - m.gap <= moved.0 <= x);
    assert(y - m.gap <= moved.1 <= y);
}

} // verus!
