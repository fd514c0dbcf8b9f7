//! Which side of the gutter a ring runs down.

use vstd::prelude::*;
use crate::geometry;
use crate::geometry::Metrics;
use crate::layout::CellsView;
use crate::loops;
use crate::ring;
use crate::ring::Edge;

verus! {

/// How many of the first `n` corners of a loop turn.
spec fn rank(corners: Seq<(usize, usize)>, n: int) -> int {
    ring::turning(corners, n as nat).len() as int
}

proof fn lemma_rank(corners: Seq<(usize, usize)>, a: int, b: int)
    requires
        0 <= a <= b,
    ensures
        rank(corners, a) <= rank(corners, b),
        b < corners.len() ==> rank(corners, b + 1) == rank(corners, b) + (if ring::turns(
            corners,
            b,
        ) {
            1int
        } else {
            0int
        }),
    decreases b - a,
{
    if a < b {
        lemma_rank(corners, a, b - 1);
    }
}

/// Where on a loop the `i`th of the corners it turns at stands, among the first
/// `n`.
pub open spec fn turn_at(corners: Seq<(usize, usize)>, n: nat, i: int) -> int
    decreases n,
{
    if n == 0 {
        0
    } else if ring::turns(corners, n - 1) && i == ring::turning(
        corners,
        (n - 1) as nat,
    ).len() {
        n - 1
    } else {
        turn_at(corners, (n - 1) as nat, i)
    }
}

proof fn lemma_turn_at(corners: Seq<(usize, usize)>, n: nat, i: int)
    requires
        0 <= i < ring::turning(corners, n).len(),
    ensures
        0 <= turn_at(corners, n, i) < n,
        ring::turns(corners, turn_at(corners, n, i)),
        ring::turning(corners, n)[i] == corners[turn_at(corners, n, i)],
        rank(corners, turn_at(corners, n, i)) == i,
    decreases n,
{
    let before = ring::turning(corners, (n - 1) as nat);
    if !(ring::turns(corners, n - 1) && i == before.len()) {
        lemma_turn_at(corners, (n - 1) as nat, i);
    }
}

/// Whether one corner lies some way from another: right, down, left or up.
pub open spec fn beyond(from: (usize, usize), to: (usize, usize), way: int) -> bool {
    ||| way == 0 && to.0 > from.0 && to.1 == from.1
    ||| way == 1 && to.1 > from.1 && to.0 == from.0
    ||| way == 2 && to.0 < from.0 && to.1 == from.1
    ||| way == 3 && to.1 < from.1 && to.0 == from.0
}

spec fn looped(cells: CellsView, edges: Seq<Edge>, corners: Seq<(usize, usize)>) -> bool {
    loops::all_legal(cells, edges) && loops::closed_loop(edges, corners)
}

proof fn lemma_step(cells: CellsView, edges: Seq<Edge>, corners: Seq<(usize, usize)>, t: int)
    requires
        looped(cells, edges, corners),
        0 <= t < corners.len(),
    ensures
        ({
            let n = corners.len() as int;
            let next = if t == n - 1 {
                0
            } else {
                t + 1
            };
            let last = if t == 0 {
                n - 1
            } else {
                t - 1
            };
            &&& beyond(corners[t], corners[next], loops::way(corners, t))
            &&& ring::turns(corners, t) <==> loops::way(corners, last) != loops::way(corners, t)
            &&& ring::turns(corners, t) ==> loops::way(corners, last) % 2 != loops::way(
                corners,
                t,
            ) % 2
            &&& loops::joined(edges, corners[t], corners[next])
        }),
{
    let n = corners.len() as int;
    loops::lemma_ways(cells, edges, corners, t);
    loops::lemma_next(corners.len(), t);
    let p = (t + n - 1) % n;
    assert(p == if t == 0 {
        n - 1
    } else {
        t - 1
    }) by (nonlinear_arith)
        requires
            p == (t + n - 1) % n,
            0 <= t < n,
    ;
}

/// With no turn on the way, a loop keeps its heading.
proof fn lemma_straight(
    cells: CellsView,
    edges: Seq<Edge>,
    corners: Seq<(usize, usize)>,
    p: int,
    q: int,
)
    requires
        looped(cells, edges, corners),
        0 <= p <= q < corners.len(),
        forall|t: int| p < t <= q ==> !#[trigger] ring::turns(corners, t),
    ensures
        loops::way(corners, q) == loops::way(corners, p),
        p < q ==> beyond(corners[p], corners[q], loops::way(corners, p)),
    decreases q - p,
{
    if p < q {
        lemma_straight(cells, edges, corners, p, q - 1);
        lemma_step(cells, edges, corners, q);
        lemma_step(cells, edges, corners, q - 1);
        assert(!ring::turns(corners, q));
    }
}

/// The heading a loop leaves the `i`th of its turns by.
pub open spec fn side_way(corners: Seq<(usize, usize)>, i: int) -> int {
    loops::way(corners, turn_at(corners, corners.len(), i))
}

/// The corner after the `i`th turn lies straight ahead of it, and the loop
/// arrives there on the heading it left by.
proof fn lemma_run(cells: CellsView, edges: Seq<Edge>, corners: Seq<(usize, usize)>, i: int)
    requires
        looped(cells, edges, corners),
        0 <= i < ring::turning(corners, corners.len()).len(),
        ring::turning(corners, corners.len()).len() >= 2,
    ensures
        ({
            let turns = ring::turning(corners, corners.len());
            let next = if i == turns.len() - 1 {
                0
            } else {
                i + 1
            };
            &&& beyond(turns[i], turns[next], side_way(corners, i))
            &&& side_way(corners, i) % 2 != side_way(corners, next) % 2
        }),
{
    let n = corners.len();
    let turns = ring::turning(corners, n);
    let p = turn_at(corners, n, i);
    lemma_turn_at(corners, n, i);
    lemma_rank(corners, p, p);
    if i < turns.len() - 1 {
        let q = turn_at(corners, n, i + 1);
        lemma_turn_at(corners, n, i + 1);
        if q <= p {
            lemma_rank(corners, q, p);
        }
        assert forall|t: int| p < t <= q - 1 implies !#[trigger] ring::turns(corners, t) by {
            lemma_rank(corners, p + 1, t);
            lemma_rank(corners, t + 1, q);
        }
        lemma_straight(cells, edges, corners, p, q - 1);
        lemma_step(cells, edges, corners, q - 1);
        lemma_step(cells, edges, corners, q);
    } else {
        let q = turn_at(corners, n, 0);
        lemma_turn_at(corners, n, 0);
        assert forall|t: int| p < t <= n - 1 implies !#[trigger] ring::turns(corners, t) by {
            lemma_rank(corners, p + 1, t);
            lemma_rank(corners, t + 1, n as int);
        }
        lemma_straight(cells, edges, corners, p, n - 1);
        lemma_step(cells, edges, corners, n - 1);
        if q > 0 {
            assert forall|t: int| 0 <= t <= q - 1 implies !#[trigger] ring::turns(corners, t) by {
                lemma_rank(corners, t + 1, q);
                lemma_rank(corners, 0, t);
            }
            assert(!ring::turns(corners, 0));
            lemma_step(cells, edges, corners, 0);
            lemma_straight(cells, edges, corners, 0, q - 1);
            lemma_step(cells, edges, corners, q - 1);
        }
        lemma_step(cells, edges, corners, q);
    }
}

/// Whether a side of a ring, from one drawn corner to the next, runs on the
/// filled side of the gutter it stands in: a quarter of a gap off the middle,
/// towards the cell the boundary belongs to and away from whatever is across
/// it. `corner` is the corner of the grid the side starts at.
pub open spec fn runs_inside(
    cells: CellsView,
    m: Metrics,
    corner: (usize, usize),
    p: (i64, i64),
    q: (i64, i64),
) -> bool {
    let (c, r) = (corner.0 as int, corner.1 as int);
    let (x, y) = ring::gutter(cells, m, corner);
    let d = m.gap as int / 4;
    ||| p.1 == q.1 && p.1 == y + d && cells.has(r, c) && !cells.has(r - 1, c)
    ||| p.0 == q.0 && p.0 == x - d && cells.has(r, c - 1) && !cells.has(r, c)
    ||| p.1 == q.1 && p.1 == y - d && cells.has(r - 1, c - 1) && !cells.has(r, c - 1)
    ||| p.0 == q.0 && p.0 == x + d && cells.has(r - 1, c) && !cells.has(r - 1, c - 1)
}

/// The corner after one on a ring of `n`.
pub open spec fn next_on(i: int, n: nat) -> int {
    if i == n - 1 {
        0
    } else {
        i + 1
    }
}

proof fn lemma_gutters_apart(
    cells: CellsView,
    m: Metrics,
    a: (usize, usize),
    b: (usize, usize),
    way: int,
)
    requires
        cells.whole(),
        m.wf(),
        ring::on_grid(cells, a),
        ring::on_grid(cells, b),
        beyond(a, b, way),
    ensures
        ({
            let (p, q) = (ring::gutter(cells, m, a), ring::gutter(cells, m, b));
            &&& way == 0 ==> q.0 > p.0 && q.1 == p.1
            &&& way == 1 ==> q.1 > p.1 && q.0 == p.0
            &&& way == 2 ==> q.0 < p.0 && q.1 == p.1
            &&& way == 3 ==> q.1 < p.1 && q.0 == p.0
            &&& crate::query::measured(p.0) && crate::query::measured(p.1)
            &&& crate::query::measured(q.0) && crate::query::measured(q.1)
        }),
{
    geometry::lemma_cells(a.0 as int, m.step_x());
    geometry::lemma_cells(b.0 as int, m.step_x());
    geometry::lemma_cells(a.1 as int, m.step_y());
    geometry::lemma_cells(b.1 as int, m.step_y());
    let (sx, sy) = (m.step_x(), m.step_y());
    assert(a.0 < b.0 ==> a.0 * sx < b.0 * sx) by (nonlinear_arith)
        requires
            sx > 0,
    ;
    assert(b.0 < a.0 ==> b.0 * sx < a.0 * sx) by (nonlinear_arith)
        requires
            sx > 0,
    ;
    assert(a.1 < b.1 ==> a.1 * sy < b.1 * sy) by (nonlinear_arith)
        requires
            sy > 0,
    ;
    assert(b.1 < a.1 ==> b.1 * sy < a.1 * sy) by (nonlinear_arith)
        requires
            sy > 0,
    ;
}

/// Every side of a ring is level or upright, and runs a quarter of a gap in from
/// the middle of its gutter on the side of its own box. So two boxes side by
/// side leave half of the gutter between them clear.
pub proof fn a_ring_keeps_to_its_own_side_of_the_gutter(
    cells: CellsView,
    m: Metrics,
    k: int,
    i: int,
)
    requires
        cells.whole(),
        m.wf(),
        0 <= k < ring::rings_of(cells, m).len(),
        0 <= i < ring::rings_of(cells, m)[k].len(),
    ensures
        ({
            let drawn = ring::rings_of(cells, m)[k];
            let corners = loops::loops_of(cells)[k];
            let turns = ring::turning(corners, corners.len());
            &&& drawn.len() == turns.len()
            &&& runs_inside(
                cells,
                m,
                turns[i],
                drawn[i],
                drawn[next_on(i, drawn.len())],
            )
        }),
{
    let edges = ring::boundary(cells);
    let corners = loops::loops_of(cells)[k];
    assert(looped(cells, edges, corners)) by {
        loops::every_ring_closes(cells);
        loops::lemma_boundary_legal(cells, (cells.rows * cells.cols) as nat);
    }
    loops::a_ring_turns_an_even_number_of_corners(cells, k);
    ring::lemma_turns_on_grid(cells, k);
    assert(ring::rings_of(cells, m)[k] == ring::drawn_loop(cells, m, corners));
    lemma_loop_inside(cells, m, edges, corners, i);
}

proof fn lemma_loop_inside(
    cells: CellsView,
    m: Metrics,
    edges: Seq<Edge>,
    corners: Seq<(usize, usize)>,
    i: int,
)
    requires
        cells.whole(),
        m.wf(),
        looped(cells, edges, corners),
        ring::all_on_grid(cells, ring::turning(corners, corners.len())),
        ring::turning(corners, corners.len()).len() >= 2,
        0 <= i < ring::turning(corners, corners.len()).len(),
    ensures
        ({
            let drawn = ring::drawn_loop(cells, m, corners);
            let turns = ring::turning(corners, corners.len());
            &&& drawn.len() == turns.len()
            &&& runs_inside(cells, m, turns[i], drawn[i], drawn[next_on(i, drawn.len())])
        }),
{
    let turns = ring::turning(corners, corners.len());
    let j = next_on(i, turns.len());
    let h = if i == 0 {
        turns.len() - 1
    } else {
        i - 1
    };
    lemma_run(cells, edges, corners, h);
    lemma_run(cells, edges, corners, i);
    lemma_run(cells, edges, corners, j);
    lemma_filled(cells, edges, corners, i);
    lemma_turns_inside(
        cells,
        m,
        turns,
        i,
        side_way(corners, h),
        side_way(corners, i),
        side_way(corners, j),
    );
}

/// Whether the cell on the right of a side is filled and the one on its left is
/// not.
spec fn filled_beside(cells: CellsView, corner: (usize, usize), way: int) -> bool {
    let (c, r) = (corner.0 as int, corner.1 as int);
    ||| way == 0 && cells.has(r, c) && !cells.has(r - 1, c)
    ||| way == 1 && cells.has(r, c - 1) && !cells.has(r, c)
    ||| way == 2 && cells.has(r - 1, c - 1) && !cells.has(r, c - 1)
    ||| way == 3 && cells.has(r - 1, c) && !cells.has(r - 1, c - 1)
}

proof fn lemma_turns_inside(
    cells: CellsView,
    m: Metrics,
    turns: Seq<(usize, usize)>,
    i: int,
    before: int,
    way: int,
    after: int,
)
    requires
        cells.whole(),
        m.wf(),
        ring::all_on_grid(cells, turns),
        0 <= i < turns.len(),
        ({
            let n = turns.len();
            let j = next_on(i, n);
            let h = if i == 0 {
                n - 1
            } else {
                i - 1
            };
            &&& beyond(turns[h], turns[i], before)
            &&& beyond(turns[i], turns[j], way)
            &&& beyond(turns[j], turns[next_on(j, n)], after)
        }),
        before % 2 != way % 2,
        way % 2 != after % 2,
        filled_beside(cells, turns[i], way),
    ensures
        ({
            let drawn = ring::inset_of(ring::points(cells, m, turns), m.gap as int / 4);
            &&& drawn.len() == turns.len()
            &&& runs_inside(cells, m, turns[i], drawn[i], drawn[next_on(i, drawn.len())])
        }),
{
    let n = turns.len();
    let points = ring::points(cells, m, turns);
    let j = next_on(i, n);
    let h = if i == 0 {
        n - 1
    } else {
        i - 1
    };
    lemma_headed(cells, m, turns, h, i, before);
    lemma_headed(cells, m, turns, i, j, way);
    lemma_headed(cells, m, turns, j, next_on(j, n), after);
    lemma_side(points, i, m.gap as int / 4, before, way, after);
    assert(ring::on_grid(cells, turns[i]) && ring::on_grid(cells, turns[j]));
    lemma_gutters_apart(cells, m, turns[i], turns[j], way);
    assert(points[i] == (
        ring::gutter(cells, m, turns[i]).0 as i64,
        ring::gutter(cells, m, turns[i]).1 as i64,
    ));
}

/// Whether one point lies some way from another.
spec fn headed(from: (i64, i64), to: (i64, i64), way: int) -> bool {
    ||| way == 0 && to.0 > from.0 && to.1 == from.1
    ||| way == 1 && to.1 > from.1 && to.0 == from.0
    ||| way == 2 && to.0 < from.0 && to.1 == from.1
    ||| way == 3 && to.1 < from.1 && to.0 == from.0
}

proof fn lemma_headed(
    cells: CellsView,
    m: Metrics,
    turns: Seq<(usize, usize)>,
    a: int,
    b: int,
    way: int,
)
    requires
        cells.whole(),
        m.wf(),
        0 <= a < turns.len(),
        0 <= b < turns.len(),
        ring::all_on_grid(cells, turns),
        beyond(turns[a], turns[b], way),
    ensures
        headed(ring::points(cells, m, turns)[a], ring::points(cells, m, turns)[b], way),
        ring::drawn(ring::points(cells, m, turns)[a]),
{
    assert(ring::on_grid(cells, turns[a]) && ring::on_grid(cells, turns[b]));
    lemma_gutters_apart(cells, m, turns[a], turns[b], way);
}

/// Where a side lies once it is moved to the right of the way it runs.
proof fn lemma_side(points: Seq<(i64, i64)>, i: int, d: int, before: int, way: int, after: int)
    requires
        0 <= i < points.len(),
        0 <= d <= crate::geometry::REACH,
        ({
            let n = points.len();
            let j = next_on(i, n);
            let h = if i == 0 {
                n - 1
            } else {
                i - 1
            };
            &&& headed(points[h], points[i], before)
            &&& headed(points[i], points[j], way)
            &&& headed(points[j], points[next_on(j, n)], after)
            &&& ring::drawn(points[i])
            &&& ring::drawn(points[j])
            &&& ring::drawn(points[h])
        }),
        before % 2 != way % 2,
        way % 2 != after % 2,
    ensures
        ({
            let moved = ring::inset_of(points, d);
            let (p, q) = (moved[i], moved[next_on(i, points.len())]);
            &&& way == 0 ==> p.1 == q.1 && p.1 == points[i].1 + d
            &&& way == 1 ==> p.0 == q.0 && p.0 == points[i].0 - d
            &&& way == 2 ==> p.1 == q.1 && p.1 == points[i].1 - d
            &&& way == 3 ==> p.0 == q.0 && p.0 == points[i].0 + d
        }),
{
    let n = points.len();
    let j = next_on(i, n);
    lemma_around(n, i);
    lemma_around(n, j);
    let h = if i == 0 {
        n - 1
    } else {
        i - 1
    };
    lemma_around(n, h);
    let (p, q) = (ring::moved_corner(points, i, d), ring::moved_corner(points, j, d));
    assert(ring::inset_of(points, d)[i] == (p.0 as i64, p.1 as i64));
    assert(ring::inset_of(points, d)[j] == (q.0 as i64, q.1 as i64));
    let here = ring::moved_edge(points, i, d);
    if way == 0 || way == 2 {
        assert(points[h].1 != points[i].1);
        assert(p.1 == here.1);
        assert(q.1 == here.1);
        assert(here.1 == points[i].1 + (if way == 0 {
            d
        } else {
            -d
        }));
    } else {
        assert(points[h].1 == points[i].1);
        assert(p.0 == here.0);
        assert(q.0 == here.0);
        assert(here.0 == points[i].0 + (if way == 1 {
            -d
        } else {
            d
        }));
    }
}

/// The cell on the right of a side is filled, and the one on its left is not.
proof fn lemma_filled(cells: CellsView, edges: Seq<Edge>, corners: Seq<(usize, usize)>, i: int)
    requires
        looped(cells, edges, corners),
        0 <= i < ring::turning(corners, corners.len()).len(),
    ensures
        filled_beside(
            cells,
            ring::turning(corners, corners.len())[i],
            side_way(corners, i),
        ),
{
    let at = turn_at(corners, corners.len(), i);
    lemma_turn_at(corners, corners.len(), i);
    lemma_step(cells, edges, corners, at);
    let to = corners[next_on(at, corners.len())];
    let e = choose|e: int|
        0 <= e < edges.len() && (#[trigger] edges[e]).from == corners[at] && edges[e].to == to;
    assert(loops::legal(cells, edges[e]));
}

proof fn lemma_around(n: nat, i: int)
    requires
        0 <= i < n,
    ensures
        (i + 1) % n as int == next_on(i, n),
        (i + n - 1) % n as int == (if i == 0 {
            n - 1
        } else {
            i - 1
        }),
{
    loops::lemma_next(n, i);
    let p = (i + n - 1) % n as int;
    assert(p == if i == 0 {
        n - 1
    } else {
        i - 1
    }) by (nonlinear_arith)
        requires
            p == (i + n - 1) % n as int,
            0 <= i < n,
    ;
}

} // verus!
