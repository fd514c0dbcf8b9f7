//! Why every ring closes, and what shape it comes out.

use vstd::prelude::*;
use crate::layout::CellsView;
use crate::ring;
use crate::ring::Edge;

verus! {

/// How many edges of a list leave a corner.
pub open spec fn tails(edges: Seq<Edge>, v: (usize, usize)) -> nat
    decreases edges.len(),
{
    if edges.len() == 0 {
        0
    } else {
        tails(edges.drop_last(), v) + one_if(edges.last().from == v)
    }
}

/// How many edges of a list arrive at a corner.
pub open spec fn heads(edges: Seq<Edge>, v: (usize, usize)) -> nat
    decreases edges.len(),
{
    if edges.len() == 0 {
        0
    } else {
        heads(edges.drop_last(), v) + one_if(edges.last().to == v)
    }
}

pub open spec fn one_if(b: bool) -> nat {
    if b {
        1
    } else {
        0
    }
}

/// Whether as many edges leave every corner as arrive at it.
pub open spec fn balanced(edges: Seq<Edge>) -> bool {
    forall|v: (usize, usize)| #[trigger] tails(edges, v) == heads(edges, v)
}

proof fn lemma_concat(a: Seq<Edge>, b: Seq<Edge>, v: (usize, usize))
    ensures
        tails(a + b, v) == tails(a, v) + tails(b, v),
        heads(a + b, v) == heads(a, v) + heads(b, v),
    decreases b.len(),
{
    if b.len() == 0 {
        assert(a + b =~= a);
    } else {
        assert((a + b).drop_last() =~= a + b.drop_last());
        lemma_concat(a, b.drop_last(), v);
    }
}

proof fn lemma_side(outside: bool, from: (int, int), to: (int, int), v: (usize, usize))
    requires
        0 <= from.0 <= usize::MAX,
        0 <= from.1 <= usize::MAX,
        0 <= to.0 <= usize::MAX,
        0 <= to.1 <= usize::MAX,
    ensures
        tails(ring::side_if(outside, from, to), v) == one_if(
            outside && v.0 == from.0 && v.1 == from.1,
        ),
        heads(ring::side_if(outside, from, to), v) == one_if(
            outside && v.0 == to.0 && v.1 == to.1,
        ),
{
    let side = ring::side_if(outside, from, to);
    if outside {
        assert(side.drop_last() =~= Seq::empty());
        assert(tails(side.drop_last(), v) == 0 && heads(side.drop_last(), v) == 0);
    }
}

/// How many of a cell's boundary edges leave a corner.
spec fn cell_tails(cells: CellsView, row: int, col: int, v: (usize, usize)) -> nat {
    if !cells.has(row, col) {
        0
    } else {
        one_if(!cells.has(row - 1, col) && v.0 == col && v.1 == row) + one_if(
            !cells.has(row, col + 1) && v.0 == col + 1 && v.1 == row,
        ) + one_if(!cells.has(row + 1, col) && v.0 == col + 1 && v.1 == row + 1) + one_if(
            !cells.has(row, col - 1) && v.0 == col && v.1 == row + 1,
        )
    }
}

spec fn cell_heads(cells: CellsView, row: int, col: int, v: (usize, usize)) -> nat {
    if !cells.has(row, col) {
        0
    } else {
        one_if(!cells.has(row - 1, col) && v.0 == col + 1 && v.1 == row) + one_if(
            !cells.has(row, col + 1) && v.0 == col + 1 && v.1 == row + 1,
        ) + one_if(!cells.has(row + 1, col) && v.0 == col && v.1 == row + 1) + one_if(
            !cells.has(row, col - 1) && v.0 == col && v.1 == row,
        )
    }
}

proof fn lemma_cell_counts(cells: CellsView, row: int, col: int, v: (usize, usize))
    requires
        cells.whole(),
    ensures
        tails(ring::cell_edges(cells, row, col), v) == cell_tails(cells, row, col, v),
        heads(ring::cell_edges(cells, row, col), v) == cell_heads(cells, row, col, v),
{
    if cells.has(row, col) {
        let a = ring::side_if(!cells.has(row - 1, col), (col, row), (col + 1, row));
        let b = ring::side_if(!cells.has(row, col + 1), (col + 1, row), (col + 1, row + 1));
        let c = ring::side_if(!cells.has(row + 1, col), (col + 1, row + 1), (col, row + 1));
        let d = ring::side_if(!cells.has(row, col - 1), (col, row + 1), (col, row));
        lemma_side(!cells.has(row - 1, col), (col, row), (col + 1, row), v);
        lemma_side(!cells.has(row, col + 1), (col + 1, row), (col + 1, row + 1), v);
        lemma_side(!cells.has(row + 1, col), (col + 1, row + 1), (col, row + 1), v);
        lemma_side(!cells.has(row, col - 1), (col, row + 1), (col, row), v);
        lemma_concat(a, b, v);
        lemma_concat(a + b, c, v);
        lemma_concat(a + b + c, d, v);
    }
}

/// Whether a cell is among the first `n`, in reading order.
spec fn among(cells: CellsView, row: int, col: int, n: int) -> bool {
    0 <= row < cells.rows && 0 <= col < cells.cols && row * cells.cols + col < n
}

proof fn lemma_among(cells: CellsView, row: int, col: int, n: int)
    requires
        cells.cols > 0,
        0 <= n,
    ensures
        among(cells, row, col, n + 1) == (among(cells, row, col, n) || (row == n / cells.cols as int
            && col == n % cells.cols as int && 0 <= row < cells.rows)),
        (row == n / cells.cols as int && col == n % cells.cols as int) ==> !among(
            cells,
            row,
            col,
            n,
        ),
{
    let w = cells.cols as int;
    vstd::arithmetic::div_mod::lemma_fundamental_div_mod(n, w);
    assert(w * (n / w) == (n / w) * w) by (nonlinear_arith);
    if 0 <= col < w && row * w + col == n {
        vstd::arithmetic::div_mod::lemma_fundamental_div_mod_converse(n, w, row, col);
    }
    assert(0 <= n % w < w);
}

/// What the cells round a corner give it, among the first `n` cells.
spec fn corner_tails(cells: CellsView, v: (usize, usize), n: int) -> nat {
    let (c, r) = (v.0 as int, v.1 as int);
    one_if(cells.has(r, c) && !cells.has(r - 1, c) && among(cells, r, c, n)) + one_if(
        cells.has(r, c - 1) && !cells.has(r, c) && among(cells, r, c - 1, n),
    ) + one_if(
        cells.has(r - 1, c - 1) && !cells.has(r, c - 1) && among(cells, r - 1, c - 1, n),
    ) + one_if(cells.has(r - 1, c) && !cells.has(r - 1, c - 1) && among(cells, r - 1, c, n))
}

spec fn corner_heads(cells: CellsView, v: (usize, usize), n: int) -> nat {
    let (c, r) = (v.0 as int, v.1 as int);
    one_if(cells.has(r, c - 1) && !cells.has(r - 1, c - 1) && among(cells, r, c - 1, n)) + one_if(
        cells.has(r - 1, c - 1) && !cells.has(r - 1, c) && among(cells, r - 1, c - 1, n),
    ) + one_if(cells.has(r - 1, c) && !cells.has(r, c) && among(cells, r - 1, c, n)) + one_if(
        cells.has(r, c) && !cells.has(r, c - 1) && among(cells, r, c, n),
    )
}

proof fn lemma_corner_counts(cells: CellsView, v: (usize, usize), n: nat)
    requires
        cells.whole(),
        n <= cells.rows * cells.cols,
    ensures
        tails(ring::edges_upto(cells, n), v) == corner_tails(cells, v, n as int),
        heads(ring::edges_upto(cells, n), v) == corner_heads(cells, v, n as int),
    decreases n,
{
    let (c, r) = (v.0 as int, v.1 as int);
    if n == 0 {
        assert forall|row: int, col: int| !among(cells, row, col, 0) by {
            if 0 <= row < cells.rows && 0 <= col < cells.cols {
                assert(row * cells.cols >= 0) by (nonlinear_arith)
                    requires
                        row >= 0,
                        cells.cols >= 0,
                ;
            }
        }
    } else {
        let k = (n - 1) as nat;
        lemma_corner_counts(cells, v, k);
        if cells.cols == 0 {
            assert(cells.rows * cells.cols == 0) by (nonlinear_arith)
                requires
                    cells.cols == 0,
            ;
        }
        let (row, col) = (k as int / cells.cols as int, k as int % cells.cols as int);
        assert(0 <= row < cells.rows) by (nonlinear_arith)
            requires
                0 <= k < cells.rows * cells.cols,
                cells.cols > 0,
                row == k as int / cells.cols as int,
        ;
        lemma_cell_counts(cells, row, col, v);
        lemma_concat(ring::edges_upto(cells, k), ring::cell_edges(cells, row, col), v);
        lemma_among(cells, r, c, k as int);
        lemma_among(cells, r, c - 1, k as int);
        lemma_among(cells, r - 1, c - 1, k as int);
        lemma_among(cells, r - 1, c, k as int);
    }
}

/// Every corner of a shape's boundary has as many edges leaving as arriving.
pub proof fn boundary_is_balanced(cells: CellsView)
    requires
        cells.whole(),
    ensures
        balanced(ring::boundary(cells)),
{
    let n = (cells.rows * cells.cols) as nat;
    assert forall|v: (usize, usize)| #[trigger] tails(ring::boundary(cells), v) == heads(
        ring::boundary(cells),
        v,
    ) by {
        lemma_corner_counts(cells, v, n);
        let (c, r) = (v.0 as int, v.1 as int);
        lemma_all_among(cells, r, c);
        lemma_all_among(cells, r, c - 1);
        lemma_all_among(cells, r - 1, c - 1);
        lemma_all_among(cells, r - 1, c);
    }
}

proof fn lemma_all_among(cells: CellsView, row: int, col: int)
    ensures
        cells.has(row, col) ==> among(cells, row, col, (cells.rows * cells.cols) as int),
{
    if cells.has(row, col) {
        ring::lemma_index(row, col, cells.rows as int, cells.cols as int);
    }
}

/// How many used edges leave a corner.
pub open spec fn used_tails(edges: Seq<Edge>, used: Seq<bool>, v: (usize, usize)) -> nat
    decreases edges.len(),
{
    if edges.len() == 0 {
        0
    } else {
        used_tails(edges.drop_last(), used.drop_last(), v) + one_if(
            used.last() && edges.last().from == v,
        )
    }
}

/// How many used edges arrive at a corner.
pub open spec fn used_heads(edges: Seq<Edge>, used: Seq<bool>, v: (usize, usize)) -> nat
    decreases edges.len(),
{
    if edges.len() == 0 {
        0
    } else {
        used_heads(edges.drop_last(), used.drop_last(), v) + one_if(
            used.last() && edges.last().to == v,
        )
    }
}

proof fn lemma_use_counts(edges: Seq<Edge>, used: Seq<bool>, e: int, v: (usize, usize))
    requires
        used.len() == edges.len(),
        0 <= e < edges.len(),
        !used[e],
    ensures
        used_tails(edges, used.update(e, true), v) == used_tails(edges, used, v) + one_if(
            edges[e].from == v,
        ),
        used_heads(edges, used.update(e, true), v) == used_heads(edges, used, v) + one_if(
            edges[e].to == v,
        ),
    decreases edges.len(),
{
    let after = used.update(e, true);
    if e == edges.len() - 1 {
        assert(after.drop_last() =~= used.drop_last());
    } else {
        assert(after.drop_last() =~= used.drop_last().update(e, true));
        lemma_use_counts(edges.drop_last(), used.drop_last(), e, v);
    }
}

proof fn lemma_used_at_most(edges: Seq<Edge>, used: Seq<bool>, v: (usize, usize))
    requires
        used.len() == edges.len(),
    ensures
        used_heads(edges, used, v) <= heads(edges, v),
    decreases edges.len(),
{
    if edges.len() > 0 {
        lemma_used_at_most(edges.drop_last(), used.drop_last(), v);
    }
}

proof fn lemma_all_used(edges: Seq<Edge>, used: Seq<bool>, v: (usize, usize))
    requires
        used.len() == edges.len(),
        forall|i: int| 0 <= i < edges.len() ==> used[i] || (#[trigger] edges[i]).from != v,
    ensures
        used_tails(edges, used, v) == tails(edges, v),
    decreases edges.len(),
{
    if edges.len() > 0 {
        let (shorter, flags) = (edges.drop_last(), used.drop_last());
        assert forall|i: int| 0 <= i < shorter.len() implies flags[i] || (
        #[trigger] shorter[i]).from != v by {
            assert(shorter[i] == edges[i] && flags[i] == used[i]);
        }
        lemma_all_used(shorter, flags, v);
        assert(edges.last() == edges[edges.len() - 1]);
    }
}

proof fn lemma_none_used(edges: Seq<Edge>, v: (usize, usize))
    ensures
        used_tails(edges, ring::fresh(edges.len()), v) == 0,
        used_heads(edges, ring::fresh(edges.len()), v) == 0,
    decreases edges.len(),
{
    if edges.len() > 0 {
        assert(ring::fresh(edges.len()).drop_last() =~= ring::fresh((edges.len() - 1) as nat));
        lemma_none_used(edges.drop_last(), v);
    }
}

/// Whether what is used so far closes up, but for a walk from one corner that
/// has got to another.
pub open spec fn open_walk(
    edges: Seq<Edge>,
    used: Seq<bool>,
    first: (usize, usize),
    here: (usize, usize),
) -> bool {
    forall|v: (usize, usize)|
        #[trigger] used_tails(edges, used, v) + one_if(v == here) == used_heads(edges, used, v)
            + one_if(v == first)
}

/// Whether what is used so far closes up.
pub open spec fn closed_up(edges: Seq<Edge>, used: Seq<bool>) -> bool {
    forall|v: (usize, usize)|
        #[trigger] used_tails(edges, used, v) == used_heads(edges, used, v)
}

/// Whether some edge runs from one corner to another.
pub open spec fn joined(edges: Seq<Edge>, from: (usize, usize), to: (usize, usize)) -> bool {
    exists|e: int|
        0 <= e < edges.len() && (#[trigger] edges[e]).from == from && edges[e].to == to
}

/// Whether each corner of a run is joined to the next.
pub open spec fn linked(edges: Seq<Edge>, corners: Seq<(usize, usize)>) -> bool {
    forall|i: int|
        0 <= i < corners.len() - 1 ==> joined(
            edges,
            #[trigger] corners[i],
            corners[i + 1],
        )
}

/// Whether each corner of a loop is joined to the next, and the last to the
/// first.
pub open spec fn closed_loop(edges: Seq<Edge>, ring: Seq<(usize, usize)>) -> bool {
    &&& ring.len() > 0
    &&& linked(edges, ring)
    &&& joined(edges, ring.last(), ring[0])
}

/// A walk that starts on an unused edge always comes back to where it began,
/// and uses one edge a corner.
proof fn lemma_walk_closes(
    edges: Seq<Edge>,
    used: Seq<bool>,
    corners: Seq<(usize, usize)>,
    first: (usize, usize),
    here: (usize, usize),
)
    requires
        balanced(edges),
        used.len() == edges.len(),
        open_walk(edges, used, first, here),
        corners.len() > 0,
        corners[0] == first,
        linked(edges, corners),
        joined(edges, corners.last(), here),
    ensures
        ({
            let (after, got, end) = ring::walked(edges, used, corners, first, here);
            &&& end == first
            &&& after.len() == edges.len()
            &&& closed_up(edges, after)
            &&& got.len() + ring::unused(after) == corners.len() + ring::unused(used)
            &&& closed_loop(edges, got)
            &&& got[0] == first
            &&& forall|i: int| 0 <= i < used.len() && used[i] ==> #[trigger] after[i]
        }),
    decreases ring::unused(used),
{
    let (after, got, end) = ring::walked(edges, used, corners, first, here);
    if here == first {
        assert forall|v: (usize, usize)| #[trigger] used_tails(edges, after, v) == used_heads(
            edges,
            after,
            v,
        ) by {}
    } else {
        let e = ring::leaving(edges, used, here, 0);
        ring::lemma_leaving(edges, used, here, 0);
        if e >= edges.len() {
            lemma_all_used(edges, used, here);
            lemma_used_at_most(edges, used, here);
            assert(used_tails(edges, used, here) + one_if(true) == used_heads(edges, used, here)
                + one_if(false));
            assert(tails(edges, here) == heads(edges, here));
            assert(false);
        }
        let next = edges[e as int].to;
        let longer = corners.push(here);
        let marked = used.update(e as int, true);
        ring::lemma_use(used, e as int);
        assert forall|v: (usize, usize)| #[trigger] used_tails(edges, marked, v) + one_if(
            v == next,
        ) == used_heads(edges, marked, v) + one_if(v == first) by {
            lemma_use_counts(edges, used, e as int, v);
            assert(used_tails(edges, used, v) + one_if(v == here) == used_heads(edges, used, v)
                + one_if(v == first));
        }
        assert forall|i: int| 0 <= i < longer.len() - 1 implies joined(
            edges,
            #[trigger] longer[i],
            longer[i + 1],
        ) by {
            if i < corners.len() - 1 {
                assert(longer[i] == corners[i] && longer[i + 1] == corners[i + 1]);
                assert(joined(edges, corners[i], corners[i + 1]));
            }
        }
        assert(joined(edges, longer.last(), next)) by {
            assert(edges[e as int].from == here);
        }
        lemma_walk_closes(edges, marked, longer, first, next);
        assert forall|i: int| 0 <= i < used.len() && used[i] implies #[trigger] after[i] by {
            assert(marked[i]);
        }
    }
}

/// Whether an edge is a side of a filled cell with nothing filled across it,
/// running with the inside on its right.
pub open spec fn legal(cells: CellsView, edge: Edge) -> bool {
    let (c, r) = (edge.from.0 as int, edge.from.1 as int);
    let (x, y) = (edge.to.0 as int, edge.to.1 as int);
    ||| x == c + 1 && y == r && cells.has(r, c) && !cells.has(r - 1, c)
    ||| x == c && y == r + 1 && cells.has(r, c - 1) && !cells.has(r, c)
    ||| x == c - 1 && y == r && cells.has(r - 1, c - 1) && !cells.has(r, c - 1)
    ||| x == c && y == r - 1 && cells.has(r - 1, c) && !cells.has(r - 1, c - 1)
}

pub open spec fn all_legal(cells: CellsView, edges: Seq<Edge>) -> bool {
    forall|i: int| 0 <= i < edges.len() ==> legal(cells, #[trigger] edges[i])
}

proof fn lemma_side_legal(cells: CellsView, outside: bool, from: (int, int), to: (int, int))
    requires
        0 <= from.0 <= usize::MAX,
        0 <= from.1 <= usize::MAX,
        0 <= to.0 <= usize::MAX,
        0 <= to.1 <= usize::MAX,
        outside ==> legal(
            cells,
            Edge {
                from: (from.0 as usize, from.1 as usize),
                to: (to.0 as usize, to.1 as usize),
            },
        ),
    ensures
        all_legal(cells, ring::side_if(outside, from, to)),
{
}

proof fn lemma_concat_legal(cells: CellsView, a: Seq<Edge>, b: Seq<Edge>)
    requires
        all_legal(cells, a),
        all_legal(cells, b),
    ensures
        all_legal(cells, a + b),
{
    let all = a + b;
    assert forall|i: int| 0 <= i < all.len() implies legal(cells, #[trigger] all[i]) by {
        if i < a.len() {
            assert(all[i] == a[i]);
        } else {
            assert(all[i] == b[i - a.len()]);
        }
    }
}

pub proof fn lemma_boundary_legal(cells: CellsView, n: nat)
    requires
        cells.whole(),
        n <= cells.rows * cells.cols,
    ensures
        all_legal(cells, ring::edges_upto(cells, n)),
    decreases n,
{
    if n > 0 {
        let k = (n - 1) as nat;
        lemma_boundary_legal(cells, k);
        let (row, col) = (k as int / cells.cols as int, k as int % cells.cols as int);
        if cells.has(row, col) {
            let a = ring::side_if(!cells.has(row - 1, col), (col, row), (col + 1, row));
            let b = ring::side_if(!cells.has(row, col + 1), (col + 1, row), (col + 1, row + 1));
            let c = ring::side_if(!cells.has(row + 1, col), (col + 1, row + 1), (col, row + 1));
            let d = ring::side_if(!cells.has(row, col - 1), (col, row + 1), (col, row));
            lemma_side_legal(cells, !cells.has(row - 1, col), (col, row), (col + 1, row));
            lemma_side_legal(cells, !cells.has(row, col + 1), (col + 1, row), (col + 1, row + 1));
            lemma_side_legal(cells, !cells.has(row + 1, col), (col + 1, row + 1), (col, row + 1));
            lemma_side_legal(cells, !cells.has(row, col - 1), (col, row + 1), (col, row));
            lemma_concat_legal(cells, a, b);
            lemma_concat_legal(cells, a + b, c);
            lemma_concat_legal(cells, a + b + c, d);
        }
        lemma_concat_legal(
            cells,
            ring::edges_upto(cells, k),
            ring::cell_edges(cells, row, col),
        );
    }
}

/// Which way a corner lies from the one before it: right, down, left or up.
pub open spec fn heading(from: (usize, usize), to: (usize, usize)) -> int {
    if to.0 > from.0 {
        0
    } else if to.1 > from.1 {
        1
    } else if to.0 < from.0 {
        2
    } else {
        3
    }
}

/// Whether two corners are a step of the grid apart.
pub open spec fn a_step(from: (usize, usize), to: (usize, usize)) -> bool {
    ||| to.0 == from.0 + 1 && to.1 == from.1
    ||| to.0 == from.0 && to.1 == from.1 + 1
    ||| to.0 == from.0 - 1 && to.1 == from.1
    ||| to.0 == from.0 && to.1 == from.1 - 1
}

proof fn lemma_joined_step(
    cells: CellsView,
    edges: Seq<Edge>,
    a: (usize, usize),
    b: (usize, usize),
)
    requires
        all_legal(cells, edges),
        joined(edges, a, b),
    ensures
        a_step(a, b),
        !joined(edges, b, a),
{
    let e = choose|e: int|
        0 <= e < edges.len() && (#[trigger] edges[e]).from == a && edges[e].to == b;
    assert(legal(cells, edges[e]));
    if joined(edges, b, a) {
        let f = choose|f: int|
            0 <= f < edges.len() && (#[trigger] edges[f]).from == b && edges[f].to == a;
        assert(legal(cells, edges[f]));
    }
}

/// Where a corner is on the chequerboard of the grid.
spec fn shade(v: (usize, usize)) -> int {
    (v.0 + v.1) % 2
}

#[verifier::spinoff_prover]
#[verifier::rlimit(30)]
proof fn lemma_shades(
    cells: CellsView,
    edges: Seq<Edge>,
    ring: Seq<(usize, usize)>,
    i: int,
)
    requires
        all_legal(cells, edges),
        linked(edges, ring),
        0 <= i < ring.len(),
    ensures
        shade(ring[i]) == (shade(ring[0]) + i) % 2,
    decreases i,
{
    if i > 0 {
        lemma_shades(cells, edges, ring, i - 1);
        assert(a_step(ring[i - 1], ring[i])) by {
            assert(joined(edges, ring[i - 1], ring[i - 1 + 1]));
            lemma_joined_step(cells, edges, ring[i - 1], ring[i]);
        }
        lemma_step_shades(ring[i - 1], ring[i]);
        lemma_next_shade(shade(ring[0]), i);
    }
}

proof fn lemma_next_shade(first: int, i: int)
    ensures
        ((first + i - 1) % 2 + 1) % 2 == (first + i) % 2,
{
}

/// No loop is shorter than the way round one cell.
proof fn lemma_loop_length(cells: CellsView, edges: Seq<Edge>, ring: Seq<(usize, usize)>)
    requires
        all_legal(cells, edges),
        closed_loop(edges, ring),
    ensures
        ring.len() >= 4,
        ring.len() % 2 == 0,
{
    let n = ring.len() as int;
    lemma_shades(cells, edges, ring, n - 1);
    lemma_joined_step(cells, edges, ring.last(), ring[0]);
    lemma_step_shades(ring.last(), ring[0]);
    assert(n % 2 == 0);
    if n == 2 {
        assert(joined(edges, ring[0], ring[0int + 1]));
        assert(ring[1] == ring.last());
    }
}

proof fn lemma_step_shades(a: (usize, usize), b: (usize, usize))
    requires
        a_step(a, b),
    ensures
        shade(b) == (shade(a) + 1) % 2,
{
}

/// A run of lengths added up.
pub open spec fn lengths(rings: Seq<Seq<(usize, usize)>>) -> nat
    decreases rings.len(),
{
    if rings.len() == 0 {
        0
    } else {
        rings[0].len() + lengths(rings.drop_first())
    }
}

proof fn lemma_loops_close(
    cells: CellsView,
    edges: Seq<Edge>,
    used: Seq<bool>,
    start: nat,
)
    requires
        all_legal(cells, edges),
        balanced(edges),
        used.len() == edges.len(),
        start <= edges.len(),
        closed_up(edges, used),
        forall|i: int| 0 <= i < start ==> #[trigger] used[i],
    ensures
        lengths(ring::loops(edges, used, start)) == ring::unused(used),
        forall|k: int|
            0 <= k < ring::loops(edges, used, start).len() ==> closed_loop(
                edges,
                #[trigger] ring::loops(edges, used, start)[k],
            ),
    decreases edges.len() - start,
{
    if start >= edges.len() {
        lemma_all_flags(used);
    } else if used[start as int] {
        lemma_loops_close(cells, edges, used, start + 1);
        assert(ring::loops(edges, used, start) == ring::loops(edges, used, start + 1));
    } else {
        let s = start as int;
        let (first, next) = (edges[s].from, edges[s].to);
        let marked = used.update(s, true);
        ring::lemma_use(used, s);
        assert forall|v: (usize, usize)| #[trigger] used_tails(edges, marked, v) + one_if(
            v == next,
        ) == used_heads(edges, marked, v) + one_if(v == first) by {
            lemma_use_counts(edges, used, s, v);
            assert(used_tails(edges, used, v) == used_heads(edges, used, v));
        }
        assert(joined(edges, first, next));
        lemma_walk_closes(edges, marked, seq![first], first, next);
        let (after, corners, end) = ring::walked(edges, marked, seq![first], first, next);
        lemma_loop_length(cells, edges, corners);
        assert forall|i: int| 0 <= i < start + 1 implies #[trigger] after[i] by {
            assert(marked[i]);
        }
        lemma_loops_close(cells, edges, after, start + 1);
        let rest = ring::loops(edges, after, start + 1);
        let all = ring::loops(edges, used, start);
        assert(all == seq![corners] + rest);
        assert(all.drop_first() =~= rest);
        assert forall|k: int| 0 <= k < all.len() implies closed_loop(edges, #[trigger] all[k]) by {
            if k > 0 {
                assert(all[k] == rest[k - 1]);
            }
        }
    }
}

proof fn lemma_all_flags(used: Seq<bool>)
    requires
        forall|i: int| 0 <= i < used.len() ==> #[trigger] used[i],
    ensures
        ring::unused(used) == 0,
    decreases used.len(),
{
    if used.len() > 0 {
        let shorter = used.drop_last();
        assert forall|i: int| 0 <= i < shorter.len() implies #[trigger] shorter[i] by {
            assert(shorter[i] == used[i]);
        }
        lemma_all_flags(shorter);
        assert(used.last() == used[used.len() - 1]);
    }
}

proof fn lemma_no_flags(n: nat)
    ensures
        ring::unused(ring::fresh(n)) == n,
    decreases n,
{
    if n > 0 {
        assert(ring::fresh(n).drop_last() =~= ring::fresh((n - 1) as nat));
        lemma_no_flags((n - 1) as nat);
    }
}

/// The loops of a box's boundary, corner by corner.
pub open spec fn loops_of(cells: CellsView) -> Seq<Seq<(usize, usize)>> {
    let edges = ring::boundary(cells);
    ring::loops(edges, ring::fresh(edges.len()), 0)
}

/// Every ring closes, each is a run of boundary edges end to end, and between
/// them they take each edge of the boundary once: none is left out and none is
/// drawn twice.
pub proof fn every_ring_closes(cells: CellsView)
    requires
        cells.whole(),
    ensures
        lengths(loops_of(cells)) == ring::boundary(cells).len(),
        forall|k: int|
            0 <= k < loops_of(cells).len() ==> closed_loop(
                ring::boundary(cells),
                #[trigger] loops_of(cells)[k],
            ),
{
    let edges = ring::boundary(cells);
    let n = edges.len();
    boundary_is_balanced(cells);
    lemma_boundary_legal(cells, (cells.rows * cells.cols) as nat);
    assert forall|v: (usize, usize)| #[trigger] used_tails(edges, ring::fresh(n), v)
        == used_heads(edges, ring::fresh(n), v) by {
        lemma_none_used(edges, v);
    }
    lemma_no_flags(n);
    lemma_loops_close(cells, edges, ring::fresh(n), 0);
}

/// The way a loop leaves its `i`th corner.
pub open spec fn way(ring: Seq<(usize, usize)>, i: int) -> int {
    heading(ring[i], ring[(i + 1) % ring.len() as int])
}

pub proof fn lemma_ways(
    cells: CellsView,
    edges: Seq<Edge>,
    ring: Seq<(usize, usize)>,
    i: int,
)
    requires
        all_legal(cells, edges),
        closed_loop(edges, ring),
        0 <= i < ring.len(),
    ensures
        ({
            let n = ring.len() as int;
            let p = (i + n - 1) % n;
            &&& 0 <= p < n
            &&& joined(edges, ring[i], ring[(i + 1) % n])
            &&& a_step(ring[i], ring[(i + 1) % n])
            &&& (p + 1) % n == i
            &&& way(ring, p) == way(ring, i) || way(ring, p) % 2 != way(ring, i) % 2
            &&& ring::turns(ring, i) == (way(ring, p) != way(ring, i))
        }),
{
    let n = ring.len() as int;
    let p = (i + n - 1) % n;
    assert(p == if i == 0 {
        n - 1
    } else {
        i - 1
    }) by (nonlinear_arith)
        requires
            p == (i + n - 1) % n,
            0 <= i < n,
    ;
    lemma_next(ring.len(), i);
    lemma_next(ring.len(), p);
    lemma_link(edges, ring, i);
    lemma_link(edges, ring, p);
    lemma_joined_step(cells, edges, ring[i], ring[(i + 1) % n]);
    lemma_joined_step(cells, edges, ring[p], ring[i]);
}

pub proof fn lemma_next(n: nat, i: int)
    requires
        0 <= i < n,
    ensures
        (i + 1) % n as int == (if i == n - 1 {
            0
        } else {
            i + 1
        }),
{
    if i == n - 1 {
        assert(n as int % n as int == 0) by (nonlinear_arith)
            requires
                n > 0,
        ;
    } else {
        assert((i + 1) % n as int == i + 1) by (nonlinear_arith)
            requires
                0 <= i < n - 1,
        ;
    }
}

proof fn lemma_link(edges: Seq<Edge>, ring: Seq<(usize, usize)>, i: int)
    requires
        closed_loop(edges, ring),
        0 <= i < ring.len(),
    ensures
        joined(edges, ring[i], ring[(i + 1) % ring.len() as int]),
{
    lemma_next(ring.len(), i);
    if i < ring.len() - 1 {
        assert(joined(edges, ring[i], ring[i + 1]));
    }
}

/// How many corners of a loop turn, among those from the second to the `k`th.
spec fn changes(ring: Seq<(usize, usize)>, k: nat) -> nat
    decreases k,
{
    if k <= 1 {
        0
    } else {
        changes(ring, (k - 1) as nat) + one_if(way(ring, k - 2) != way(ring, k - 1))
    }
}

/// Whether a loop runs some way from one of its first `k` corners.
spec fn goes(ring: Seq<(usize, usize)>, k: nat, d: int) -> bool {
    exists|i: int| 0 <= i < k && #[trigger] way(ring, i) == d
}

proof fn lemma_turning_count(
    cells: CellsView,
    edges: Seq<Edge>,
    ring: Seq<(usize, usize)>,
    k: nat,
)
    requires
        all_legal(cells, edges),
        closed_loop(edges, ring),
        1 <= k <= ring.len(),
    ensures
        ring::turning(ring, k).len() == changes(ring, k) + one_if(
            way(ring, ring.len() - 1) != way(ring, 0),
        ),
        changes(ring, k) % 2 == (if way(ring, 0) % 2 == way(ring, k - 1) % 2 {
            0int
        } else {
            1int
        }),
        one_if(goes(ring, k, 0)) + one_if(goes(ring, k, 1)) + one_if(goes(ring, k, 2)) + one_if(
            goes(ring, k, 3),
        ) <= changes(ring, k) + 1,
    decreases k,
{
    lemma_ways(cells, edges, ring, k - 1);
    if k == 1 {
        lemma_next(ring.len(), ring.len() - 1);
        reveal_with_fuel(ring::turning, 2);
        let n = ring.len() as int;
        assert((n - 1) % n == n - 1) by (nonlinear_arith)
            requires
                n > 0,
        ;
        assert forall|d: int| #[trigger] goes(ring, 1, d) implies way(ring, 0) == d by {}
        assert(0 <= way(ring, 0) <= 3);
    } else {
        let j = (k - 1) as nat;
        lemma_turning_count(cells, edges, ring, j);
        let n = ring.len() as int;
        assert((j + n - 1) % n == j - 1) by (nonlinear_arith)
            requires
                1 <= j < n,
        ;
        assert forall|d: int| #[trigger] goes(ring, k, d) implies goes(ring, j, d) || way(
            ring,
            j as int,
        ) == d by {
            let i = choose|i: int| 0 <= i < k && #[trigger] way(ring, i) == d;
            if i < j {
                assert(way(ring, i) == d);
            }
        }
        let last = way(ring, j as int);
        assert(0 <= last <= 3);
        if way(ring, j - 1) == last {
            assert(goes(ring, j, last));
        }
    }
}

/// How far a corner lies one way.
spec fn along(v: (usize, usize), d: int) -> int {
    if d == 0 {
        v.0 as int
    } else if d == 1 {
        v.1 as int
    } else if d == 2 {
        -(v.0 as int)
    } else {
        -(v.1 as int)
    }
}

proof fn lemma_advance(
    cells: CellsView,
    edges: Seq<Edge>,
    ring: Seq<(usize, usize)>,
    d: int,
    i: int,
)
    requires
        all_legal(cells, edges),
        closed_loop(edges, ring),
        0 <= d <= 3,
        !goes(ring, ring.len(), (d + 2) % 4),
        0 <= i < ring.len(),
    ensures
        along(ring[(i + 1) % ring.len() as int], d) == along(ring[i], d) + one_if(
            way(ring, i) == d,
        ),
{
    lemma_ways(cells, edges, ring, i);
    assert(way(ring, i) != (d + 2) % 4);
}

proof fn lemma_advance_all(
    cells: CellsView,
    edges: Seq<Edge>,
    ring: Seq<(usize, usize)>,
    d: int,
    i: int,
    j: int,
)
    requires
        all_legal(cells, edges),
        closed_loop(edges, ring),
        0 <= d <= 3,
        !goes(ring, ring.len(), (d + 2) % 4),
        0 <= i <= j < ring.len(),
    ensures
        along(ring[i], d) <= along(ring[j], d),
    decreases j,
{
    if i < j {
        lemma_advance_all(cells, edges, ring, d, i, j - 1);
        lemma_advance(cells, edges, ring, d, j - 1);
        lemma_next(ring.len(), j - 1);
    }
}

/// A loop that runs one way runs back again.
proof fn lemma_returns(
    cells: CellsView,
    edges: Seq<Edge>,
    ring: Seq<(usize, usize)>,
    d: int,
)
    requires
        all_legal(cells, edges),
        closed_loop(edges, ring),
        0 <= d <= 3,
        goes(ring, ring.len(), d),
    ensures
        goes(ring, ring.len(), (d + 2) % 4),
{
    if !goes(ring, ring.len(), (d + 2) % 4) {
        let n = ring.len() as int;
        let k = choose|k: int| 0 <= k < n && #[trigger] way(ring, k) == d;
        lemma_advance(cells, edges, ring, d, k);
        lemma_next(ring.len(), k);
        lemma_advance(cells, edges, ring, d, n - 1);
        lemma_next(ring.len(), n - 1);
        lemma_advance_all(cells, edges, ring, d, 0, k);
        if k < n - 1 {
            lemma_advance_all(cells, edges, ring, d, k + 1, n - 1);
        }
    }
}

proof fn lemma_unchanging(
    cells: CellsView,
    edges: Seq<Edge>,
    ring: Seq<(usize, usize)>,
    axis: int,
    i: int,
)
    requires
        all_legal(cells, edges),
        closed_loop(edges, ring),
        0 <= i < ring.len(),
        forall|k: int| 0 <= k < ring.len() ==> #[trigger] way(ring, k) % 2 == axis,
    ensures
        way(ring, i) == way(ring, 0),
    decreases i,
{
    if i > 0 {
        lemma_unchanging(cells, edges, ring, axis, i - 1);
        lemma_ways(cells, edges, ring, i);
        let n = ring.len() as int;
        assert((i + n - 1) % n == i - 1) by (nonlinear_arith)
            requires
                1 <= i < n,
        ;
        assert(way(ring, i - 1) % 2 == axis && way(ring, i) % 2 == axis);
    }
}

/// A loop runs all four ways.
proof fn lemma_runs_every_way(
    cells: CellsView,
    edges: Seq<Edge>,
    ring: Seq<(usize, usize)>,
)
    requires
        all_legal(cells, edges),
        closed_loop(edges, ring),
    ensures
        forall|d: int| 0 <= d <= 3 ==> #[trigger] goes(ring, ring.len(), d),
{
    let n = ring.len();
    let first = way(ring, 0);
    assert(0 <= first <= 3);
    assert(goes(ring, n, first));
    lemma_returns(cells, edges, ring, first);
    if forall|k: int| 0 <= k < n ==> #[trigger] way(ring, k) % 2 == first % 2 {
        let back = (first + 2) % 4;
        let k = choose|k: int| 0 <= k < n && #[trigger] way(ring, k) == back;
        lemma_unchanging(cells, edges, ring, first % 2, k);
        assert(false);
    }
    let k = choose|k: int| 0 <= k < n && #[trigger] way(ring, k) % 2 != first % 2;
    let other = way(ring, k);
    assert(0 <= other <= 3);
    assert(goes(ring, n, other));
    lemma_returns(cells, edges, ring, other);
    assert forall|d: int| 0 <= d <= 3 implies #[trigger] goes(ring, n, d) by {
        assert(d == first || d == (first + 2) % 4 || d == other || d == (other + 2) % 4);
    }
}

/// A ring turns at least four corners, and an even number of them: level and
/// upright runs take turns all the way round.
pub proof fn a_ring_turns_an_even_number_of_corners(cells: CellsView, k: int)
    requires
        cells.whole(),
        0 <= k < loops_of(cells).len(),
    ensures
        ({
            let ring = loops_of(cells)[k];
            let corners = ring::turning(ring, ring.len());
            &&& corners.len() >= 4
            &&& corners.len() % 2 == 0
        }),
{
    let edges = ring::boundary(cells);
    let ring = loops_of(cells)[k];
    every_ring_closes(cells);
    lemma_boundary_legal(cells, (cells.rows * cells.cols) as nat);
    lemma_turning_count(cells, edges, ring, ring.len());
    lemma_runs_every_way(cells, edges, ring);
    lemma_ways(cells, edges, ring, 0);
    let n = ring.len() as int;
    assert((0 + n - 1) % n == n - 1) by (nonlinear_arith)
        requires
            n > 0,
    ;
    assert(goes(ring, ring.len(), 0) && goes(ring, ring.len(), 1) && goes(ring, ring.len(), 2)
        && goes(ring, ring.len(), 3));
}

} // verus!
