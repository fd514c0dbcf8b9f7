//! The lines that say where one box ends and the next begins.

use vstd::prelude::*;
use crate::geometry::{snap, Rect, PX, REACH};
use crate::layout::Layout;
use crate::num;
use crate::query;
use crate::ring;
use crate::stretch::FAR;

verus! {

/// Some rings as values.
pub open spec fn ring_views(rings: Seq<Vec<(i64, i64)>>) -> Seq<Seq<(i64, i64)>> {
    rings.map_values(|ring: Vec<(i64, i64)>| ring@)
}

/// The points of the first `n` of some rings.
pub open spec fn points_of(rings: Seq<Seq<(i64, i64)>>, n: nat) -> Seq<(i64, i64)>
    decreases n,
{
    if n == 0 {
        Seq::empty()
    } else {
        points_of(rings, (n - 1) as nat) + rings[n - 1]
    }
}

/// How far some points reach: left, top, right and bottom. `None` with no
/// points.
pub open spec fn extent(points: Seq<(i64, i64)>) -> Option<(int, int, int, int)>
    decreases points.len(),
{
    if points.len() == 0 {
        None
    } else {
        let p = points.last();
        match extent(points.drop_last()) {
            None => Some((p.0 as int, p.1 as int, p.0 as int, p.1 as int)),
            Some(reach) => Some(
                (
                    num::smaller(reach.0, p.0 as int),
                    num::smaller(reach.1, p.1 as int),
                    num::larger(reach.2, p.0 as int),
                    num::larger(reach.3, p.1 as int),
                ),
            ),
        }
    }
}

/// The rectangle some points need to be drawn in, with room round it. `None`
/// when there is nothing to draw.
pub open spec fn canvas(points: Seq<(i64, i64)>, margin: int) -> Option<Rect> {
    match extent(points) {
        None => None,
        Some((left, top, right, bottom)) => if right > left && bottom > top {
            Some(
                Rect {
                    x: (left - margin) as i64,
                    y: (top - margin) as i64,
                    w: (right - left + 2 * margin) as i64,
                    h: (bottom - top + 2 * margin) as i64,
                },
            )
        } else {
            None
        },
    }
}

/// The rectangle a set of rings needs to be drawn in, with room for the stroke
/// that hangs outside their corners.
pub fn covering(rings: &Vec<Vec<(i64, i64)>>, margin: i64) -> (rect: Option<Rect>)
    requires
        ring::all_within(rings@),
        0 <= margin <= REACH,
    ensures
        rect == canvas(points_of(ring_views(rings@), rings@.len()), margin as int),
        rect matches Some(rect) ==> -5 * FAR <= rect.x && rect.x <= 5 * FAR && -5 * FAR <= rect.y
            && rect.y <= 5 * FAR,
{
    let mut reach: Option<(i64, i64, i64, i64)> = None;
    for k in 0..rings.len()
        invariant
            ring::all_within(rings@),
            reaches(reach, points_of(ring_views(rings@), k as nat)),
    {
        let ghost before = points_of(ring_views(rings@), k as nat);
        let ring = &rings[k];
        assert(ring_views(rings@)[k as int] == ring@);
        assert(before + ring@.take(0) =~= before);
        for i in 0..ring.len()
            invariant
                ring::all_within(rings@),
                0 <= k < rings@.len(),
                *ring == rings@[k as int],
                reaches(reach, before + ring@.take(i as int)),
        {
            let p = ring[i];
            assert(ring::within(rings@[k as int]@[i as int]));
            let ghost longer = before + ring@.take(i + 1);
            assert(longer.drop_last() =~= before + ring@.take(i as int));
            assert(longer.last() == p);
            reach = match reach {
                None => Some((p.0, p.1, p.0, p.1)),
                Some((left, top, right, bottom)) => Some(
                    (
                        if left < p.0 {
                            left
                        } else {
                            p.0
                        },
                        if top < p.1 {
                            top
                        } else {
                            p.1
                        },
                        if right > p.0 {
                            right
                        } else {
                            p.0
                        },
                        if bottom > p.1 {
                            bottom
                        } else {
                            p.1
                        },
                    ),
                ),
            };
        }
        assert(ring@.take(ring@.len() as int) =~= ring@);
    }
    match reach {
        None => None,
        Some((left, top, right, bottom)) => if right > left && bottom > top {
            Some(
                Rect {
                    x: left - margin,
                    y: top - margin,
                    w: right - left + 2 * margin,
                    h: bottom - top + 2 * margin,
                },
            )
        } else {
            None
        },
    }
}

spec fn reaches(reach: Option<(i64, i64, i64, i64)>, points: Seq<(i64, i64)>) -> bool {
    match (reach, extent(points)) {
        (None, None) => true,
        (Some(got), Some(want)) => {
            &&& got.0 == want.0 && got.1 == want.1 && got.2 == want.2 && got.3 == want.3
            &&& ring::within((got.0, got.1))
            &&& ring::within((got.2, got.3))
        },
        _ => false,
    }
}

/// A point as it is drawn on a surface of its own.
pub open spec fn inside(p: (i64, i64), canvas: Rect) -> (i64, i64) {
    ((p.0 - canvas.x) as i64, (p.1 - canvas.y) as i64)
}

/// Some rings as they are drawn on a surface of their own, so that the surface
/// and not its points is put in place.
pub open spec fn localized(rings: Seq<Seq<(i64, i64)>>, canvas: Rect) -> Seq<Seq<(i64, i64)>> {
    rings.map_values(
        |points: Seq<(i64, i64)>| points.map_values(|p: (i64, i64)| inside(p, canvas)),
    )
}

fn local_ring(points: &Vec<(i64, i64)>, canvas: &Rect) -> (moved: Vec<(i64, i64)>)
    requires
        forall|i: int| 0 <= i < points@.len() ==> ring::within(#[trigger] points@[i]),
        -5 * FAR <= canvas.x <= 5 * FAR,
        -5 * FAR <= canvas.y <= 5 * FAR,
    ensures
        moved@ == points@.map_values(|p: (i64, i64)| inside(p, *canvas)),
{
    let mut moved: Vec<(i64, i64)> = Vec::new();
    let ghost want = points@.map_values(|p: (i64, i64)| inside(p, *canvas));
    for i in 0..points.len()
        invariant
            forall|i: int| 0 <= i < points@.len() ==> ring::within(#[trigger] points@[i]),
            -5 * FAR <= canvas.x <= 5 * FAR,
            -5 * FAR <= canvas.y <= 5 * FAR,
            want == points@.map_values(|p: (i64, i64)| inside(p, *canvas)),
            moved@ =~= want.take(i as int),
    {
        let p = points[i];
        assert(ring::within(points@[i as int]));
        moved.push((p.0 - canvas.x, p.1 - canvas.y));
        assert(want[i as int] == inside(p, *canvas));
    }
    assert(want.take(points@.len() as int) =~= want);
    moved
}

/// The ring round one box, ready to be drawn.
pub struct BoxEdge {
    pub band: usize,
    /// The surface it is drawn on, and where that stands on the panel.
    pub bounds: Rect,
    pub rings: Vec<Vec<(i64, i64)>>,
    /// Where the surface stands with nothing scrolled.
    pub rest: i64,
}

/// The rings round a box, as far up as the panel is scrolled.
pub open spec fn scrolled_rings(layout: Layout, band: int, scroll: int) -> Seq<Seq<(i64, i64)>> {
    ring::rings_of(layout.bands@[band].cells@, layout.metrics).map_values(
        |points: Seq<(i64, i64)>| points.map_values(|p: (i64, i64)| (p.0, (p.1 - scroll) as i64)),
    )
}

/// Where the ring round a box is drawn. `None` when there is nothing to draw.
pub open spec fn edge_bounds(layout: Layout, band: int, scroll: int, margin: int) -> Option<Rect> {
    let rings = scrolled_rings(layout, band, scroll);
    canvas(points_of(rings, rings.len()), margin)
}

impl BoxEdge {
    /// Whether this is how the ring round a box is drawn.
    pub open spec fn goes_round(&self, layout: Layout, band: int, scroll: int, margin: int) -> bool {
        &&& self.band == band
        &&& edge_bounds(layout, band, scroll, margin) == Some(self.bounds)
        &&& ring_views(self.rings@) == localized(
            scrolled_rings(layout, band, scroll),
            self.bounds,
        )
        &&& self.rest == self.bounds.y + scroll
    }
}

/// The ring round one box, ready to be drawn. Not a rectangle: a box wraps
/// round the centre block, so the shape can be an L, a C, or a rectangle with a
/// hole in the middle of it, and a rectangle would cut straight through the
/// block.
pub fn box_edge(layout: &Layout, band: usize, scroll: i64, margin: i64) -> (edge: Option<BoxEdge>)
    requires
        layout.wf(),
        band < layout.bands@.len(),
        query::measured(scroll as int),
        0 <= margin <= REACH,
    ensures
        edge is Some <==> edge_bounds(*layout, band as int, scroll as int, margin as int) is Some,
        edge matches Some(edge) ==> edge.goes_round(
            *layout,
            band as int,
            scroll as int,
            margin as int,
        ),
{
    let rings = layout.band_ring(band, scroll);
    let ghost want = scrolled_rings(*layout, band as int, scroll as int);
    assert(ring_views(rings@) =~= want) by {
        assert forall|k: int| 0 <= k < rings@.len() implies ring_views(rings@)[k] == want[k] by {
            assert(ring_views(rings@)[k] == rings@[k]@);
        }
    }
    match covering(&rings, margin) {
        None => None,
        Some(bounds) => {
            let mut moved: Vec<Vec<(i64, i64)>> = Vec::new();
            for k in 0..rings.len()
                invariant
                    ring::all_within(rings@),
                    -5 * FAR <= bounds.x <= 5 * FAR,
                    -5 * FAR <= bounds.y <= 5 * FAR,
                    ring_views(rings@) == want,
                    ring_views(moved@) =~= localized(want, bounds).take(k as int),
            {
                assert forall|i: int| 0 <= i < rings@[k as int]@.len() implies ring::within(
                    #[trigger] rings@[k as int]@[i],
                ) by {}
                let local = local_ring(&rings[k], &bounds);
                assert(ring_views(rings@)[k as int] == rings@[k as int]@);
                let ghost before = moved@;
                moved.push(local);
                assert(ring_views(moved@) =~= ring_views(before).push(local@));
            }
            assert(localized(want, bounds).take(rings@.len() as int) =~= localized(want, bounds));
            Some(BoxEdge { band, bounds, rings: moved, rest: bounds.y + scroll })
        },
    }
}

/// The bands among the first `n` that wear a ring: boxes that hold something.
/// The centre gets a frame of its own, and two lines round it would be one too
/// many.
pub open spec fn ringed_upto(layout: Layout, scroll: int, margin: int, n: nat) -> Seq<usize>
    decreases n,
{
    if n == 0 {
        Seq::empty()
    } else {
        let before = ringed_upto(layout, scroll, margin, (n - 1) as nat);
        let band = layout.bands@[n - 1];
        if band.center || band.count == 0 || edge_bounds(layout, n - 1, scroll, margin) is None {
            before
        } else {
            before.push((n - 1) as usize)
        }
    }
}

/// The rings round the boxes of the panel, in band order.
pub fn box_edges(layout: &Layout, scroll: i64, margin: i64) -> (edges: Vec<BoxEdge>)
    requires
        layout.wf(),
        query::measured(scroll as int),
        0 <= margin <= REACH,
    ensures
        ({
            let bands = ringed_upto(*layout, scroll as int, margin as int, layout.bands@.len());
            &&& edges@.len() == bands.len()
            &&& forall|i: int|
                0 <= i < edges@.len() ==> (#[trigger] edges@[i]).goes_round(
                    *layout,
                    bands[i] as int,
                    scroll as int,
                    margin as int,
                )
        }),
{
    let mut edges: Vec<BoxEdge> = Vec::new();
    let ghost mut bands: Seq<usize> = Seq::empty();
    for n in 0..layout.bands.len()
        invariant
            layout.wf(),
            query::measured(scroll as int),
            0 <= margin <= REACH,
            bands == ringed_upto(*layout, scroll as int, margin as int, n as nat),
            edges@.len() == bands.len(),
            forall|i: int|
                0 <= i < edges@.len() ==> (#[trigger] edges@[i]).goes_round(
                    *layout,
                    bands[i] as int,
                    scroll as int,
                    margin as int,
                ),
    {
        if !layout.bands[n].center && layout.bands[n].count != 0 {
            if let Some(edge) = box_edge(layout, n, scroll, margin) {
                edges.push(edge);
                proof {
                    bands = bands.push(n);
                }
            }
        }
    }
    edges
}

/// The frame round the centre block: out into the gutter the tiles already
/// leave, so it surrounds the block rather than cropping it.
pub open spec fn framed(block: Rect, gap: int) -> Rect {
    let out = gap / 2;
    Rect {
        x: (block.x - out) as i64,
        y: (block.y - out) as i64,
        w: (block.w + 2 * out) as i64,
        h: (block.h + 2 * out) as i64,
    }
}

/// The frame round the centre block.
pub fn frame(block: &Rect, gap: i64) -> (rect: Rect)
    requires
        query::measured(block.x as int),
        query::measured(block.y as int),
        query::measured(block.w as int),
        query::measured(block.h as int),
        0 <= gap <= REACH,
    ensures
        rect == framed(*block, gap as int),
{
    let out: i64 = gap / 2;
    Rect { x: block.x - out, y: block.y - out, w: block.w + 2 * out, h: block.h + 2 * out }
}

/// How thick the thinnest line is: a pixel, and a scaled one where that is
/// more.
pub open spec fn hairline_of(dpi: int) -> int {
    num::larger(PX * dpi / 96, PX as int)
}

pub fn hairline(dpi: u32) -> (width: i64)
    requires
        dpi <= 0x1_0000,
    ensures
        width == hairline_of(dpi as int),
        PX <= width <= REACH,
{
    let scaled: i64 = PX * dpi as i64 / 96;
    if scaled > PX {
        scaled
    } else {
        PX
    }
}

/// Where the line down a seam is drawn: its middle on the seam, to a whole
/// pixel. One container with a line down it, not two side by side.
pub fn seam_line(x: i64, hairline: i64) -> (left: i64)
    requires
        query::measured(x as int),
        0 <= hairline <= REACH,
    ensures
        left == crate::geometry::snapped(2 * x - hairline),
{
    snap(2 * x - hairline)
}

/// The rectangle rings are drawn in holds every one of their points, with the
/// room that was asked for all round.
pub proof fn the_canvas_holds_every_point(points: Seq<(i64, i64)>, i: int)
    requires
        0 <= i < points.len(),
    ensures
        extent(points) is Some,
        ({
            let reach = extent(points)->0;
            &&& reach.0 <= points[i].0 <= reach.2
            &&& reach.1 <= points[i].1 <= reach.3
        }),
    decreases points.len(),
{
    if i < points.len() - 1 {
        assert(points.drop_last()[i] == points[i]);
        the_canvas_holds_every_point(points.drop_last(), i);
    }
}

} // verus!
