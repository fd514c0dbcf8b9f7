//! Where tiles go when one of them is dragged.

use vstd::prelude::*;
use vstd::std_specs::cmp::*;
use crate::num;

verus! {

/// Every slot but one, in order.
pub open spec fn others(count: nat, from: int) -> Seq<usize>
    decreases count,
{
    if count == 0 {
        Seq::empty()
    } else if count - 1 == from {
        others((count - 1) as nat, from)
    } else {
        others((count - 1) as nat, from).push((count - 1) as usize)
    }
}

/// Where a lifted tile goes back in. The insertion point counts positions in
/// the list it was lifted from, so one past the tile shifts down by one.
pub open spec fn landing(count: nat, from: int, to: int) -> int {
    let at = if to > from {
        to - 1
    } else {
        to
    };
    let left = others(count, from).len() as int;
    if at < left {
        at
    } else {
        left
    }
}

/// The order slots end up in when the tile at `from` is dropped at `to`.
pub open spec fn order_after(count: nat, from: usize, to: usize) -> Seq<usize> {
    others(count, from as int).insert(landing(count, from as int, to as int), from)
}

/// The order slots end up in when the tile at `from` is dropped at insertion
/// point `to`. Each entry is the slot an item came from.
pub fn reordered(count: usize, from: usize, to: usize) -> (slots: Vec<usize>)
    ensures
        slots@ == order_after(count as nat, from, to),
{
    let mut slots: Vec<usize> = Vec::new();
    for slot in 0..count
        invariant
            slots@ == others(slot as nat, from as int),
    {
        if slot != from {
            slots.push(slot);
        }
    }
    let at: usize = if to > from {
        to - 1
    } else {
        to
    };
    let left: usize = slots.len();
    slots.insert(
        if at < left {
            at
        } else {
            left
        },
        from,
    );
    slots
}

proof fn lemma_others(count: nat, from: int)
    requires
        0 <= from < count <= usize::MAX,
    ensures
        others(count, from).len() == count - 1,
        forall|i: int|
            0 <= i < count - 1 ==> #[trigger] others(count, from)[i] == (if i < from {
                i
            } else {
                i + 1
            }),
    decreases count,
{
    if count - 1 == from {
        lemma_all(from as nat, from);
    } else {
        lemma_others((count - 1) as nat, from);
    }
}

proof fn lemma_all(count: nat, from: int)
    requires
        count <= from,
        count <= usize::MAX,
    ensures
        others(count, from).len() == count,
        forall|i: int| 0 <= i < count ==> #[trigger] others(count, from)[i] == i,
    decreases count,
{
    if count > 0 {
        lemma_all((count - 1) as nat, from);
    }
}

/// The slot that comes to stand at a place, when the one at `from` is dropped at
/// insertion point `to`.
pub open spec fn place_after(from: int, to: int, i: int) -> int {
    if to > from {
        if i < from || i >= to {
            i
        } else if i == to - 1 {
            from
        } else {
            i + 1
        }
    } else {
        if i < to || i > from {
            i
        } else if i == to {
            from
        } else {
            i - 1
        }
    }
}

/// Moving a tile shifts only what it passes: the tile lands where it was
/// dropped, or at the end when that is past it, what it passed moves one place
/// toward where it was, and everything else stays where it is.
pub proof fn moving_a_tile_shifts_only_what_it_passes(count: nat, from: usize, to: usize)
    requires
        from < count <= usize::MAX,
    ensures
        order_after(count, from, to).len() == count,
        forall|i: int|
            0 <= i < count ==> #[trigger] order_after(count, from, to)[i] == place_after(
                from as int,
                num::smaller(to as int, count as int),
                i,
            ),
{
    lemma_others(count, from as int);
}

/// Dropping a tile back where it started changes nothing, on either side of it.
pub proof fn dropping_a_tile_where_it_was_changes_nothing(count: nat, from: usize)
    requires
        from < count <= usize::MAX,
    ensures
        forall|i: int| 0 <= i < count ==> #[trigger] order_after(count, from, from)[i] == i,
        forall|i: int|
            0 <= i < count ==> #[trigger] order_after(count, from, (from + 1) as usize)[i] == i,
{
    moving_a_tile_shifts_only_what_it_passes(count, from, from);
    moving_a_tile_shifts_only_what_it_passes(count, from, (from + 1) as usize);
}

/// No slot is lost and none comes up twice, wherever a tile is dropped.
pub proof fn reordering_loses_no_slot(count: nat, from: usize, to: usize)
    requires
        from < count <= usize::MAX,
    ensures
        order_after(count, from, to).len() == count,
        order_after(count, from, to).no_duplicates(),
        forall|slot: usize| slot < count ==> order_after(count, from, to).contains(slot),
{
    lemma_others(count, from as int);
    let rest = others(count, from as int);
    let at = landing(count, from as int, to as int);
    let order = order_after(count, from, to);
    assert forall|slot: usize| slot < count implies order.contains(slot) by {
        if slot == from {
            assert(order[at] == slot);
        } else {
            let i = if slot < from {
                slot as int
            } else {
                slot - 1
            };
            assert(rest[i] == slot);
            if i < at {
                assert(order[i] == slot);
            } else {
                assert(order[i + 1] == slot);
            }
        }
    }
    assert forall|i: int, j: int| 0 <= i < j < order.len() implies order[i] != order[j] by {
        let a = if i < at {
            i
        } else {
            i - 1
        };
        let b = if j < at {
            j
        } else {
            j - 1
        };
        if i == at {
            assert(order[j] == rest[b]);
        } else if j == at {
            assert(order[i] == rest[a]);
        } else {
            assert(order[i] == rest[a] && order[j] == rest[b]);
        }
    }
}

/// Whether two tiles come from one source.
pub open spec fn same_source<T: PartialEq>(origins: Seq<T>, tile: int, i: int) -> bool {
    0 <= i < origins.len() && origins[i].eq_spec(&origins[tile])
}

/// Where the run of one source that a tile is in starts, going back no further
/// than the start of the band.
pub open spec fn run_start<T: PartialEq>(
    origins: Seq<T>,
    band_first: int,
    tile: int,
    from: int,
) -> int
    decreases from - band_first,
{
    if from > band_first && same_source(origins, tile, from - 1) {
        run_start(origins, band_first, tile, from - 1)
    } else {
        from
    }
}

/// How many tiles from one on are of a tile's source, going no further than the
/// end of the band.
pub open spec fn run_length<T: PartialEq>(
    origins: Seq<T>,
    end: int,
    tile: int,
    from: int,
) -> nat
    decreases end - from,
{
    if from < end && same_source(origins, tile, from) {
        1 + run_length(origins, end, tile, from + 1)
    } else {
        0
    }
}

/// Where a band ends, short of the end of the list.
pub open spec fn band_end(band_first: int, band_count: int, len: int) -> int {
    if band_first + band_count < len {
        band_first + band_count
    } else {
        len
    }
}

/// The run of one source inside a band that a tile may move within: where it
/// starts and how long it is.
pub open spec fn run_of<T: PartialEq>(
    origins: Seq<T>,
    band_first: int,
    band_count: int,
    tile: int,
) -> (int, int) {
    if tile >= origins.len() {
        (tile, 0)
    } else {
        let first = run_start(origins, band_first, tile, tile);
        let end = band_end(band_first, band_count, origins.len() as int);
        (first, run_length(origins, end, tile, first) as int)
    }
}

/// The stretch of tiles a drag may move within: the neighbours inside
/// `(band_first, band_count)` that share the dragged tile's origin.
///
/// A merged section holds tiles from more than one source, and no config can
/// express a tile of one source sitting between two of another - those two
/// orders are separate lists. So a drag rearranges its own run and stops at the
/// seam.
pub fn origin_run<T: PartialEq>(
    origins: &[T],
    band_first: usize,
    band_count: usize,
    tile: usize,
) -> (run: (usize, usize))
    requires
        T::obeys_eq_spec(),
    ensures
        run.0 == run_of(origins@, band_first as int, band_count as int, tile as int).0,
        run.1 == run_of(origins@, band_first as int, band_count as int, tile as int).1,
{
    let len: usize = origins.len();
    if tile >= len {
        return (tile, 0);
    }
    let mut first: usize = tile;
    while first > band_first && origins[first - 1] == origins[tile]
        invariant
            T::obeys_eq_spec(),
            first <= tile < len,
            len == origins@.len(),
            run_start(origins@, band_first as int, tile as int, tile as int) == run_start(
                origins@,
                band_first as int,
                tile as int,
                first as int,
            ),
        ensures
            first <= tile,
            run_start(origins@, band_first as int, tile as int, tile as int) == first,
        decreases first,
    {
        first -= 1;
    }
    let sum: usize = band_first.saturating_add(band_count);
    let end: usize = if sum < len {
        sum
    } else {
        len
    };
    let mut last: usize = first;
    while last < end && origins[last] == origins[tile]
        invariant
            T::obeys_eq_spec(),
            first <= last <= len,
            end <= len,
            tile < len,
            len == origins@.len(),
            run_length(origins@, end as int, tile as int, first as int) == last - first
                + run_length(origins@, end as int, tile as int, last as int),
        ensures
            first <= last,
            run_length(origins@, end as int, tile as int, first as int) == last - first,
        decreases end - last,
    {
        last += 1;
    }
    (first, last - first)
}

proof fn lemma_run_start<T: PartialEq>(
    origins: Seq<T>,
    band_first: int,
    tile: int,
    from: int,
)
    requires
        band_first <= from <= tile < origins.len(),
        0 <= band_first,
    ensures
        ({
            let first = run_start(origins, band_first, tile, from);
            &&& band_first <= first <= from
            &&& forall|i: int| first <= i < from ==> same_source(origins, tile, i)
            &&& first > band_first ==> !same_source(origins, tile, first - 1)
        }),
    decreases from - band_first,
{
    if from > band_first && same_source(origins, tile, from - 1) {
        lemma_run_start(origins, band_first, tile, from - 1);
    }
}

proof fn lemma_run_length<T: PartialEq>(origins: Seq<T>, end: int, tile: int, from: int)
    requires
        0 <= from,
        end <= origins.len(),
    ensures
        ({
            let n = run_length(origins, end, tile, from) as int;
            &&& from + n <= end || n == 0
            &&& forall|i: int| from <= i < from + n ==> same_source(origins, tile, i)
            &&& from + n < end ==> !same_source(origins, tile, from + n)
        }),
    decreases end - from,
{
    if from < end && same_source(origins, tile, from) {
        lemma_run_length(origins, end, tile, from + 1);
    }
}

/// A run holds the dragged tile and stays inside its band, every tile in it is
/// of the dragged tile's source, and it stops only at the band or at a tile of
/// another source.
pub proof fn a_run_is_one_source_inside_one_band<T: PartialEq>(
    origins: Seq<T>,
    band_first: int,
    band_count: int,
    tile: int,
)
    requires
        0 <= band_first <= tile,
        tile < band_end(band_first, band_count, origins.len() as int),
        same_source(origins, tile, tile),
    ensures
        ({
            let (first, count) = run_of(origins, band_first, band_count, tile);
            let end = band_end(band_first, band_count, origins.len() as int);
            &&& band_first <= first <= tile < first + count <= end
            &&& forall|i: int| first <= i < first + count ==> same_source(origins, tile, i)
            &&& first > band_first ==> !same_source(origins, tile, first - 1)
            &&& first + count < end ==> !same_source(origins, tile, first + count)
        }),
{
    let end = band_end(band_first, band_count, origins.len() as int);
    lemma_run_start(origins, band_first, tile, tile);
    let first = run_start(origins, band_first, tile, tile);
    lemma_run_length(origins, end, tile, first);
    lemma_run_passes(origins, end, tile, first);
}

/// Whether coming from one source sorts the tiles of a list: every tile is of
/// its own source, and two of one source are of the same one as any third.
pub open spec fn sorts<T: PartialEq>(origins: Seq<T>) -> bool {
    &&& forall|i: int| 0 <= i < origins.len() ==> #[trigger] same_source(origins, i, i)
    &&& forall|i: int, j: int, k: int|
        0 <= i < origins.len() && #[trigger] same_source(origins, i, j) ==> (same_source(
            origins,
            i,
            k,
        ) <==> #[trigger] same_source(origins, j, k))
}

/// Every tile of a run names the same run, so the runs of a band part it.
pub proof fn every_tile_of_a_run_names_the_same_run<T: PartialEq>(
    origins: Seq<T>,
    band_first: int,
    band_count: int,
    tile: int,
    other: int,
)
    requires
        sorts(origins),
        0 <= band_first <= tile,
        tile < band_end(band_first, band_count, origins.len() as int),
        ({
            let (first, count) = run_of(origins, band_first, band_count, tile);
            first <= other < first + count
        }),
    ensures
        run_of(origins, band_first, band_count, other) == run_of(
            origins,
            band_first,
            band_count,
            tile,
        ),
{
    let end = band_end(band_first, band_count, origins.len() as int);
    assert(same_source(origins, tile, tile));
    a_run_is_one_source_inside_one_band(origins, band_first, band_count, tile);
    let (first, count) = run_of(origins, band_first, band_count, tile);
    assert(same_source(origins, tile, other));
    assert(same_source(origins, other, other));
    a_run_is_one_source_inside_one_band(origins, band_first, band_count, other);
    let (start, length) = run_of(origins, band_first, band_count, other);
    assert forall|k: int| same_source(origins, tile, k) <==> #[trigger] same_source(
        origins,
        other,
        k,
    ) by {}
    if start < first {
        assert(same_source(origins, other, first - 1));
        assert(same_source(origins, tile, first - 1));
    }
    if first < start {
        assert(same_source(origins, tile, start - 1));
        assert(same_source(origins, other, start - 1));
    }
    if start + length < first + count {
        assert(same_source(origins, tile, start + length));
        assert(same_source(origins, other, start + length));
    }
    if first + count < start + length {
        assert(same_source(origins, other, first + count));
        assert(same_source(origins, tile, first + count));
    }
}

proof fn lemma_run_passes<T: PartialEq>(origins: Seq<T>, end: int, tile: int, from: int)
    requires
        0 <= from <= tile < end <= origins.len(),
        forall|i: int| from <= i <= tile ==> same_source(origins, tile, i),
    ensures
        from + run_length(origins, end, tile, from) > tile,
    decreases tile - from,
{
    assert(same_source(origins, tile, from));
    if from < tile {
        lemma_run_passes(origins, end, tile, from + 1);
    }
}

} // verus!
