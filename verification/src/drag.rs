//! Rearranging, without a mode: a press that travels is a drag.

use vstd::prelude::*;
use crate::board;
use crate::board::Board;
use crate::layout::Layout;
use crate::model::{Half, Item, Source};
use crate::num;
use crate::order;
use crate::order::{origin_run, reordered};
use crate::query;
use crate::scene::Scene;
use crate::session::{just, none, Effect, Press, Session, SessionView, State, Turn};
use crate::stretch::FAR;
use crate::tiles;
use crate::tiles::draggable;

verus! {

/// The first band from `from` on that holds a tile.
pub open spec fn owner_from(layout: Layout, tile: int, from: int) -> Option<int>
    decreases layout.bands@.len() - from,
{
    if from >= layout.bands@.len() {
        None
    } else if layout.owns(from, tile) {
        Some(from)
    } else {
        owner_from(layout, tile, from + 1)
    }
}

proof fn lemma_owner(layout: Layout, tile: int, from: int, to: int)
    requires
        0 <= from <= to <= layout.bands@.len(),
        forall|i: int| from <= i < to ==> !#[trigger] layout.owns(i, tile),
    ensures
        owner_from(layout, tile, from) == owner_from(layout, tile, to),
    decreases to - from,
{
    if from < to {
        assert(!layout.owns(from, tile));
        lemma_owner(layout, tile, from + 1, to);
    }
}

/// Which run of its section each tile belongs to.
pub open spec fn groups(board: Board) -> Seq<usize> {
    Seq::new(board.spots@.len(), |t: int| board.tile(t).group)
}

/// The tiles a drag of one may move within: the first of them, and how many.
/// `None` when the tile's place is not the panel's to keep.
pub open spec fn drag_run(scene: Scene, query: Seq<char>, tile: usize) -> Option<(
    int,
    int,
    int,
)> {
    match owner_from(scene.layout, tile as int, 0) {
        Some(band) => if tiles::is_draggable(scene.board, query, tile) {
            let owner = scene.layout.bands@[band];
            let run = order::run_of(
                groups(scene.board),
                owner.first as int,
                owner.count as int,
                tile as int,
            );
            Some((band, run.0, run.1))
        } else {
            None
        },
        None => None,
    }
}

/// A press taken on a tile. Whether it turns out to be a click or a drag is
/// decided later, by how far the cursor travels.
pub open spec fn press_on(
    s: SessionView,
    scene: Scene,
    tile: usize,
    x: int,
    y: int,
) -> Press {
    let rect = (if tile < scene.layout.tiles@.len() {
        scene.layout.tiles@[tile as int]
    } else {
        crate::geometry::Rect::spec_blank()
    }).moved_up(s.state.scroll as int);
    let run = drag_run(scene, s.query, tile);
    Press {
        tile,
        band: match run {
            Some((band, _, _)) => Some(band as usize),
            None => None,
        },
        first: match run {
            Some((_, first, _)) => first as usize,
            None => tile,
        },
        count: match run {
            Some((_, _, count)) => count as usize,
            None => 0,
        },
        grab: ((x - rect.x) as i64, (y - rect.y) as i64),
        start: (x as i64, y as i64),
        dragging: false,
        slot: match run {
            Some((_, first, _)) => (tile - first) as usize,
            None => 0,
        },
    }
}

/// A press taken on a tile.
#[verifier::opaque]
pub open spec fn pressing(s: SessionView, scene: Scene, tile: usize, x: int, y: int) -> Turn {
    Turn {
        after: s.with(State { press: Some(press_on(s, scene, tile, x, y)), ..s.state }),
        does: seq![Effect::Capture],
    }
}

/// Whether a press fits the panel it was taken on: its run starts no earlier
/// than its band, and holds the tile.
pub open spec fn fits(press: Press, layout: Layout) -> bool {
    &&& query::measured(press.start.0 as int)
    &&& query::measured(press.start.1 as int)
    &&& -2 * FAR <= press.grab.0 <= 2 * FAR
    &&& -3 * FAR <= press.grab.1 <= 3 * FAR
    &&& press.first <= press.tile
    &&& press.band matches Some(band) ==> {
        &&& band < layout.bands@.len()
        &&& layout.bands@[band as int].first <= press.first
        &&& press.first - layout.bands@[band as int].first + press.count <= usize::MAX
        &&& press.tile < press.first + press.count
    }
}

/// Whether a press fits the panel it was taken on. One the panel was laid out
/// anew under does not, and is to be let go.
pub fn still_fits(press: &Press, layout: &Layout) -> (yes: bool)
    ensures
        yes == fits(*press, *layout),
{
    let (x, y): (i64, i64) = press.start;
    let (gx, gy): (i64, i64) = press.grab;
    let placed = -FAR <= x && x <= FAR && -FAR <= y && y <= FAR && -2 * FAR <= gx && gx <= 2 * FAR
        && -3 * FAR <= gy && gy <= 3 * FAR;
    if !placed || press.first > press.tile {
        return false;
    }
    match press.band {
        None => true,
        Some(band) => {
            if band >= layout.bands.len() || layout.bands[band].first > press.first {
                return false;
            }
            let offset: usize = press.first - layout.bands[band].first;
            press.count <= usize::MAX - offset && press.tile - press.first < press.count
        },
    }
}

/// Whether the cursor has not gone further than a hand wobbles.
pub open spec fn wobbles(press: Press, x: int, y: int, slop: (int, int)) -> bool {
    &&& -slop.0 <= x - press.start.0 <= slop.0
    &&& -slop.1 <= y - press.start.1 <= slop.1
}

/// Where in its run a tile dropped at a point lands. The slot is measured
/// against the whole band and kept to the run, so a pin cannot be dropped past
/// the seam into tiles a different source owns.
pub open spec fn slot_in_run(press: Press, layout: Layout, scroll: int, x: int, y: int) -> int {
    let band = layout.bands@[press.band->0 as int];
    let offset = press.first - band.first;
    let slot = query::slot_under(layout.metrics, band@, x, y + scroll);
    num::between(slot as int, offset, offset + press.count) - offset
}

/// A press that has become a drag, with the cursor at a point.
pub open spec fn carried(press: Press, layout: Layout, scroll: int, x: int, y: int) -> Press {
    Press {
        dragging: true,
        slot: match press.band {
            Some(_) => slot_in_run(press, layout, scroll, x, y) as usize,
            None => press.slot,
        },
        ..press
    }
}

/// What a drag shows: its tile lifted out the first time, the run's others
/// moved aside, and the tile under the cursor. A tile that is not the panel's
/// to rearrange shows nothing.
pub open spec fn carrying(press: Press, x: int, y: int) -> Seq<Effect> {
    match press.band {
        None => Seq::empty(),
        Some(_) => (if press.dragging {
            Seq::empty()
        } else {
            seq![Effect::Lift(press.tile)]
        }) + seq![
            Effect::Preview,
            Effect::Drag {
                tile: press.tile,
                x: (x - press.grab.0) as i64,
                y: (y - press.grab.1) as i64,
            },
        ],
    }
}

/// The cursor moving while a tile is pressed. Past the threshold it is a drag,
/// and no click any more whatever comes of it.
#[verifier::opaque]
pub open spec fn dragging(
    s: SessionView,
    layout: Layout,
    x: int,
    y: int,
    slop: (int, int),
) -> Turn {
    match s.state.press {
        None => s.still(),
        Some(press) => if !press.dragging && wobbles(press, x, y, slop) {
            s.still()
        } else {
            Turn {
                after: s.with(
                    State {
                        press: Some(
                            carried(press, layout, s.state.scroll as int, x, y),
                        ),
                        ..s.state
                    },
                ),
                does: carrying(press, x, y),
            }
        },
    }
}

pub(crate) fn find_owner(layout: &Layout, tile: usize) -> (band: Option<usize>)
    requires
        layout.wf(),
    ensures
        board::same_slot(band, owner_from(*layout, tile as int, 0)),
        band matches Some(b) ==> b < layout.bands@.len() && layout.owns(b as int, tile as int),
{
    let band = layout.band_of(tile);
    proof {
        match band {
            Some(b) => {
                lemma_owner(*layout, tile as int, 0, b as int);
            },
            None => {
                lemma_owner(*layout, tile as int, 0, layout.bands@.len() as int);
            },
        }
    }
    band
}

fn list_groups(board: &Board) -> (list: Vec<usize>)
    requires
        board.wf(),
    ensures
        list@ == groups(*board),
{
    let mut list: Vec<usize> = Vec::new();
    let n: usize = board.len();
    for t in 0..n
        invariant
            board.wf(),
            n == board.spots@.len(),
            list@ =~= groups(*board).take(t as int),
    {
        if let Some(item) = board.item(t) {
            list.push(item.group);
        }
    }
    assert(groups(*board).take(n as int) =~= groups(*board));
    list
}

proof fn lemma_run(groups: Seq<usize>, first: int, count: int, tile: int)
    requires
        0 <= first <= tile < groups.len(),
        tile < first + count,
    ensures
        ({
            let run = order::run_of(groups, first, count, tile);
            &&& first <= run.0 <= tile
            &&& tile < run.0 + run.1
            &&& run.0 + run.1 <= first + count
            &&& run.0 + run.1 <= groups.len()
        }),
{
    assert(order::same_source(groups, tile, tile));
    order::a_run_is_one_source_inside_one_band(groups, first, count, tile);
}

proof fn lemma_others_below(count: nat, from: int)
    requires
        count <= usize::MAX,
    ensures
        forall|i: int|
            0 <= i < order::others(count, from).len() ==> #[trigger] order::others(count, from)[i]
                < count,
    decreases count,
{
    if count > 0 {
        lemma_others_below((count - 1) as nat, from);
        let (before, all) = (
            order::others((count - 1) as nat, from),
            order::others(count, from),
        );
        assert forall|i: int| 0 <= i < all.len() implies #[trigger] all[i] < count by {
            if i < before.len() {
                assert(all[i] == before[i]);
            }
        }
    }
}

proof fn lemma_order_below(count: nat, from: usize, to: usize)
    requires
        from < count <= usize::MAX,
    ensures
        order::order_after(count, from, to).len() == count,
        forall|i: int| 0 <= i < count ==> #[trigger] order::order_after(count, from, to)[i] < count,
{
    order::reordering_loses_no_slot(count, from, to);
    lemma_others_below(count, from as int);
    let rest = order::others(count, from as int);
    let all = order::order_after(count, from, to);
    let at = order::landing(count, from as int, to as int);
    assert forall|i: int| 0 <= i < count implies #[trigger] all[i] < count by {
        if i < at {
            assert(all[i] == rest[i]);
        } else if i > at {
            assert(all[i] == rest[i - 1]);
        }
    }
}

fn take_press(
    scene: &Scene,
    query: &Vec<char>,
    scroll: i64,
    tile: usize,
    x: i64,
    y: i64,
    Ghost(s): Ghost<SessionView>,
) -> (press: Press)
    requires
        scene.wf(),
        query::measured(scroll as int),
        query::measured(x as int),
        query::measured(y as int),
        s.query == query@,
        s.state.scroll == scroll,
    ensures
        press == press_on(s, *scene, tile, x as int, y as int),
        fits(press, scene.layout),
{
    let rect = scene.layout.tile_rect(tile, scroll);
    proof {
        if tile < scene.layout.tiles@.len() {
            assert(scene.layout.tiles@[tile as int].near_enough());
        }
    }
    let grab: (i64, i64) = (x - rect.x, y - rect.y);
    let start: (i64, i64) = (x, y);
    let owner = find_owner(&scene.layout, tile);
    if let Some(band) = owner {
        if draggable(&scene.board, query, tile) {
            let list = list_groups(&scene.board);
            let first: usize = scene.layout.bands[band].first;
            let count: usize = scene.layout.bands[band].count;
            let run = origin_run(list.as_slice(), first, count, tile);
            proof {
                assert(scene.layout.bands@[band as int]@.wf());
                lemma_run(list@, first as int, count as int, tile as int);
            }
            return Press {
                tile,
                band: Some(band),
                first: run.0,
                count: run.1,
                grab,
                start,
                dragging: false,
                slot: tile - run.0,
            };
        }
    }
    Press { tile, band: None, first: tile, count: 0, grab, start, dragging: false, slot: 0 }
}

fn carry(press: &Press, layout: &Layout, scroll: i64, x: i64, y: i64) -> (moved: Press)
    requires
        layout.wf(),
        query::measured(scroll as int),
        query::measured(x as int),
        query::measured(y as int),
        fits(*press, *layout),
    ensures
        moved == carried(*press, *layout, scroll as int, x as int, y as int),
        fits(moved, *layout),
{
    let mut moved = *press;
    moved.dragging = true;
    if let Some(band) = press.band {
        let offset: usize = press.first - layout.bands[band].first;
        let slot = layout.insert_slot(band, x, y, scroll);
        let kept: usize = if slot < offset {
            offset
        } else if slot > offset + press.count {
            offset + press.count
        } else {
            slot
        };
        moved.slot = kept - offset;
    }
    moved
}

fn show_carry(press: &Press, x: i64, y: i64, Ghost(layout): Ghost<Layout>) -> (effects: Vec<Effect>)
    requires
        query::measured(x as int),
        query::measured(y as int),
        fits(*press, layout),
    ensures
        effects@ == carrying(*press, x as int, y as int),
{
    let mut effects = none();
    if press.band.is_some() {
        if !press.dragging {
            effects.push(Effect::Lift(press.tile));
        }
        effects.push(Effect::Preview);
        effects.push(Effect::Drag { tile: press.tile, x: x - press.grab.0, y: y - press.grab.1 });
    }
    assert(effects@ =~= carrying(*press, x as int, y as int));
    effects
}

fn within_slop(press: &Press, x: i64, y: i64, slop: (i64, i64), Ghost(layout): Ghost<Layout>) -> (yes:
    bool)
    requires
        query::measured(x as int),
        query::measured(y as int),
        query::measured(slop.0 as int),
        query::measured(slop.1 as int),
        fits(*press, layout),
    ensures
        yes == wobbles(*press, x as int, y as int, (slop.0 as int, slop.1 as int)),
{
    let (dx, dy): (i64, i64) = (x - press.start.0, y - press.start.1);
    -slop.0 <= dx && dx <= slop.0 && -slop.1 <= dy && dy <= slop.1
}

impl Session {
    /// Take a press on a tile.
    pub fn begin_press(&mut self, scene: &Scene, tile: usize, x: i64, y: i64) -> (effects: Vec<
        Effect,
    >)
        requires
            scene.wf(),
            query::measured(old(self).state.scroll as int),
            query::measured(x as int),
            query::measured(y as int),
        ensures
            final(self)@ == pressing(old(self)@, *scene, tile, x as int, y as int).after,
            effects@ == pressing(old(self)@, *scene, tile, x as int, y as int).does,
            fits(press_on(old(self)@, *scene, tile, x as int, y as int), scene.layout),
    {
        proof {
            reveal(pressing);
        }
        let press = take_press(
            scene,
            &self.query,
            self.state.scroll,
            tile,
            x,
            y,
            Ghost(self@),
        );
        self.state.press = Some(press);
        just(Effect::Capture)
    }

    /// The cursor moved while a tile was pressed. `slop` is how far a hand
    /// wobbles on this machine.
    pub fn press_moved_to(&mut self, layout: &Layout, x: i64, y: i64, slop: (i64, i64)) -> (effects:
        Vec<Effect>)
        requires
            layout.wf(),
            query::measured(old(self).state.scroll as int),
            query::measured(x as int),
            query::measured(y as int),
            query::measured(slop.0 as int),
            query::measured(slop.1 as int),
            old(self).state.press matches Some(press) ==> fits(press, *layout),
        ensures
            final(self)@ == dragging(
                old(self)@,
                *layout,
                x as int,
                y as int,
                (slop.0 as int, slop.1 as int),
            ).after,
            effects@ == dragging(
                old(self)@,
                *layout,
                x as int,
                y as int,
                (slop.0 as int, slop.1 as int),
            ).does,
            final(self).state.press matches Some(press) ==> fits(press, *layout),
    {
        proof {
            reveal(dragging);
        }
        let press = match self.state.press {
            Some(press) => press,
            None => {
                return none();
            },
        };
        if !press.dragging && within_slop(&press, x, y, slop, Ghost(*layout)) {
            return none();
        }
        let moved = carry(&press, layout, self.state.scroll, x, y);
        self.state.press = Some(moved);
        show_carry(&press, x, y, Ghost(*layout))
    }
}

/// Which tile of a run is drawn in which place while one is dragged: every
/// other tile of the run, and the place it would take if the drag ended here.
pub open spec fn shuffled(press: Press, n: nat) -> Seq<(usize, usize)>
    decreases n,
{
    if n == 0 {
        Seq::empty()
    } else {
        let before = shuffled(press, (n - 1) as nat);
        let from = (press.tile - press.first) as usize;
        let slot = order::order_after(press.count as nat, from, press.slot)[n - 1];
        if slot == from {
            before
        } else {
            before.push(((press.first + slot) as usize, (press.first + n - 1) as usize))
        }
    }
}

/// Where a run's other tiles go while one is dragged.
pub fn preview(press: &Press) -> (moved: Vec<(usize, usize)>)
    requires
        press.first <= press.tile < press.first + press.count <= usize::MAX,
    ensures
        moved@ == (if press.band is None {
            Seq::empty()
        } else {
            shuffled(*press, press.count as nat)
        }),
{
    let mut moved: Vec<(usize, usize)> = Vec::new();
    if press.band.is_none() {
        assert(moved@ =~= Seq::empty());
        return moved;
    }
    let from: usize = press.tile - press.first;
    let slots = reordered(press.count, from, press.slot);
    proof {
        lemma_order_below(press.count as nat, from, press.slot);
    }
    for position in 0..press.count
        invariant
            press.first <= press.tile < press.first + press.count <= usize::MAX,
            from == press.tile - press.first,
            slots@ == order::order_after(press.count as nat, from, press.slot),
            slots@.len() == press.count,
            forall|i: int| 0 <= i < slots@.len() ==> #[trigger] slots@[i] < press.count,
            moved@ == shuffled(*press, position as nat),
    {
        let slot = slots[position];
        assert(slots@[position as int] < press.count);
        if slot != from {
            moved.push((press.first + slot, press.first + position));
        }
    }
    moved
}

/// Which list an order is written to.
#[derive(Debug, Clone, Copy, PartialEq, Eq, Structural)]
pub enum List {
    /// The section's own pins.
    Pins,
    /// The order the section keeps of the taskbar's.
    Taskbar,
    /// A list of the centre block.
    Center(Half),
}

/// The order a drag ended in, by the names the config knows its tiles by.
pub struct Saved {
    pub section: usize,
    pub list: List,
    pub keys: Vec<String>,
}

/// What identifies an item in the config: pins are listed by what the shell
/// opens, and the rest by their titles.
pub open spec fn key_of(origin: Source, item: Item) -> Option<Seq<char>> {
    if origin == Source::Manual || origin == Source::Center {
        item.shell_name()
    } else {
        Some(item.title@)
    }
}

/// The list an order of some source is written to. `None` for those that have
/// an order of their own: by use, by name, or fixed.
pub open spec fn list_of(origin: Source, center: Option<usize>) -> Option<List> {
    match origin {
        Source::Manual => Some(List::Pins),
        Source::Taskbar => Some(List::Taskbar),
        // Which half is being dragged in, so a drag inside the centre rewrites
        // that list and only that one.
        Source::Center => Some(
            List::Center(
                if center == Some(1usize) {
                    Half::Sites
                } else {
                    Half::Apps
                },
            ),
        ),
        _ => None,
    }
}

fn list_for(origin: Source, center: Option<usize>) -> (list: Option<List>)
    ensures
        list == list_of(origin, center),
{
    match origin {
        Source::Manual => Some(List::Pins),
        Source::Taskbar => Some(List::Taskbar),
        Source::Center => match center {
            Some(1) => Some(List::Center(Half::Sites)),
            _ => Some(List::Center(Half::Apps)),
        },
        _ => None,
    }
}

fn key_for(origin: Source, item: &Item) -> (key: Option<String>)
    ensures
        board::words(key) == key_of(origin, *item),
{
    if origin == Source::Manual || origin == Source::Center {
        match item.shell_target() {
            Some(name) => Some(name.clone()),
            None => None,
        }
    } else {
        Some(item.title.clone())
    }
}

/// The order a press's run ends up in.
pub open spec fn order_of(press: Press) -> Seq<usize> {
    order::order_after(
        press.count as nat,
        (press.tile - press.first) as usize,
        press.slot,
    )
}

/// Whether every tile of a run stays where it is.
pub open spec fn unmoved(press: Press) -> bool {
    forall|i: int| 0 <= i < press.count ==> #[trigger] order_of(press)[i] == i
}

/// The name the tile in one place of the new order goes by.
pub open spec fn name_at(board: Board, press: Press, origin: Source, i: int) -> Option<Seq<char>> {
    let t = press.first + order_of(press)[i];
    if board.has(t) {
        key_of(origin, board.tile(t))
    } else {
        None
    }
}

/// Whether there is an order to save: it changed, every tile of it has a name,
/// and there is a list to write it to.
pub open spec fn saves(scene: Scene, press: Press) -> bool {
    &&& press.band is Some
    &&& press.band->0 < scene.layout.bands@.len()
    &&& scene.layout.bands@[press.band->0 as int].section < scene.board.sections@.len()
    &&& !unmoved(press)
    &&& scene.board.has(press.tile as int)
    &&& {
        let origin = scene.board.tile(press.tile as int).origin;
        let section = scene.layout.bands@[press.band->0 as int].section;
        &&& forall|i: int|
            0 <= i < press.count ==> (#[trigger] name_at(scene.board, press, origin, i)) is Some
        &&& list_of(origin, scene.board.sections@[section as int].center) is Some
    }
}

fn name_all(board: &Board, press: &Press, origin: Source, slots: &Vec<usize>) -> (keys: Option<
    Vec<String>,
>)
    requires
        board.wf(),
        press.first <= press.tile < press.first + press.count <= usize::MAX,
        slots@ == order_of(*press),
    ensures
        keys is Some <==> forall|i: int|
            0 <= i < press.count ==> (#[trigger] name_at(*board, *press, origin, i)) is Some,
        keys matches Some(keys) ==> keys@.len() == press.count && forall|i: int|
            0 <= i < press.count ==> Some((#[trigger] keys@[i])@) == name_at(
                *board,
                *press,
                origin,
                i,
            ),
{
    let mut keys: Vec<String> = Vec::new();
    proof {
        lemma_order_below(
            press.count as nat,
            (press.tile - press.first) as usize,
            press.slot,
        );
    }
    for i in 0..press.count
        invariant
            board.wf(),
            press.first + press.count <= usize::MAX,
            slots@ == order_of(*press),
            slots@.len() == press.count,
            forall|k: int| 0 <= k < slots@.len() ==> #[trigger] slots@[k] < press.count,
            keys@.len() == i,
            forall|k: int|
                0 <= k < i ==> Some((#[trigger] keys@[k])@) == name_at(
                    *board,
                    *press,
                    origin,
                    k,
                ),
            forall|k: int|
                0 <= k < i ==> (#[trigger] name_at(*board, *press, origin, k)) is Some,
    {
        assert(slots@[i as int] < press.count);
        let key = match board.item(press.first + slots[i]) {
            Some(item) => key_for(origin, item),
            None => None,
        };
        match key {
            Some(key) => {
                assert(Some(key@) == name_at(*board, *press, origin, i as int));
                keys.push(key);
            },
            None => {
                assert(name_at(*board, *press, origin, i as int) is None);
                return None;
            },
        }
    }
    Some(keys)
}

/// The order a drag ended in, ready to be written. `None` when nothing changed
/// or there is nothing to write.
pub fn commit_drag(scene: &Scene, press: &Press) -> (saved: Option<Saved>)
    requires
        scene.wf(),
        press.first <= press.tile < press.first + press.count <= usize::MAX,
    ensures
        saved is Some <==> saves(*scene, *press),
        saved matches Some(saved) ==> {
            let section = scene.layout.bands@[press.band->0 as int].section;
            let origin = scene.board.tile(press.tile as int).origin;
            &&& saved.section == section
            &&& Some(saved.list) == list_of(
                origin,
                scene.board.sections@[section as int].center,
            )
            &&& saved.keys@.len() == press.count
            &&& forall|i: int|
                0 <= i < press.count ==> Some((#[trigger] saved.keys@[i])@) == name_at(
                    scene.board,
                    *press,
                    origin,
                    i,
                )
        },
{
    let band = match press.band {
        Some(band) => band,
        None => {
            return None;
        },
    };
    if band >= scene.layout.bands.len() {
        return None;
    }
    let section: usize = scene.layout.bands[band].section;
    if section >= scene.board.sections.len() {
        return None;
    }
    let slots = reordered(press.count, press.tile - press.first, press.slot);
    proof {
        lemma_order_below(
            press.count as nat,
            (press.tile - press.first) as usize,
            press.slot,
        );
    }
    let mut same = true;
    for i in 0..press.count
        invariant
            slots@ == order_of(*press),
            slots@.len() == press.count,
            same == forall|k: int| 0 <= k < i ==> #[trigger] order_of(*press)[k] == k,
    {
        if slots[i] != i {
            same = false;
        }
        assert(order_of(*press)[i as int] == slots@[i as int]);
    }
    if same {
        return None;
    }
    // Which of the section's sources was dragged decides both how a tile is
    // named and which list it is written to.
    let origin = match scene.board.item(press.tile) {
        Some(item) => item.origin,
        None => {
            return None;
        },
    };
    match (
        name_all(&scene.board, press, origin, &slots),
        list_for(origin, scene.board.sections[section].center),
    ) {
        (Some(keys), Some(list)) => Some(Saved { section, list, keys }),
        _ => None,
    }
}

/// What putting everything back where the layout says it goes takes.
pub open spec fn cancelling(press: Press) -> Seq<Effect> {
    seq![Effect::ReleaseCapture, Effect::Repaint(press.tile), Effect::Reposition]
}

/// Put everything back where the layout says it goes.
pub fn cancel_press(press: &Press) -> (effects: Vec<Effect>)
    ensures
        effects@ == cancelling(*press),
{
    let mut effects = just(Effect::ReleaseCapture);
    effects.push(Effect::Repaint(press.tile));
    effects.push(Effect::Reposition);
    assert(effects@ =~= cancelling(*press));
    effects
}

/// A tile can only be dropped inside its own run: wherever the cursor goes, the
/// slot it would land in is one of the run's.
pub proof fn a_drop_never_leaves_its_run(
    press: Press,
    layout: Layout,
    scroll: int,
    x: int,
    y: int,
)
    requires
        fits(press, layout),
        press.band is Some,
    ensures
        0 <= slot_in_run(press, layout, scroll, x, y) <= press.count,
        carried(press, layout, scroll, x, y).slot <= press.count,
{
}

/// A wobble is a click: a press that never travels further than a hand wobbles
/// is not a drag, however often it moves.
pub proof fn a_wobble_is_no_drag(
    s: SessionView,
    layout: Layout,
    x: int,
    y: int,
    slop: (int, int),
)
    requires
        s.state.press matches Some(press) && !press.dragging && wobbles(press, x, y, slop),
    ensures
        dragging(s, layout, x, y, slop) == s.still(),
{
    reveal(dragging);
}

/// Dropping a tile where it was saves nothing.
pub proof fn a_tile_dropped_where_it_was_saves_nothing(scene: Scene, press: Press)
    requires
        press.first <= press.tile < press.first + press.count <= usize::MAX,
        press.slot == press.tile - press.first || press.slot == press.tile - press.first + 1,
    ensures
        !saves(scene, press),
{
    let from = (press.tile - press.first) as usize;
    order::dropping_a_tile_where_it_was_changes_nothing(press.count as nat, from);
    if press.slot == from {
        assert(order_of(press) == order::order_after(press.count as nat, from, from));
    } else {
        assert(order_of(press) == order::order_after(
            press.count as nat,
            from,
            (from + 1) as usize,
        ));
    }
    assert(unmoved(press));
}

} // verus!
