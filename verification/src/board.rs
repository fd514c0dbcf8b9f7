//! The sections on the panel, and what each tile of them is.

use vstd::prelude::*;
use crate::model::{Half, Item, Section};
use crate::text::same;

verus! {

/// Some text, or none.
pub open spec fn words(text: Option<String>) -> Option<Seq<char>> {
    match text {
        Some(text) => Some(text@),
        None => None,
    }
}

/// How many tiles the first `n` sections hold.
pub open spec fn base_of(sections: Seq<Section>, n: nat) -> nat
    decreases n,
{
    if n == 0 {
        0
    } else {
        base_of(sections, (n - 1) as nat) + sections[n - 1].items@.len()
    }
}

/// Every tile flattened in section order: the section it is in, and its place
/// there.
pub open spec fn flat(sections: Seq<Section>, n: nat) -> Seq<(usize, usize)>
    decreases n,
{
    if n == 0 {
        Seq::empty()
    } else {
        flat(sections, (n - 1) as nat) + Seq::new(
            sections[n - 1].items@.len(),
            |i: int| ((n - 1) as usize, i as usize),
        )
    }
}

pub proof fn lemma_flat(sections: Seq<Section>, n: nat)
    requires
        n <= sections.len() <= usize::MAX,
    ensures
        flat(sections, n).len() == base_of(sections, n),
        forall|t: int|
            0 <= t < flat(sections, n).len() ==> {
                let spot = #[trigger] flat(sections, n)[t];
                &&& spot.0 < n
                &&& spot.1 < sections[spot.0 as int].items@.len()
                &&& t == base_of(sections, spot.0 as nat) + spot.1
            },
    decreases n,
{
    if n > 0 {
        lemma_flat(sections, (n - 1) as nat);
        let before = flat(sections, (n - 1) as nat);
        let all = flat(sections, n);
        assert forall|t: int| 0 <= t < all.len() implies {
            let spot = #[trigger] all[t];
            &&& spot.0 < n
            &&& spot.1 < sections[spot.0 as int].items@.len()
            &&& t == base_of(sections, spot.0 as nat) + spot.1
        } by {
            if t < before.len() {
                assert(all[t] == before[t]);
            } else {
                vstd::std_specs::vec::axiom_spec_len(&sections[n - 1].items);
            }
        }
    }
}

/// The sections on the panel. Empty ones stay in the list: the layout skips
/// them, and taking them out would break the link from a band to its section.
pub struct Board {
    pub sections: Vec<Section>,
    /// Where each tile is, flattened in section order.
    pub spots: Vec<(usize, usize)>,
}

impl Board {
    pub open spec fn wf(&self) -> bool {
        self.spots@ == flat(self.sections@, self.sections@.len())
    }

    /// Whether there is a tile at a flat index.
    pub open spec fn has(&self, t: int) -> bool {
        0 <= t < self.spots@.len()
    }

    /// The item behind a tile.
    pub open spec fn tile(&self, t: int) -> Item {
        self.sections@[self.spots@[t].0 as int].items@[self.spots@[t].1 as int]
    }

    /// Lay the tiles of some sections out flat.
    pub fn new(sections: Vec<Section>) -> (board: Board)
        ensures
            board.wf(),
            board.sections@ == sections@,
    {
        let mut spots: Vec<(usize, usize)> = Vec::new();
        for s in 0..sections.len()
            invariant
                spots@ == flat(sections@, s as nat),
        {
            let count: usize = sections[s].items.len();
            let ghost before = spots@;
            for i in 0..count
                invariant
                    spots@ =~= before + Seq::new(i as nat, |k: int| (s, k as usize)),
            {
                spots.push((s, i));
            }
            assert(spots@ =~= flat(sections@, (s + 1) as nat));
        }
        Board { sections, spots }
    }

    /// How many tiles there are.
    pub fn len(&self) -> (count: usize)
        ensures
            count == self.spots@.len(),
    {
        self.spots.len()
    }

    /// The item behind a tile, if there is such a tile.
    pub fn item(&self, t: usize) -> (item: Option<&Item>)
        requires
            self.wf(),
        ensures
            item == (if self.has(t as int) {
                Some(&self.tile(t as int))
            } else {
                None
            }),
    {
        if t < self.spots.len() {
            proof {
                vstd::std_specs::vec::axiom_spec_len(&self.sections);
                lemma_flat(self.sections@, self.sections@.len());
            }
            let (s, i) = self.spots[t];
            Some(&self.sections[s].items[i])
        } else {
            None
        }
    }

    /// The handle of the first tile from `from` on that is a window of an app.
    /// First is most recent: windows come roughly by how they are stacked.
    pub open spec fn window_from(&self, app: Seq<char>, from: int) -> Option<u64>
        decreases self.spots@.len() - from,
    {
        if from >= self.spots@.len() {
            None
        } else if self.tile(from).target.handle() is Some && words(self.tile(from).app) == Some(
            app,
        ) {
            self.tile(from).target.handle()
        } else {
            self.window_from(app, from + 1)
        }
    }

    /// The most recent window of an app.
    pub fn window_named(&self, app: &str) -> (handle: Option<u64>)
        requires
            self.wf(),
        ensures
            handle == self.window_from(app@, 0),
    {
        let n: usize = self.spots.len();
        let mut t: usize = 0;
        while t < n
            invariant
                self.wf(),
                t <= n,
                n == self.spots@.len(),
                self.window_from(app@, 0) == self.window_from(app@, t as int),
            decreases n - t,
        {
            if let Some(item) = self.item(t) {
                if let Some(handle) = item.target.window() {
                    if let Some(name) = &item.app {
                        if same(name.as_str(), app) {
                            return Some(handle);
                        }
                    }
                }
            }
            t += 1;
        }
        None
    }

    /// The live window behind an item. A pin has none of its own, so it answers
    /// through the app both it and the window name.
    pub open spec fn window_behind(&self, item: Item) -> Option<u64> {
        match item.target.handle() {
            Some(handle) => Some(handle),
            None => match words(item.app) {
                Some(app) => self.window_from(app, 0),
                None => None,
            },
        }
    }

    /// The live window behind an item.
    pub fn window_for(&self, item: &Item) -> (handle: Option<u64>)
        requires
            self.wf(),
        ensures
            handle == self.window_behind(*item),
    {
        if let Some(handle) = item.target.window() {
            return Some(handle);
        }
        match &item.app {
            Some(app) => self.window_named(app.as_str()),
            None => None,
        }
    }

    /// The first tile from `from` on that is one window.
    pub open spec fn tile_from(&self, handle: u64, from: int) -> Option<int>
        decreases self.spots@.len() - from,
    {
        if from >= self.spots@.len() {
            None
        } else if self.tile(from).target.handle() == Some(handle) {
            Some(from)
        } else {
            self.tile_from(handle, from + 1)
        }
    }

    /// The tile that is one window, if it is on the panel.
    pub fn tile_with(&self, handle: u64) -> (t: Option<usize>)
        requires
            self.wf(),
        ensures
            match (t, self.tile_from(handle, 0)) {
                (Some(t), Some(want)) => t == want,
                (None, None) => true,
                _ => false,
            },
            t matches Some(t) ==> self.has(t as int),
    {
        let n: usize = self.spots.len();
        let mut t: usize = 0;
        while t < n
            invariant
                self.wf(),
                t <= n,
                n == self.spots@.len(),
                self.tile_from(handle, 0) == self.tile_from(handle, t as int),
            decreases n - t,
        {
            if let Some(item) = self.item(t) {
                if let Some(at) = item.target.window() {
                    if at == handle {
                        return Some(t);
                    }
                }
            }
            t += 1;
        }
        None
    }

    /// The first tile from `from` on with an id.
    pub open spec fn known_from(&self, id: Seq<char>, from: int) -> Option<int>
        decreases self.spots@.len() - from,
    {
        if from >= self.spots@.len() {
            None
        } else if self.tile(from).id@ == id {
            Some(from)
        } else {
            self.known_from(id, from + 1)
        }
    }

    /// Where an item has gone, by its id.
    pub fn tile_known_as(&self, id: &str) -> (t: Option<usize>)
        requires
            self.wf(),
        ensures
            match (t, self.known_from(id@, 0)) {
                (Some(t), Some(want)) => t == want,
                (None, None) => true,
                _ => false,
            },
    {
        let n: usize = self.spots.len();
        let mut t: usize = 0;
        while t < n
            invariant
                self.wf(),
                t <= n,
                n == self.spots@.len(),
                self.known_from(id@, 0) == self.known_from(id@, t as int),
            decreases n - t,
        {
            if let Some(item) = self.item(t) {
                if same(item.id.as_str(), id) {
                    return Some(t);
                }
            }
            t += 1;
        }
        None
    }
}

/// Which lists of the centre block are drawn, and where.
///
/// One block draws both lists in its one half; a block set to one list draws
/// that list alone and keeps the other.
#[derive(Debug, Clone, Copy, PartialEq, Eq)]
pub struct Drawn {
    /// Whether a half of the block draws the apps list, by the half's place.
    pub apps: (bool, bool),
    /// The same of the sites list.
    pub sites: (bool, bool),
}

impl Drawn {
    /// Whether the half at a place draws a list.
    pub open spec fn draws(self, place: usize, half: Half) -> bool {
        let list = match half {
            Half::Apps => self.apps,
            Half::Sites => self.sites,
        };
        place == 0 && list.0 || place == 1 && list.1
    }

    pub fn holds(&self, place: usize, half: Half) -> (yes: bool)
        ensures
            yes == self.draws(place, half),
    {
        let list = match half {
            Half::Apps => self.apps,
            Half::Sites => self.sites,
        };
        place == 0 && list.0 || place == 1 && list.1
    }

    /// Whether a list is drawn at all.
    pub open spec fn draws_any(self, half: Half) -> bool {
        self.draws(0, half) || self.draws(1, half)
    }

    pub fn shows(&self, half: Half) -> (yes: bool)
        ensures
            yes == self.draws_any(half),
    {
        self.holds(0, half) || self.holds(1, half)
    }
}

/// The first item from `from` on that is an empty square.
pub open spec fn slot_from(items: Seq<Item>, from: int) -> Option<int>
    decreases items.len() - from,
{
    if from >= items.len() {
        None
    } else if items[from].target is Slot {
        Some(from)
    } else {
        slot_from(items, from + 1)
    }
}

fn first_slot(items: &Vec<Item>) -> (slot: Option<usize>)
    ensures
        match (slot, slot_from(items@, 0)) {
            (Some(slot), Some(want)) => slot == want && slot < items.len(),
            (None, None) => true,
            _ => false,
        },
{
    let n: usize = items.len();
    let mut i: usize = 0;
    while i < n
        invariant
            i <= n,
            n == items@.len(),
            slot_from(items@, 0) == slot_from(items@, i as int),
        decreases n - i,
    {
        if items[i].target.is_slot() {
            return Some(i);
        }
        i += 1;
    }
    None
}

impl Board {
    /// The empty square a list's next favorite lands in, among the first `n`
    /// sections. A pick goes to the end of its list, so it appears in the first
    /// empty square of the half drawing that list.
    pub open spec fn landing_among(&self, drawn: Drawn, half: Half, n: nat) -> Option<int>
        decreases n,
    {
        if n == 0 {
            None
        } else {
            let before = self.landing_among(drawn, half, (n - 1) as nat);
            let section = self.sections@[n - 1];
            match section.center {
                Some(place) if drawn.draws(place, half) => match slot_from(section.items@, 0) {
                    Some(slot) => Some(base_of(self.sections@, (n - 1) as nat) + slot),
                    None => None,
                },
                _ => before,
            }
        }
    }

    /// The empty square a list's next favorite lands in.
    pub open spec fn landing(&self, drawn: Drawn, half: Half) -> Option<int> {
        self.landing_among(drawn, half, self.sections@.len())
    }

    /// The empty square each list's next favorite lands in: the answer to
    /// "where is this going".
    pub fn landing_slots(&self, drawn: &Drawn) -> (slots: (Option<usize>, Option<usize>))
        requires
            self.wf(),
        ensures
            same_slot(slots.0, self.landing(*drawn, Half::Apps)),
            same_slot(slots.1, self.landing(*drawn, Half::Sites)),
    {
        let mut slots: (Option<usize>, Option<usize>) = (None, None);
        let mut base: usize = 0;
        proof {
            vstd::std_specs::vec::axiom_spec_len(&self.sections);
            vstd::std_specs::vec::axiom_spec_len(&self.spots);
            lemma_flat(self.sections@, self.sections@.len());
        }
        for s in 0..self.sections.len()
            invariant
                self.wf(),
                base == base_of(self.sections@, s as nat),
                base_of(self.sections@, self.sections@.len()) <= usize::MAX,
                same_slot(slots.0, self.landing_among(*drawn, Half::Apps, s as nat)),
                same_slot(slots.1, self.landing_among(*drawn, Half::Sites, s as nat)),
        {
            let section = &self.sections[s];
            proof {
                lemma_base_bounds(self.sections@, s as nat, self.sections@.len());
            }
            if let Some(place) = section.center {
                let first: Option<usize> = match first_slot(&section.items) {
                    Some(slot) => Some(base + slot),
                    None => None,
                };
                if drawn.holds(place, Half::Apps) {
                    slots.0 = first;
                }
                if drawn.holds(place, Half::Sites) {
                    slots.1 = first;
                }
            }
            base += section.items.len();
        }
        slots
    }

    /// Which list a place of the block answers for: the first of those drawn
    /// there.
    pub open spec fn list_at(drawn: Drawn, place: usize) -> Option<Half> {
        if drawn.draws(place, Half::Apps) {
            Some(Half::Apps)
        } else if drawn.draws(place, Half::Sites) {
            Some(Half::Sites)
        } else {
            None
        }
    }

    /// Which list an empty square belongs to.
    pub open spec fn half_of(&self, drawn: Drawn, t: int) -> Option<Half> {
        if self.has(t) {
            match self.sections@[self.spots@[t].0 as int].center {
                Some(place) => Self::list_at(drawn, place),
                None => None,
            }
        } else {
            None
        }
    }

    /// Which list an empty square belongs to, for aiming the mode at it.
    ///
    /// One block draws both lists in one half, so a square there answers for
    /// the first of them. Nothing is lost by that: both lists land in the same
    /// square.
    pub fn slot_half(&self, drawn: &Drawn, t: usize) -> (half: Option<Half>)
        requires
            self.wf(),
        ensures
            half == self.half_of(*drawn, t as int),
    {
        if t >= self.spots.len() {
            return None;
        }
        proof {
            vstd::std_specs::vec::axiom_spec_len(&self.sections);
            lemma_flat(self.sections@, self.sections@.len());
        }
        let (s, _) = self.spots[t];
        match self.sections[s].center {
            Some(place) => if drawn.holds(place, Half::Apps) {
                Some(Half::Apps)
            } else if drawn.holds(place, Half::Sites) {
                Some(Half::Sites)
            } else {
                None
            },
            None => None,
        }
    }

    /// The block's own section, which is the one picking either of its halves
    /// points at.
    pub open spec fn block_from(&self, from: int) -> Option<int>
        decreases self.sections@.len() - from,
    {
        if from >= self.sections@.len() {
            None
        } else if self.sections@[from].center is Some {
            Some(from)
        } else {
            self.block_from(from + 1)
        }
    }

    /// The block's own section: two boxes on the grid and one thing to
    /// configure, so picking either answers as one.
    pub fn center_section(&self) -> (section: Option<usize>)
        ensures
            same_slot(section, self.block_from(0)),
    {
        let n: usize = self.sections.len();
        let mut s: usize = 0;
        while s < n
            invariant
                s <= n,
                n == self.sections@.len(),
                self.block_from(0) == self.block_from(s as int),
            decreases n - s,
        {
            if self.sections[s].center.is_some() {
                return Some(s);
            }
            s += 1;
        }
        None
    }
}

/// Whether a place found is the place meant.
pub open spec fn same_slot(got: Option<usize>, want: Option<int>) -> bool {
    match (got, want) {
        (Some(got), Some(want)) => got == want,
        (None, None) => true,
        _ => false,
    }
}

pub proof fn lemma_base_bounds(sections: Seq<Section>, i: nat, n: nat)
    requires
        i < n <= sections.len(),
    ensures
        base_of(sections, i) + sections[i as int].items@.len() <= base_of(sections, n),
    decreases n,
{
    if i < n - 1 {
        lemma_base_bounds(sections, i, (n - 1) as nat);
    }
}

} // verus!
