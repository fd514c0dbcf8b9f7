//! The box being edited, and how the boxes are labelled.

use vstd::prelude::*;
use crate::faces::same_section;
use crate::geometry::{Rect, PX};
use crate::layout::Layout;
use crate::model::{Mode, Section};
use crate::query;
use crate::scene::Scene;
use crate::session::{Lane, State};
use crate::settings::CENTER_MOST;
use crate::text::same;

verus! {

/// What the centre block is, to the options that shape it.
#[derive(Debug, Clone, Copy, PartialEq, Eq, Structural)]
pub struct CenterState {
    pub columns: usize,
    pub rows: usize,
    /// The most it may take either way.
    pub most: usize,
    pub on: bool,
}

/// What the box being edited is, on a panel that puts its boxes in lanes.
#[derive(Debug, Clone, Copy, PartialEq, Eq, Structural)]
pub struct LaneState {
    /// Tiles it shows, and tiles it could show.
    pub shown: usize,
    pub total: usize,
    pub lane: Lane,
    /// Boxes on the panel.
    pub boxes: usize,
    /// Where it comes among the boxes of its own lane, and how many there are.
    pub at_lane: usize,
    pub lane_len: usize,
    pub center: Option<CenterState>,
}

/// How many of the first `n` boxes are in a lane.
pub open spec fn in_lane(lanes: Seq<Lane>, lane: Lane, n: nat) -> nat
    decreases n,
{
    if n == 0 {
        0
    } else {
        in_lane(lanes, lane, (n - 1) as nat) + if lanes[n - 1] == lane {
            1nat
        } else {
            0nat
        }
    }
}

/// The first box of a lane from `from` on with a title.
pub open spec fn lane_named_from(
    sections: Seq<Section>,
    lanes: Seq<Lane>,
    lane: Lane,
    title: Seq<char>,
    from: int,
) -> int
    decreases sections.len() - from,
{
    if from >= sections.len() || lanes[from] == lane && sections[from].title@ == title {
        from
    } else {
        lane_named_from(sections, lanes, lane, title, from + 1)
    }
}

/// What the box being edited is. `lanes` gives the lane of every section.
/// `None` when nothing is picked.
pub open spec fn state_of_edit(
    scene: Scene,
    edit: Option<usize>,
    lanes: Seq<Lane>,
) -> Option<LaneState> {
    match edit {
        Some(at) => if at < scene.board.sections@.len() {
            let sections = scene.board.sections@;
            let section = sections[at as int];
            let lane = lanes[at as int];
            let first = lane_named_from(sections, lanes, lane, section.title@, 0);
            Some(
                LaneState {
                    shown: section.items@.len() as usize,
                    total: section.total,
                    lane,
                    boxes: scene.layout.bands@.len() as usize,
                    at_lane: in_lane(lanes, lane, first as nat) as usize,
                    lane_len: in_lane(lanes, lane, sections.len()) as usize,
                    center: if scene.edits_center(edit) {
                        Some(
                            CenterState {
                                columns: scene.config.center.columns,
                                rows: scene.config.center.rows,
                                most: CENTER_MOST,
                                on: scene.config.center.on(),
                            },
                        )
                    } else {
                        None
                    },
                },
            )
        } else {
            None
        },
        None => None,
    }
}

fn count_lane(lanes: &Vec<Lane>, lane: Lane, n: usize) -> (count: usize)
    requires
        n <= lanes@.len(),
    ensures
        count == in_lane(lanes@, lane, n as nat),
        count <= n,
{
    let mut count: usize = 0;
    for i in 0..n
        invariant
            n <= lanes@.len(),
            count == in_lane(lanes@, lane, i as nat),
            count <= i,
    {
        if lanes[i] == lane {
            count = count + 1;
        }
    }
    count
}

fn find_in_lane(sections: &Vec<Section>, lanes: &Vec<Lane>, lane: Lane, title: &str) -> (first:
    usize)
    requires
        lanes@.len() == sections@.len(),
    ensures
        first == lane_named_from(sections@, lanes@, lane, title@, 0),
        first <= sections@.len(),
{
    let mut i: usize = 0;
    while i < sections.len()
        invariant
            lanes@.len() == sections@.len(),
            i <= sections@.len(),
            lane_named_from(sections@, lanes@, lane, title@, i as int) == lane_named_from(
                sections@,
                lanes@,
                lane,
                title@,
                0,
            ),
        decreases sections.len() - i,
    {
        if lanes[i] == lane && same(sections[i].title.as_str(), title) {
            return i;
        }
        i = i + 1;
    }
    i
}

/// What the box being edited is. Its neighbours are those down its own lane, in
/// the order they are listed, which every box is in.
pub fn edit_state(scene: &Scene, edit: Option<usize>, lanes: &Vec<Lane>) -> (state: Option<
    LaneState,
>)
    requires
        lanes@.len() == scene.board.sections@.len(),
    ensures
        state == state_of_edit(*scene, edit, lanes@),
{
    let at = match edit {
        Some(at) => at,
        None => {
            return None;
        },
    };
    let sections = &scene.board.sections;
    if at >= sections.len() {
        return None;
    }
    let lane = lanes[at];
    let first = find_in_lane(sections, lanes, lane, sections[at].title.as_str());
    let center = if sections[at].center.is_some() {
        let c = &scene.config.center;
        Some(CenterState { columns: c.columns, rows: c.rows, most: CENTER_MOST, on: c.on() })
    } else {
        None
    };
    Some(
        LaneState {
            shown: sections[at].items.len(),
            total: sections[at].total,
            lane,
            boxes: scene.layout.bands.len(),
            at_lane: count_lane(lanes, lane, first),
            lane_len: count_lane(lanes, lane, lanes.len()),
            center,
        },
    )
}

/// The box being edited comes somewhere in its own lane.
pub proof fn an_edited_box_is_in_its_own_lane(scene: Scene, at: usize, lanes: Seq<Lane>)
    requires
        lanes.len() == scene.board.sections@.len(),
        at < scene.board.sections@.len(),
    ensures
        state_of_edit(scene, Some(at), lanes) is Some,
        ({
            let state = state_of_edit(scene, Some(at), lanes)->0;
            state.at_lane < state.lane_len
        }),
{
    let sections = scene.board.sections@;
    let (lane, title) = (lanes[at as int], sections[at as int].title@);
    lemma_lane_found(sections, lanes, lane, title, at as int, 0);
    let first = lane_named_from(sections, lanes, lane, title, 0);
    lemma_in_lane_grows(lanes, lane, first as nat + 1, sections.len());
    lemma_in_lane_fits(lanes, lane, sections.len());
    assert(sections.len() <= usize::MAX) by {
        assert(scene.board.sections.len() == sections.len());
    }
}

proof fn lemma_lane_found(
    sections: Seq<Section>,
    lanes: Seq<Lane>,
    lane: Lane,
    title: Seq<char>,
    at: int,
    from: int,
)
    requires
        0 <= from <= at < sections.len(),
        lanes[at] == lane,
        sections[at].title@ == title,
    ensures
        from <= lane_named_from(sections, lanes, lane, title, from) <= at,
        lanes[lane_named_from(sections, lanes, lane, title, from)] == lane,
    decreases at - from,
{
    if !(lanes[from] == lane && sections[from].title@ == title) {
        lemma_lane_found(sections, lanes, lane, title, at, from + 1);
    }
}

proof fn lemma_in_lane_grows(lanes: Seq<Lane>, lane: Lane, n: nat, more: nat)
    requires
        n <= more,
    ensures
        in_lane(lanes, lane, n) <= in_lane(lanes, lane, more),
    decreases more - n,
{
    if n < more {
        lemma_in_lane_grows(lanes, lane, n, (more - 1) as nat);
    }
}

proof fn lemma_in_lane_fits(lanes: Seq<Lane>, lane: Lane, n: nat)
    ensures
        in_lane(lanes, lane, n) <= n,
    decreases n,
{
    if n > 0 {
        lemma_in_lane_fits(lanes, lane, (n - 1) as nat);
    }
}

/// The columns a section takes as it is laid out, from `from` on: one when it
/// is not on the panel at all.
pub open spec fn columns_from(layout: Layout, edit: Option<usize>, from: int) -> usize
    decreases layout.bands@.len() - from,
{
    if from >= layout.bands@.len() {
        1
    } else if Some(layout.bands@[from].section) == edit {
        layout.bands@[from].cols
    } else {
        columns_from(layout, edit, from + 1)
    }
}

/// The columns the box being edited takes, and the tiles it shows, as laid out:
/// which is what is being looked at.
pub fn edited_state(scene: &Scene, edit: Option<usize>) -> (state: (usize, usize))
    ensures
        state.0 == columns_from(scene.layout, edit, 0),
        state.1 == (match edit {
            Some(at) => if at < scene.board.sections@.len() {
                scene.board.sections@[at as int].items@.len() as int
            } else {
                0
            },
            None => 0,
        }),
{
    let at = match edit {
        Some(at) => at,
        None => {
            proof {
                lemma_nothing_edited(scene.layout, 0);
            }
            return (1, 0);
        },
    };
    let shown: usize = if at < scene.board.sections.len() {
        scene.board.sections[at].items.len()
    } else {
        0
    };
    let mut i: usize = 0;
    while i < scene.layout.bands.len()
        invariant
            i <= scene.layout.bands@.len(),
            edit == Some(at),
            shown == (if at < scene.board.sections@.len() {
                scene.board.sections@[at as int].items@.len() as int
            } else {
                0
            }),
            columns_from(scene.layout, edit, i as int) == columns_from(scene.layout, edit, 0),
        decreases scene.layout.bands.len() - i,
    {
        if scene.layout.bands[i].section == at {
            return (scene.layout.bands[i].cols, shown);
        }
        i = i + 1;
    }
    (1, shown)
}

proof fn lemma_nothing_edited(layout: Layout, from: int)
    requires
        0 <= from,
    ensures
        columns_from(layout, None, from) == 1,
    decreases layout.bands@.len() - from,
{
    if from < layout.bands@.len() {
        lemma_nothing_edited(layout, from + 1);
    }
}

/// Where one title is drawn.
#[derive(Debug, Clone, Copy, PartialEq, Eq, Structural)]
pub struct TitleSpot {
    /// Which of the panel's titles.
    pub header: usize,
    pub rect: Rect,
    /// The section of the box it names.
    pub section: Option<usize>,
    /// Drawn as the box the keys will land on, rather than in the colour of the
    /// box's own ring.
    pub selected: bool,
}

/// Where one title is drawn, as far up as the panel is scrolled.
pub open spec fn title_spot(layout: Layout, state: State, header: int) -> TitleSpot {
    let title = layout.headers@[header];
    let section = if title.band < layout.bands@.len() {
        Some(layout.bands@[title.band as int].section)
    } else {
        None
    };
    TitleSpot {
        header: header as usize,
        rect: title.rect.moved_up(state.scroll as int),
        section,
        selected: state.mode == Mode::Layout && state.edit == section,
    }
}

/// The titles among the first `n` with any room to be drawn in.
pub open spec fn titles_upto(layout: Layout, state: State, n: nat) -> Seq<TitleSpot>
    decreases n,
{
    if n == 0 {
        Seq::empty()
    } else {
        let before = titles_upto(layout, state, (n - 1) as nat);
        let rect = layout.headers@[n - 1].rect;
        if rect.w < PX || rect.h < PX {
            before
        } else {
            before.push(title_spot(layout, state, n - 1))
        }
    }
}

/// The titles that are drawn, each a mark on the ring round its own box.
pub fn titles(layout: &Layout, state: &State) -> (spots: Vec<TitleSpot>)
    requires
        layout.wf(),
        query::measured(state.scroll as int),
    ensures
        spots@ == titles_upto(*layout, *state, layout.headers@.len()),
{
    let mut spots: Vec<TitleSpot> = Vec::new();
    for n in 0..layout.headers.len()
        invariant
            layout.wf(),
            query::measured(state.scroll as int),
            spots@ == titles_upto(*layout, *state, n as nat),
    {
        let title = &layout.headers[n];
        if !(title.rect.w < PX || title.rect.h < PX) {
            let section: Option<usize> = if title.band < layout.bands.len() {
                Some(layout.bands[title.band].section)
            } else {
                None
            };
            let selected = state.mode == Mode::Layout && same_section(state.edit, section);
            spots.push(
                TitleSpot { header: n, rect: title.rect.shifted(state.scroll), section, selected },
            );
        }
    }
    spots
}

/// The bands among the first `n` whose section asks for a plate behind its box.
pub open spec fn plated_upto(scene: Scene, scroll: int, n: nat) -> Seq<(usize, Rect)>
    decreases n,
{
    if n == 0 {
        Seq::empty()
    } else {
        let before = plated_upto(scene, scroll, (n - 1) as nat);
        let band = scene.layout.bands@[n - 1];
        if band.section < scene.board.sections@.len()
            && scene.board.sections@[band.section as int].color is Some {
            before.push(((n - 1) as usize, band.rect.moved_up(scroll)))
        } else {
            before
        }
    }
}

/// The plates behind the boxes that ask for one: the band, and where it lies.
pub fn box_plates(scene: &Scene, scroll: i64) -> (plates: Vec<(usize, Rect)>)
    requires
        scene.wf(),
        query::measured(scroll as int),
    ensures
        plates@ == plated_upto(*scene, scroll as int, scene.layout.bands@.len()),
{
    let mut plates: Vec<(usize, Rect)> = Vec::new();
    for n in 0..scene.layout.bands.len()
        invariant
            scene.wf(),
            query::measured(scroll as int),
            plates@ == plated_upto(*scene, scroll as int, n as nat),
    {
        let band = &scene.layout.bands[n];
        assert(scene.layout.bands@[n as int]@.wf());
        if band.section < scene.board.sections.len()
            && scene.board.sections[band.section].color.is_some() {
            plates.push((n, band.rect.shifted(scroll)));
        }
    }
    plates
}

} // verus!
