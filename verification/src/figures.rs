//! What is drawn, and where.

use vstd::prelude::*;
use crate::at;
use crate::board::Board;
use crate::config::{Config, GridConfig, SectionConfig};
use crate::edges;
use crate::edit;
use crate::faces;
use crate::faces::{IconStep, RingColor, Sheet, Square, TileFace, Tone};
use crate::geometry::{Rect, PX};
use crate::layout::Layout;
use crate::menu;
use crate::model::{Mode, Move, Section};
use crate::paint;
use crate::paint::{Edges, Mark, Shape};
use crate::scene::{EditOption, Scene};
use crate::section::SectionShape;
use crate::session::{Lane, State};
use crate::settings;
use crate::settings::Setting;
use crate::surface;
use crate::tiles;

verus! {

/// A tile is drawn as it is: dim where the mode cannot act on it, with its
/// second line where lines are shown or a list of bookmarks is up, ringed where
/// the bar acts on its window, and with a landing ring built on the empty
/// squares while the block is filled.
pub proof fn a_tile_is_drawn_as_it_is(face: TileFace, scene: Scene, state: State, tile: usize)
    requires
        face.draws(scene, state, tile),
        tile < scene.board.spots@.len(),
    ensures
        ({
            let item = scene.board.tile(tile as int);
            let dim = tiles::is_inert(scene.board, scene.drawn, scene.moving, state.mode, item);
            let landing = state.mode == Mode::Favorites && item.target is Slot;
            &&& face.faded == dim
            &&& face.detail == (scene.config.grid.show_detail || state.mode == Mode::AllBookmarks)
            &&& face.ringed <==> scene.moving is Some && scene.board.window_behind(item)
                == scene.moving
            &&& face.landing == landing
            &&& face.running == item.running
            &&& dim ==> face.tone == Tone::Muted
            &&& !dim && landing ==> face.tone == Tone::Accent
            &&& !dim && !landing ==> face.tone == Tone::Plain
            &&& face.badge == if tiles::is_badged(state.mode, item) {
                Some(Mark::Minus)
            } else {
                None
            }
            &&& face.mark == tiles::figure_on(state.stay, item)
            &&& face.fill == tiles::fill_of(scene.board, scene.drawn, scene.moving, state, tile)
            &&& face.name is Some <==> item.target is Stay && state.stay
            &&& face.name matches Some(name) ==> name@ == tiles::latch_name(
                scene.board,
                state.target,
            )
        }),
{
}

/// A square over the grid lights up only where it applies.
pub proof fn a_square_lights_up_only_where_it_applies(allowed: bool, held: bool, hovered: bool)
    ensures
        faces::option_look(allowed, held, hovered) == Square::Hot <==> allowed && hovered,
        faces::option_look(allowed, held, hovered) == Square::Lit <==> held && !(allowed
            && hovered),
        faces::option_look(allowed, held, hovered) == Square::Veiled <==> !allowed && !held,
        faces::setting_look(allowed, hovered) == Square::Veiled <==> !allowed,
        faces::setting_look(allowed, hovered) == Square::Hot <==> allowed && hovered,
        faces::setting_look(allowed, hovered) == Square::Idle <==> allowed && !hovered,
{
}

/// Both halves of the block light together while it is edited, and any other
/// box for itself.
pub proof fn both_halves_light_together(scene: Scene, state: State, band: int)
    requires
        0 <= band < scene.layout.bands@.len(),
    ensures
        ({
            let over = scene.layout.bands@[band];
            let section = faces::sheet_section(scene, state, band);
            let look = faces::sheet_look(section, state.edit, state.hover_box);
            let block = over.center && (state.edit matches Some(edit) && edit
                < scene.board.sections@.len() && scene.board.sections@[edit as int].center is Some);
            &&& block ==> look == Sheet::Selected
            &&& !block ==> (look == Sheet::Selected <==> state.edit == Some(over.section))
            &&& !block ==> (look == Sheet::Hovered <==> state.edit != Some(over.section)
                && state.hover_box == Some(over.section))
        }),
{
}

/// A section's ring is its own colour where it names one, else a colour of the
/// palette by its place in the config: sections that many places apart share
/// one. Without a palette every ring is the one colour.
pub proof fn a_ring_keeps_its_colour(sections: Seq<Section>, section: int, palette: int)
    requires
        0 <= section < sections.len(),
        0 <= palette <= usize::MAX,
    ensures
        sections[section].edge is Some ==> faces::edge_color(sections, section, palette)
            == RingColor::Own,
        sections[section].edge is None && palette == 0 ==> faces::edge_color(
            sections,
            section,
            palette,
        ) == RingColor::Plain,
        sections[section].edge is None && 0 < palette ==> match faces::edge_color(
            sections,
            section,
            palette,
        ) {
            RingColor::Palette(i) => i < palette && (sections[section].slot - i) % palette == 0,
            _ => false,
        },
{
    if sections[section].edge is None && 0 < palette {
        let slot = sections[section].slot as int;
        assert(0 <= slot % palette < palette && (slot - slot % palette) % palette == 0)
            by (nonlinear_arith)
            requires
                palette > 0,
                slot >= 0,
        ;
    }
}

/// The block's own options say what the block is now: what it holds, and
/// whether a click switches it off or on. The rest say one thing always.
pub proof fn the_blocks_options_say_what_it_is(config: Config, option: EditOption)
    ensures
        option == EditOption::CenterOn ==> faces::option_words(config, option) == Some(
            if config.center.rows > 0 && config.center.columns > 0 {
                "Center off"@
            } else {
                "Center on"@
            },
        ),
        option == EditOption::CenterHolds ==> faces::option_words(config, option) == Some(
            settings::contents_short(config.center.contents),
        ),
        option != EditOption::CenterOn && option != EditOption::CenterHolds ==> faces::option_words(
            config,
            option,
        ) is None,
{
}

/// The option that switches the block is a latch as the block stands, and the
/// lanes are pictures of the part of the panel they are.
pub proof fn the_blocks_switch_is_a_latch(on: bool, option: EditOption, left: u8, right: u8)
    ensures
        faces::option_figure(on, EditOption::CenterOn, None) == Some(Mark::Latch { on }),
        faces::option_figure(on, EditOption::CenterOn, Some((left, right))) == Some(
            Mark::Latch { on },
        ),
        option != EditOption::CenterOn ==> faces::option_figure(on, option, Some((left, right)))
            == Some(Mark::Half { left, top: 0, right, bottom: 100 }),
        option != EditOption::CenterOn ==> faces::option_figure(on, option, None) is None,
{
}

/// The strip counts what is left of what there was, and says so where nothing
/// is.
pub proof fn the_strip_counts_what_is_left(shown: nat, total: nat)
    ensures
        shown > 0 ==> faces::count_words(shown, total) == at::decimal(shown) + " of "@
            + at::decimal(total),
        shown == 0 ==> faces::count_words(shown, total) == "no matches"@,
{
}

/// A box's title while its layout is edited says where it sits and how many
/// tiles it shows at most; an untitled one says nothing.
pub proof fn a_header_says_where_its_box_sits(title: Seq<char>, sits: Seq<char>, most: nat)
    ensures
        title.len() == 0 ==> faces::header_words(title, sits, most).len() == 0,
        title.len() > 0 && most == 0 ==> faces::header_words(title, sits, most) == title + "   "@
            + sits + " \u{b7} "@ + "all"@,
        title.len() > 0 && most > 0 ==> faces::header_words(title, sits, most) == title + "   "@
            + sits + " \u{b7} "@ + at::decimal(most),
{
}

/// A box is placed by the first section of the config with its title.
pub proof fn a_box_is_placed_by_the_section_of_its_title(
    sections: Seq<SectionConfig>,
    title: Seq<char>,
    from: int,
)
    requires
        0 <= from <= sections.len(),
    ensures
        match faces::configured_from(sections, title, from) {
            Some(i) => {
                &&& from <= i < sections.len()
                &&& sections[i].title@ == title
                &&& forall|k: int| from <= k < i ==> (#[trigger] sections[k]).title@ != title
            },
            None => forall|k: int|
                from <= k < sections.len() ==> (#[trigger] sections[k]).title@ != title,
        },
    decreases sections.len() - from,
{
    if from < sections.len() && sections[from].title@ != title {
        a_box_is_placed_by_the_section_of_its_title(sections, title, from + 1);
    }
}

/// What the layout is told of a section: as many tiles as it shows; for the
/// block its own columns, no title and no place; and for any other box its
/// title, and the columns and the place the config gives it, or none of either
/// where the config has no such box.
pub proof fn the_layout_is_told_what_the_config_says(
    shape: SectionShape,
    section: Section,
    config: Config,
    i: int,
)
    requires
        faces::is_shape(shape, section, config),
    ensures
        shape.count == section.items@.len(),
        shape.center == section.center,
        section.center is Some ==> shape.title@.len() == 0 && shape.at is None && shape.columns
            == section.columns,
        section.center is None ==> shape.title@ == section.title@,
        section.center is None && (forall|k: int|
            0 <= k < config.sections@.len() ==> (#[trigger] config.sections@[k]).title@
                != section.title@) ==> shape.at is None && shape.columns == 0,
        section.center is None && 0 <= i < config.sections@.len() && config.sections@[i].title@
            == section.title@ && (forall|k: int|
            0 <= k < i ==> (#[trigger] config.sections@[k]).title@ != section.title@) ==> {
            &&& shape.columns == config.sections@[i].columns
            &&& config.sections@[i].side is None ==> shape.at is None
            &&& config.sections@[i].side matches Some(side) ==> at::placed_at(side@) == (
            match shape.at {
                Some(at) => Some((at.cuts@, at.share)),
                None => None,
            })
        },
{
    a_box_is_placed_by_the_section_of_its_title(config.sections@, section.title@, 0);
    if 0 <= i < config.sections@.len() && config.sections@[i].title@ == section.title@ && (forall|
        k: int,
    |
        0 <= k < i ==> (#[trigger] config.sections@[k]).title@ != section.title@) {
        let found = faces::configured_from(config.sections@, section.title@, 0);
        if let Some(j) = found {
            if j < i {
                assert(config.sections@[j].title@ != section.title@);
            } else if i < j {
                assert(config.sections@[i].title@ != section.title@);
            }
        } else {
            assert(config.sections@[i].title@ != section.title@);
        }
    }
}

/// Lengths grow with the dots to the inch: ninety-six leave a length as it is,
/// twice as many double it, and a desktop that will not say counts as
/// ninety-six. Counts do not scale, and the strip is there only while something
/// is typed.
pub proof fn lengths_grow_with_the_dots_to_the_inch(
    g: GridConfig,
    dpi: u32,
    frozen: usize,
    typing: bool,
)
    requires
        faces::scalable(g, dpi),
    ensures
        ({
            let m = faces::metrics_of(g, dpi, frozen, typing);
            let usual = faces::metrics_of(g, 96, frozen, typing);
            let twice = faces::metrics_of(g, 192, frozen, typing);
            &&& usual.tile_w == g.tile_width && usual.tile_h == g.tile_height
            &&& usual.gap == g.gap && usual.padding == g.padding
            &&& usual.header_h == g.header_height && usual.header_gap == g.header_gap
            &&& usual.section_gap == g.section_gap
            &&& usual.search_h == if typing {
                g.search_height
            } else {
                0
            }
            &&& twice.tile_w == 2 * g.tile_width && twice.tile_h == 2 * g.tile_height
            &&& twice.gap == 2 * g.gap && twice.padding == 2 * g.padding
            &&& twice.header_h == 2 * g.header_height && twice.header_gap == 2 * g.header_gap
            &&& twice.section_gap == 2 * g.section_gap
            &&& faces::metrics_of(g, 0, frozen, typing) == usual
            &&& m.max_fraction == g.max_screen_fraction
            &&& m.max_cols == g.max_columns
            &&& m.fixed_cols == frozen
            &&& !typing ==> m.search_h == 0
        }),
{
}

/// A tile asks for its icon while it waits for one and has something to read it
/// from, and gives up where nothing names it.
pub proof fn a_tile_asks_for_its_icon_while_it_waits(board: Board, tile: int, waiting: bool)
    ensures
        ({
            let step = faces::icon_step_of(board, tile, waiting);
            let here = 0 <= tile < board.spots@.len();
            &&& step == IconStep::Ask <==> waiting && here && board.tile(tile).icon_source is Some
            &&& step == IconStep::GiveUp <==> waiting && here && board.tile(tile).icon_source
                is None
            &&& step == IconStep::Leave <==> !waiting || !here
        }),
{
}

/// Being in a lane.
pub open spec fn of_lane(lane: Lane) -> spec_fn(Lane) -> bool {
    |l: Lane| l == lane
}

/// The boxes of a lane are counted one by one.
pub proof fn the_boxes_of_a_lane_are_counted(lanes: Seq<Lane>, lane: Lane, n: nat)
    requires
        n <= lanes.len(),
    ensures
        edit::in_lane(lanes, lane, n) == lanes.take(n as int).filter(of_lane(lane)).len(),
    decreases n,
{
    reveal(Seq::filter);
    if n == 0 {
        assert(lanes.take(0) =~= Seq::empty());
    } else {
        the_boxes_of_a_lane_are_counted(lanes, lane, (n - 1) as nat);
        assert(lanes.take(n as int).drop_last() =~= lanes.take(n - 1));
        assert(lanes.take(n as int).last() == lanes[n - 1]);
    }
}

proof fn lemma_lane_named(
    sections: Seq<Section>,
    lanes: Seq<Lane>,
    lane: Lane,
    title: Seq<char>,
    from: int,
    at: int,
)
    requires
        0 <= from <= at < sections.len(),
        lanes[at] == lane,
        sections[at].title@ == title,
        forall|k: int|
            from <= k < at ==> !((#[trigger] sections[k]).title@ == title && lanes[k] == lane),
    ensures
        edit::lane_named_from(sections, lanes, lane, title, from) == at,
    decreases at - from,
{
    if from < at {
        assert(!(sections[from].title@ == title && lanes[from] == lane));
        lemma_lane_named(sections, lanes, lane, title, from + 1, at);
    }
}

/// The box being edited is itself: its tiles, its total, its lane, as many boxes
/// as there are on the panel, and its place among those of its own lane, where
/// its title is its own there. The block brings its shape with it.
pub proof fn the_box_being_edited_is_itself(scene: Scene, at: usize, lanes: Seq<Lane>)
    requires
        at < scene.board.sections@.len(),
        lanes.len() == scene.board.sections@.len(),
        forall|k: int|
            0 <= k < at ==> !((#[trigger] scene.board.sections@[k]).title@
                == scene.board.sections@[at as int].title@ && lanes[k] == lanes[at as int]),
    ensures
        ({
            let section = scene.board.sections@[at as int];
            let lane = lanes[at as int];
            let state = edit::state_of_edit(scene, Some(at), lanes);
            &&& state is Some
            &&& state->0.shown == section.items@.len()
            &&& state->0.total == section.total
            &&& state->0.lane == lane
            &&& state->0.boxes == scene.layout.bands@.len()
            &&& state->0.at_lane == lanes.take(at as int).filter(of_lane(lane)).len()
            &&& state->0.lane_len == lanes.filter(of_lane(lane)).len()
            &&& state->0.center is Some <==> section.center is Some
            &&& state->0.center matches Some(center) ==> center.columns
                == scene.config.center.columns && center.rows == scene.config.center.rows
                && center.most == 4 && center.on == (scene.config.center.rows > 0
                && scene.config.center.columns > 0)
        }),
        edit::state_of_edit(scene, None, lanes) is None,
{
    let section = scene.board.sections@[at as int];
    let lane = lanes[at as int];
    vstd::std_specs::vec::axiom_spec_len(&section.items);
    vstd::std_specs::vec::axiom_spec_len(&scene.layout.bands);
    vstd::std_specs::vec::axiom_spec_len(&scene.board.sections);
    lemma_lane_named(scene.board.sections@, lanes, lane, section.title@, 0, at as int);
    the_boxes_of_a_lane_are_counted(lanes, lane, at as nat);
    the_boxes_of_a_lane_are_counted(lanes, lane, lanes.len());
    assert(lanes.take(lanes.len() as int) =~= lanes);
    broadcast use vstd::seq_lib::group_filter_ensures;

}

/// The columns of the box being edited are those it is laid out in, and one
/// where it is not on the panel.
pub proof fn the_edited_box_has_the_columns_it_is_laid_out_in(
    layout: Layout,
    section: usize,
    from: int,
)
    requires
        0 <= from <= layout.bands@.len(),
    ensures
        (forall|k: int|
            from <= k < layout.bands@.len() ==> (#[trigger] layout.bands@[k]).section != section)
            ==> edit::columns_from(layout, Some(section), from) == 1,
        forall|i: int|
            #![trigger layout.bands@[i]]
            from <= i < layout.bands@.len() && layout.bands@[i].section == section && (forall|k: int|
                from <= k < i ==> (#[trigger] layout.bands@[k]).section != section)
                ==> edit::columns_from(layout, Some(section), from) == layout.bands@[i].cols,
    decreases layout.bands@.len() - from,
{
    if from < layout.bands@.len() {
        if layout.bands@[from].section != section {
            the_edited_box_has_the_columns_it_is_laid_out_in(layout, section, from + 1);
        }
        assert forall|i: int|
            #![trigger layout.bands@[i]]
            from <= i < layout.bands@.len() && layout.bands@[i].section == section && (forall|k: int|
                from <= k < i ==> (#[trigger] layout.bands@[k]).section
                    != section) implies edit::columns_from(layout, Some(section), from)
            == layout.bands@[i].cols by {
            if i > from {
                assert(layout.bands@[from].section != section);
            }
        }
    }
}

/// A title is drawn over its box at the scroll, and marked while its box is the
/// one being edited.
pub proof fn a_title_is_drawn_over_its_box(layout: Layout, state: State, header: int)
    requires
        0 <= header < layout.headers@.len(),
        layout.wf(),
        crate::query::measured(state.scroll as int),
        layout.headers@[header].band < layout.bands@.len(),
    ensures
        ({
            let spot = edit::title_spot(layout, state, header);
            let title = layout.headers@[header];
            let section = layout.bands@[title.band as int].section;
            &&& spot.header == header
            &&& spot.rect.x == title.rect.x && spot.rect.y == title.rect.y - state.scroll
            &&& spot.rect.w == title.rect.w && spot.rect.h == title.rect.h
            &&& spot.section == Some(section)
            &&& spot.selected <==> state.mode == Mode::Layout && state.edit == Some(section)
        }),
{
    vstd::std_specs::vec::axiom_spec_len(&layout.headers);
    assert(crate::query::measured(layout.headers@[header].rect.y as int));
}

/// Every title with a pixel of room either way is drawn, once and in order, and
/// no other is.
pub proof fn every_title_with_room_is_drawn(layout: Layout, state: State, n: nat)
    requires
        n <= layout.headers@.len() <= usize::MAX,
    ensures
        ({
            let spots = edit::titles_upto(layout, state, n);
            &&& spots.len() <= n
            &&& forall|i: int|
                #![trigger spots[i]]
                0 <= i < spots.len() ==> {
                    &&& spots[i].header < n
                    &&& layout.headers@[spots[i].header as int].rect.w >= PX
                    &&& layout.headers@[spots[i].header as int].rect.h >= PX
                    &&& spots[i] == edit::title_spot(layout, state, spots[i].header as int)
                }
            &&& forall|i: int, j: int|
                0 <= i < j < spots.len() ==> (#[trigger] spots[i]).header < (
                #[trigger] spots[j]).header
            &&& forall|h: int|
                0 <= h < n && (#[trigger] layout.headers@[h]).rect.w >= PX
                    && layout.headers@[h].rect.h >= PX ==> spots.contains(
                    edit::title_spot(layout, state, h),
                )
        }),
    decreases n,
{
    if n > 0 {
        every_title_with_room_is_drawn(layout, state, (n - 1) as nat);
        let before = edit::titles_upto(layout, state, (n - 1) as nat);
        let spots = edit::titles_upto(layout, state, n);
        assert forall|i: int|
            #![trigger spots[i]]
            0 <= i < spots.len() implies {
            &&& spots[i].header < n
            &&& layout.headers@[spots[i].header as int].rect.w >= PX
            &&& layout.headers@[spots[i].header as int].rect.h >= PX
            &&& spots[i] == edit::title_spot(layout, state, spots[i].header as int)
        } by {
            if i < before.len() {
                assert(spots[i] == before[i]);
            }
        }
        assert forall|i: int, j: int| 0 <= i < j < spots.len() implies (
        #[trigger] spots[i]).header < (#[trigger] spots[j]).header by {
            assert(spots[i] == before[i]);
            if j < before.len() {
                assert(spots[j] == before[j]);
            }
        }
        assert forall|h: int|
            0 <= h < n && (#[trigger] layout.headers@[h]).rect.w >= PX
                && layout.headers@[h].rect.h >= PX implies spots.contains(
            edit::title_spot(layout, state, h),
        ) by {
            let spot = edit::title_spot(layout, state, h);
            if h < n - 1 {
                let k = choose|k: int| 0 <= k < before.len() && before[k] == spot;
                assert(spots[k] == spot);
            } else {
                assert(spots[spots.len() - 1] == spot);
            }
        }
    }
}

/// A box whose section asks for a plate has one behind all of it, at the scroll,
/// and no other box has.
pub proof fn a_box_that_asks_for_a_plate_has_one(scene: Scene, scroll: int, n: nat)
    requires
        n <= scene.layout.bands@.len() <= usize::MAX,
    ensures
        ({
            let plates = edit::plated_upto(scene, scroll, n);
            let asks = |b: int|
                scene.layout.bands@[b].section < scene.board.sections@.len()
                    && scene.board.sections@[scene.layout.bands@[b].section as int].color is Some;
            &&& forall|i: int|
                #![trigger plates[i]]
                0 <= i < plates.len() ==> plates[i].0 < n && asks(plates[i].0 as int)
                    && plates[i].1 == scene.layout.bands@[plates[i].0 as int].rect.moved_up(scroll)
            &&& forall|b: int|
                #![trigger scene.layout.bands@[b]]
                0 <= b < n && asks(b) ==> plates.contains(
                    (b as usize, scene.layout.bands@[b].rect.moved_up(scroll)),
                )
        }),
    decreases n,
{
    if n > 0 {
        a_box_that_asks_for_a_plate_has_one(scene, scroll, (n - 1) as nat);
        let before = edit::plated_upto(scene, scroll, (n - 1) as nat);
        let plates = edit::plated_upto(scene, scroll, n);
        let asks = |b: int|
            scene.layout.bands@[b].section < scene.board.sections@.len()
                && scene.board.sections@[scene.layout.bands@[b].section as int].color is Some;
        assert forall|i: int|
            #![trigger plates[i]]
            0 <= i < plates.len() implies plates[i].0 < n && asks(plates[i].0 as int)
            && plates[i].1 == scene.layout.bands@[plates[i].0 as int].rect.moved_up(scroll) by {
            if i < before.len() {
                assert(plates[i] == before[i]);
            }
        }
        assert forall|b: int|
            #![trigger scene.layout.bands@[b]]
            0 <= b < n && asks(b) implies plates.contains(
            (b as usize, scene.layout.bands@[b].rect.moved_up(scroll)),
        ) by {
            let entry = (b as usize, scene.layout.bands@[b].rect.moved_up(scroll));
            if b < n - 1 {
                let k = choose|k: int| 0 <= k < before.len() && before[k] == entry;
                assert(plates[k] == entry);
            } else {
                assert(plates[plates.len() - 1] == entry);
            }
        }
    }
}

/// How far some points reach is how far the furthest of them does, each way.
pub proof fn points_reach_as_far_as_the_furthest(points: Seq<(i64, i64)>)
    requires
        points.len() > 0,
    ensures
        ({
            let reach = edges::extent(points);
            let (left, top, right, bottom) = reach->0;
            &&& reach is Some
            &&& forall|i: int|
                0 <= i < points.len() ==> left <= (#[trigger] points[i]).0 <= right && top
                    <= points[i].1 <= bottom
            &&& exists|i: int| 0 <= i < points.len() && (#[trigger] points[i]).0 == left
            &&& exists|i: int| 0 <= i < points.len() && (#[trigger] points[i]).1 == top
            &&& exists|i: int| 0 <= i < points.len() && (#[trigger] points[i]).0 == right
            &&& exists|i: int| 0 <= i < points.len() && (#[trigger] points[i]).1 == bottom
        }),
    decreases points.len(),
{
    let last = points.len() - 1;
    assert(points.last() == points[last]);
    if points.len() > 1 {
        let rest = points.drop_last();
        points_reach_as_far_as_the_furthest(rest);
        let reach = edges::extent(rest)->0;
        assert forall|i: int| 0 <= i < rest.len() implies #[trigger] points[i] == rest[i] by {}
        let a = choose|i: int| 0 <= i < rest.len() && (#[trigger] rest[i]).0 == reach.0;
        let b = choose|i: int| 0 <= i < rest.len() && (#[trigger] rest[i]).1 == reach.1;
        let c = choose|i: int| 0 <= i < rest.len() && (#[trigger] rest[i]).0 == reach.2;
        let d = choose|i: int| 0 <= i < rest.len() && (#[trigger] rest[i]).1 == reach.3;
        assert(points[a].0 == reach.0 && points[b].1 == reach.1 && points[c].0 == reach.2
            && points[d].1 == reach.3);
    } else {
        reveal_with_fuel(edges::extent, 2);
        assert(points.drop_last().len() == 0);
        assert(points[0] == points.last());
    }
}

/// The frame round the block stands half a gap outside it on every side.
pub proof fn the_blocks_frame_stands_in_the_gutter(block: Rect, gap: int)
    requires
        crate::query::measured(block.x as int),
        crate::query::measured(block.y as int),
        crate::query::measured(block.w as int),
        crate::query::measured(block.h as int),
        0 <= gap <= crate::geometry::REACH,
    ensures
        ({
            let frame = edges::framed(block, gap);
            let out = block.x - frame.x;
            &&& 2 * out == gap || 2 * out == gap - 1
            &&& block.y - frame.y == out
            &&& (frame.x + frame.w) - (block.x + block.w) == out
            &&& (frame.y + frame.h) - (block.y + block.h) == out
        }),
{
}

/// The thinnest line is a pixel, and thicker only on a denser screen: never
/// under one, and twice as thick at twice the usual dots.
pub proof fn the_thinnest_line_is_a_pixel(dpi: int, more: int)
    requires
        0 <= dpi <= more,
    ensures
        edges::hairline_of(96) == PX,
        edges::hairline_of(192) == 2 * PX,
        edges::hairline_of(dpi) >= PX,
        edges::hairline_of(dpi) <= edges::hairline_of(more),
{
    assert(PX == 64);
}

/// A box wears a ring where it holds something and is not the block's, and there
/// is something of it to draw.
pub proof fn a_box_that_holds_something_wears_a_ring(
    layout: Layout,
    scroll: int,
    margin: int,
    n: nat,
)
    requires
        n <= layout.bands@.len() <= usize::MAX,
    ensures
        ({
            let ringed = edges::ringed_upto(layout, scroll, margin, n);
            forall|b: int|
                #![trigger layout.bands@[b]]
                0 <= b < n ==> (ringed.contains(b as usize) <==> !layout.bands@[b].center
                    && layout.bands@[b].count > 0 && edges::edge_bounds(
                    layout,
                    b,
                    scroll,
                    margin,
                ) is Some)
        }),
        forall|i: int|
            0 <= i < edges::ringed_upto(layout, scroll, margin, n).len() ==> (
            #[trigger] edges::ringed_upto(layout, scroll, margin, n)[i]) < n,
    decreases n,
{
    if n > 0 {
        a_box_that_holds_something_wears_a_ring(layout, scroll, margin, (n - 1) as nat);
        let before = edges::ringed_upto(layout, scroll, margin, (n - 1) as nat);
        let ringed = edges::ringed_upto(layout, scroll, margin, n);
        assert forall|b: int|
            #![trigger layout.bands@[b]]
            0 <= b < n implies (ringed.contains(b as usize) <==> !layout.bands@[b].center
            && layout.bands@[b].count > 0 && edges::edge_bounds(
            layout,
            b,
            scroll,
            margin,
        ) is Some) by {
            if b < n - 1 {
                if before.contains(b as usize) {
                    let k = choose|k: int| 0 <= k < before.len() && before[k] == b as usize;
                    assert(ringed[k] == b as usize);
                } else if ringed.contains(b as usize) {
                    let k = choose|k: int| 0 <= k < ringed.len() && ringed[k] == b as usize;
                    if k < before.len() {
                        assert(before[k] == b as usize);
                    }
                }
            } else {
                if ringed.len() > before.len() {
                    assert(ringed[ringed.len() - 1] == b as usize);
                } else if ringed.contains(b as usize) {
                    let k = choose|k: int| 0 <= k < ringed.len() && ringed[k] == b as usize;
                    assert(before[k] < n - 1);
                }
            }
        }
        assert forall|i: int| 0 <= i < ringed.len() implies (#[trigger] ringed[i]) < n by {
            if i < before.len() {
                assert(ringed[i] == before[i]);
            }
        }
    }
}

/// Where a window is sent is what its picture fills: the left half and the right
/// half are each other's other half, up fills the screen, down is a part of it
/// with room all round, and the two screens are the one on that side.
pub proof fn a_picture_fills_where_the_window_goes(mv: Move)
    ensures
        match paint::picture_of(mv) {
            Mark::Half { left, top, right, bottom } => {
                &&& mv == Move::Left ==> left == 0 && right == 50 && top == 0 && bottom == 100
                &&& mv == Move::Right ==> left == 50 && right == 100 && top == 0 && bottom == 100
                &&& mv == Move::Up ==> left == 0 && right == 100 && top == 0 && bottom == 100
                &&& mv == Move::Down ==> 0 < left < right < 100 && 0 < top < bottom < 100 && left
                    + right == 100 && top + bottom == 100
                &&& mv != Move::ScreenLeft && mv != Move::ScreenRight
            },
            Mark::Screen { second } => second == (mv == Move::ScreenRight) && (mv
                == Move::ScreenLeft || mv == Move::ScreenRight),
            _ => false,
        },
{
}

/// A figure is drawn in the middle of what it has: as much room on its left as
/// on its right, and above as below, to within one part.
pub proof fn a_figure_is_drawn_in_the_middle(width: int, area: int, on: bool)
    requires
        0 <= width <= crate::geometry::REACH,
        0 <= area <= crate::geometry::REACH,
    ensures
        ({
            let side = paint::side_of(width, area);
            let half = paint::figure(
                Mark::Half { left: 0, top: 0, right: 100, bottom: 100 },
                width,
                area,
            );
            let latch = paint::figure(Mark::Latch { on }, width, area);
            &&& side >= 8 * PX
            &&& side <= paint::hundredths(area, 60) || side == 8 * PX
            &&& side <= paint::hundredths(width, 50) || side == 8 * PX
            &&& half.len() == 2
            &&& half[1] matches Shape::Frame(frame) ==> {
                &&& frame.w == side
                &&& 0 <= (width - frame.x - frame.w) - frame.x <= 1
                &&& 0 <= (area - frame.y - frame.h) - frame.y <= 1
            }
            &&& latch.len() == if on {
                2nat
            } else {
                1nat
            }
            &&& latch[0] matches Shape::Ring { x, y, r } ==> 0 <= width - 2 * x <= 1
        }),
{
    let side = paint::side_of(width, area);
    assert(PX == 64);
    assert(0 <= paint::hundredths(area, 60) <= area);
    assert(0 <= paint::hundredths(width, 50) <= width);
}

/// A tile is its picture over its label, and nothing of it is left over: the
/// area above the strip, then the title, then the detail under it to the foot.
/// Without a detail line the title has the whole strip.
pub proof fn a_tile_is_its_picture_over_its_label(
    width: int,
    height: int,
    label: int,
    detailed: bool,
    icon: Option<(u32, u32)>,
)
    requires
        0 <= width <= crate::geometry::REACH,
        PX <= label <= height <= crate::geometry::REACH,
    ensures
        ({
            let parts = paint::tile_parts_of(width, height, label, detailed, icon);
            &&& parts.area == height - label
            &&& parts.title.y == parts.area
            &&& parts.detail.y == parts.title.y + parts.title.h
            &&& parts.detail.y + parts.detail.h == height
            &&& !detailed ==> parts.title.h == label && parts.detail.h == 0
            &&& parts.title.x == 8 * PX && parts.title.x + parts.title.w == width - 8 * PX
            &&& parts.detail.x == parts.title.x && parts.detail.w == parts.title.w
            &&& parts.icon is Some <==> icon is Some
            &&& parts.icon matches Some(rect) ==> {
                &&& rect.w == rect.h
                &&& 0 <= (width - rect.x - rect.w) - rect.x <= 1
                &&& 0 <= (parts.area - rect.y - rect.h) - rect.y <= 1
            }
        }),
{
    assert(PX == 64);
    if let Some(size) = icon {
        let area = height - label;
        assert(0 <= paint::hundredths(area, 60) <= area);
        assert(0 <= paint::hundredths(width, 50) <= width);
        let own = crate::num::larger(size.0 as int, size.1 as int) * PX;
        assert(own >= 0);
    }
}

/// An icon is never drawn larger than it is: its side is at most its own longer
/// side, and at most the room it has, but for the one pixel it always has.
pub proof fn an_icon_is_never_stretched(
    width: int,
    top: int,
    band: int,
    most: int,
    icon: (u32, u32),
)
    requires
        0 <= width <= crate::geometry::REACH,
        0 <= top <= crate::geometry::REACH,
        0 <= band <= crate::geometry::REACH,
        0 <= most <= crate::geometry::REACH,
    ensures
        ({
            let rect = paint::icon_rect(width, top, band, most, icon);
            let longer = if icon.0 >= icon.1 {
                icon.0 as int
            } else {
                icon.1 as int
            };
            &&& rect.w == rect.h
            &&& rect.w <= longer * PX || rect.w == PX
            &&& rect.w <= most || rect.w == PX
            &&& PX <= longer * PX <= most ==> rect.w == longer * PX
            &&& PX <= most <= longer * PX ==> rect.w == most
        }),
{
    assert(PX == 64);
}

/// An icon is asked for at the size it is shown: from thirty-two pixels to two
/// hundred and fifty-six, growing with the tile and with the dots to the inch.
#[verifier::spinoff_prover]
#[verifier::rlimit(60)]
pub proof fn an_icon_is_asked_for_at_the_size_it_is_shown(
    tile: int,
    taller: int,
    label: int,
    dpi: int,
    denser: int,
)
    requires
        0 <= tile <= taller,
        0 <= label,
        0 < dpi <= denser,
    ensures
        32 <= paint::icon_pixels(tile, label, dpi) <= 256,
        paint::icon_pixels(tile, label, dpi) <= paint::icon_pixels(taller, label, dpi),
        paint::icon_pixels(tile, label, dpi) <= paint::icon_pixels(tile, label, denser),
        paint::icon_pixels(tile, label, 0) == paint::icon_pixels(tile, label, 96),
{
    let least = 16 * PX;
    let (small, large) = (
        crate::num::larger(tile - label, least as int),
        crate::num::larger(taller - label, least as int),
    );
    assert(small * dpi <= large * dpi && small * dpi <= small * denser) by (nonlinear_arith)
        requires
            0 <= small <= large,
            0 <= dpi <= denser,
    ;
}

/// A colour is its three bytes in order.
#[verifier::spinoff_prover]
#[verifier::rlimit(60)]
pub proof fn a_colour_is_its_three_bytes(r: u8, g: u8, b: u8)
    ensures
        paint::rgb(r, g, b) / 0x1_0000 == r,
        paint::rgb(r, g, b) / 0x100 % 0x100 == g,
        paint::rgb(r, g, b) % 0x100 == b,
{
    assert(paint::rgb(r, g, b) / 0x100 == r * 0x100 + g);
}

/// The ring round a window stands outside it by the same on every side, and is
/// not drawn where it would have no size.
pub proof fn a_windows_ring_stands_outside_it(frame: Edges)
    ensures
        match paint::ring_round(frame) {
            Some((left, top, right, bottom)) => {
                &&& frame.left - left == 6
                &&& frame.top - top == 6
                &&& right - frame.right == 6
                &&& bottom - frame.bottom == 6
                &&& left < right && top < bottom
            },
            None => frame.right - frame.left <= -12 || frame.bottom - frame.top <= -12,
        },
{
}

/// Squares go four to a row, each a square and a gap from the last, and their
/// rows are centred on the panel as far as they fit in it.
pub proof fn squares_go_four_to_a_row(
    panel: Rect,
    count: nat,
    tile_w: int,
    tile_h: int,
    gap: int,
    n: int,
)
    requires
        menu::squares_fit(panel, count, tile_w, tile_h, gap),
        0 <= n,
        n + 4 < count,
    ensures
        ({
            let here = menu::square(panel, count, tile_w, tile_h, gap, n);
            let next = menu::square(panel, count, tile_w, tile_h, gap, n + 1);
            let below = menu::square(panel, count, tile_w, tile_h, gap, n + 4);
            &&& here.w == tile_w && here.h == tile_h
            &&& below.x == here.x && below.y == here.y + tile_h + gap
            &&& n % 4 != 3 ==> next.y == here.y && next.x == here.x + tile_w + gap
        }),
{
    let step = tile_h + gap;
    let rows = crate::num::over(count, 4) as int;
    crate::geometry::lemma_cells(rows, step);
    crate::geometry::lemma_cells(n / 4, step);
    crate::geometry::lemma_cells(n / 4 + 1, step);
    assert((n / 4 + 1) * step == (n / 4) * step + step) by (nonlinear_arith);
    assert((n + 4) / 4 == n / 4 + 1 && (n + 4) % 4 == n % 4);
    let (c, across) = (n % 4, tile_w + gap);
    assert((c + 1) * across == c * across + across) by (nonlinear_arith);
    assert(0 <= c * across <= 3 * across) by (nonlinear_arith)
        requires
            0 <= c <= 3,
            across >= 0,
    ;
}

/// The question takes the place of the settings: its two answers and nothing
/// else, keeping it first.
pub proof fn the_question_takes_the_place_of_the_settings()
    ensures
        surface::settings_up(true).len() == 2,
        surface::settings_up(true)[0] == Setting::ResetNo,
        surface::settings_up(true)[1] == Setting::ResetYes,
        surface::settings_up(false).len() == 8,
        surface::settings_up(false)[5] == Setting::Reset,
        surface::settings_up(false)[7] == Setting::Done,
        !surface::settings_up(false).contains(Setting::ResetYes),
        !surface::settings_up(false).contains(Setting::ResetNo),
{
}

/// A ring is drawn where its box is at the scroll: a point of it, put back on
/// the panel from the surface it is drawn on, is the point of the ring as far up
/// as the panel is scrolled, and the surface stands where it would with nothing
/// scrolled less the scroll.
pub proof fn a_ring_is_drawn_where_its_box_is(
    edge: edges::BoxEdge,
    layout: Layout,
    band: int,
    scroll: int,
    margin: int,
    k: int,
    i: int,
)
    requires
        edge.goes_round(layout, band, scroll, margin),
        0 <= k < crate::ring::rings_of(layout.bands@[band].cells@, layout.metrics).len(),
        0 <= i < crate::ring::rings_of(layout.bands@[band].cells@, layout.metrics)[k].len(),
        ({
            let p = crate::ring::rings_of(layout.bands@[band].cells@, layout.metrics)[k][i];
            &&& i64::MIN <= p.1 - scroll <= i64::MAX
            &&& i64::MIN <= p.0 - edge.bounds.x <= i64::MAX
            &&& i64::MIN <= p.1 - scroll - edge.bounds.y <= i64::MAX
        }),
    ensures
        ({
            let p = crate::ring::rings_of(layout.bands@[band].cells@, layout.metrics)[k][i];
            let drawn = edge.rings@[k]@[i];
            &&& edge.band == band
            &&& edge.bounds.x + drawn.0 == p.0
            &&& edge.bounds.y + drawn.1 == p.1 - scroll
            &&& edge.rest + drawn.1 == p.1
        }),
{
    let rings = crate::ring::rings_of(layout.bands@[band].cells@, layout.metrics);
    let scrolled = edges::scrolled_rings(layout, band, scroll);
    assert(scrolled[k][i] == (rings[k][i].0, (rings[k][i].1 - scroll) as i64));
    let local = edges::localized(scrolled, edge.bounds);
    assert(local[k][i] == edges::inside(scrolled[k][i], edge.bounds));
    assert(local.len() == rings.len() && edges::ring_views(edge.rings@).len() == edge.rings@.len());
    assert(edges::ring_views(edge.rings@)[k] == edge.rings@[k]@);
}

/// An option square is a mark over its words: the mark starts a little down and
/// the words take all that is left under it, the whole width for each. Letters
/// keep between their least and their most.
pub proof fn an_option_is_a_mark_over_its_words(
    width: int,
    height: int,
    icon: Option<(u32, u32)>,
)
    requires
        0 <= width <= crate::geometry::REACH,
        0 <= height <= crate::geometry::REACH,
    ensures
        ({
            let parts = paint::option_parts_of(width, height, icon);
            &&& parts.glyph.y >= 0
            &&& parts.label.y == parts.glyph.y + parts.glyph.h
            &&& parts.label.y + parts.label.h == height
            &&& parts.glyph.x == 0 && parts.label.x == 0
            &&& parts.glyph.w == width && parts.label.w == width
            &&& PX <= height ==> parts.glyph.h > parts.label.h
            &&& 14 * PX <= parts.glyph_size <= 48 * PX
            &&& 10 * PX <= parts.label_size <= 20 * PX
            &&& parts.icon is Some <==> icon is Some
        }),
{
    assert(PX == 64);
}

/// The letters of the filter strip grow with it, between their least and their
/// most, and what is typed is larger than the count.
pub proof fn the_strips_letters_grow_with_it(width: int, height: int, taller: int)
    requires
        0 <= width,
        0 <= height <= taller,
    ensures
        ({
            let parts = paint::search_parts_of(width, height);
            let more = paint::search_parts_of(width, taller);
            &&& 11 * PX <= parts.query_size <= 64 * PX
            &&& 9 * PX <= parts.count_size <= 36 * PX
            &&& 10 * PX <= parts.glyph_size <= 48 * PX
            &&& parts.query_size <= more.query_size
            &&& parts.count_size <= more.count_size
            &&& parts.glyph_size <= more.glyph_size
            &&& parts.count_size < parts.query_size
        }),
{
    assert(PX == 64);
}

/// The filled part of a screen stays inside the screen, on the side it is of:
/// nothing of a left half is past the middle, and nothing of a right half short
/// of it.
pub proof fn the_filled_half_is_the_half_it_says(at: (int, int), size: (int, int))
    requires
        -4 * crate::geometry::REACH <= at.0 <= crate::geometry::REACH,
        -4 * crate::geometry::REACH <= at.1 <= crate::geometry::REACH,
        0 <= size.0 <= 4 * crate::geometry::REACH,
        0 <= size.1 <= 4 * crate::geometry::REACH,
    ensures
        ({
            let left = paint::half_figure(at, size, (0, 0), (50, 100));
            let right = paint::half_figure(at, size, (50, 0), (100, 100));
            let middle = at.0 + size.0 / 2;
            &&& left.len() == 2 && right.len() == 2
            &&& match (left[0], right[0]) {
                (Shape::Block(a), Shape::Block(b)) => {
                    &&& at.0 <= a.x && a.x + a.w <= middle
                    &&& middle <= b.x && b.x + b.w <= at.0 + size.0
                    &&& at.1 <= a.y && a.y + a.h <= at.1 + size.1
                    &&& at.1 <= b.y && b.y + b.h <= at.1 + size.1
                },
                _ => false,
            }
            &&& left[1] == Shape::Frame(paint::rect(at.0, at.1, size.0, size.1))
            &&& right[1] == left[1]
        }),
{
    assert(PX == 64);
}

/// Of two screens the one the window goes to is filled: the left of them, or the
/// right.
pub proof fn the_screen_the_window_goes_to_is_filled(at: (int, int), size: (int, int), second: bool)
    requires
        -4 * crate::geometry::REACH <= at.0 <= crate::geometry::REACH,
        -4 * crate::geometry::REACH <= at.1 <= crate::geometry::REACH,
        0 <= size.0 <= 4 * crate::geometry::REACH,
        0 <= size.1 <= 4 * crate::geometry::REACH,
    ensures
        ({
            let shapes = paint::screens_figure(at, size, second);
            &&& shapes.len() == 3
            &&& match (shapes[0], shapes[1], shapes[2]) {
                (Shape::Pane(filled), Shape::Frame(left), Shape::Frame(right)) => {
                    &&& left.x == at.0 && left.x + left.w <= right.x
                    &&& right.x + right.w <= at.0 + size.0
                    &&& left.w == right.w && left.h == size.1 && right.h == size.1
                    &&& filled == if second {
                        right
                    } else {
                        left
                    }
                },
                _ => false,
            }
        }),
{
}

/// Squares stand in the middle of the panel: as much room on the left of the
/// first as on the right of the last of its row, and as much above the first row
/// as under the last, to within one part, where there is any.
pub proof fn squares_stand_in_the_middle(
    panel: Rect,
    count: nat,
    tile_w: int,
    tile_h: int,
    gap: int,
)
    requires
        menu::squares_fit(panel, count, tile_w, tile_h, gap),
        0 < count,
    ensures
        ({
            let first = menu::square(panel, count, tile_w, tile_h, gap, 0);
            let across = menu::square(
                panel,
                count,
                tile_w,
                tile_h,
                gap,
                if count < 4 {
                    count - 1
                } else {
                    3
                },
            );
            let last = menu::square(panel, count, tile_w, tile_h, gap, count - 1);
            let (right, under) = (panel.w - across.x - across.w, panel.h - last.y - last.h);
            &&& first.x >= 0 && first.y >= 0
            &&& across.x + across.w - first.x <= panel.w ==> 0 <= right - first.x <= 1
            &&& last.y + last.h - first.y <= panel.h ==> 0 <= under - first.y <= 1
            &&& across.x + across.w - first.x >= panel.w ==> first.x == 0
            &&& last.y + last.h - first.y >= panel.h ==> first.y == 0
        }),
{
    assert(menu::MENU_COLS == 4);
    let n = count as int;
    let across = if n < 4 {
        n
    } else {
        4
    };
    let rows = crate::num::over(count, 4) as int;
    assert(0int % 4 == 0 && 0int / 4 == 0);
    assert((across - 1) % 4 == across - 1 && (across - 1) / 4 == 0);
    assert((n - 1) / 4 == rows - 1);
    assert((rows - 1) * (tile_h + gap) + tile_h == rows * tile_h + (rows - 1) * gap && 0 <= rows
        * tile_h <= 4 * crate::geometry::CELLS * crate::geometry::REACH && 0 <= (rows - 1) * gap
        <= crate::geometry::CELLS * crate::geometry::REACH) by (nonlinear_arith)
        requires
            1 <= rows <= crate::geometry::CELLS,
            0 < tile_h <= crate::geometry::REACH,
            0 <= gap <= crate::geometry::REACH,
    ;
    assert((across - 1) * (tile_w + gap) + tile_w == across * tile_w + (across - 1) * gap && 0
        <= across * tile_w <= 4 * crate::geometry::REACH && 0 <= (across - 1) * gap <= 4
        * crate::geometry::REACH) by (nonlinear_arith)
        requires
            1 <= across <= 4,
            0 < tile_w <= crate::geometry::REACH,
            0 <= gap <= crate::geometry::REACH,
    ;
}

/// A plate keeps one margin all round what it lies under.
pub proof fn a_plate_keeps_one_margin_all_round(rect: Rect, margin: int)
    requires
        rect.near_enough(),
        0 <= margin <= crate::geometry::REACH,
    ensures
        ({
            let plate = menu::padded(rect, margin);
            &&& rect.x - plate.x == margin
            &&& rect.y - plate.y == margin
            &&& plate.right() - rect.right() == margin
            &&& plate.bottom() - rect.bottom() == margin
        }),
{
}

/// What covers some rectangles is no larger than it has to be: one of them
/// reaches each of its four sides.
pub proof fn a_cover_is_no_larger_than_it_has_to_be(rects: Seq<Rect>)
    requires
        crate::stretch::all_near(rects),
        rects.len() > 0,
    ensures
        ({
            let around = crate::stretch::covering(rects);
            &&& around.near_enough()
            &&& exists|i: int| 0 <= i < rects.len() && (#[trigger] rects[i]).x == around.x
            &&& exists|i: int| 0 <= i < rects.len() && (#[trigger] rects[i]).y == around.y
            &&& exists|i: int|
                0 <= i < rects.len() && (#[trigger] rects[i]).right() == around.right()
            &&& exists|i: int|
                0 <= i < rects.len() && (#[trigger] rects[i]).bottom() == around.bottom()
        }),
    decreases rects.len(),
{
    let last = rects.len() - 1;
    assert(rects[last].near_enough());
    if rects.len() > 1 {
        let rest = rects.drop_last();
        assert forall|i: int| 0 <= i < rest.len() implies (#[trigger] rest[i]) == rects[i]
            && rest[i].near_enough() by {
            assert(rects[i].near_enough());
        }
        a_cover_is_no_larger_than_it_has_to_be(rest);
        let before = crate::stretch::covering(rest);
        let i = choose|i: int| 0 <= i < rest.len() && (#[trigger] rest[i]).x == before.x;
        let j = choose|i: int| 0 <= i < rest.len() && (#[trigger] rest[i]).y == before.y;
        let k = choose|i: int| 0 <= i < rest.len() && (#[trigger] rest[i]).right() == before.right();
        let l = choose|i: int|
            0 <= i < rest.len() && (#[trigger] rest[i]).bottom() == before.bottom();
        assert(rects[i] == rest[i] && rects[j] == rest[j] && rects[k] == rest[k] && rects[l]
            == rest[l]);
    }
}

} // verus!
