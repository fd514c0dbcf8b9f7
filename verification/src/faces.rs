//! How everything on the panel is drawn, by what it says.

use vstd::prelude::*;
use crate::at;
use crate::at::{add_decimal, At};
use crate::board;
use crate::board::Board;
use crate::config::{Config, GridConfig, SectionConfig};
use crate::geometry::{Metrics, Rect, PX, REACH};
use crate::model::{Item, Mode, Section};
use crate::num;
use crate::paint::Mark;
use crate::query;
use crate::scene::{EditOption, OptionSquare, Scene};
use crate::section::SectionShape;
use crate::session::State;
use crate::settings;
use crate::settings::{center_holds_said, Setting};
use crate::text::same;
use crate::tiles;
use crate::tiles::{action_face, badge, inert, is_target, tile_fill, Fill};

verus! {

/// How strong the words on a tile are.
#[derive(Debug, Clone, Copy, PartialEq, Eq, Structural)]
pub enum Tone {
    Plain,
    /// The grey the titles of boxes use, so it reads as label rather than as
    /// control.
    Muted,
    /// The colour that means "this one".
    Accent,
}

/// How one tile is drawn.
pub struct TileFace {
    pub fill: Fill,
    /// The figure of an action tile.
    pub mark: Option<Mark>,
    /// What the tile is called now, when that is not its own title.
    pub name: Option<String>,
    /// Whether the second line is drawn.
    pub detail: bool,
    pub tone: Tone,
    /// Whether the icon and the words are faded back. Never the fill: a tile
    /// faded whole is a hole with the desktop showing through it.
    pub faded: bool,
    pub badge: Option<Mark>,
    /// Ringed as what the move bar acts on.
    pub ringed: bool,
    /// Whether a landing ring is built on it, to be shown as the pointer moves.
    pub landing: bool,
    pub running: bool,
}

/// Whether tiles draw their second line. A list of every bookmark is the case
/// that needs it whatever is set: the folder each is filed under is the only
/// thing telling five of one series apart.
pub open spec fn shows_detail(config: Config, mode: Mode) -> bool {
    config.grid.show_detail || mode == Mode::AllBookmarks
}

pub fn show_detail(config: &Config, mode: Mode) -> (yes: bool)
    ensures
        yes == shows_detail(*config, mode),
{
    config.grid.show_detail || mode == Mode::AllBookmarks
}

/// Whether an item is an empty square while the centre block is being filled.
pub open spec fn is_landing(mode: Mode, item: Item) -> bool {
    mode == Mode::Favorites && item.target is Slot
}

/// How strong the words on a tile are.
pub open spec fn tone_of(inert: bool, mode: Mode, item: Item) -> Tone {
    if inert {
        Tone::Muted
    } else if is_landing(mode, item) {
        Tone::Accent
    } else {
        Tone::Plain
    }
}

impl TileFace {
    /// Whether this is how a tile the panel has is drawn.
    pub open spec fn draws(self, scene: Scene, state: State, tile: usize) -> bool {
        let item = scene.board.tile(tile as int);
        let dim = tiles::is_inert(scene.board, scene.drawn, scene.moving, state.mode, item);
        &&& self.fill == tiles::fill_of(scene.board, scene.drawn, scene.moving, state, tile)
        &&& self.mark == tiles::figure_on(state.stay, item)
        &&& board::words(self.name) == (if item.target is Stay && state.stay {
            Some(tiles::latch_name(scene.board, state.target))
        } else {
            None
        })
        &&& self.detail == shows_detail(scene.config, state.mode)
        &&& self.tone == tone_of(dim, state.mode, item)
        &&& self.faded == dim
        &&& self.badge == (if tiles::is_badged(state.mode, item) {
            Some(Mark::Minus)
        } else {
            None
        })
        &&& self.ringed == (scene.moving is Some && scene.board.window_behind(item)
            == scene.moving)
        &&& self.landing == is_landing(state.mode, item)
        &&& self.running == item.running
    }
}

/// How one tile is drawn. `None` for a tile there is not.
pub fn tile_face(scene: &Scene, state: &State, tile: usize) -> (face: Option<TileFace>)
    requires
        scene.wf(),
    ensures
        face is Some <==> scene.board.has(tile as int),
        face matches Some(face) ==> face.draws(*scene, *state, tile),
{
    let item = match scene.board.item(tile) {
        Some(item) => item,
        None => {
            return None;
        },
    };
    let dim = inert(&scene.board, &scene.drawn, scene.moving, state.mode, item);
    let landing = state.mode == Mode::Favorites && item.target.is_slot();
    let (mark, name) = action_face(&scene.board, state, item);
    Some(
        TileFace {
            fill: tile_fill(&scene.board, &scene.drawn, scene.moving, state, tile),
            mark,
            name,
            detail: show_detail(&scene.config, state.mode),
            tone: if dim {
                Tone::Muted
            } else if landing {
                Tone::Accent
            } else {
                Tone::Plain
            },
            faded: dim,
            badge: badge(state.mode, item),
            ringed: is_target(&scene.board, scene.moving, item),
            landing,
            running: item.running,
        },
    )
}

/// Every tile of the panel: where it is drawn, and how. The place of a tile in
/// the list is the place of its item.
pub fn tile_pictures(scene: &Scene, state: &State) -> (pictures: Vec<(Rect, TileFace)>)
    requires
        scene.wf(),
        scene.board.spots@.len() == scene.layout.tiles@.len(),
        query::measured(state.scroll as int),
    ensures
        pictures@.len() == scene.board.spots@.len(),
        forall|i: int|
            0 <= i < pictures@.len() ==> {
                &&& (#[trigger] pictures@[i]).0 == scene.layout.tiles@[i].moved_up(
                    state.scroll as int,
                )
                &&& pictures@[i].1.draws(*scene, *state, i as usize)
            },
{
    let mut pictures: Vec<(Rect, TileFace)> = Vec::new();
    let n: usize = scene.board.spots.len();
    let mut tile: usize = 0;
    while tile < n
        invariant
            scene.wf(),
            n == scene.board.spots@.len(),
            n == scene.layout.tiles@.len(),
            query::measured(state.scroll as int),
            tile <= n,
            pictures@.len() == tile,
            forall|i: int|
                0 <= i < pictures@.len() ==> {
                    &&& (#[trigger] pictures@[i]).0 == scene.layout.tiles@[i].moved_up(
                        state.scroll as int,
                    )
                    &&& pictures@[i].1.draws(*scene, *state, i as usize)
                },
        decreases n - tile,
    {
        if let Some(face) = tile_face(scene, state, tile) {
            pictures.push((scene.layout.tile_rect(tile, state.scroll), face));
        }
        tile += 1;
    }
    pictures
}

/// The fills a square over the grid can have.
#[derive(Debug, Clone, Copy, PartialEq, Eq, Structural)]
pub enum Square {
    Idle,
    Hot,
    /// What the box already is.
    Lit,
    /// Greyed: it does nothing where things stand.
    Veiled,
}

/// The fill of an option square: the pointer comes first where the option
/// applies, then what the box already is, and one that does not apply is greyed.
pub open spec fn option_look(allowed: bool, held: bool, hovered: bool) -> Square {
    if hovered && allowed {
        Square::Hot
    } else if held {
        Square::Lit
    } else if allowed {
        Square::Idle
    } else {
        Square::Veiled
    }
}

/// The fill of an option, under the pointer or not.
pub fn option_fill(square: &OptionSquare, hovered: bool) -> (fill: Square)
    ensures
        fill == option_look(square.allowed, square.held, hovered),
{
    if hovered && square.allowed {
        Square::Hot
    } else if square.held {
        Square::Lit
    } else if square.allowed {
        Square::Idle
    } else {
        Square::Veiled
    }
}

/// What an option says where that depends on the block: what it holds now, and
/// what a click does to it. A square reading "off" while the block is already
/// off is a square nobody can read.
pub open spec fn option_words(config: Config, option: EditOption) -> Option<Seq<char>> {
    match option {
        EditOption::CenterHolds => Some(settings::contents_short(config.center.contents)),
        EditOption::CenterOn => Some(
            if config.center.on() {
                "Center off"@
            } else {
                "Center on"@
            },
        ),
        _ => None,
    }
}

/// What an option says where that depends on the block. `None` for those that
/// have words of their own.
pub fn option_label(config: &Config, option: EditOption) -> (label: Option<&'static str>)
    ensures
        match (label, option_words(*config, option)) {
            (Some(label), Some(want)) => label@ == want,
            (None, None) => true,
            _ => false,
        },
{
    match option {
        EditOption::CenterHolds => Some(center_holds_said(config)),
        EditOption::CenterOn => if config.center.on() {
            Some("Center off")
        } else {
            Some("Center on")
        },
        _ => None,
    }
}

/// The figure on an option: whether the block is on for the one that switches
/// it, and the part of the panel for one that has a part.
pub open spec fn option_figure(on: bool, option: EditOption, span: Option<(u8, u8)>) -> Option<
    Mark,
> {
    match (option, span) {
        (EditOption::CenterOn, _) => Some(Mark::Latch { on }),
        (_, Some((left, right))) => Some(Mark::Half { left, top: 0, right, bottom: 100 }),
        _ => None,
    }
}

/// The figure on an option: a latch for the one that switches the block, and
/// for the lanes the part of the panel each is, in hundredths across.
pub fn option_mark(config: &Config, option: EditOption, span: Option<(u8, u8)>) -> (mark: Option<
    Mark,
>)
    ensures
        mark == option_figure(config.center.on(), option, span),
{
    match (option, span) {
        (EditOption::CenterOn, _) => Some(Mark::Latch { on: config.center.on() }),
        (_, Some((left, right))) => Some(Mark::Half { left, top: 0, right, bottom: 100 }),
        _ => None,
    }
}

/// The fill of a settings square. One that does nothing where the config stands
/// is greyed, and does not light up.
pub open spec fn setting_look(applies: bool, hovered: bool) -> Square {
    if !applies {
        Square::Veiled
    } else if hovered {
        Square::Hot
    } else {
        Square::Idle
    }
}

/// The fill of a settings square, under the pointer or not. Greyed from the
/// start, not only once the pointer has been near it.
pub fn setting_fill(config: &Config, setting: Setting, hovered: bool) -> (fill: Square)
    ensures
        fill == setting_look(setting.applies_to(*config), hovered),
{
    if !setting.applies(config) {
        Square::Veiled
    } else if hovered {
        Square::Hot
    } else {
        Square::Idle
    }
}

/// The alpha of a sheet laid over the grid, from how much of it shows in
/// hundredths.
pub fn veil(percent: u8) -> (alpha: u8)
    ensures
        alpha == num::smaller(percent as int, 100) * 255 / 100,
{
    let kept: u32 = if percent < 100 {
        percent as u32
    } else {
        100
    };
    (kept * 255 / 100) as u8
}

/// What the corner button says. A mode borrows it to say that it is done.
pub fn home_words(done: Option<&'static str>) -> (words: (&'static str, &'static str))
    ensures
        match done {
            Some(done) => words.0@ == done@ && words.1@ == "\u{2713}"@,
            None => words.0@ == "BentoLaunch"@ && words.1@ == "\u{25A6}"@,
        },
{
    match done {
        Some(done) => (done, "\u{2713}"),
        None => ("BentoLaunch", "\u{25A6}"),
    }
}

/// Whether the corner button is big enough to draw.
pub fn home_fits(rect: &Rect) -> (yes: bool)
    ensures
        yes == (rect.w >= 24 * PX && rect.h >= 24 * PX),
{
    rect.w >= 24 * PX && rect.h >= 24 * PX
}

/// Whether the filter strip is drawn: only while something is typed, and only
/// where there is room for it.
pub fn strip_drawn(query: &Vec<char>, rect: &Rect) -> (yes: bool)
    ensures
        yes == (query@.len() > 0 && rect.w >= 32 * PX && rect.h >= 10 * PX),
{
    query.len() > 0 && rect.w >= 32 * PX && rect.h >= 10 * PX
}

/// The sheets over the boxes while they are edited.
#[derive(Debug, Clone, Copy, PartialEq, Eq, Structural)]
pub enum Sheet {
    Idle,
    Hovered,
    Selected,
}

/// The section the sheet over a band answers for. Both halves of the block
/// light together: one thing to configure.
pub open spec fn sheet_section(scene: Scene, state: State, band: int) -> Option<usize> {
    if 0 <= band < scene.layout.bands@.len() {
        if scene.layout.bands@[band].center && scene.edits_center(state.edit) {
            state.edit
        } else {
            Some(scene.layout.bands@[band].section)
        }
    } else {
        None
    }
}

/// The sheet over a box: the one picked, else the one under the pointer.
pub open spec fn sheet_look(
    section: Option<usize>,
    edit: Option<usize>,
    hovered: Option<usize>,
) -> Sheet {
    if section == edit {
        Sheet::Selected
    } else if section == hovered {
        Sheet::Hovered
    } else {
        Sheet::Idle
    }
}

/// The sheet over a band while boxes are edited. Selected beats hovered: the
/// box the options belong to has to stay obvious while the pointer wanders.
pub fn box_sheet(scene: &Scene, state: &State, band: usize) -> (sheet: Sheet)
    ensures
        sheet == sheet_look(
            sheet_section(*scene, *state, band as int),
            state.edit,
            state.hover_box,
        ),
{
    let section: Option<usize> = if band < scene.layout.bands.len() {
        if scene.layout.bands[band].center && scene.editing_center(state) {
            state.edit
        } else {
            Some(scene.layout.bands[band].section)
        }
    } else {
        None
    };
    if same_section(section, state.edit) {
        Sheet::Selected
    } else if same_section(section, state.hover_box) {
        Sheet::Hovered
    } else {
        Sheet::Idle
    }
}

pub(crate) fn same_section(a: Option<usize>, b: Option<usize>) -> (yes: bool)
    ensures
        yes == (a == b),
{
    match (a, b) {
        (Some(a), Some(b)) => a == b,
        (None, None) => true,
        _ => false,
    }
}

/// Where the colour of a section's ring comes from.
#[derive(Debug, Clone, Copy, PartialEq, Eq, Structural)]
pub enum RingColor {
    /// The section names one.
    Own,
    /// One of the palette's, by its place in it.
    Palette(usize),
    /// The one colour every box has without a palette.
    Plain,
}

/// The colour of a section's ring: its own, else the palette's by the section's
/// place in the config, round and round.
pub open spec fn edge_color(sections: Seq<Section>, section: int, palette: int) -> RingColor {
    if section >= sections.len() {
        RingColor::Plain
    } else if sections[section].edge is Some {
        RingColor::Own
    } else if palette == 0 {
        RingColor::Plain
    } else {
        RingColor::Palette((sections[section].slot as int % palette) as usize)
    }
}

/// Where the colour of a section's ring comes from. By its place in the config,
/// not its place on the panel: a box that changed colour because another one
/// turned up is a box nobody can learn.
pub fn section_edge(sections: &Vec<Section>, section: usize, palette: usize) -> (color: RingColor)
    ensures
        color == edge_color(sections@, section as int, palette as int),
{
    if section >= sections.len() {
        return RingColor::Plain;
    }
    if sections[section].edge.is_some() {
        return RingColor::Own;
    }
    if palette == 0 {
        RingColor::Plain
    } else {
        RingColor::Palette(sections[section].slot % palette)
    }
}

/// How much of the grid survived the query.
pub open spec fn count_words(shown: nat, total: nat) -> Seq<char> {
    if shown == 0 {
        "no matches"@
    } else {
        at::decimal(shown) + " of "@ + at::decimal(total)
    }
}

/// How much of the grid survived the query, for the filter strip.
pub fn match_count(shown: usize, total: usize) -> (words: String)
    ensures
        words@ == count_words(shown as nat, total as nat),
{
    if shown == 0 {
        return "no matches".to_owned();
    }
    let mut words = String::new();
    add_decimal(&mut words, shown);
    words.append(" of ");
    add_decimal(&mut words, total);
    assert(words@ =~= count_words(shown as nat, total as nat));
    words
}

/// What a box's title says while its layout is edited: where the box sits and
/// how much of its list it is showing. An untitled box says nothing.
pub open spec fn header_words(title: Seq<char>, sits: Seq<char>, most: nat) -> Seq<char> {
    if title.len() == 0 {
        Seq::empty()
    } else {
        title + "   "@ + sits + " \u{b7} "@ + (if most == 0 {
            "all"@
        } else {
            at::decimal(most)
        })
    }
}

/// What a box's title says while its layout is edited.
pub fn edit_header(title: &str, sits: &str, most: usize) -> (words: String)
    ensures
        words@ == header_words(title@, sits@, most as nat),
{
    let mut words = String::new();
    if title.is_empty() {
        assert(words@ =~= Seq::empty());
        return words;
    }
    words.append(title);
    words.append("   ");
    words.append(sits);
    words.append(" \u{b7} ");
    if most == 0 {
        words.append("all");
    } else {
        add_decimal(&mut words, most);
    }
    assert(words@ =~= header_words(title@, sits@, most as nat));
    words
}

/// The first of the config's sections from `from` on with a title.
pub open spec fn configured_from(
    sections: Seq<SectionConfig>,
    title: Seq<char>,
    from: int,
) -> Option<int>
    decreases sections.len() - from,
{
    if from >= sections.len() {
        None
    } else if sections[from].title@ == title {
        Some(from)
    } else {
        configured_from(sections, title, from + 1)
    }
}

fn find_configured(sections: &Vec<SectionConfig>, title: &str) -> (found: Option<usize>)
    ensures
        board::same_slot(found, configured_from(sections@, title@, 0)),
        found matches Some(i) ==> i < sections.len(),
{
    let n: usize = sections.len();
    let mut i: usize = 0;
    while i < n
        invariant
            i <= n,
            n == sections@.len(),
            configured_from(sections@, title@, 0) == configured_from(
                sections@,
                title@,
                i as int,
            ),
        decreases n - i,
    {
        if same(sections[i].title.as_str(), title) {
            return Some(i);
        }
        i += 1;
    }
    None
}

/// What the layout is told of a section: what it holds, and the place and the
/// columns the config gives it. The centre is not in the config's list and is
/// never matched against it by title.
pub open spec fn is_shape(shape: SectionShape, section: Section, config: Config) -> bool {
    &&& shape.count == section.items@.len()
    &&& shape.center == section.center
    &&& if section.center is Some {
        shape.title@.len() == 0 && shape.at is None && shape.columns == section.columns
    } else {
        shape.title@ == section.title@ && match configured_from(
            config.sections@,
            section.title@,
            0,
        ) {
            None => shape.at is None && shape.columns == 0,
            Some(i) => {
                let placed = config.sections@[i];
                &&& shape.columns == placed.columns
                &&& match placed.side {
                    None => shape.at is None,
                    Some(side) => at::placed_at(side@) == (match shape.at {
                        Some(at) => Some((at.cuts@, at.share)),
                        None => None,
                    }),
                }
            },
        }
    }
}

fn shape_of(section: &Section, config: &Config) -> (shape: SectionShape)
    ensures
        is_shape(shape, *section, *config),
{
    let count: usize = section.items.len();
    if section.center.is_some() {
        let title = String::new();
        return SectionShape {
            title,
            count,
            at: None,
            columns: section.columns,
            center: section.center,
        };
    }
    let title = section.title.clone();
    match find_configured(&config.sections, section.title.as_str()) {
        None => SectionShape { title, count, at: None, columns: 0, center: None },
        Some(i) => {
            let placed = &config.sections[i];
            let at = match &placed.side {
                Some(side) => At::parse(side.as_str()),
                None => None,
            };
            SectionShape { title, count, at, columns: placed.columns, center: None }
        },
    }
}

/// What the layout is told of every section. Matched to the config by title: an
/// empty section never reaches the panel, so the two lists are the same order
/// but not the same length.
pub fn shapes(sections: &Vec<Section>, config: &Config) -> (shapes: Vec<SectionShape>)
    ensures
        shapes@.len() == sections@.len(),
        forall|i: int|
            0 <= i < shapes@.len() ==> is_shape(#[trigger] shapes@[i], sections@[i], *config),
{
    let mut shapes: Vec<SectionShape> = Vec::new();
    for i in 0..sections.len()
        invariant
            shapes@.len() == i,
            forall|k: int|
                0 <= k < i ==> is_shape(#[trigger] shapes@[k], sections@[k], *config),
    {
        shapes.push(shape_of(&sections[i], config));
    }
    shapes
}

/// A logical length at some dots to the inch.
pub open spec fn scaled(length: int, dpi: int) -> int {
    length * dpi / 96
}

/// The sizes a panel is laid out with, at some dots to the inch. A desktop that
/// will not say is taken to be an ordinary one.
pub open spec fn metrics_of(g: GridConfig, dpi: u32, frozen: usize, typing: bool) -> Metrics {
    let dots = if dpi == 0 {
        96
    } else {
        dpi as int
    };
    Metrics {
        tile_w: scaled(g.tile_width as int, dots) as i64,
        tile_h: scaled(g.tile_height as int, dots) as i64,
        gap: scaled(g.gap as int, dots) as i64,
        padding: scaled(g.padding as int, dots) as i64,
        max_fraction: g.max_screen_fraction,
        max_cols: g.max_columns,
        fixed_cols: frozen,
        header_h: scaled(g.header_height as int, dots) as i64,
        header_gap: scaled(g.header_gap as int, dots) as i64,
        section_gap: scaled(g.section_gap as int, dots) as i64,
        search_h: if typing {
            scaled(g.search_height as int, dots) as i64
        } else {
            0
        },
    }
}

fn scale(length: i64, dots: i64) -> (n: i64)
    requires
        0 <= length <= REACH,
        0 < dots <= 0x1_0000,
    ensures
        n == scaled(length as int, dots as int),
{
    assert(0 <= length * dots <= 0x1000_0000 * 0x1_0000) by (nonlinear_arith)
        requires
            0 <= length <= 0x1000_0000,
            0 < dots <= 0x1_0000,
    ;
    length * dots / 96
}

/// Whether every length of a config can be measured at some dots to the inch.
pub open spec fn scalable(g: GridConfig, dpi: u32) -> bool {
    &&& dpi <= 0x1_0000
    &&& 0 <= g.tile_width <= REACH
    &&& 0 <= g.tile_height <= REACH
    &&& 0 <= g.gap <= REACH
    &&& 0 <= g.padding <= REACH
    &&& 0 <= g.header_height <= REACH
    &&& 0 <= g.header_gap <= REACH
    &&& 0 <= g.section_gap <= REACH
    &&& 0 <= g.search_height <= REACH
}

/// Whether the grid's sizes can be scaled to a screen.
pub fn scales(g: &GridConfig, dpi: u32) -> (fits: bool)
    ensures
        fits == scalable(*g, dpi),
{
    dpi <= 0x1_0000 && 0 <= g.tile_width && g.tile_width <= REACH && 0 <= g.tile_height
        && g.tile_height <= REACH && 0 <= g.gap && g.gap <= REACH && 0 <= g.padding && g.padding
        <= REACH && 0 <= g.header_height && g.header_height <= REACH && 0 <= g.header_gap
        && g.header_gap <= REACH && 0 <= g.section_gap && g.section_gap <= REACH && 0
        <= g.search_height && g.search_height <= REACH
}

/// The sizes a panel is laid out with.
pub fn metrics(g: &GridConfig, dpi: u32, frozen: usize, typing: bool) -> (m: Metrics)
    requires
        scalable(*g, dpi),
    ensures
        m == metrics_of(*g, dpi, frozen, typing),
{
    let dots: i64 = if dpi == 0 {
        96
    } else {
        dpi as i64
    };
    Metrics {
        tile_w: scale(g.tile_width, dots),
        tile_h: scale(g.tile_height, dots),
        gap: scale(g.gap, dots),
        padding: scale(g.padding, dots),
        max_fraction: g.max_screen_fraction,
        max_cols: g.max_columns,
        fixed_cols: frozen,
        header_h: scale(g.header_height, dots),
        header_gap: scale(g.header_gap, dots),
        section_gap: scale(g.section_gap, dots),
        search_h: if typing {
            scale(g.search_height, dots)
        } else {
            0
        },
    }
}

/// What becomes of a tile when icons come in.
#[derive(Debug, Clone, Copy, PartialEq, Eq, Structural)]
pub enum IconStep {
    /// It has its icon, or there is no such tile.
    Leave,
    /// Nothing names its icon, so it stops waiting for one.
    GiveUp,
    /// Ask for its icon, and paint it once it is there.
    Ask,
}

/// What becomes of a tile when icons come in.
pub open spec fn icon_step_of(board: Board, tile: int, waiting: bool) -> IconStep {
    if !waiting || !board.has(tile) {
        IconStep::Leave
    } else if board.tile(tile).icon_source is None {
        IconStep::GiveUp
    } else {
        IconStep::Ask
    }
}

/// What becomes of a tile when icons come in: only one still waiting is painted
/// again.
pub fn icon_step(board: &Board, tile: usize, waiting: bool) -> (step: IconStep)
    requires
        board.wf(),
    ensures
        step == icon_step_of(*board, tile as int, waiting),
{
    if !waiting {
        return IconStep::Leave;
    }
    match board.item(tile) {
        None => IconStep::Leave,
        Some(item) => if item.icon_source.is_none() {
            IconStep::GiveUp
        } else {
            IconStep::Ask
        },
    }
}

} // verus!
