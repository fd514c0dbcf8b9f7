//! What is drawn, and where.

use bentolaunch::board::{Board, Drawn};
use bentolaunch::config::Config;
use bentolaunch::edges::{box_edge, box_edges, covering, frame, hairline, seam_line};
use bentolaunch::faces::{
    box_sheet, edit_header, home_fits, home_words, icon_step, match_count, metrics, option_fill,
    option_label, option_mark, section_edge, setting_fill, shapes, show_detail, strip_drawn,
    tile_face, tile_pictures, veil, IconStep, RingColor, Sheet, Square, Tone,
};
use bentolaunch::geometry::{Rect, PX};
use bentolaunch::layout::Layout;
use bentolaunch::model::{Half, Item, Kind, Mode, Move, Section, Source, Target};
use bentolaunch::pairing::{
    forgotten_said, pair_said, pair_steps, rebind, select_arguments, BridgeStep, Rebind,
};
use bentolaunch::paint::{
    bgr_of, icon_size, mark_of, mark_of_mode, mark_shapes, option_parts, outer_ring, rgb_of,
    search_parts, tile_parts, Edges, Mark, Shape,
};
use bentolaunch::scene::{EditOption, OptionSquare, Scene};
use bentolaunch::session::Session;
use bentolaunch::settings::Setting;
use bentolaunch::surface::options_surface;
use bentolaunch::tiles::Fill;

fn px(x: i64, y: i64, w: i64, h: i64) -> Rect {
    Rect { x: x * PX, y: y * PX, w: w * PX, h: h * PX }
}

fn item(title: &str, target: Target, origin: Source) -> Item {
    Item {
        id: title.to_string(),
        title: title.to_string(),
        detail: String::new(),
        kind: Kind::App,
        target,
        origin,
        group: 0,
        app: None,
        icon_source: None,
        link: None,
        half: Half::Apps,
        running: false,
    }
}

fn section(title: &str, items: Vec<Item>) -> Section {
    let total = items.len();
    Section {
        title: title.to_string(),
        items,
        total,
        columns: 0,
        center: None,
        slot: 0,
        edge: None,
        color: None,
    }
}

fn scene(sections: Vec<Section>) -> Scene {
    let mut config = Config::default();
    config.sections = Vec::new();
    let m = metrics(&config.grid, 96, 0, false);
    let layout = Layout::compute(&shapes(&sections, &config), m, px(0, 0, 1920, 1040));
    Scene {
        config,
        board: Board::new(sections),
        layout,
        drawn: Drawn { apps: (true, false), sites: (false, true) },
        home: None,
        menu: Vec::new(),
        settings: Vec::new(),
        options: Vec::new(),
        plate: None,
        moving: None,
        spelled: None,
    }
}

fn apps(n: usize) -> Vec<Item> {
    (0..n).map(|i| item(&format!("App {i}"), Target::Shell(format!("a{i}")), Source::Manual)).collect()
}

#[test]
fn a_plus_is_two_bars_crossed_in_the_middle() {
    assert_eq!(
        mark_shapes(Mark::Plus, 100 * PX, 100 * PX),
        vec![
            Shape::Block(Rect { x: 29 * PX, y: 50 * PX - 67, w: 42 * PX, h: 134 }),
            Shape::Block(Rect { x: 50 * PX - 67, y: 29 * PX, w: 134, h: 42 * PX }),
        ]
    );
}

#[test]
fn a_half_fills_its_destination_short_of_the_frame() {
    assert_eq!(
        mark_shapes(mark_of(Move::Left), 160 * PX, 100 * PX),
        vec![
            Shape::Block(Rect { x: 52 * PX, y: 2128, w: 26 * PX, h: 2144 }),
            Shape::Frame(Rect { x: 50 * PX, y: 2000, w: 60 * PX, h: 2400 }),
        ]
    );
}

#[test]
fn a_pair_of_screens_fills_the_one_it_sends_to() {
    assert_eq!(
        mark_shapes(Mark::Screen { second: true }, 160 * PX, 100 * PX),
        vec![
            Shape::Pane(Rect { x: 5595, y: 2202, w: 1904, h: 1996 }),
            Shape::Frame(Rect { x: 2739, y: 2202, w: 1904, h: 1996 }),
            Shape::Frame(Rect { x: 5595, y: 2202, w: 1904, h: 1996 }),
        ]
    );
}

#[test]
fn a_latch_is_a_radio_button() {
    let ring = Shape::Ring { x: 5120, y: 3200, r: 1200 };
    assert_eq!(mark_shapes(Mark::Latch { on: false }, 160 * PX, 100 * PX), vec![ring]);
    assert_eq!(
        mark_shapes(Mark::Latch { on: true }, 160 * PX, 100 * PX),
        vec![ring, Shape::Dot { x: 5120, y: 3200, r: 600 }]
    );
}

#[test]
fn every_move_and_every_mode_has_a_picture() {
    assert_eq!(mark_of(Move::Right), Mark::Half { left: 50, top: 0, right: 100, bottom: 100 });
    assert_eq!(mark_of(Move::ScreenLeft), Mark::Screen { second: false });
    assert_eq!(mark_of_mode(Mode::Close), Mark::Cross);
    assert_eq!(mark_of_mode(Mode::AllBookmarks), Mark::All);
    // A figure never gets too small to read.
    assert_eq!(
        mark_shapes(Mark::Latch { on: false }, 2 * PX, 2 * PX),
        vec![Shape::Ring { x: PX, y: PX, r: 160 }]
    );
}

#[test]
fn an_icon_is_fitted_and_never_stretched() {
    let parts = tile_parts(100 * PX, 120 * PX, 40 * PX, true, Some((256, 200)));
    assert_eq!(parts.area, 80 * PX);
    assert_eq!(parts.icon, Some(px(26, 16, 48, 48)));
    assert_eq!(parts.title, Rect { x: 8 * PX, y: 80 * PX, w: 84 * PX, h: 1484 });
    assert_eq!(parts.detail, Rect { x: 8 * PX, y: 6604, w: 84 * PX, h: 1076 });
    let small = tile_parts(100 * PX, 120 * PX, 40 * PX, false, Some((16, 12)));
    assert_eq!(small.icon, Some(px(42, 32, 16, 16)));
    // With no second line the title has the whole strip.
    assert_eq!(small.title, px(8, 80, 84, 40));
    assert_eq!(small.detail.h, 0);
}

#[test]
fn an_option_is_a_big_mark_over_what_it_does() {
    let parts = option_parts(100 * PX, 100 * PX, Some((256, 256)));
    assert_eq!((parts.glyph_size, parts.label_size), (30 * PX, 13 * PX));
    assert_eq!(parts.glyph, px(0, 16, 100, 46));
    assert_eq!(parts.label, px(0, 62, 100, 38));
    assert_eq!(parts.icon, Some(px(27, 16, 46, 46)));
    let tiny = option_parts(20 * PX, 20 * PX, None);
    assert_eq!((tiny.glyph_size, tiny.label_size, tiny.icon), (14 * PX, 10 * PX, None));
}

#[test]
fn the_filter_strip_is_filled_from_edge_to_edge() {
    let parts = search_parts(800 * PX, 50 * PX);
    assert_eq!(parts.glyph, px(0, 0, 39, 50));
    assert_eq!(parts.query, px(39, 0, 631, 50));
    assert_eq!(parts.count, px(670, 0, 130, 50));
    assert_eq!(
        (parts.query_size, parts.count_size, parts.glyph_size),
        (23 * PX, 15 * PX, 19 * PX)
    );
    let narrow = search_parts(10 * PX, 50 * PX);
    assert_eq!(narrow.glyph.w + narrow.query.w + narrow.count.w, 10 * PX);
}

#[test]
fn icons_are_asked_for_at_the_size_they_are_drawn() {
    assert_eq!(icon_size(120 * PX, 40 * PX, 96), 48);
    assert_eq!(icon_size(120 * PX, 40 * PX, 192), 96);
    assert_eq!(icon_size(20 * PX, 40 * PX, 96), 32);
    assert_eq!(icon_size(4000 * PX, 0, 192), 256);
    // Nobody knowing the screen is the usual ninety-six dots to the inch.
    assert_eq!(icon_size(120 * PX, 40 * PX, 0), 48);
}

#[test]
fn a_colour_is_swapped_for_the_desktop_and_back() {
    let color = rgb_of(0x12, 0x34, 0x56);
    assert_eq!(color, 0x12_34_56);
    assert_eq!(bgr_of(color), 0x56_34_12);
    assert_eq!(bgr_of(bgr_of(color)), color);
}

#[test]
fn the_ring_frames_a_window_rather_than_covering_it() {
    let frame = Edges { left: 100, top: 50, right: 300, bottom: 250 };
    assert_eq!(
        outer_ring(frame),
        Some(Edges { left: 94, top: 44, right: 306, bottom: 256 })
    );
    assert_eq!(outer_ring(Edges { left: 100, top: 50, right: 80, bottom: 250 }), None);
}

#[test]
fn rings_are_drawn_on_a_surface_that_just_holds_them() {
    let square = vec![(0, 0), (100, 0), (100, 60), (0, 60)];
    let hole = vec![(20, 20), (20, 40), (40, 40), (40, 20)];
    assert_eq!(
        covering(&vec![square, hole], 5),
        Some(Rect { x: -5, y: -5, w: 110, h: 70 })
    );
    assert_eq!(covering(&Vec::new(), 5), None);
    // A line has nothing inside it to draw.
    assert_eq!(covering(&vec![vec![(0, 0), (10, 0)]], 5), None);
}

#[test]
fn every_box_with_tiles_is_ringed_and_the_centre_is_not() {
    let mut block = section("", vec![item("x", Target::Slot, Source::Center)]);
    block.center = Some(0);
    let scene = scene(vec![section("A", apps(5)), section("B", Vec::new()), block]);
    let edges = box_edges(&scene.layout, 0, 2 * PX);
    assert_eq!(edges.len(), 1);
    let band = &scene.layout.bands[edges[0].band];
    assert_eq!(band.section, 0);
    let edge = &edges[0];
    assert_eq!(edge.rest, edge.bounds.y);
    // The surface is put in place, not its points.
    let lowest = edge.rings.iter().flatten().map(|p| p.1).min().unwrap();
    assert_eq!(lowest, 2 * PX);
    let scrolled = box_edge(&scene.layout, edge.band, 10 * PX, 2 * PX).unwrap();
    assert_eq!(scrolled.bounds.y, edge.bounds.y - 10 * PX);
    assert_eq!(scrolled.rest, edge.rest);
    assert_eq!(scrolled.rings, edge.rings);
}

#[test]
fn a_ring_runs_a_quarter_of_a_gap_outside_its_tiles() {
    let scene = scene(vec![section("A", apps(5))]);
    let gap = scene.layout.metrics.gap;
    let band = &scene.layout.bands[0];
    let rings = scene.layout.band_ring(0, 0);
    assert_eq!(rings.len(), 1);
    let left = rings[0].iter().map(|p| p.0).min().unwrap();
    let top = rings[0].iter().map(|p| p.1).min().unwrap();
    assert_eq!(left, band.cells.x - gap / 2 + gap / 4);
    assert_eq!(top, band.cells.y - gap / 2 + gap / 4);
    // Every side is level or upright.
    let n = rings[0].len();
    for i in 0..n {
        let (p, q) = (rings[0][i], rings[0][(i + 1) % n]);
        assert!(p.0 == q.0 || p.1 == q.1);
    }
}

#[test]
fn an_empty_section_in_the_middle_moves_nothing() {
    let plain = scene(vec![section("A", apps(5)), section("B", apps(3))]);
    let gappy =
        scene(vec![section("A", apps(5)), section("Gone", Vec::new()), section("B", apps(3))]);
    assert_eq!(plain.layout.panel, gappy.layout.panel);
    assert_eq!(plain.layout.tiles, gappy.layout.tiles);
    let named: Vec<usize> = gappy.layout.bands.iter().map(|band| band.section).collect();
    assert_eq!(named, vec![0, 2]);
}

#[test]
fn the_centre_is_framed_in_the_gutter() {
    assert_eq!(frame(&px(100, 50, 300, 200), 10 * PX), px(95, 45, 310, 210));
    assert_eq!(hairline(96), PX);
    assert_eq!(hairline(192), 2 * PX);
    assert_eq!(hairline(48), PX);
    // To a whole pixel, its middle on the seam.
    assert_eq!(seam_line(100 * PX, 2 * PX), 99 * PX);
    assert_eq!(seam_line(100 * PX + 10, 2 * PX), 99 * PX);
}

#[test]
fn a_tile_says_what_a_click_on_it_does() {
    let mut list = vec![
        section("Pins", apps(2)),
        section(
            "Bar",
            vec![
                item("Stay", Target::Stay, Source::Moves),
                item("Close", Target::Mode(Mode::Close), Source::Modes),
            ],
        ),
    ];
    list[0].items[0].running = true;
    let scene = scene(list);
    let mut session = Session::new(9);
    let face = tile_face(&scene, &session.state, 0).unwrap();
    assert_eq!((face.fill, face.tone, face.faded), (Fill::Plain, Tone::Plain, false));
    assert!(face.running && !face.ringed && !face.landing);
    assert_eq!(face.badge, None);
    let latch = tile_face(&scene, &session.state, 2).unwrap();
    assert_eq!(latch.mark, Some(Mark::Latch { on: false }));
    assert_eq!(latch.name, None);
    let _ = session.toggle_stay();
    let latch = tile_face(&scene, &session.state, 2).unwrap();
    assert_eq!(latch.mark, Some(Mark::Latch { on: true }));
    assert_eq!(latch.name.as_deref(), Some("Pick a window"));
    session.state.stay = false;
    session.state.mode = Mode::Close;
    let dead = tile_face(&scene, &session.state, 0).unwrap();
    assert_eq!((dead.tone, dead.faded), (Tone::Muted, true));
    let door = tile_face(&scene, &session.state, 3).unwrap();
    assert_eq!((door.fill, door.faded), (Fill::Held, false));
    assert!(tile_face(&scene, &session.state, 4).is_none());
}

#[test]
fn a_list_of_every_bookmark_always_draws_its_second_line() {
    let mut config = Config::default();
    config.grid.show_detail = false;
    assert!(!show_detail(&config, Mode::Grid));
    assert!(show_detail(&config, Mode::AllBookmarks));
    config.grid.show_detail = true;
    assert!(show_detail(&config, Mode::Grid));
}

#[test]
fn an_option_that_does_not_apply_is_greyed_and_never_lit() {
    let rect = px(0, 0, 10, 10);
    let square = |allowed: bool, held: bool| OptionSquare {
        option: EditOption::Left,
        rect,
        allowed,
        held,
    };
    assert_eq!(option_fill(&square(true, false), false), Square::Idle);
    assert_eq!(option_fill(&square(true, false), true), Square::Hot);
    assert_eq!(option_fill(&square(false, false), true), Square::Veiled);
    assert_eq!(option_fill(&square(true, true), false), Square::Lit);
    let config = Config::default();
    assert_eq!(option_label(&config, EditOption::CenterOn), Some("Center off"));
    assert_eq!(option_label(&config, EditOption::Left), None);
    assert_eq!(
        option_mark(&config, EditOption::Left, Some((0, 50))),
        Some(Mark::Half { left: 0, top: 0, right: 50, bottom: 100 })
    );
    assert_eq!(
        option_mark(&config, EditOption::CenterOn, None),
        Some(Mark::Latch { on: true })
    );
    assert_eq!(setting_fill(&config, Setting::Reset, true), Square::Veiled);
    assert_eq!(setting_fill(&config, Setting::Tiles, true), Square::Hot);
    assert_eq!(setting_fill(&config, Setting::Tiles, false), Square::Idle);
}

#[test]
fn sheets_strips_and_corners_keep_to_their_sizes() {
    assert_eq!((veil(82), veil(35), veil(100), veil(200)), (209, 89, 255, 255));
    assert!(home_fits(&px(0, 0, 24, 24)));
    assert!(!home_fits(&px(0, 0, 24, 23)));
    assert!(!strip_drawn(&Vec::new(), &px(0, 0, 200, 40)));
    assert!(strip_drawn(&vec!['a'], &px(0, 0, 200, 40)));
    assert!(!strip_drawn(&vec!['a'], &px(0, 0, 31, 40)));
    assert_eq!(home_words(None).0, "BentoLaunch");
    assert_eq!(home_words(Some("Done")), ("Done", "\u{2713}"));
}

#[test]
fn a_ring_takes_its_colour_from_its_place_in_the_config() {
    let mut list = vec![section("A", apps(1)), section("B", apps(1))];
    list[0].slot = 7;
    list[1].edge = Some("#FF0000".to_string());
    assert_eq!(section_edge(&list, 0, 5), RingColor::Palette(2));
    assert_eq!(section_edge(&list, 0, 0), RingColor::Plain);
    assert_eq!(section_edge(&list, 1, 5), RingColor::Own);
    assert_eq!(section_edge(&list, 2, 5), RingColor::Plain);
}

#[test]
fn the_box_being_edited_stays_lit_while_the_pointer_wanders() {
    let scene = scene(vec![section("A", apps(2)), section("B", apps(2))]);
    let mut session = Session::new(9);
    session.state.mode = Mode::Layout;
    session.state.edit = Some(0);
    session.state.hover_box = Some(1);
    let sheets: Vec<(usize, Sheet)> = (0..2)
        .map(|band| (scene.layout.bands[band].section, box_sheet(&scene, &session.state, band)))
        .collect();
    assert!(sheets.contains(&(0, Sheet::Selected)));
    assert!(sheets.contains(&(1, Sheet::Hovered)));
    session.state.hover_box = Some(0);
    assert_eq!(box_sheet(&scene, &session.state, scene.layout.bands.len()), Sheet::Idle);
}

#[test]
fn counts_and_headers_say_it_in_words() {
    assert_eq!(match_count(3, 40), "3 of 40");
    assert!(edit_header("Pins", "left", 0).starts_with("Pins"));
    assert!(edit_header("Pins", "left", 12).contains("12"));
}

#[test]
fn only_a_tile_still_waiting_is_painted_again() {
    let mut list = apps(2);
    list[0].icon_source = Some("C:\\a.exe".to_string());
    let board = Board::new(vec![section("A", list)]);
    assert_eq!(icon_step(&board, 0, true), IconStep::Ask);
    assert_eq!(icon_step(&board, 0, false), IconStep::Leave);
    assert_eq!(icon_step(&board, 1, true), IconStep::GiveUp);
    assert_eq!(icon_step(&board, 2, true), IconStep::Leave);
}

#[test]
fn the_plate_lies_under_every_square() {
    let options = vec![
        EditOption::Left,
        EditOption::FullWidth,
        EditOption::Right,
        EditOption::MoveUp,
        EditOption::MoveDown,
    ];
    let up = options_surface(&options, px(0, 0, 900, 700), 90 * PX, 70 * PX, 8 * PX).unwrap();
    assert_eq!(up.squares.len(), 5);
    for (_, square) in &up.squares {
        assert!(up.plate.x + 8 * PX <= square.x);
        assert!(square.x + square.w + 8 * PX <= up.plate.x + up.plate.w);
        assert!(up.plate.y + 8 * PX <= square.y);
        assert!(square.y + square.h + 8 * PX <= up.plate.y + up.plate.h);
    }
}

#[test]
fn pairing_turns_the_bridge_on_and_reads_its_code_in_threes() {
    assert_eq!(pair_steps(true, false), Vec::new());
    assert_eq!(pair_steps(false, true), vec![BridgeStep::Start]);
    assert_eq!(pair_steps(false, false), vec![BridgeStep::TurnOn, BridgeStep::Start]);
    let said = pair_said(true, 8123, Some("123456"));
    assert_eq!(said.caption, "Pair a browser");
    assert!(said.text.starts_with("Pairing code:  123  456\n\nOpen the BentoLaunch"));
    let said = pair_said(true, 8123, Some("abc"));
    assert!(said.text.starts_with("Pairing code:  abc  \n\n"));
    let said = pair_said(false, 8123, None);
    assert_eq!(said.caption, "Cannot pair right now");
    assert!(said.text.starts_with("Another process is using port 8123, so BentoLaunch's"));
    assert_eq!(pair_said(true, 1, None).text, "Could not generate a pairing code.");
    assert_eq!(
        forgotten_said("Firefox").text,
        "Firefox is no longer paired. Its tabs disappear as soon as it reconnects and is turned \
         away."
    );
}

#[test]
fn only_another_hotkey_is_bound_again() {
    assert_eq!(rebind("Alt+Space", "Alt+Space", true), Rebind::Keep);
    assert_eq!(rebind("Alt+Space", "Alt+Q", true), Rebind::Swap);
    assert_eq!(rebind("Alt+Space", "Alt+Q", false), Rebind::Bind);
    assert_eq!(select_arguments("C:\\a b.txt"), "/select,\"C:\\a b.txt\"");
}

#[test]
fn a_tile_is_drawn_at_the_place_of_its_item() {
    let mut list = vec![section("A", apps(3)), section("B", apps(2))];
    list[1].items[1].running = true;
    let scene = scene(list);
    let mut session = Session::new(9);
    session.state.scroll = 5 * PX;
    session.state.hover = Some(1);
    let pictures = tile_pictures(&scene, &session.state);
    assert_eq!(pictures.len(), 5);
    for (i, (rect, face)) in pictures.iter().enumerate() {
        let at = scene.layout.tile_rect(i, 0);
        assert_eq!(*rect, Rect { y: at.y - 5 * PX, ..at });
        let own = tile_face(&scene, &session.state, i).unwrap();
        assert_eq!((face.fill, face.tone, face.mark), (own.fill, own.tone, own.mark));
        assert_eq!(face.running, i == 4);
        assert_eq!(face.fill == Fill::Hovered, i == 1);
    }
}
