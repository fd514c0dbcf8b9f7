//! The panel as it is used: what a click, a key and a drag come to.

use bentolaunch::answers::{order_saved, pin_app_of, unpin, PopupChoice, TrayChoice};
use bentolaunch::board::{Board, Drawn};
use bentolaunch::config::{Change, Config, Contents, SectionConfig};
use bentolaunch::drag::{commit_drag, preview, still_fits, List};
use bentolaunch::edit::{box_plates, edit_state, edited_state, titles};
use bentolaunch::events::{point_of, Message, TrayClick, World, DEACTIVATED, HEARTBEAT, HOTKEY};
use bentolaunch::faces::{metrics, scales, shapes};
use bentolaunch::filter::filtered;
use bentolaunch::geometry::{Rect, PX};
use bentolaunch::keys::Key;
use bentolaunch::layout::{measures, Layout};
use bentolaunch::menu::{measured, Command};
use bentolaunch::model::{Half, Item, Kind, Mode, Move, Section, Source, Target};
use bentolaunch::paint::Mark;
use bentolaunch::popup::{add_label, menu_for};
use bentolaunch::scene::{EditOption, OptionSquare, Scene};
use bentolaunch::session::{Effect, Lane, Picked, Press, Session};
use bentolaunch::settings::Setting;
use bentolaunch::surface::{menu_surface, options_surface, settings_surface};
use bentolaunch::tiles::{badge, draggable, inert, landing_lit, lit, tile_fill, Fill};

fn item(title: &str, target: Target, origin: Source) -> Item {
    Item {
        id: title.to_lowercase(),
        title: title.to_string(),
        detail: String::new(),
        kind: Kind::App,
        target,
        origin,
        group: 0,
        app: None,
        icon_source: None,
        link: None,
        half: Half::Apps,
        running: false,
    }
}

fn app(title: &str) -> Item {
    let mut app = item(title, Target::Shell(format!("shell:{title}")), Source::Manual);
    app.app = Some(title.to_lowercase());
    app.icon_source = Some(format!("C:\\{title}.exe"));
    app
}

fn window(title: &str, handle: u64) -> Item {
    let mut window = item(title, Target::Window(handle), Source::Windows);
    window.kind = Kind::Window;
    window.app = Some(title.to_lowercase());
    window.icon_source = Some(format!("C:\\{title}.exe"));
    window
}

fn mode_tile(mode: Mode) -> Item {
    item("Mode", Target::Mode(mode), Source::Modes)
}

fn section(title: &str, items: Vec<Item>) -> Section {
    let total = items.len();
    Section {
        title: title.to_string(),
        items,
        total,
        columns: 0,
        center: None,
        slot: 0,
        edge: None,
        color: None,
    }
}

fn config() -> Config {
    let mut config = Config::default();
    config.sections = Vec::new();
    config
}

/// The work area of a plain screen.
fn screen() -> Rect {
    Rect { x: 0, y: 0, w: 1920 * PX, h: 1040 * PX }
}

fn scene_of(config: Config, sections: Vec<Section>, session: &Session) -> Scene {
    assert!(scales(&config.grid, 96));
    let m = metrics(&config.grid, 96, session.state.frozen_cols, !session.query.is_empty());
    let list = shapes(&sections, &config);
    assert!(measures(&list, &m, &screen()));
    let layout = Layout::compute(&list, m, screen());
    Scene {
        config,
        board: Board::new(sections),
        layout,
        drawn: Drawn { apps: (true, false), sites: (false, true) },
        home: None,
        menu: Vec::new(),
        settings: Vec::new(),
        options: Vec::new(),
        plate: None,
        moving: session.state.target,
        spelled: None,
    }
}

/// A panel with some pins, two windows and the modes bar.
fn sections() -> Vec<Section> {
    vec![
        section("Pins", vec![app("Editor"), app("Mail"), app("Music"), app("Paint")]),
        section("Windows", vec![window("Editor", 11), window("Shell", 12)]),
        section("Modes", vec![mode_tile(Mode::Close), mode_tile(Mode::Favorites)]),
    ]
}

fn shown() -> (Session, Scene) {
    let mut session = Session::new(99);
    let scene = scene_of(config(), sections(), &session);
    let _ = session.toggle(Some(7), false);
    let _ = session.show(true);
    assert!(session.state.visible);
    (session, scene)
}

fn world() -> World {
    World { front: Some(7), neutralized: false, slop: (4, 4) }
}

/// The middle of a tile, in whole pixels.
fn middle(scene: &Scene, tile: usize) -> (i16, i16) {
    let rect = scene.layout.tile_rect(tile, 0);
    (((rect.x + rect.w / 2) / PX) as i16, ((rect.y + rect.h / 2) / PX) as i16)
}

fn click(session: &mut Session, scene: &Scene, tile: usize) -> Vec<Effect> {
    let (x, y) = middle(scene, tile);
    let (mut effects, claimed) = session.handle(scene, &world(), Message::ButtonDown { x, y });
    assert!(claimed);
    let (more, claimed) = session.handle(scene, &world(), Message::ButtonUp { x, y });
    assert!(claimed);
    effects.extend(more);
    effects
}

fn key(session: &mut Session, scene: &Scene, key: Key) -> (Vec<Effect>, bool) {
    session.handle(scene, &world(), Message::KeyDown { key, repeat: false })
}

fn typed(session: &mut Session, scene: &Scene, text: &str) {
    for c in text.chars() {
        let (_, claimed) = session.handle(scene, &world(), Message::Typed(c));
        assert!(claimed);
    }
}

fn query(session: &Session) -> String {
    session.query.iter().collect()
}

#[test]
fn the_hotkey_shows_the_panel_and_hides_it_again() {
    let (mut session, scene) = shown();
    let (effects, claimed) = session.handle(&scene, &world(), Message::Hotkey(HOTKEY));
    assert!(claimed);
    assert!(!session.state.visible);
    assert_eq!(
        effects,
        vec![
            Effect::HideRing,
            Effect::MarkShown(false),
            Effect::StopHeartbeat,
            Effect::StopAsking,
            Effect::HideWindow,
            Effect::RestoreCaller,
            Effect::DropVisuals,
        ]
    );
    let (effects, _) = session.handle(&scene, &world(), Message::Summon);
    assert_eq!(effects, vec![Effect::Reload, Effect::Rebuild, Effect::Show]);
    // Another key's number is nobody's business here.
    let (effects, claimed) = session.handle(&scene, &world(), Message::Hotkey(HOTKEY + 1));
    assert!(effects.is_empty());
    assert!(!claimed);
}

#[test]
fn a_panel_put_out_of_action_is_not_summoned() {
    let mut session = Session::new(99);
    assert!(session.toggle(Some(7), true).is_empty());
    assert_eq!(session.state.caller, None);
}

#[test]
fn a_panel_that_could_not_be_built_stays_hidden() {
    let mut session = Session::new(99);
    let _ = session.toggle(Some(7), false);
    assert!(session.show(false).is_empty());
    assert!(!session.state.visible);
    assert_eq!(
        session.show(true),
        vec![
            Effect::ShowWindow,
            Effect::TakeFocus,
            Effect::StartHeartbeat,
            Effect::MarkShown(true),
            Effect::FrameTarget,
        ]
    );
}

#[test]
fn clicking_a_tile_goes_there_and_the_panel_gets_out_of_the_way() {
    let (mut session, scene) = shown();
    let effects = click(&mut session, &scene, 1);
    assert_eq!(effects.first(), Some(&Effect::Capture));
    assert_eq!(effects.last(), Some(&Effect::Activate(1)));
    assert!(effects.contains(&Effect::HideWindow));
    // It is about to be replaced, so the caller is not put back first.
    assert!(!effects.contains(&Effect::RestoreCaller));
    assert!(!session.state.visible);
}

#[test]
fn a_dry_run_says_what_it_would_have_done() {
    let (mut session, _) = shown();
    let mut dry = config();
    dry.dry_run = true;
    let scene = scene_of(dry, sections(), &session);
    let effects = click(&mut session, &scene, 1);
    assert!(effects.contains(&Effect::SayWould(1)));
    assert!(!effects.contains(&Effect::Activate(1)));
}

#[test]
fn a_release_on_another_tile_is_no_click() {
    let (mut session, scene) = shown();
    let (x, y) = middle(&scene, 0);
    let _ = session.handle(&scene, &world(), Message::ButtonDown { x, y });
    let (x, y) = middle(&scene, 1);
    let (effects, _) = session.handle(&scene, &world(), Message::ButtonUp { x, y });
    assert_eq!(effects, vec![Effect::ReleaseCapture, Effect::Repaint(0), Effect::Reposition]);
    assert!(session.state.visible);
}

#[test]
fn a_wobble_is_a_click_and_a_journey_is_a_drag() {
    let (mut session, scene) = shown();
    let (x, y) = middle(&scene, 0);
    let _ = session.handle(&scene, &world(), Message::ButtonDown { x, y });
    let (effects, _) = session.handle(&scene, &world(), Message::MouseMove { x: x + 4, y });
    assert!(effects.is_empty());
    assert!(!session.state.press.unwrap().dragging);
    let (effects, _) = session.handle(&scene, &world(), Message::MouseMove { x: x + 5, y });
    assert_eq!(effects[0], Effect::Lift(0));
    assert_eq!(effects[1], Effect::Preview);
    assert!(matches!(effects[2], Effect::Drag { tile: 0, .. }));
    assert!(session.state.press.unwrap().dragging);
}

#[test]
fn dropping_a_pin_two_along_saves_the_new_order() {
    let (mut session, scene) = shown();
    let (x, y) = middle(&scene, 0);
    let _ = session.handle(&scene, &world(), Message::ButtonDown { x, y });
    let (x, y) = middle(&scene, 2);
    let _ = session.handle(&scene, &world(), Message::MouseMove { x: x + 20, y });
    let press = session.state.press.unwrap();
    assert_eq!((press.first, press.count, press.slot), (0, 4, 3));
    assert!(still_fits(&press, &scene.layout));
    assert_eq!(preview(&press), vec![(1, 0), (2, 1), (3, 3)]);
    let (effects, _) = session.handle(&scene, &world(), Message::ButtonUp { x, y });
    assert_eq!(effects, vec![Effect::ReleaseCapture, Effect::SaveOrder(press)]);
    let saved = commit_drag(&scene, &press).unwrap();
    assert_eq!(saved.section, 0);
    assert_eq!(saved.list, List::Pins);
    assert_eq!(saved.keys, vec!["shell:Mail", "shell:Music", "shell:Editor", "shell:Paint"]);
    assert_eq!(order_saved(&press, true), vec![Effect::ReloadConfig]);
}

#[test]
fn a_pin_dropped_where_it_was_saves_nothing() {
    let (_, scene) = shown();
    let press = Press {
        tile: 1,
        band: Some(0),
        first: 0,
        count: 4,
        grab: (0, 0),
        start: (0, 0),
        dragging: true,
        slot: 1,
    };
    assert!(commit_drag(&scene, &press).is_none());
}

#[test]
fn a_press_on_a_panel_laid_out_anew_is_let_go() {
    let (_, scene) = shown();
    let press = Press {
        tile: 1,
        band: Some(40),
        first: 0,
        count: 4,
        grab: (0, 0),
        start: (0, 0),
        dragging: true,
        slot: 1,
    };
    assert!(!still_fits(&press, &scene.layout));
    assert!(still_fits(&Press { band: None, ..press }, &scene.layout));
}

#[test]
fn windows_cannot_be_dragged_and_neither_can_a_filtered_grid() {
    let (session, scene) = shown();
    assert!(draggable(&scene.board, &session.query, 0));
    assert!(!draggable(&scene.board, &session.query, 4));
    assert!(!draggable(&scene.board, &vec!['e'], 0));
}

#[test]
fn escape_undoes_one_thing_at_a_time() {
    let (mut session, scene) = shown();
    typed(&mut session, &scene, "ed");
    session.state.menu_up = true;
    session.state.settings_up = true;
    session.state.asking_reset = true;
    session.state.stay = true;

    let _ = key(&mut session, &scene, Key::Escape);
    assert!(!session.state.asking_reset && session.state.settings_up);
    let _ = key(&mut session, &scene, Key::Escape);
    assert!(!session.state.settings_up && session.state.menu_up);
    let _ = key(&mut session, &scene, Key::Escape);
    assert!(!session.state.menu_up && session.state.stay);
    let _ = key(&mut session, &scene, Key::Escape);
    assert!(!session.state.stay && query(&session) == "ed");
    let _ = key(&mut session, &scene, Key::Escape);
    assert!(query(&session).is_empty() && session.state.visible);
    let _ = key(&mut session, &scene, Key::Escape);
    assert!(!session.state.visible);
}

#[test]
fn escape_leaves_a_mode_before_the_panel() {
    let (mut session, scene) = shown();
    let _ = session.enter_mode(true, Mode::Move);
    assert!(session.state.stay);
    let (_, claimed) = key(&mut session, &scene, Key::Escape);
    assert!(claimed);
    assert_eq!(session.state.mode, Mode::Grid);
    assert!(session.state.visible);
    // The latch the mode set goes with it.
    assert!(!session.state.stay);
}

#[test]
fn a_modes_own_square_turns_it_on_and_off() {
    let (mut session, scene) = shown();
    let effects = click(&mut session, &scene, 6);
    assert_eq!(session.state.mode, Mode::Close);
    assert!(effects.contains(&Effect::Reload));
    let effects = click(&mut session, &scene, 6);
    assert_eq!(session.state.mode, Mode::Grid);
    assert_eq!(effects.last(), Some(&Effect::KeepFocus));
    assert!(session.state.visible);
}

#[test]
fn no_mode_is_entered_while_something_is_typed_or_with_no_box() {
    let (mut session, scene) = shown();
    assert!(session.enter_mode(false, Mode::Layout).is_empty());
    typed(&mut session, &scene, "e");
    assert!(session.enter_mode(true, Mode::Layout).is_empty());
    assert_eq!(session.state.mode, Mode::Grid);
}

#[test]
fn close_mode_closes_what_is_behind_a_tile_and_never_itself() {
    let (mut session, scene) = shown();
    let _ = session.enter_mode(true, Mode::Close);
    // A pin answers through the app it and the window both name.
    assert_eq!(session.close_tile(&scene, 0), vec![Effect::Close(11)]);
    assert_eq!(session.close_tile(&scene, 5), vec![Effect::Close(12)]);
    assert!(session.close_tile(&scene, 1).is_empty());
    session.state.own = 12;
    assert!(session.close_tile(&scene, 5).is_empty());
    // Nothing of it is badged: only taking out of the centre block is.
    assert_eq!(badge(Mode::Close, scene.board.item(5).unwrap()), None);
    let kept = item("Kept", Target::Shell("k".to_string()), Source::Center);
    assert_eq!(badge(Mode::Favorites, &kept), Some(Mark::Minus));
}

#[test]
fn the_latch_picks_a_window_instead_of_going_to_it() {
    let (mut session, scene) = shown();
    assert_eq!(session.toggle_stay(), vec![Effect::FrameTarget, Effect::Rebuild]);
    let effects = click(&mut session, &scene, 5);
    assert_eq!(session.state.target, Some(12));
    assert!(session.state.visible);
    assert!(effects.ends_with(&[Effect::FrameTarget, Effect::Rebuild]));
    // An app with nothing open is started, and its window waited for.
    let effects = click(&mut session, &scene, 1);
    assert!(effects.contains(&Effect::Launch(1)));
    assert_eq!(session.pending.as_deref(), Some("mail"));
    assert_eq!(session.state.target, None);
    let _ = session.toggle_stay();
    assert!(!session.state.stay);
    assert_eq!(session.pending, None);
}

#[test]
fn a_held_key_does_not_flicker_the_latch() {
    let (mut session, scene) = shown();
    let (_, claimed) =
        session.handle(&scene, &world(), Message::KeyDown { key: Key::Control, repeat: true });
    assert!(claimed && !session.state.stay);
    let _ = key(&mut session, &scene, Key::Control);
    assert!(session.state.stay);
}

#[test]
fn the_move_tiles_send_the_window_they_are_aimed_at() {
    let (mut session, _) = shown();
    assert!(session.arrange(None, Move::Left).is_empty());
    let effects = session.arrange(Some(12), Move::ScreenRight);
    assert_eq!(effects, vec![Effect::Arrange { handle: 12, to: Move::ScreenRight }]);
    assert!(session.state.arranging);
    // Losing the focus to the window just moved is not losing it.
    let (effects, claimed) = session.blur();
    assert!(effects.is_empty() && claimed);
    assert_eq!(session.arranged(true).is_empty(), false);
    assert!(!session.state.arranging);
}

#[test]
fn typing_narrows_and_backspace_takes_it_back() {
    let (mut session, scene) = shown();
    typed(&mut session, &scene, " ");
    assert!(query(&session).is_empty());
    assert_eq!(session.state.frozen_cols, 0);
    typed(&mut session, &scene, "m");
    assert_eq!(session.state.frozen_cols, scene.layout.cols);
    typed(&mut session, &scene, "a i");
    assert_eq!(query(&session), "ma i");
    typed(&mut session, &scene, "\u{8}\u{8}\u{8}");
    assert_eq!(query(&session), "m");
    assert_eq!(session.state.frozen_cols, scene.layout.cols);
    typed(&mut session, &scene, "\u{8}");
    assert_eq!(session.state.frozen_cols, 0);
    typed(&mut session, &scene, "mail\u{7F}");
    assert!(query(&session).is_empty());
    // A control character is not text.
    typed(&mut session, &scene, "\u{1}");
    assert!(query(&session).is_empty());
}

#[test]
fn a_hidden_panel_claims_no_keys() {
    let mut session = Session::new(99);
    let scene = scene_of(config(), sections(), &session);
    let (effects, claimed) = key(&mut session, &scene, Key::Escape);
    assert!(effects.is_empty() && !claimed);
    let (effects, claimed) = session.handle(&scene, &world(), Message::Typed('a'));
    assert!(effects.is_empty() && !claimed);
}

#[test]
fn a_query_belongs_to_one_summoning() {
    let (mut session, scene) = shown();
    typed(&mut session, &scene, "mail");
    session.state.stay = true;
    let _ = session.handle(&scene, &world(), Message::Summon);
    let _ = session.handle(&scene, &world(), Message::Summon);
    assert!(query(&session).is_empty());
    assert!(!session.state.stay);
    assert_eq!(session.state.scroll, 0);
    assert_eq!(session.state.frozen_cols, 0);
    assert_eq!(session.state.caller, Some(7));
}

#[test]
fn the_arrows_walk_the_grid_and_stop_at_its_ends() {
    let (mut session, scene) = shown();
    let _ = key(&mut session, &scene, Key::Right);
    assert_eq!(session.state.selected, Some(0));
    let _ = key(&mut session, &scene, Key::Right);
    assert_eq!(session.state.selected, Some(1));
    let _ = key(&mut session, &scene, Key::Home);
    assert_eq!(session.state.selected, Some(0));
    let _ = key(&mut session, &scene, Key::Left);
    assert_eq!(session.state.selected, Some(0));
    let _ = key(&mut session, &scene, Key::End);
    assert_eq!(session.state.selected, Some(7));
    let _ = key(&mut session, &scene, Key::Down);
    assert_eq!(session.state.selected, Some(7));
}

#[test]
fn enter_goes_to_what_is_selected() {
    let (mut session, scene) = shown();
    let (effects, claimed) = key(&mut session, &scene, Key::Enter);
    assert!(effects.is_empty() && claimed);
    let _ = session.set_selected(Some(2));
    let (effects, _) = key(&mut session, &scene, Key::Enter);
    assert_eq!(effects.last(), Some(&Effect::Activate(2)));
}

#[test]
fn hovering_repaints_only_what_changed() {
    let (mut session, scene) = shown();
    session.state.tracking = true;
    let (x, y) = middle(&scene, 1);
    let (effects, _) = session.handle(&scene, &world(), Message::MouseMove { x, y });
    assert_eq!(effects, vec![Effect::Repaint(1)]);
    let (effects, _) = session.handle(&scene, &world(), Message::MouseMove { x: x + 1, y });
    assert!(effects.is_empty());
    let (x, y) = middle(&scene, 2);
    let (effects, _) = session.handle(&scene, &world(), Message::MouseMove { x, y });
    assert_eq!(effects, vec![Effect::Repaint(1), Effect::Repaint(2)]);
    let (effects, _) = session.handle(&scene, &world(), Message::MouseLeave);
    assert_eq!(effects, vec![Effect::Repaint(2)]);
    assert!(!session.state.tracking);
}

#[test]
fn the_pointer_leaving_is_asked_about_once() {
    let (mut session, scene) = shown();
    let (effects, _) = session.handle(&scene, &world(), Message::MouseMove { x: 0, y: 0 });
    assert_eq!(effects, vec![Effect::Track]);
    session.hears(true);
    let (effects, _) = session.handle(&scene, &world(), Message::MouseMove { x: 1, y: 0 });
    assert!(effects.is_empty());
}

#[test]
fn hover_beats_selection_and_a_dead_tile_lights_for_neither() {
    let (mut session, scene) = shown();
    let _ = session.set_selected(Some(1));
    let fill = |session: &Session, tile: usize| {
        tile_fill(&scene.board, &scene.drawn, scene.moving, &session.state, tile)
    };
    assert_eq!(fill(&session, 1), Fill::Selected);
    let _ = session.set_hover(Some(1));
    assert_eq!(fill(&session, 1), Fill::Hovered);
    // Nothing of it is open, so there is nothing to close.
    let _ = session.enter_mode(true, Mode::Close);
    let _ = session.set_hover(Some(1));
    assert!(inert(&scene.board, &scene.drawn, None, Mode::Close, scene.board.item(1).unwrap()));
    assert_eq!(fill(&session, 1), Fill::Plain);
    assert!(lit(Mode::Close, false, scene.board.item(6).unwrap()));
    assert!(!inert(&scene.board, &scene.drawn, None, Mode::Close, scene.board.item(6).unwrap()));
}

#[test]
fn a_click_on_the_padding_dismisses() {
    let (mut session, scene) = shown();
    let (effects, _) = session.handle(&scene, &world(), Message::ButtonDown { x: 1, y: 1 });
    assert!(effects.is_empty());
    let (effects, _) = session.handle(&scene, &world(), Message::ButtonUp { x: 1, y: 1 });
    assert!(effects.contains(&Effect::HideWindow));
    assert!(effects.contains(&Effect::RestoreCaller));
}

#[test]
fn the_corner_button_opens_the_menu_and_leaves_a_mode() {
    let (mut session, mut scene) = shown();
    scene.home = Some(scene.layout.home_rect());
    let home = scene.layout.home_rect();
    let (x, y) = ((home.x / PX + 2) as i16, (home.y / PX + 2) as i16);
    let _ = session.handle(&scene, &world(), Message::ButtonDown { x, y });
    assert!(session.state.menu_up && session.state.handled_down);
    // What going down did is not done again coming up.
    let (effects, _) = session.handle(&scene, &world(), Message::ButtonUp { x, y });
    assert!(effects.is_empty() && session.state.menu_up && !session.state.handled_down);
    let _ = session.press_home();
    assert!(!session.state.menu_up);
    let _ = session.enter_mode(true, Mode::Favorites);
    let _ = session.press_home();
    assert_eq!(session.state.mode, Mode::Grid);
}

#[test]
fn the_menu_does_what_its_squares_say_and_closes() {
    let (mut session, mut scene) = shown();
    let panel = Rect { x: 0, y: 0, w: scene.layout.panel.w, h: scene.layout.panel.h };
    let g = scene.config.grid;
    assert!(measured(&panel, 8, g.tile_width, g.tile_height, g.gap));
    let overlay = menu_surface(panel, g.tile_width, g.tile_height, g.gap).unwrap();
    assert_eq!(overlay.squares.len(), 8);
    scene.menu = overlay.squares;
    session.state.menu_up = true;
    let at = scene.menu.iter().position(|(command, _)| *command == Command::AddFolder).unwrap();
    let rect = scene.menu[at].1;
    let (x, y) = ((rect.x / PX + 3) as i16, (rect.y / PX + 3) as i16);
    let (effects, _) = session.handle(&scene, &world(), Message::MouseMove { x, y });
    assert!(effects.contains(&Effect::RefreshMenu));
    assert_eq!(session.state.hover_menu, Some(at));
    let (effects, _) = session.handle(&scene, &world(), Message::ButtonDown { x, y });
    assert_eq!(effects, vec![Effect::Pick(Picked::Folder)]);
    assert!(!session.state.menu_up);
    assert_eq!(session.run_command(true, Command::Settings), vec![Effect::Rebuild]);
    assert!(session.state.settings_up);
    let _ = session.run_command(true, Command::EditLayout);
    assert_eq!(session.state.mode, Mode::Layout);
}

#[test]
fn the_reset_asks_first_and_the_question_takes_the_surface() {
    let (mut session, _) = shown();
    let mut changed = config();
    changed.grid.gap += PX;
    session.state.settings_up = true;
    let effects = session.run_setting(&changed, Setting::Reset);
    assert_eq!(effects, vec![Effect::Rebuild, Effect::KeepFocus]);
    assert!(session.state.asking_reset);
    assert_eq!(session.run_setting(&changed, Setting::ResetYes), vec![Effect::ResetLayout]);
    assert!(!session.state.asking_reset);
    assert_eq!(
        session.layout_reset(true),
        vec![Effect::ReloadConfig, Effect::Rebuild, Effect::KeepFocus]
    );
    assert_eq!(session.layout_reset(false)[0], Effect::SayResetFailed);
    assert_eq!(session.run_setting(&changed, Setting::OpenFile)[0], Effect::OpenConfig);
    assert!(!session.state.settings_up);
}

#[test]
fn a_setting_writes_its_next_value() {
    let (mut session, _) = shown();
    let c = config();
    assert_eq!(
        session.run_setting(&c, Setting::Labels),
        vec![Effect::Write(Change::ShowDetail(!c.grid.show_detail))]
    );
    assert_eq!(
        session.setting_written(true),
        vec![Effect::ReloadConfig, Effect::Rebuild, Effect::KeepFocus]
    );
    assert!(session.setting_written(false).is_empty());
}

#[test]
fn the_settings_are_eight_squares_and_the_question_is_two() {
    let panel = Rect { x: 0, y: 0, w: 1000 * PX, h: 800 * PX };
    let (w, h, gap) = (100 * PX, 80 * PX, 10 * PX);
    let all = settings_surface(false, panel, w, h, gap).unwrap();
    assert_eq!(all.squares.len(), 8);
    let asked = settings_surface(true, panel, w, h, gap).unwrap();
    assert_eq!(asked.squares.len(), 2);
    assert_eq!(asked.squares[0].0, Setting::ResetNo);
    // Two tiles and a gap, centred, with a gap round them.
    assert_eq!(
        asked.plate,
        Rect { x: 385 * PX, y: 350 * PX, w: 230 * PX, h: 100 * PX }
    );
    assert!(options_surface(&Vec::new(), panel, w, h, gap).is_none());
    let one = options_surface(&vec![EditOption::Done], panel, w, h, gap).unwrap();
    assert_eq!(one.squares[0], (EditOption::Done, Rect { x: 450 * PX, y: 360 * PX, w, h }));
}

#[test]
fn an_option_acts_on_the_box_that_is_picked() {
    let (mut session, mut scene) = shown();
    scene.options = vec![OptionSquare {
        option: EditOption::Left,
        rect: Rect { x: 0, y: 0, w: 10 * PX, h: 10 * PX },
        allowed: true,
        held: false,
    }];
    scene.plate = Some(Rect { x: 0, y: 0, w: 30 * PX, h: 10 * PX });
    let _ = session.enter_mode(true, Mode::Layout);
    session.state.edit = Some(0);
    let effects = session.edit_click(&scene, 5 * PX, 5 * PX);
    assert_eq!(effects, vec![Effect::SetLane(Lane::Left), Effect::KeepFocus]);
    // The plate answers for its gaps too: the box under it is not picked.
    let effects = session.edit_click(&scene, 20 * PX, 5 * PX);
    assert_eq!(effects, vec![Effect::KeepFocus]);
    assert_eq!(session.state.edit, Some(0));
    assert_eq!(session.apply_option(&scene, EditOption::Fewer), vec![Effect::SetShown(3)]);
    assert_eq!(session.apply_option(&scene, EditOption::More), vec![Effect::SetShown(5)]);
    let _ = session.apply_option(&scene, EditOption::Done);
    assert_eq!(session.state.mode, Mode::Grid);
}

#[test]
fn a_box_never_shows_fewer_than_one_tile() {
    let (mut session, _) = shown();
    let one = vec![section("Pins", vec![app("Editor")])];
    let mut c = config();
    c.sections = vec![SectionConfig {
        title: "Pins".to_string(),
        side: None,
        columns: 0,
        max_items: 1,
    }];
    let scene = scene_of(c, one, &session);
    session.state.edit = Some(0);
    // It is set to one already, so there is nothing to write.
    assert!(session.apply_option(&scene, EditOption::Fewer).is_empty());
}

#[test]
fn the_centre_block_is_reshaped_and_refilled_by_its_own_options() {
    let (mut session, scene) = shown();
    assert_eq!(
        session.apply_option(&scene, EditOption::CenterHolds),
        vec![Effect::WriteCenter(Change::CenterContents(Contents::One))]
    );
    let c = scene.config.center;
    assert_eq!(
        session.apply_option(&scene, EditOption::CenterTaller),
        vec![Effect::WriteCenter(Change::CenterSize { columns: c.columns, rows: c.rows + 1 })]
    );
}

#[test]
fn picking_a_box_twice_puts_its_options_away() {
    let (mut session, scene) = shown();
    let _ = session.enter_mode(true, Mode::Layout);
    let rect = scene.layout.tile_rect(0, 0);
    let _ = session.pick_box(&scene, rect.x + PX, rect.y + PX);
    assert_eq!(session.state.edit, Some(0));
    let _ = session.pick_box(&scene, rect.x + PX, rect.y + PX);
    assert_eq!(session.state.edit, None);
    // With nothing picked, the arrows walk the boxes.
    let (_, claimed) = key(&mut session, &scene, Key::Right);
    assert!(claimed);
    assert_eq!(session.state.edit, Some(1));
    // The mode owns the keyboard: nothing reaches the filter.
    typed(&mut session, &scene, "m");
    assert!(query(&session).is_empty());
}

#[test]
fn the_box_being_edited_knows_its_place_in_its_lane() {
    let (_, scene) = shown();
    let lanes = vec![Lane::Left, Lane::Right, Lane::Left];
    let state = edit_state(&scene, Some(2), &lanes).unwrap();
    assert_eq!((state.at_lane, state.lane_len), (1, 2));
    assert_eq!((state.shown, state.total, state.boxes), (2, 2, 3));
    assert_eq!(state.lane, Lane::Left);
    assert!(state.center.is_none());
    assert!(edit_state(&scene, None, &lanes).is_none());
    assert!(edit_state(&scene, Some(9), &lanes).is_none());
    assert_eq!(edited_state(&scene, Some(0)), (scene.layout.bands[0].cols, 4));
    assert_eq!(edited_state(&scene, None), (1, 0));
}

#[test]
fn titles_mark_the_box_the_keys_land_on() {
    let (mut session, scene) = shown();
    let plain = titles(&scene.layout, &session.state);
    assert_eq!(plain.len(), 3);
    assert!(plain.iter().all(|spot| !spot.selected));
    let _ = session.enter_mode(true, Mode::Layout);
    session.state.edit = Some(1);
    let marked = titles(&scene.layout, &session.state);
    let chosen: Vec<Option<usize>> =
        marked.iter().filter(|spot| spot.selected).map(|spot| spot.section).collect();
    assert_eq!(chosen, vec![Some(1)]);
}

#[test]
fn a_plate_lies_behind_the_boxes_that_ask_for_one() {
    let session = Session::new(99);
    let mut list = sections();
    list[1].color = Some("#102030".to_string());
    let scene = scene_of(config(), list, &session);
    let plates = box_plates(&scene, 0);
    assert_eq!(plates.len(), 1);
    let band = &scene.layout.bands[plates[0].0];
    assert_eq!(band.section, 1);
    assert_eq!(plates[0].1, band.rect);
}

#[test]
fn empty_squares_light_for_what_would_land_in_them() {
    let session = Session::new(99);
    let mut block = section("", vec![item("", Target::Slot, Source::Center)]);
    block.center = Some(0);
    let mut sites = section("", vec![item("", Target::Slot, Source::Center)]);
    sites.center = Some(1);
    let list = vec![section("Pins", vec![app("Editor")]), block, sites];
    let scene = scene_of(config(), list, &session);
    let slots = scene.board.landing_slots(&scene.drawn);
    assert_eq!(slots, (Some(1), Some(2)));
    let mut session = session;
    let _ = session.toggle(None, false);
    let _ = session.show(true);
    // Clicking an empty square turns the mode on, aimed at its list.
    let effects = session.activate(&scene, 2);
    assert_eq!(session.state.mode, Mode::Favorites);
    assert_eq!(session.state.filling, Some(Half::Sites));
    assert_eq!(effects.last(), Some(&Effect::RefreshLanding));
    assert_eq!(landing_lit(&scene.board, &scene.drawn, &session.state), (false, true));
    // A tile under the pointer lights the list it would go into.
    let _ = session.set_hover(Some(0));
    assert_eq!(landing_lit(&scene.board, &scene.drawn, &session.state), (true, false));
    assert_eq!(
        session.toggle_center(&scene, 0),
        vec![Effect::AddToCenter { half: Half::Apps, tile: 0 }]
    );
    // And the square it is aimed at turns it off again.
    let _ = session.toggle_center(&scene, 2);
    assert_eq!(session.state.mode, Mode::Grid);
    assert_eq!(session.center_changed(false), Vec::new());
}

#[test]
fn a_window_named_by_two_apps_answers_to_its_own() {
    let (_, scene) = shown();
    assert_eq!(scene.board.window_named("shell"), Some(12));
    assert_eq!(scene.board.window_named("paint"), None);
    assert_eq!(scene.board.window_for(scene.board.item(0).unwrap()), Some(11));
    assert_eq!(scene.board.tile_with(12), Some(5));
    assert_eq!(scene.board.tile_known_as("music"), Some(2));
    assert_eq!(scene.board.len(), 8);
    assert!(scene.board.item(8).is_none());
}

#[test]
fn filtering_keeps_what_scores_and_points_at_the_best() {
    let list = sections();
    let scores = vec![
        vec![None, Some(3), Some(9), None],
        vec![Some(9), None],
        vec![None, None],
    ];
    let (kept, best) = filtered(&"m".chars().collect(), list, &scores);
    let names: Vec<Vec<String>> =
        kept.iter().map(|s| s.items.iter().map(|i| i.title.clone()).collect()).collect();
    assert_eq!(names, vec![vec!["Mail", "Music"], vec!["Editor"], Vec::<&str>::new()]);
    // The first of the equal best, counted over what is left.
    assert_eq!(best, Some(1));
    let (all, best) = filtered(&"  ".chars().collect(), sections(), &scores);
    assert_eq!(all.len(), 3);
    assert_eq!(all[0].items.len(), 4);
    assert_eq!(best, None);
}

#[test]
fn the_selection_follows_the_best_match_and_hover_follows_its_tile() {
    let (mut session, scene) = shown();
    session.reloaded(Some(3));
    assert_eq!(session.state.selected, Some(3));
    session.state.hover = Some(6);
    let _ = session.follow_hover(&scene.board, Some("mail"));
    assert_eq!(session.state.hover, Some(1));
    let _ = session.follow_hover(&scene.board, Some("gone"));
    assert_eq!(session.state.hover, None);
}

#[test]
fn the_wheel_scrolls_only_what_overflows() {
    let (mut session, _) = shown();
    let many: Vec<Item> = (0..900).map(|i| app(&format!("App {i}"))).collect();
    let scene = scene_of(config(), vec![section("Apps", many)], &session);
    assert!(scene.layout.max_scroll > 0);
    let (effects, _) = session.handle(&scene, &world(), Message::Wheel(-120));
    assert_eq!(effects, vec![Effect::Reposition]);
    assert_eq!(session.state.scroll, 120 * PX);
    let (effects, _) = session.handle(&scene, &world(), Message::Wheel(500));
    assert_eq!(effects, vec![Effect::Reposition]);
    assert_eq!(session.state.scroll, 0);
    let (effects, _) = session.handle(&scene, &world(), Message::Wheel(30));
    assert!(effects.is_empty());
    // Walking off the bottom brings the tile on screen.
    let _ = key(&mut session, &scene, Key::End);
    let rect = scene.layout.tile_rect(899, session.state.scroll);
    assert!(rect.y >= 0 && rect.y + rect.h <= scene.layout.panel.h);
}

#[test]
fn losing_the_focus_dismisses_but_a_mode_asks_again() {
    let (mut session, scene) = shown();
    let _ = session.enter_mode(true, Mode::Close);
    let (effects, claimed) = session.handle(&scene, &world(), Message::Deactivated);
    assert_eq!(effects, vec![Effect::AskAgain]);
    assert!(claimed && session.state.visible);
    let ours = World { front: Some(99), ..world() };
    let (effects, _) = session.handle(&scene, &ours, Message::Timer(DEACTIVATED));
    assert_eq!(effects, vec![Effect::StopAsking]);
    assert!(session.state.visible);
    let (effects, _) = session.handle(&scene, &world(), Message::Timer(DEACTIVATED));
    assert!(effects.contains(&Effect::HideWindow));
    let (effects, _) = session.handle(&scene, &world(), Message::Timer(HEARTBEAT));
    assert_eq!(effects, vec![Effect::Beat]);
}

#[test]
fn a_menu_being_up_is_not_losing_the_focus() {
    let (mut session, scene) = shown();
    let (effects, _) = session.handle(&scene, &world(), Message::RightUp { x: 3, y: 4 });
    assert_eq!(effects, vec![Effect::ShowPopup { x: 3 * PX, y: 4 * PX }]);
    let (effects, claimed) = session.handle(&scene, &world(), Message::Deactivated);
    assert!(effects.is_empty() && !claimed && session.state.visible);
    let effects = session.popup_chosen(&scene, None, PopupChoice::Nothing);
    assert!(effects.is_empty() && !session.state.popup);
    let (effects, _) = session.handle(&scene, &world(), Message::Deactivated);
    assert!(effects.contains(&Effect::HideWindow));
}

#[test]
fn the_right_click_menu_offers_what_the_tile_can_do() {
    let (_, scene) = shown();
    let said = |tile: Option<usize>, typing: bool, locatable: bool| -> Vec<String> {
        menu_for(&scene, tile, typing, Some("Pins"), locatable)
            .into_iter()
            .map(|entry| entry.map_or("-".to_string(), |entry| entry.label))
            .collect()
    };
    assert_eq!(
        said(Some(0), false, true),
        vec![
            "Remove from Pins",
            "Add to Center",
            "Open file location",
            "-",
            "Add app...",
            "Add folder...",
            "Add file or shortcut...",
            "Edit layout",
            "Settings...",
        ]
    );
    assert_eq!(said(Some(4), true, false)[..3], ["Add to Pins", "Add to Center", "-"]);
    assert_eq!(
        said(None, true, false),
        vec!["Add app...", "Add folder...", "Add file or shortcut...", "Settings..."]
    );
    assert_eq!(add_label(None), "Add this app");
    assert_eq!(add_label(Some("")), "Add this app");
    assert_eq!(add_label(Some("Work")), "Add to Work");
}

#[test]
fn a_pin_is_added_and_removed_by_its_own_name() {
    let (mut session, scene) = shown();
    assert_eq!(pin_app_of(&scene.board, 4).as_deref(), Some("C:\\Editor.exe"));
    assert_eq!(pin_app_of(&scene.board, 0), None);
    assert_eq!(unpin(&scene, 2), Some((0, "shell:Music".to_string())));
    assert_eq!(unpin(&scene, 4), None);
    session.state.popup = true;
    assert_eq!(
        session.popup_chosen(&scene, Some(2), PopupChoice::Unpin),
        vec![Effect::Unpin(2)]
    );
    let effects = session.popup_chosen(&scene, Some(2), PopupChoice::OpenLocation);
    assert_eq!(effects.last(), Some(&Effect::Locate(2)));
    assert!(!session.state.visible);
}

#[test]
fn the_tray_toggles_opens_its_menu_and_quits() {
    let (mut session, scene) = shown();
    let (effects, _) = session.handle(&scene, &world(), Message::Tray(TrayClick::Right));
    assert_eq!(effects, vec![Effect::ShowTrayMenu]);
    let (effects, claimed) = session.handle(&scene, &world(), Message::Tray(TrayClick::Other));
    assert!(effects.is_empty() && claimed);
    assert_eq!(
        session.tray_chosen(None, false, TrayChoice::Forget(2)),
        vec![Effect::ForgetBrowser(2)]
    );
    let effects = session.tray_chosen(None, false, TrayChoice::Exit);
    assert_eq!(effects.last(), Some(&Effect::Quit));
    assert!(!session.state.visible);
}

#[test]
fn word_of_the_model_is_only_for_a_panel_that_is_up() {
    let (mut session, scene) = shown();
    for message in [Message::ModelChanged, Message::TabsChanged, Message::DisplayChanged] {
        let (effects, _) = session.handle(&scene, &world(), message);
        assert_eq!(effects, vec![Effect::Follow]);
    }
    let (effects, _) = session.handle(&scene, &world(), Message::IconReady);
    assert_eq!(effects, vec![Effect::FillIcons]);
    let _ = session.dismiss(false);
    for message in [Message::ModelChanged, Message::TabsChanged, Message::IconReady] {
        let (effects, claimed) = session.handle(&scene, &world(), message);
        assert!(effects.is_empty() && claimed);
    }
    let (_, claimed) = session.handle(&scene, &world(), Message::DisplayChanged);
    assert!(!claimed);
    let (effects, _) = session.handle(&scene, &world(), Message::ConfigChanged);
    assert_eq!(effects, vec![Effect::ReloadConfig]);
    let (effects, _) = session.handle(&scene, &world(), Message::Paired);
    assert_eq!(effects, vec![Effect::RefreshTray]);
}

#[test]
fn losing_the_capture_puts_everything_back() {
    let (mut session, scene) = shown();
    let (effects, _) = session.handle(&scene, &world(), Message::CaptureLost);
    assert!(effects.is_empty());
    let (x, y) = middle(&scene, 3);
    let _ = session.handle(&scene, &world(), Message::ButtonDown { x, y });
    let (effects, _) = session.handle(&scene, &world(), Message::CaptureLost);
    assert_eq!(effects, vec![Effect::ReleaseCapture, Effect::Repaint(3), Effect::Reposition]);
    assert_eq!(session.state.press, None);
}

#[test]
fn a_point_outside_the_window_is_negative() {
    assert_eq!(point_of(0x0002_0001), (1, 2));
    assert_eq!(point_of(0xFFFF_FFFE), (-2, -1));
    assert_eq!(point_of(0x8000_7FFF), (32767, -32768));
    assert_eq!(point_of(0xFFFF_FFFF_0000_0003), (3, 0));
}

/// A panel with the reset question up, and a click beside its squares.
fn clicked_off_the_question() -> (Session, Scene) {
    let (mut session, mut scene) = shown();
    let panel = Rect { x: 0, y: 0, w: scene.layout.panel.w, h: scene.layout.panel.h };
    let g = scene.config.grid;
    session.state.settings_up = true;
    session.state.asking_reset = true;
    scene.settings =
        settings_surface(true, panel, g.tile_width, g.tile_height, g.gap).unwrap().squares;
    let _ = session.handle(&scene, &world(), Message::ButtonDown { x: 1, y: 1 });
    let _ = session.handle(&scene, &world(), Message::ButtonUp { x: 1, y: 1 });
    assert!(!session.state.settings_up && !session.state.asking_reset);
    assert!(session.state.visible);
    scene.settings = Vec::new();
    (session, scene)
}

#[test]
fn a_question_that_was_clicked_away_costs_no_escape() {
    let (mut session, scene) = clicked_off_the_question();
    let (effects, claimed) = key(&mut session, &scene, Key::Escape);
    assert!(claimed && !session.state.visible);
    assert!(effects.contains(&Effect::HideWindow));
    assert!(effects.contains(&Effect::RestoreCaller));
}

#[test]
fn a_question_that_was_clicked_away_costs_the_button_nothing() {
    let (mut session, _) = clicked_off_the_question();
    let _ = session.press_home();
    assert!(session.state.menu_up);
}

#[test]
fn a_question_does_not_wait_for_the_next_summoning() {
    let (mut session, scene) = shown();
    session.state.settings_up = true;
    session.state.asking_reset = true;
    let _ = session.toggle(Some(7), false);
    assert!(!session.state.visible && !session.state.asking_reset);
    let _ = session.toggle(Some(7), false);
    let _ = session.show(true);
    let _ = key(&mut session, &scene, Key::Escape);
    assert!(!session.state.visible);
}

/// A session with something lit on every surface.
fn lit_everywhere() -> (Session, Scene) {
    let (mut session, scene) = shown();
    session.state.hover_option = Some(1);
    session.state.hover_menu = Some(2);
    session.state.hover_setting = Some(3);
    session.state.hover_home = true;
    (session, scene)
}

fn is_dark(session: &Session) -> bool {
    let s = &session.state;
    s.hover_option.is_none()
        && s.hover_menu.is_none()
        && s.hover_setting.is_none()
        && !s.hover_home
}

#[test]
fn a_menu_that_comes_up_again_has_nothing_lit() {
    let (mut session, scene) = lit_everywhere();
    session.state.menu_up = true;
    let (effects, _) = key(&mut session, &scene, Key::Escape);
    assert_eq!(effects, vec![Effect::Rebuild]);
    assert!(is_dark(&session));
    let _ = session.press_home();
    assert!(session.state.menu_up && session.state.hover_menu.is_none());
}

#[test]
fn a_panel_made_anew_has_nothing_lit() {
    let rebuilt = |act: &dyn Fn(&mut Session, &Scene) -> Vec<Effect>| {
        let (mut session, scene) = lit_everywhere();
        let effects = act(&mut session, &scene);
        assert!(effects.contains(&Effect::Rebuild));
        assert!(is_dark(&session), "{effects:?}");
    };
    rebuilt(&|session, _| session.toggle_stay());
    rebuilt(&|session, _| session.enter_mode(true, Mode::Layout));
    rebuilt(&|session, _| session.leave_mode());
    rebuilt(&|session, _| session.press_home());
    rebuilt(&|session, scene| session.run_setting(&scene.config, Setting::Done));
    rebuilt(&|session, scene| session.run_setting(&scene.config, Setting::OpenFile));
    rebuilt(&|session, _| session.run_command(true, Command::Settings));
    rebuilt(&|session, _| session.run_command(true, Command::Close));
    rebuilt(&|session, scene| {
        let rect = scene.layout.tile_rect(0, 0);
        session.pick_box(scene, rect.x + PX, rect.y + PX)
    });
    rebuilt(&|session, _| session.edit_step(&vec![0, 1], false));
    rebuilt(&|session, scene| session.catch_up(&scene.board, &scene.layout, None));
    rebuilt(&|session, _| session.setting_written(true));
    rebuilt(&|session, _| session.layout_reset(false));
    rebuilt(&|session, _| session.center_changed(true));
    rebuilt(&|session, scene| session.point_at_block(&scene.board));
    rebuilt(&|session, scene| session.section_moved(&scene.board, "Windows"));
    // What makes nothing anew leaves the light where it is.
    let (mut session, scene) = lit_everywhere();
    let _ = key(&mut session, &scene, Key::Right);
    assert_eq!(session.state.hover_menu, Some(2));
}

#[test]
fn a_lane_the_config_spells_already_is_not_written_again() {
    let (mut session, mut scene) = shown();
    session.state.edit = Some(0);
    scene.spelled = Some(Lane::Left);
    assert!(session.apply_option(&scene, EditOption::Left).is_empty());
    assert_eq!(
        session.apply_option(&scene, EditOption::Right),
        vec![Effect::SetLane(Lane::Right)]
    );
    scene.spelled = None;
    assert_eq!(
        session.apply_option(&scene, EditOption::Left),
        vec![Effect::SetLane(Lane::Left)]
    );
    session.state.edit = None;
    assert!(session.apply_option(&scene, EditOption::Left).is_empty());
}
