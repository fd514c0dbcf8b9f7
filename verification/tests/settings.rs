//! The settings squares.

use bentolaunch::config::{Center, Change, Config, Contents};
use bentolaunch::geometry::{Rect, PX};
use bentolaunch::menu::centred_grid;
use bentolaunch::settings::{
    center_toggle, layout_is_stock, Setting, CENTER_MOST, CONFIRM_RESET, SETTINGS,
};

/// A length in pixels, in the library's units.
fn units(pixels: f32) -> i64 {
    (pixels as f64 * PX as f64).round() as i64
}

fn config() -> Config {
    Config::default()
}

#[test]
fn every_mark_comes_from_the_icon_font() {
    // Reaching for a Unicode shape silently mixed two typefaces at two
    // weights: eight of the marks were in the UI face and the rest fell
    // back to Segoe UI Symbol, where the folder and the file are the same
    // blank rectangle. The private use area is the icon set and nothing
    // else, so this is the whole rule.
    for setting in SETTINGS.iter().chain(CONFIRM_RESET.iter()) {
        let mark = setting.glyph();
        assert!(!mark.is_empty(), "{setting:?} has no mark");
        for c in mark.chars() {
            assert!(
                ('\u{E000}'..='\u{F8FF}').contains(&c),
                "{setting:?} reaches outside the icon font: {mark:?}",
            );
        }
    }
}

#[test]
fn no_two_squares_wear_the_same_mark() {
    // "Add file" and "Open the file" were the same rectangle, on two
    // surfaces one click apart.
    let mut seen: Vec<&str> = Vec::new();
    for setting in SETTINGS {
        let mark = setting.glyph();
        assert!(!seen.contains(&mark), "{setting:?} wears a mark already taken");
        seen.push(mark);
    }
}

#[test]
fn every_value_square_names_its_own_setting() {
    // "5 across" said nothing about which square it was, and two squares
    // both opening "Center \" said different things - the shape and what
    // it holds. The prefix has to name the setting, and name only it.
    let c = config();
    let mut seen: Vec<&str> = Vec::new();
    for setting in SETTINGS {
        let label = setting.label(&c);
        let Some(_) = setting.next(&c) else {
            assert!(
                !label.contains('\u{00B7}'),
                "{setting:?} does nothing on a click, so it is not a value: {label}",
            );
            continue;
        };
        let name = label
            .split_once(" \u{00B7} ")
            .unwrap_or_else(|| panic!("{setting:?} does not say its setting: {label}"))
            .0;
        assert!(!seen.contains(&name), "two squares both call themselves {name:?}");
        seen.push(name);
    }
}

#[test]
fn the_reset_square_says_one_thing_whether_it_applies_or_not() {
    // It is an action, not a value. Saying "Layout \ stock" when it would
    // do nothing borrowed the value squares' grammar for the one square
    // that has no value - and greying already says "this would do nothing"
    // everywhere else on the surface.
    let mut moved = config();
    moved.grid.max_columns = 12;
    let stock = Config::default();
    assert!(!layout_is_stock(&moved));
    assert!(layout_is_stock(&stock));

    assert_eq!(Setting::Reset.label(&moved), Setting::Reset.label(&stock));
    assert!(Setting::Reset.applies(&moved));
    assert!(!Setting::Reset.applies(&stock));
}

#[test]
fn reset_does_not_sit_beside_done() {
    // The two worst squares to confuse: throw my layout away, and I am
    // finished. A mis-aim between them costs a trip through the question.
    let at = |want| SETTINGS.iter().position(|s| *s == want).unwrap();
    assert!(at(Setting::Done) - at(Setting::Reset) > 1);
}

#[test]
fn the_default_tile_size_reads_as_the_preset_it_is() {
    assert_eq!(Setting::Tiles.label(&config()), "Tiles \u{00B7} medium");
}

#[test]
fn a_hand_typed_size_lands_on_the_nearest_preset_rather_than_the_first() {
    let mut c = config();
    c.grid.tile_width = units(175.0);
    assert_eq!(Setting::Tiles.label(&c), "Tiles \u{00B7} large");
}

#[test]
fn clicking_tiles_steps_up_and_wraps_at_the_top() {
    let mut c = config();
    c.grid.tile_width = units(220.0);
    assert_eq!(
        Setting::Tiles.next(&c),
        Some(Change::Tiles { width: units(100.0), height: units(76.0), label: units(20.0) })
    );
}

#[test]
fn a_column_count_off_the_list_is_named_not_snapped() {
    let mut c = config();
    c.grid.max_columns = 6;
    assert_eq!(Setting::Columns.label(&c), "Columns \u{00B7} as set");
    assert_eq!(Setting::Columns.next(&c), Some(Change::MaxColumns(5)));
}

#[test]
fn the_two_squares_that_are_not_values_write_nothing() {
    assert_eq!(Setting::OpenFile.next(&config()), None);
    assert_eq!(Setting::Done.next(&config()), None);
}

#[test]
fn what_the_centre_holds_steps_through_all_four_and_wraps() {
    let mut c = config();
    c.center.contents = Contents::Split;
    assert_eq!(Setting::CenterHolds.label(&c), "Center holds \u{00B7} apps + sites");
    assert_eq!(
        Setting::CenterHolds.next(&c),
        Some(Change::CenterContents(Contents::One))
    );

    c.center.contents = Contents::Sites;
    assert_eq!(Setting::CenterHolds.label(&c), "Center holds \u{00B7} sites only");
    assert_eq!(
        Setting::CenterHolds.next(&c),
        Some(Change::CenterContents(Contents::Split))
    );
}

#[test]
fn the_contents_square_greys_out_when_there_is_no_block_to_fill() {
    let mut c = config();
    c.center.rows = 0;
    assert!(!Setting::CenterHolds.applies(&c));
    // And every other square still applies, so nothing else went grey with
    // it. Reset is not one of them: it greys on a stock layout, which this
    // config is, and that is its own rule rather than the block's.
    let others = SETTINGS
        .iter()
        .filter(|s| ![Setting::CenterHolds, Setting::Reset].contains(s));
    for setting in others {
        assert!(setting.applies(&c), "{setting:?} went grey");
    }
}

#[test]
fn the_question_is_a_surface_of_its_own() {
    assert_eq!(CONFIRM_RESET, [Setting::ResetNo, Setting::ResetYes]);
    // Answers live only on the question. On the settings surface they would
    // be two squares answering a question nobody asked.
    for answer in CONFIRM_RESET {
        assert!(!SETTINGS.contains(&answer), "{answer:?} is on the settings surface");
        assert!(answer.next(&config()).is_none(), "{answer:?} writes a setting");
        assert!(!answer.glyph().is_empty() && !answer.label(&config()).is_empty());
    }
    // Neither is ever dim. A greyed answer is a question with no way out.
    let mut stock = config();
    stock.center.rows = 0;
    for on in [config(), stock] {
        for answer in CONFIRM_RESET {
            assert!(answer.applies(&on), "{answer:?} went grey");
        }
    }
}

#[test]
fn no_answer_sits_where_the_reset_square_was() {
    // The whole reason the question is its own surface: a confirm under the
    // pointer is one a second click - or a second dwell, which is how this
    // is aimed - answers by accident.
    let panel = Rect { x: 0, y: 0, w: units(1376.0), h: units(632.0) };
    let (w, h, gap) = (units(140.0), units(100.0), units(10.0));

    let squares = centred_grid(panel, SETTINGS.len(), w, h, gap);
    let reset = squares[SETTINGS.iter().position(|s| *s == Setting::Reset).unwrap()];
    let (x, y) = (reset.x + reset.w / 2, reset.y + reset.h / 2);

    for answer in centred_grid(panel, CONFIRM_RESET.len(), w, h, gap) {
        let hit = x >= answer.x
            && x < answer.x + answer.w
            && y >= answer.y
            && y < answer.y + answer.h;
        assert!(!hit, "an answer covers the square that asked");
    }
}

#[test]
fn each_toggle_says_the_state_it_is_in_and_writes_the_other_one() {
    let mut c = config();
    c.grid.show_detail = false;
    assert_eq!(Setting::Labels.label(&c), "Labels \u{00B7} name only");
    assert_eq!(Setting::Labels.next(&c), Some(Change::ShowDetail(true)));

    c.browser.enabled = false;
    assert_eq!(Setting::Browser.label(&c), "Browser \u{00B7} off");
    assert_eq!(Setting::Browser.next(&c), Some(Change::Browser(true)));
}

/// The block after a change was written to a file and read back.
fn read_back(before: Center, change: Change) -> Center {
    let Change::CenterSize { columns, rows } = change else { panic!("{change:?}") };
    Center { columns, rows, kept_rows: 0, ..before }.remembering(before)
}

#[test]
fn a_block_comes_back_at_the_shape_it_had() {
    for columns in 1..=CENTER_MOST {
        for rows in 1..=CENTER_MOST {
            let mut c = config();
            c.center = Center { columns, rows, ..c.center };
            let off = center_toggle(&c);
            assert_eq!(off, Change::CenterSize { columns, rows: 0 });
            c.center = read_back(c.center, off);
            assert!(!c.center.on());
            // Read again for another reason, it still knows.
            c.center = Center { kept_rows: 0, ..c.center }.remembering(c.center);
            let on = center_toggle(&c);
            assert_eq!(on, Change::CenterSize { columns, rows });
            c.center = read_back(c.center, on);
            assert_eq!((c.center.columns, c.center.rows), (columns, rows));
        }
    }
}

#[test]
fn a_block_nobody_knows_the_rows_of_gets_the_usual_ones() {
    let mut c = config();
    c.center = Center { columns: 2, rows: 0, ..c.center };
    assert_eq!(center_toggle(&c), Change::CenterSize { columns: 2, rows: 3 });
    c.center.kept_rows = 99;
    assert_eq!(center_toggle(&c), Change::CenterSize { columns: 2, rows: CENTER_MOST });
    c.center.columns = 0;
    c.center.kept_rows = 1;
    assert_eq!(center_toggle(&c), Change::CenterSize { columns: 1, rows: 1 });
    // A file that says how many there were is believed.
    let said = Center { kept_rows: 2, ..c.center };
    assert_eq!(said.remembering(c.center).kept_rows, 2);
}
