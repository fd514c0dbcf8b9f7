//! The layout as it is seen in pixels.

use bentolaunch::at::At;
use bentolaunch::control::{BoxState, Control, CONTROLS};
use bentolaunch::geometry;
use bentolaunch::layout;
use bentolaunch::menu;
use bentolaunch::menu::COMMANDS;
use bentolaunch::order::{origin_run, reordered};
use bentolaunch::ring;
use bentolaunch::section::SectionShape;
use bentolaunch::side::Side;
use bentolaunch::stretch;

/// A length in pixels, in the library's units.
fn units(pixels: f32) -> i64 {
    (pixels as f64 * geometry::PX as f64).round() as i64
}

/// A length in the library's units, in pixels.
fn pixels(units: i64) -> f32 {
    units as f32 / geometry::PX as f32
}

/// A fraction in millionths.
fn part(fraction: f32) -> u32 {
    (fraction as f64 * 1_000_000.0).round() as u32
}

/// Millionths as a fraction.
fn of(millionths: u32) -> f32 {
    millionths as f32 / 1_000_000.0
}

#[derive(Debug, Clone, Copy, PartialEq)]
struct Rect {
    x: f32,
    y: f32,
    w: f32,
    h: f32,
}

impl Rect {
    fn sized(self) -> geometry::Rect {
        geometry::Rect { x: units(self.x), y: units(self.y), w: units(self.w), h: units(self.h) }
    }

    fn seen(rect: geometry::Rect) -> Rect {
        Rect { x: pixels(rect.x), y: pixels(rect.y), w: pixels(rect.w), h: pixels(rect.h) }
    }

    fn contains(&self, x: f32, y: f32) -> bool {
        self.sized().contains(units(x), units(y))
    }

    fn overlaps(&self, other: &Rect) -> bool {
        self.sized().overlaps(&other.sized())
    }
}

#[derive(Debug, Clone, Copy, PartialEq)]
struct Metrics {
    tile_w: f32,
    tile_h: f32,
    gap: f32,
    padding: f32,
    max_fraction: f32,
    max_cols: usize,
    fixed_cols: usize,
    header_h: f32,
    header_gap: f32,
    section_gap: f32,
    search_h: f32,
}

impl Metrics {
    fn sized(self) -> geometry::Metrics {
        geometry::Metrics {
            tile_w: units(self.tile_w),
            tile_h: units(self.tile_h),
            gap: units(self.gap),
            padding: units(self.padding),
            max_fraction: part(self.max_fraction),
            max_cols: self.max_cols,
            fixed_cols: self.fixed_cols,
            header_h: units(self.header_h),
            header_gap: units(self.header_gap),
            section_gap: units(self.section_gap),
            search_h: units(self.search_h),
        }
    }
}

#[derive(Debug, Clone, PartialEq, Default)]
struct Cells {
    x: f32,
    y: f32,
    cols: usize,
    rows: usize,
    filled: Vec<bool>,
}

#[derive(Debug, Clone, PartialEq)]
struct Band {
    section: usize,
    first: usize,
    count: usize,
    rect: Rect,
    cols: usize,
    center: bool,
    cells: Cells,
}

#[derive(Debug, Clone, PartialEq)]
struct Layout {
    cols: usize,
    panel: Rect,
    content_h: f32,
    max_scroll: f32,
    bands: Vec<Band>,
    metrics: Metrics,
    inner: layout::Layout,
}

impl Layout {
    fn compute(sections: &[SectionShape], m: Metrics, work: Rect) -> Layout {
        let inner = layout::Layout::compute(sections, m.sized(), work.sized());
        let bands = inner
            .bands()
            .iter()
            .map(|band| Band {
                section: band.section,
                first: band.first,
                count: band.count,
                rect: Rect::seen(band.rect),
                cols: band.cols,
                center: band.center,
                cells: Cells {
                    x: pixels(band.cells.x),
                    y: pixels(band.cells.y),
                    cols: band.cells.cols,
                    rows: band.cells.rows,
                    filled: band.cells.filled.clone(),
                },
            })
            .collect();
        Layout {
            cols: inner.cols,
            panel: Rect::seen(inner.panel),
            content_h: pixels(inner.content_h),
            max_scroll: pixels(inner.max_scroll),
            bands,
            metrics: m,
            inner,
        }
    }

    fn tile_count(&self) -> usize {
        self.inner.tile_count()
    }

    fn tile_rect(&self, index: usize, scroll: f32) -> Rect {
        Rect::seen(self.inner.tile_rect(index, units(scroll)))
    }

    fn headers(&self, scroll: f32) -> impl Iterator<Item = (&str, Rect, usize)> {
        self.inner
            .headers(units(scroll))
            .into_iter()
            .map(|(title, rect, band)| (title, Rect::seen(rect), band))
    }

    fn hit_test(&self, x: f32, y: f32, scroll: f32) -> Option<usize> {
        self.inner.hit_test(units(x), units(y), units(scroll))
    }

    fn clamp_scroll(&self, scroll: f32) -> f32 {
        pixels(self.inner.clamp_scroll(units(scroll)))
    }

    fn bands(&self) -> &[Band] {
        &self.bands
    }

    fn center_frame(&self) -> Option<(Rect, Vec<f32>)> {
        self.inner
            .center_frame()
            .map(|(rect, seams)| (Rect::seen(rect), seams.into_iter().map(pixels).collect()))
    }

    fn band_ring(&self, band: usize, scroll: f32) -> Vec<Vec<(f32, f32)>> {
        seen_rings(self.inner.band_ring(band, units(scroll)))
    }

    fn home_rect(&self) -> Rect {
        Rect::seen(self.inner.home_rect())
    }

    fn search_rect(&self) -> Rect {
        Rect::seen(self.inner.search_rect())
    }

    fn band_of(&self, tile: usize) -> Option<usize> {
        self.inner.band_of(tile)
    }

    fn insert_slot(&self, band: usize, x: f32, y: f32, scroll: f32) -> usize {
        self.inner.insert_slot(band, units(x), units(y), units(scroll))
    }
}

fn seen_rings(rings: Vec<Vec<(i64, i64)>>) -> Vec<Vec<(f32, f32)>> {
    rings
        .into_iter()
        .map(|ring| ring.into_iter().map(|(x, y)| (pixels(x), pixels(y))).collect())
        .collect()
}

/// The rectangle around a run of bands.
fn covering(bands: &[Band]) -> Rect {
    let rects: Vec<geometry::Rect> = bands.iter().map(|band| band.rect.sized()).collect();
    Rect::seen(stretch::cover(&rects, 0, rects.len()))
}

fn ring_of(cells: &Cells, m: &Metrics) -> Vec<Vec<(f32, f32)>> {
    let cells = layout::Cells {
        x: units(cells.x),
        y: units(cells.y),
        cols: cells.cols,
        rows: cells.rows,
        filled: cells.filled.clone(),
    };
    seen_rings(ring::ring_of(&cells, &m.sized()))
}

fn centred_grid(panel: Rect, count: usize, tile_w: f32, tile_h: f32, gap: f32) -> Vec<Rect> {
    menu::centred_grid(panel.sized(), count, units(tile_w), units(tile_h), units(gap))
        .into_iter()
        .map(Rect::seen)
        .collect()
}

fn controls(panel: Rect, tile_w: f32, tile_h: f32, gap: f32) -> Vec<(Control, Rect)> {
    menu::controls(panel.sized(), units(tile_w), units(tile_h), units(gap))
        .into_iter()
        .map(|(control, rect)| (control, Rect::seen(rect)))
        .collect()
}

fn commands(panel: Rect, tile_w: f32, tile_h: f32, gap: f32) -> Vec<(menu::Command, Rect)> {
    menu::commands(panel.sized(), units(tile_w), units(tile_h), units(gap))
        .into_iter()
        .map(|(command, rect)| (command, Rect::seen(rect)))
        .collect()
}

const WORK: Rect = Rect { x: 0.0, y: 0.0, w: 2560.0, h: 1400.0 };
/// A real 1080p work area, for the rules that only mean anything against
/// the shape of an actual panel.
const SCREEN: Rect = Rect { x: 0.0, y: 0.0, w: 1920.0, h: 1040.0 };

/// The working config's grid: ten columns, a three-a-side centre block.
fn live() -> Metrics {
    Metrics {
        tile_w: 140.0,
        tile_h: 100.0,
        gap: 10.0,
        padding: 18.0,
        max_fraction: 0.92,
        max_cols: 10,
        fixed_cols: 0,
        header_h: 16.0,
        header_gap: 14.0,
        section_gap: 0.0,
        search_h: 0.0,
    }
}

fn metrics() -> Metrics {
    Metrics {
        tile_w: 200.0,
        tile_h: 140.0,
        gap: 10.0,
        padding: 20.0,
        max_fraction: 0.8,
        max_cols: 0,
        fixed_cols: 0,
        header_h: 28.0,
        header_gap: 0.0,
        section_gap: 14.0,
        search_h: 0.0,
    }
}

/// Which band a panel-local point falls in. The panel itself no longer asks,
/// but the bands still have to cover it with nothing in between.
fn band_at(l: &Layout, x: f32, y: f32) -> Option<usize> {
    if x < 0.0 || y < 0.0 || x >= l.panel.w || y >= l.panel.h {
        return None;
    }
    l.bands().iter().position(|band| band.rect.contains(x, y))
}

/// A section that says nothing about where it sits.
fn shape(title: &str, count: usize) -> SectionShape {
    SectionShape { title: title.into(), count, at: None, columns: 0, center: None }
}

/// A section placed by path, spelled the way a config would spell it.
fn at(title: &str, count: usize, spec: &str) -> SectionShape {
    SectionShape {
        title: title.into(),
        count,
        at: At::parse(spec),
        columns: 0,
        center: None,
    }
}

/// One half of the centre block: a fixed number of slots, a fixed width.
fn middle(half: usize, count: usize, columns: usize) -> SectionShape {
    SectionShape {
        title: String::new(),
        count,
        at: None,
        columns,
        center: Some(half),
    }
}

// --- edit options ---

const PANEL: Rect = Rect { x: 0.0, y: 0.0, w: 1376.0, h: 660.0 };

#[test]
fn every_option_gets_a_tile_sized_square() {
    let placed = controls(PANEL, 140.0, 100.0, 10.0);
    assert_eq!(placed.len(), CONTROLS.len());
    for (control, rect) in &placed {
        assert_eq!((rect.w, rect.h), (140.0, 100.0), "{control:?} is not tile sized");
        assert!(!control.label().is_empty(), "{control:?} has no words");
        assert!(!control.glyph().is_empty(), "{control:?} has no mark");
    }
}

#[test]
fn the_options_are_centred_in_the_panel() {
    // Middle of the screen is the cheapest place for a gaze pointer to
    // reach, so this is the property that matters most.
    let placed = controls(PANEL, 140.0, 100.0, 10.0);
    let left = placed.iter().map(|(_, r)| r.x).fold(f32::MAX, f32::min);
    let right = placed.iter().map(|(_, r)| r.x + r.w).fold(0.0, f32::max);
    let top = placed.iter().map(|(_, r)| r.y).fold(f32::MAX, f32::min);
    let bottom = placed.iter().map(|(_, r)| r.y + r.h).fold(0.0, f32::max);

    assert!((left - (PANEL.w - right)).abs() < 0.5, "left {left} vs right {}", PANEL.w - right);
    assert!((top - (PANEL.h - bottom)).abs() < 0.5, "top {top} vs bottom {}", PANEL.h - bottom);
}

#[test]
fn options_do_not_overlap() {
    let placed = controls(PANEL, 140.0, 100.0, 10.0);
    for (a, (_, one)) in placed.iter().enumerate() {
        for (_, other) in placed.iter().skip(a + 1) {
            let apart = one.x + one.w <= other.x
                || other.x + other.w <= one.x
                || one.y + one.h <= other.y
                || other.y + other.h <= one.y;
            assert!(apart, "{one:?} overlaps {other:?}");
        }
    }
}

#[test]
fn options_stay_on_a_panel_too_small_for_them() {
    // A panel narrower than the option grid still has to put every tile
    // somewhere clickable rather than off the left edge.
    let tiny = Rect { x: 0.0, y: 0.0, w: 300.0, h: 200.0 };
    let placed = controls(tiny, 140.0, 100.0, 10.0);
    for (control, rect) in &placed {
        assert!(rect.x >= 0.0 && rect.y >= 0.0, "{control:?} sits off the panel");
    }
}

#[test]
fn a_plate_drawn_round_the_options_covers_all_of_them() {
    // The options sit on a plate derived from where they landed. If the two
    // ever disagree, a square hangs off the edge of its own backing.
    let placed = controls(PANEL, 140.0, 100.0, 10.0);
    let margin = 10.0;
    let left = placed.iter().map(|(_, r)| r.x).fold(f32::MAX, f32::min) - margin;
    let top = placed.iter().map(|(_, r)| r.y).fold(f32::MAX, f32::min) - margin;
    let right = placed.iter().map(|(_, r)| r.x + r.w).fold(f32::MIN, f32::max) + margin;
    let bottom = placed.iter().map(|(_, r)| r.y + r.h).fold(f32::MIN, f32::max) + margin;

    for (control, rect) in &placed {
        assert!(rect.x >= left, "{control:?} juts out to the left");
        assert!(rect.y >= top, "{control:?} juts out above");
        assert!(rect.x + rect.w <= right, "{control:?} juts out to the right");
        assert!(rect.y + rect.h <= bottom, "{control:?} juts out below");
    }
    assert!(right - left <= PANEL.w, "the plate is wider than the panel");
}

#[test]
fn the_plate_covers_every_square_and_the_gaps_between_them() {
    // What the panel hit-tests against, so a click on a greyed square, or
    // in the space beside one, does not fall through to the box behind.
    let panel = Rect { x: 0.0, y: 0.0, w: 1376.0, h: 632.0 };
    let placed = controls(panel, 140.0, 100.0, 10.0);
    let margin = 10.0;
    let left = placed.iter().map(|(_, r)| r.x).fold(f32::MAX, f32::min) - margin;
    let top = placed.iter().map(|(_, r)| r.y).fold(f32::MAX, f32::min) - margin;
    let right = placed.iter().map(|(_, r)| r.x + r.w).fold(f32::MIN, f32::max) + margin;
    let bottom = placed.iter().map(|(_, r)| r.y + r.h).fold(f32::MIN, f32::max) + margin;
    let plate = Rect { x: left, y: top, w: right - left, h: bottom - top };

    for (control, rect) in &placed {
        assert!(plate.contains(rect.x, rect.y), "{control:?} starts off the plate");
        assert!(
            plate.contains(rect.x + rect.w - 0.01, rect.y + rect.h - 0.01),
            "{control:?} ends off the plate"
        );
    }
    // And a point in the gap between two squares is still the plate's.
    let first = placed[0].1;
    assert!(plate.contains(first.x + first.w + 2.0, first.y + 2.0));
}

// --- the app's own button and its menu ---

#[test]
fn the_home_button_sits_in_the_same_corner_whatever_the_panel() {
    // The one control that never moves. Someone pointing with their eyes
    // learns where it is once.
    let m = metrics();
    for count in [1, 7, 24, 61] {
        let l = Layout::compute(&[shape("Apps", count)], m, WORK);
        let button = l.home_rect();
        assert!(button.x + button.w <= l.panel.w + 0.01, "off the right edge");
        assert!(button.y + button.h <= l.panel.h + 0.01, "off the bottom edge");
        assert!(button.x >= 0.0 && button.y >= 0.0);
        assert_eq!((button.w, button.h), (m.tile_w, m.tile_h), "not tile sized");
    }
}

#[test]
fn the_home_button_is_a_cell_of_the_grid() {
    // On the lattice like everything else, and the same inset from the
    // panel's corner that a tile has. It used to sit `gap` in, which on a
    // panel where everything else lines up is eight pixels of adrift.
    let m = metrics();
    let l = Layout::compute(&[shape("Apps", 14), shape("Active", 3)], m, WORK);
    let button = l.home_rect();

    let col = (button.x - m.padding) / (m.tile_w + m.gap);
    assert!((col - col.round()).abs() < 0.01, "the button is off the columns");
    assert_eq!(button.x + button.w, l.panel.w - m.padding, "not inset like a tile");
    assert_eq!(button.y + button.h, l.panel.h - m.padding);

    // And it is the last column, not somewhere in the middle.
    assert_eq!(col.round() as usize, l.cols - 1);
}

#[test]
fn nothing_is_laid_into_the_corner_the_button_holds() {
    // A tile behind it is a click that lands on the wrong thing, and a ring
    // drawn around it says the button is one of that box's items.
    let m = metrics();
    for count in [4, 9, 14, 23, 40] {
        let l = Layout::compute(&[shape("Apps", count), shape("Active", 3)], m, WORK);
        let button = l.home_rect();
        // Content space: the two agree whenever the content fits, which it
        // does at these counts.
        assert_eq!(l.max_scroll, 0.0, "{count} items scrolled; test needs a panel that fits");

        for n in 0..l.tile_count() {
            assert!(
                !l.tile_rect(n, 0.0).overlaps(&button),
                "{count} items: tile {n} sits behind the button"
            );
        }
        for band in 0..l.bands().len() {
            for ring in l.band_ring(band, 0.0) {
                for (x, y) in ring {
                    assert!(
                        !button.contains(x, y),
                        "{count} items: band {band}'s ring runs through the button"
                    );
                }
            }
        }
    }
}

#[test]
fn the_big_menu_is_centred_and_tile_sized() {
    let panel = Rect { x: 0.0, y: 0.0, w: 1376.0, h: 632.0 };
    let placed = commands(panel, 140.0, 100.0, 10.0);
    assert_eq!(placed.len(), COMMANDS.len());

    let left = placed.iter().map(|(_, r)| r.x).fold(f32::MAX, f32::min);
    let right = placed.iter().map(|(_, r)| r.x + r.w).fold(0.0, f32::max);
    assert!((left - (panel.w - right)).abs() < 0.5, "not centred across");
    for (command, rect) in &placed {
        assert_eq!((rect.w, rect.h), (140.0, 100.0), "{command:?} is not tile sized");
        assert!(!command.label().is_empty());
    }
}

#[test]
fn the_menu_and_the_edit_options_are_laid_out_the_same_way() {
    // Both are big squares in the middle. One helper, so they cannot drift.
    let panel = Rect { x: 0.0, y: 0.0, w: 1376.0, h: 632.0 };
    let menu = centred_grid(panel, COMMANDS.len(), 140.0, 100.0, 10.0);
    let from_commands: Vec<Rect> = commands(panel, 140.0, 100.0, 10.0)
        .into_iter()
        .map(|(_, rect)| rect)
        .collect();
    assert_eq!(menu, from_commands);
}

// --- which options apply ---

/// A box holding the left side, with room to move in every direction.
fn placed() -> BoxState {
    BoxState {
        shown: 8,
        total: 32,
        at: At::parse("left@50"),
        boxes: 3,
        at_stack: 0,
        stack: 2,
        cols: 4,
        panel_cols: 9,
        share_now: part(0.5),
    }
}

/// A box with no side of its own, sitting in the leftover stack.
fn loose() -> BoxState {
    BoxState { at: None, at_stack: 1, stack: 3, ..placed() }
}

fn offered(state: &BoxState) -> Vec<Control> {
    CONTROLS.iter().copied().filter(|c| c.allowed(state)).collect()
}

#[test]
fn the_side_a_box_holds_is_the_button_that_gives_it_back() {
    // One button, both directions. There is no separate "un-claim": the
    // lit square shows where the box is, and clicking it undoes that.
    let state = placed();
    assert!(Control::ClaimLeft.holds(&state), "the left square is the lit one");
    assert!(Control::ClaimLeft.allowed(&state), "and it is still clickable");
    assert_eq!(Control::ClaimLeft.wording(&state).1, "Leave left");

    assert!(!Control::ClaimRight.holds(&state));
    assert_eq!(Control::ClaimRight.wording(&state).1, "Full right");
}

#[test]
fn a_box_holding_no_side_lights_nothing() {
    let state = loose();
    for control in CONTROLS {
        assert!(!control.holds(&state), "{control:?} is lit with no side held");
    }
}

#[test]
fn the_last_tile_cannot_be_taken_away() {
    // `max_items = 0` means "all of them", so one fewer than one used to
    // show everything. The button is simply not offered now.
    let state = BoxState { shown: 1, ..placed() };
    assert!(!Control::Fewer.allowed(&state));
    assert!(Control::More.allowed(&state));
}

#[test]
fn a_box_showing_everything_it_has_cannot_show_more() {
    let state = BoxState { shown: 32, total: 32, ..placed() };
    assert!(!Control::More.allowed(&state));
    assert!(Control::Fewer.allowed(&state));
}

#[test]
fn sizing_needs_a_cut_to_size() {
    // "Bigger" is a bigger share of a cut. A box that holds no side is not
    // sitting on one, so there is nothing to take more of.
    let state = loose();
    assert!(!Control::Grow.allowed(&state));
    assert!(!Control::Shrink.allowed(&state));
    assert!(Control::ClaimLeft.allowed(&state), "it can still claim a side");
}

#[test]
fn a_box_that_was_never_resized_can_still_be_resized() {
    // `at = "left"` with no share is a box sized by its contents. Reading
    // the share off the config gave 0.0, which looked like "already as
    // small as it goes" and greyed the button out for every box that had
    // never been touched.
    let untouched = BoxState {
        at: At::parse("left"),
        cols: 5,
        panel_cols: 9,
        share_now: part(5.0 / 9.0),
        ..placed()
    };
    assert_eq!(of(untouched.at.as_ref().unwrap().share), 0.0, "nothing written down");
    assert!(Control::Shrink.allowed(&untouched), "it is 5 of 9 columns wide");
    assert!(Control::Grow.allowed(&untouched));
}

#[test]
fn resizing_across_moves_by_a_whole_column() {
    // A 5% nudge often did not cross a column boundary, so the click
    // appeared to do nothing at all.
    let state = BoxState {
        at: At::parse("left"),
        cols: 5,
        panel_cols: 9,
        share_now: part(5.0 / 9.0),
        ..placed()
    };
    let narrower = of(Control::Shrink.resized(&state).unwrap());
    let wider = of(Control::Grow.resized(&state).unwrap());
    assert_eq!((narrower * 9.0).round() as usize, 4);
    assert_eq!((wider * 9.0).round() as usize, 6);
}

#[test]
fn a_box_cannot_be_narrowed_out_of_existence_or_take_the_whole_panel() {
    let thin = BoxState { at: At::parse("left"), cols: 1, panel_cols: 9, ..placed() };
    assert!(!Control::Shrink.allowed(&thin));
    assert!(Control::Grow.allowed(&thin));

    let fat = BoxState { at: At::parse("left"), cols: 8, panel_cols: 9, ..placed() };
    assert!(!Control::Grow.allowed(&fat), "the other half is owed a column");
    assert!(Control::Shrink.allowed(&fat));
}

#[test]
fn resizing_down_the_panel_steps_by_share() {
    // Heights are not counted in columns, so a top or bottom box moves by
    // a fraction instead.
    let state = BoxState {
        at: At::parse("bottom"),
        cols: 9,
        panel_cols: 9,
        share_now: part(0.5),
        ..placed()
    };
    let taller = of(Control::Grow.resized(&state).unwrap());
    let shorter = of(Control::Shrink.resized(&state).unwrap());
    assert!(taller > 0.5 && taller <= 0.9);
    assert!((0.1..0.5).contains(&shorter));

    let squat = BoxState { share_now: part(0.05), ..state };
    assert!(!Control::Shrink.allowed(&squat));
    assert!(Control::Grow.allowed(&squat));
}

#[test]
fn the_button_and_the_action_agree_about_the_edge() {
    // Whenever the rule says a size option applies, it also has a share to
    // write. A button that is offered and then does nothing is the bug
    // this pairing prevents.
    for at in ["left", "left@50", "bottom", "bottom@30", "right/top"] {
        for cols in [1usize, 3, 8] {
            let state = BoxState {
                at: At::parse(at),
                cols,
                panel_cols: 9,
                share_now: part(cols as f32 / 9.0),
                ..placed()
            };
            for control in [Control::Grow, Control::Shrink] {
                if control.allowed(&state) {
                    assert!(
                        control.resized(&state).is_some(),
                        "{control:?} offered for {at} at {cols} cols but writes nothing"
                    );
                }
            }
        }
    }
}

#[test]
fn moving_walks_the_leftover_stack_not_the_whole_list() {
    // A box holding a side is not in the stack, so it has nowhere to move.
    assert!(!Control::MoveUp.allowed(&placed()));
    assert!(!Control::MoveDown.allowed(&placed()));

    let middle = loose();
    assert!(Control::MoveUp.allowed(&middle));
    assert!(Control::MoveDown.allowed(&middle));

    let first = BoxState { at_stack: 0, ..loose() };
    assert!(!Control::MoveUp.allowed(&first));
    assert!(Control::MoveDown.allowed(&first));

    let last = BoxState { at_stack: 2, stack: 3, ..loose() };
    assert!(Control::MoveUp.allowed(&last));
    assert!(!Control::MoveDown.allowed(&last));
}

#[test]
fn a_lone_box_has_nowhere_to_be_sent() {
    // Nothing to divide the panel with, so every arrangement is the same
    // arrangement.
    let alone = BoxState { boxes: 1, ..placed() };
    assert_eq!(offered(&alone), [Control::Done]);
}

#[test]
fn done_is_always_offered() {
    // Whatever else is greyed out, there is always a way to stop editing.
    let stuck = BoxState {
        shown: 1,
        total: 1,
        at: None,
        boxes: 1,
        at_stack: 0,
        stack: 1,
        cols: 1,
        panel_cols: 1,
        share_now: part(1.0),
    };
    assert_eq!(offered(&stuck), [Control::Done]);
}

#[test]
fn bigger_says_which_way_it_will_go() {
    // The complaint this fixes: one button reading "Bigger" for a box that
    // grows wider and a box that grows taller.
    let across = BoxState { at: At::parse("left@50"), ..placed() };
    assert_eq!(Control::Grow.wording(&across).1, "Wider");
    assert_eq!(Control::Shrink.wording(&across).1, "Narrower");

    let down = BoxState { at: At::parse("bottom@50"), ..placed() };
    assert_eq!(Control::Grow.wording(&down).1, "Taller");
    assert_eq!(Control::Shrink.wording(&down).1, "Shorter");

    // And the glyphs go with them.
    assert_ne!(
        Control::Grow.wording(&across).0,
        Control::Grow.wording(&down).0
    );
}

#[test]
fn only_the_size_options_and_the_held_side_change_their_wording() {
    // Everything else means the same thing wherever the box sits, so it
    // reads the same. A square whose words move around is one you have to
    // re-read every time.
    let state = placed();
    for control in CONTROLS {
        let changes = matches!(control, Control::Grow | Control::Shrink)
            || control.holds(&state);
        if changes {
            continue;
        }
        assert_eq!(control.wording(&state), (control.glyph(), control.label()));
    }
}

// --- the tree ---

#[test]
fn a_path_parses_and_spells_back() {
    let parsed = At::parse("right/top").unwrap();
    assert_eq!(parsed.cuts, [Side::Right, Side::Top]);
    assert_eq!(of(parsed.share), 0.0);
    assert_eq!(parsed.spell(), "right/top");

    let pinned = At::parse("left@35").unwrap();
    assert_eq!(pinned.cuts, [Side::Left]);
    assert!((of(pinned.share) - 0.35).abs() < 0.001);
    assert_eq!(pinned.spell(), "left@35");
}

#[test]
fn nonsense_in_a_path_costs_one_section_its_place_not_the_panel() {
    assert!(At::parse("sideways").is_none());
    assert!(At::parse("").is_none());
    // The section still shows up; it just fills the rest.
    let l = Layout::compute(&[shape("A", 4), shape("B", 4)], metrics(), WORK);
    assert_eq!(l.bands().len(), 2);
}

#[test]
fn one_box_down_the_left_and_the_rest_beside_it() {
    // The shape a flat list of rows cannot say, and the reason for the tree.
    let sections = [at("Side", 6, "left"), shape("Top", 4), shape("Bottom", 4)];
    let l = Layout::compute(&sections, metrics(), WORK);
    let (side, top, bottom) = (&l.bands()[0], &l.bands()[1], &l.bands()[2]);

    assert!(top.rect.x >= side.rect.x + side.rect.w, "the rest is not beside the side");
    assert_eq!(top.rect.x, bottom.rect.x, "the rest is not one column");
    assert!(bottom.rect.y > top.rect.y, "the rest does not stack");
}

#[test]
fn a_tile_belongs_to_the_section_it_was_configured_under() {
    // The panel flattens its items in section order and looks a rect up by
    // that flat index. Boxes are laid out in tree order, which puts a box
    // that claims a side first however far down the list it is configured.
    // While tiles were appended as they were placed, the two orders came
    // apart and every box drew somebody else's items under its own title.
    let sections = [shape("First", 3), at("Placed", 2, "right@30"), shape("Last", 4)];
    let l = Layout::compute(&sections, metrics(), WORK);

    let mut flat = 0;
    for (index, section) in sections.iter().enumerate() {
        let band = l
            .bands()
            .iter()
            .find(|band| band.section == index)
            .unwrap_or_else(|| panic!("{} has no band", section.title));
        assert_eq!(
            band.first, flat,
            "{}'s tiles do not start where its items do",
            section.title
        );
        for n in 0..section.count {
            let tile = l.tile_rect(flat + n, 0.0);
            assert!(
                band.rect.contains(tile.x, tile.y),
                "{}'s tile {n} at {tile:?} is outside its own box {:?}",
                section.title,
                band.rect
            );
        }
        flat += section.count;
    }
}

#[test]
fn a_header_names_the_section_whose_tiles_are_under_it() {
    let sections = [shape("First", 3), at("Placed", 2, "right@30"), shape("Last", 4)];
    let l = Layout::compute(&sections, metrics(), WORK);
    let bands = l.bands();

    for (title, _, band) in l.headers(0.0) {
        let section = &sections[bands[band].section];
        assert_eq!(title, section.title, "a header sits over the wrong box");
    }
}

#[test]
fn the_side_runs_the_whole_height() {
    // What makes it the side of the panel rather than a box in a corner.
    let sections = [at("Side", 2, "left"), shape("Top", 8), shape("Bottom", 8)];
    let l = Layout::compute(&sections, metrics(), WORK);
    let side = &l.bands()[0];
    assert!(
        (side.rect.y + side.rect.h - l.content_h).abs() < 0.5,
        "the side stops at {} but the content runs to {}",
        side.rect.y + side.rect.h,
        l.content_h
    );
}

#[test]
fn the_remainder_can_be_cut_again() {
    // "One vertical all the way, then the remainder split in half."
    let sections = [
        at("Side", 6, "left"),
        at("Top", 4, "right/top"),
        at("Bottom", 4, "right/bottom"),
    ];
    let l = Layout::compute(&sections, metrics(), WORK);
    let (side, top, bottom) = (&l.bands()[0], &l.bands()[1], &l.bands()[2]);

    assert!(top.rect.x >= side.rect.x + side.rect.w);
    assert_eq!(top.rect.x, bottom.rect.x);
    assert!(bottom.rect.y > top.rect.y);
}

#[test]
fn a_share_pins_a_side_to_its_fraction() {
    let wide = Layout::compute(
        &[at("Side", 6, "left@70"), shape("Rest", 6)],
        metrics(),
        WORK,
    );
    let narrow = Layout::compute(
        &[at("Side", 6, "left@20"), shape("Rest", 6)],
        metrics(),
        WORK,
    );
    assert!(
        wide.bands()[0].cols > narrow.bands()[0].cols,
        "70% ({}) should beat 20% ({})",
        wide.bands()[0].cols,
        narrow.bands()[0].cols
    );
}

#[test]
fn naming_either_side_of_a_cut_describes_the_same_panel() {
    // "left@30" and "right@70" are one 30/70 cut said two ways. The box
    // lands on opposite sides of it, but the panel is the same panel.
    let from_left = Layout::compute(&[at("A", 6, "left@30"), shape("B", 6)], metrics(), WORK);
    let from_right = Layout::compute(&[shape("B", 6), at("A", 6, "right@70")], metrics(), WORK);

    let widths = |l: &Layout| {
        let mut cols: Vec<usize> = l.bands().iter().map(|band| band.cols).collect();
        cols.sort_unstable();
        cols
    };
    assert_eq!(widths(&from_left), widths(&from_right));

    // And the box that named a share is the one that got it.
    let a_left = from_left.bands().iter().find(|b| b.section == 0).unwrap();
    let a_right = from_right.bands().iter().find(|b| b.section == 1).unwrap();
    assert!(a_left.cols < a_right.cols, "30% should be narrower than 70%");
}

#[test]
fn neither_half_of_a_cut_is_ever_squeezed_out() {
    for spec in ["left@5", "left@95"] {
        let l = Layout::compute(&[at("A", 9, spec), shape("B", 9)], metrics(), WORK);
        for band in l.bands() {
            assert!(band.cols >= 1, "{spec} squeezed a box out");
        }
    }
}

#[test]
fn two_boxes_claiming_one_spot_stack_rather_than_one_vanishing() {
    let sections = [at("A", 4, "left"), at("B", 4, "left"), shape("C", 4)];
    let l = Layout::compute(&sections, metrics(), WORK);
    assert_eq!(l.bands().len(), 3, "a box was dropped");
}

#[test]
fn nothing_placed_is_the_plain_stacked_panel() {
    // The default has to survive the tree untouched.
    let l = Layout::compute(&[shape("A", 7), shape("B", 3)], metrics(), WORK);
    let (a, b) = (&l.bands()[0], &l.bands()[1]);
    assert_eq!(a.rect.x, b.rect.x, "the default stopped stacking");
    assert!(b.rect.y > a.rect.y);
    assert_eq!(a.cols, l.cols);
}

#[test]
fn boxes_never_overlap() {
    // Two boxes claiming the same pixel means a click belongs to both, and
    // whichever the scan happened to find first wins.
    let sections = [
        at("Side", 6, "left@40"),
        at("Top", 3, "right/top"),
        shape("Rest", 5),
    ];
    let l = Layout::compute(&sections, metrics(), WORK);
    for (n, one) in l.bands().iter().enumerate() {
        for other in l.bands().iter().skip(n + 1) {
            let apart = one.rect.x + one.rect.w <= other.rect.x + 0.01
                || other.rect.x + other.rect.w <= one.rect.x + 0.01
                || one.rect.y + one.rect.h <= other.rect.y + 0.01
                || other.rect.y + other.rect.h <= one.rect.y + 0.01;
            assert!(apart, "{:?} overlaps {:?}", one.rect, other.rect);
        }
    }
}

#[test]
fn every_box_keeps_its_own_tiles_inside_it() {
    // The band is what a click resolves to, so a tile drawn outside its own
    // band is a tile that cannot be clicked.
    let sections = [
        at("Side", 6, "left@40"),
        at("Top", 3, "right/top"),
        shape("Rest", 5),
    ];
    let l = Layout::compute(&sections, metrics(), WORK);
    for band in l.bands() {
        for n in band.first..band.first + band.count {
            let tile = l.tile_rect(n, 0.0);
            assert!(
                tile.x >= band.rect.x - 0.01
                    && tile.x + tile.w <= band.rect.x + band.rect.w + 0.01,
                "tile {n} at {} escapes its box at {}",
                tile.x,
                band.rect.x
            );
        }
    }
}

#[test]
fn tiles_read_left_to_right_wherever_the_box_sits() {
    // The complaint the tree was built for: a box whose icons ran down
    // instead of across. Reading order belongs to the box, not its place.
    for spec in ["left", "right/top", "bottom"] {
        let l = Layout::compute(&[at("Box", 6, spec), shape("Rest", 12)], metrics(), WORK);
        let band = l.bands().iter().find(|b| b.section == 0).unwrap();
        if band.cols < 2 {
            continue;
        }
        let first = l.tile_rect(band.first, 0.0);
        let second = l.tile_rect(band.first + 1, 0.0);
        assert!(second.x > first.x, "{spec}: second tile is not to the right");
        assert_eq!(second.y, first.y, "{spec}: second tile dropped a row");
    }
}

#[test]
fn bands_cover_the_panel_with_nothing_in_between() {
    // A click anywhere has to mean some box, whatever shape the tree is.
    let sections = [
        at("Side", 6, "left"),
        at("Top", 4, "right/top"),
        at("Bottom", 4, "right/bottom"),
    ];
    let l = Layout::compute(&sections, metrics(), WORK);
    for across in 0..50 {
        for down in 0..50 {
            let x = across as f32 * (l.panel.w / 50.0);
            let y = l.metrics.search_h
                + down as f32 * ((l.content_h - l.metrics.search_h) / 50.0);
            assert!(
                l.bands().iter().any(|band| band.rect.contains(x, y)),
                "nothing covers {x},{y}"
            );
        }
    }
}

fn one(count: usize) -> Vec<SectionShape> {
    vec![shape("", count)]
}

#[test]
fn few_items_form_a_single_row_that_hugs_them() {
    let l = Layout::compute(&one(3), metrics(), WORK);
    assert_eq!(l.cols, 3);
    assert_eq!(l.panel.w, 3.0 * 200.0 + 2.0 * 10.0 + 40.0);
    assert_eq!(l.max_scroll, 0.0);
}

#[test]
fn panel_is_centered_on_the_work_area() {
    let l = Layout::compute(&one(7), metrics(), WORK);
    let center_x = l.panel.x + l.panel.w / 2.0;
    let center_y = l.panel.y + l.panel.h / 2.0;
    assert!((center_x - 1280.0).abs() <= 1.0);
    assert!((center_y - 700.0).abs() <= 1.0);
}

#[test]
fn width_stops_growing_at_the_fraction_cap() {
    let wide = Layout::compute(&one(200), metrics(), WORK);
    assert!(
        wide.panel.w <= WORK.w * 0.8,
        "panel {} exceeded the 80% cap of {}",
        wide.panel.w,
        WORK.w * 0.8
    );
    assert_eq!(wide.cols, Layout::compute(&one(500), metrics(), WORK).cols);
}

#[test]
fn overflow_scrolls_instead_of_growing_past_the_height_cap() {
    let l = Layout::compute(&one(500), metrics(), WORK);
    assert!(l.panel.h <= WORK.h * 0.8 + 1.0);
    assert!(l.max_scroll > 0.0, "500 tiles must scroll");
    assert!(l.content_h > l.panel.h);
    assert_eq!(l.clamp_scroll(f32::MAX), l.max_scroll);
    assert_eq!(l.clamp_scroll(-50.0), 0.0);
}

#[test]
fn tile_size_is_unchanged_by_item_count() {
    let small = Layout::compute(&one(2), metrics(), WORK).tile_rect(0, 0.0);
    let huge = Layout::compute(&one(500), metrics(), WORK).tile_rect(0, 0.0);
    assert_eq!((small.w, small.h), (huge.w, huge.h));
}

#[test]
fn hit_test_finds_each_tile_by_its_own_rect() {
    let l = Layout::compute(&one(12), metrics(), WORK);
    for i in 0..12 {
        let r = l.tile_rect(i, 0.0);
        assert_eq!(l.hit_test(r.x + 1.0, r.y + 1.0, 0.0), Some(i));
        assert_eq!(l.hit_test(r.x + r.w - 1.0, r.y + r.h - 1.0, 0.0), Some(i));
    }
}

#[test]
fn gaps_and_padding_are_misses() {
    let l = Layout::compute(&one(11), metrics(), WORK);
    let m = metrics();
    assert_eq!(l.hit_test(m.padding + m.tile_w + 2.0, m.padding + 5.0, 0.0), None);
    assert_eq!(l.hit_test(2.0, 2.0, 0.0), None);
}

#[test]
fn hit_test_follows_the_scroll_offset() {
    let l = Layout::compute(&one(500), metrics(), WORK);
    let scroll = 200.0;
    let index = l.cols * 3;
    let r = l.tile_rect(index, scroll);
    assert_eq!(l.hit_test(r.x + 1.0, r.y + 1.0, scroll), Some(index));
}

#[test]
fn zero_items_still_produces_a_sane_panel() {
    let l = Layout::compute(&[], metrics(), WORK);
    assert_eq!(l.cols, 1);
    assert!(l.panel.w > 0.0 && l.panel.h > 0.0);
    assert_eq!(l.hit_test(30.0, 30.0, 0.0), None);
}

#[test]
fn max_cols_caps_a_row_the_screen_would_otherwise_allow() {
    // Ultrawide, where the fraction cap alone still permits a very long row.
    const WIDE: Rect = Rect { x: 0.0, y: 0.0, w: 5120.0, h: 1440.0 };

    let uncapped = Layout::compute(&one(40), metrics(), WIDE);
    assert!(uncapped.cols > 9, "fixture must allow more than 9 columns");

    let m = Metrics { max_cols: 9, ..metrics() };
    let capped = Layout::compute(&one(40), m, WIDE);
    assert_eq!(capped.cols, 9);
    assert!(capped.panel.w < uncapped.panel.w);
}

#[test]
fn max_cols_does_not_pad_out_a_short_row() {
    let m = Metrics { max_cols: 9, ..metrics() };
    let l = Layout::compute(&one(3), m, WORK);
    assert_eq!(l.cols, 3, "three items must not stretch to nine columns");
}

#[test]
fn a_zero_cap_means_whatever_fits() {
    const WIDE: Rect = Rect { x: 0.0, y: 0.0, w: 5120.0, h: 1440.0 };
    let capped = Metrics { max_cols: 9, ..metrics() };
    let uncapped = Metrics { max_cols: 0, ..metrics() };
    assert!(
        Layout::compute(&one(40), uncapped, WIDE).cols
            > Layout::compute(&one(40), capped, WIDE).cols
    );
}

#[test]
fn absurdly_large_tiles_still_yield_one_column() {
    let m = Metrics { tile_w: 5000.0, tile_h: 4000.0, ..metrics() };
    let l = Layout::compute(&one(4), m, WORK);
    assert_eq!(l.cols, 1);
}

// --- sections ---

#[test]
fn sections_stack_and_indices_run_straight_through() {
    let sections = vec![shape("Pinned", 3), shape("Windows", 4)];
    let l = Layout::compute(&sections, metrics(), WORK);

    assert_eq!(l.tile_count(), 7);
    // Column count comes from the busiest section, not the total.
    assert_eq!(l.cols, 4);

    // Section 2's tiles sit strictly below section 1's.
    let last_of_first = l.tile_rect(2, 0.0);
    let first_of_second = l.tile_rect(3, 0.0);
    assert!(first_of_second.y > last_of_first.y);

    // And every tile is still hit-testable at its own index.
    for i in 0..7 {
        let r = l.tile_rect(i, 0.0);
        assert_eq!(l.hit_test(r.x + 2.0, r.y + 2.0, 0.0), Some(i));
    }
}

#[test]
fn each_titled_section_gets_one_header_above_its_tiles() {
    let sections = vec![shape("Pinned", 2), shape("Windows", 2)];
    let l = Layout::compute(&sections, metrics(), WORK);

    let headers: Vec<_> = l.headers(0.0).collect();
    assert_eq!(headers.len(), 2);
    assert_eq!(headers[0].0, "Pinned");
    assert_eq!(headers[1].0, "Windows");

    assert!(headers[0].1.y < l.tile_rect(0, 0.0).y);
    assert!(headers[1].1.y > l.tile_rect(1, 0.0).y);
    assert!(headers[1].1.y < l.tile_rect(2, 0.0).y);
}

#[test]
fn every_tile_on_the_panel_sits_on_one_lattice() {
    // Regardless of which box it is in, what that box is titled, or what a
    // box above it did. A row ten pixels out does not read as two boxes
    // being apart - it reads as the grid being crooked, and a 3x3 centre
    // block makes it obvious because more boxes end up stacked.
    let m = Metrics { section_gap: 20.0, ..metrics() };
    let l = Layout::compute(
        &[
            at("Apps", 14, "left@50"),
            at("Bookmarks", 12, "right/top"),
            at("Browsing", 3, "right/bottom"),
            shape("Active", 2),
            middle(0, 9, 3),
            middle(1, 9, 3),
        ],
        m,
        WORK,
    );
    let origin = m.search_h + m.padding;
    let pitch = m.tile_h + m.gap;
    for n in 0..l.tile_count() {
        let tile = l.tile_rect(n, 0.0);
        let row = (tile.y - origin) / pitch;
        assert!(
            (row - row.round()).abs() < 0.01,
            "tile {n} at y {} is {} of a row off the lattice",
            tile.y,
            row - row.round()
        );
        let col = (tile.x - m.padding) / (m.tile_w + m.gap);
        assert!(
            (col - col.round()).abs() < 0.01,
            "tile {n} at x {} is {} of a column off the lattice",
            tile.x,
            col - col.round()
        );
    }
}

#[test]
fn a_stacked_box_starts_on_the_row_after_the_one_above_it() {
    // Flush, not flush plus a few pixels. `section_gap` buys whole rows or
    // it buys nothing.
    let m = Metrics { section_gap: 0.0, ..metrics() };
    let l = Layout::compute(&[shape("Apps", 3), shape("Active", 2)], m, WORK);
    let above = l.tile_rect(0, 0.0);
    let below = l.tile_rect(3, 0.0);
    assert_eq!(below.y, above.y + m.tile_h + m.gap);

    // And a whole row of clearance when one is actually asked for.
    let spaced = Metrics { section_gap: m.tile_h + m.gap, ..m };
    let l = Layout::compute(&[shape("Apps", 3), shape("Active", 2)], spaced, WORK);
    assert_eq!(
        l.tile_rect(3, 0.0).y,
        l.tile_rect(0, 0.0).y + 2.0 * (m.tile_h + m.gap)
    );
}

#[test]
fn a_title_costs_no_layout_at_all() {
    // The rule this replaced: a title used to take a row above its tiles,
    // and a section costing a header plus a row is what stopped the panel
    // being split into the boxes it wants to be. It rides the ring now.
    let m = Metrics { header_gap: 6.0, ..metrics() };
    let titled = Layout::compute(&[shape("Pinned", 4)], m, WORK);
    let bare = Layout::compute(&[shape("", 4)], m, WORK);

    assert_eq!(titled.content_h, bare.content_h);
    assert_eq!(titled.tile_rect(0, 0.0), bare.tile_rect(0, 0.0));
}

#[test]
fn the_title_sits_on_the_ring_above_its_own_tiles() {
    let m = metrics();
    let l = Layout::compute(&[shape("Pinned", 4)], m, WORK);
    let header = l.headers(0.0).next().unwrap().1;
    let tile = l.tile_rect(0, 0.0);

    // Centred on the line the ring is drawn along, which runs a quarter of
    // a gap above the tiles. Anywhere else and it reads as a label that
    // missed.
    assert_eq!(header.y + m.header_h / 2.0, tile.y - m.gap / 4.0);
    // Inset from the corner, so it never lands on the arc.
    assert_eq!(header.x, tile.x + m.header_gap);
}

// --- the ring round a box ---

/// A ring, as whole cells of the box's own grid: which corners it turns,
/// counted off the tile pitch so the numbers read like the picture.
fn ring_cells(l: &Layout, band: usize, m: &Metrics) -> Vec<Vec<(i32, i32)>> {
    let cells = &l.bands()[band].cells;
    l.band_ring(band, 0.0)
        .into_iter()
        .map(|ring| {
            ring.into_iter()
                .map(|(x, y)| {
                    (
                        (((x + m.gap / 2.0) - cells.x) / (m.tile_w + m.gap)).round() as i32,
                        (((y + m.gap / 2.0) - cells.y) / (m.tile_h + m.gap)).round() as i32,
                    )
                })
                .collect()
        })
        .collect()
}

#[test]
fn a_box_with_nothing_in_its_way_gets_four_corners() {
    let m = metrics();
    let l = Layout::compute(&[shape("Pinned", 8)], m, WORK);
    let rings = ring_cells(&l, 0, &m);
    assert_eq!(rings.len(), 1, "one box, one ring");
    assert_eq!(rings[0].len(), 4, "a rectangle has four corners: {:?}", rings[0]);
}

#[test]
fn a_ragged_last_row_is_squared_off() {
    // The shape follows the centre block, which never moves, and not the
    // item count, which changes every time a window opens. A ring that
    // stepped in around a half-empty last row would never sit still.
    let m = metrics();
    let full = Layout::compute(&[shape("Pinned", 8)], m, WORK);
    let ragged = Layout::compute(&[shape("Pinned", 8), shape("", 0)], m, WORK);
    assert_eq!(ring_cells(&full, 0, &m), ring_cells(&ragged, 0, &m));

    // Same box, one tile short of filling its last row.
    let short = Layout::compute(&[shape("Pinned", 7)], m, WORK);
    let rings = ring_cells(&short, 0, &m);
    assert_eq!(rings.len(), 1);
    assert_eq!(rings[0].len(), 4, "the tail of the list is not a corner: {:?}", rings[0]);
}

#[test]
fn a_box_wrapping_the_centre_block_comes_out_a_c() {
    // The default shape: the panel split down the middle, the block
    // straddling the seam, so it takes a bite out of the side of each half
    // rather than sitting inside one of them.
    let m = metrics();
    let l = Layout::compute(
        &[
            at("Apps", 24, "left@50"),
            at("Browsing", 24, "right@50"),
            middle(0, 4, 2),
            middle(1, 4, 2),
        ],
        m,
        WORK,
    );
    for band in 0..2 {
        let rings = ring_cells(&l, band, &m);
        assert_eq!(rings.len(), 1, "the block is against an edge, so no hole");
        // Four corners is a rectangle. Eight is a rectangle with a bite in
        // it, which is the C.
        assert_eq!(
            rings[0].len(),
            8,
            "band {band} wrapped round the block is not a C: {:?}",
            rings[0]
        );
    }
}

/// A box's cells, spelled as a picture: `#` filled, `.` taken by a hole.
fn cells_of(rows: &[&str]) -> Cells {
    let cols = rows.first().map_or(0, |row| row.len());
    Cells {
        x: 0.0,
        y: 0.0,
        cols,
        rows: rows.len(),
        filled: rows.iter().flat_map(|row| row.chars().map(|c| c == '#')).collect(),
    }
}

#[test]
fn a_block_inside_a_box_leaves_a_hole_in_the_ring() {
    // The block standing in the middle of a box rather than against an edge
    // of it. Two rings, and the inner one is what says the middle of the box
    // is not part of it.
    //
    // Straight off the cells rather than off a layout: which shapes come
    // out of a real panel depends on how many tiles there happen to be, and
    // this is a rule about the shape, not about the panel.
    let m = metrics();
    let rings = ring_of(&cells_of(&["#####", "#...#", "#...#", "#####"]), &m);
    assert_eq!(rings.len(), 2, "an outer ring and a hole: {rings:?}");
    for ring in &rings {
        assert_eq!(ring.len(), 4, "both are rectangles: {ring:?}");
    }

    // Wound opposite ways, which is what tells a fill rule they are not two
    // separate shapes. Shoelace: the outer one turns one way, the hole the
    // other.
    let area = |ring: &Vec<(f32, f32)>| {
        let n = ring.len();
        (0..n)
            .map(|i| {
                let (a, b) = (ring[i], ring[(i + 1) % n]);
                a.0 * b.1 - b.0 * a.1
            })
            .sum::<f32>()
    };
    assert!(
        area(&rings[0]) * area(&rings[1]) < 0.0,
        "the hole is wound the same way as the outer ring"
    );
}

#[test]
fn a_notch_from_two_holes_at_once_is_still_one_ring() {
    // The centre block and the corner the app's own button holds are both
    // taken out of the same box. Two bites, one shape.
    let m = metrics();
    let rings = ring_of(&cells_of(&["#####", "..###", "..###", "####."]), &m);
    assert_eq!(rings.len(), 1, "one shape, not one per bite: {rings:?}");
    assert_eq!(rings[0].len(), 10, "{:?}", rings[0]);

    // A bite that does not reach a side is a hole, and a hole is its own
    // ring - the block standing in the middle of a box.
    let inner = ring_of(&cells_of(&["#####", "#..##", "#..##", "####."]), &m);
    assert_eq!(inner.len(), 2, "the interior bite should be its own ring");
}

#[test]
fn two_boxes_side_by_side_leave_their_rings_apart() {
    // Half the gutter each. Boxes tile the panel, so rings drawn the full
    // way out would land in the same pixel - which was fine while every box
    // wore one faint colour, and reads as a fringe now that they do not.
    let m = metrics();
    let l = Layout::compute(&[at("Apps", 8, "left@50"), at("Web", 8, "right@50")], m, WORK);
    let right_of = |band| {
        l.band_ring(band, 0.0)[0].iter().map(|p| p.0).fold(f32::MIN, f32::max)
    };
    let left_of = |band| {
        l.band_ring(band, 0.0)[0].iter().map(|p| p.0).fold(f32::MAX, f32::min)
    };
    assert!(
        left_of(1) - right_of(0) >= m.gap / 2.0,
        "the two rings meet: {} then {}",
        right_of(0),
        left_of(1)
    );

    // And still outside their own tiles, or the ring crops what it is
    // supposed to be round.
    let tile = l.tile_rect(0, 0.0);
    assert!(left_of(0) < tile.x);
    assert!(right_of(0) > tile.x + tile.w);
}

#[test]
fn the_notch_opens_rather_than_closes_over_the_block() {
    // The inset moves every edge toward the inside of its own shape. On a
    // reflex corner - the inside of the C, where the block bit into the box
    // - that is *away* from the block. Get the sign wrong and the notch
    // closes over the block's tiles, and the ring is drawn across them.
    let m = metrics();
    let l = Layout::compute(
        &[
            at("Apps", 24, "left@50"),
            at("Browsing", 24, "right@50"),
            middle(0, 4, 2),
            middle(1, 4, 2),
        ],
        m,
        WORK,
    );
    let (block, _) = l.center_frame().expect("a block");
    for band in 0..l.bands().len() {
        for ring in l.band_ring(band, 0.0) {
            for (x, y) in ring {
                assert!(
                    !block.contains(x, y),
                    "band {band}: the ring runs through the block at {x},{y}"
                );
            }
        }
    }
}

#[test]
fn a_ring_never_crosses_a_tile() {
    // It sits in the gutter, so no corner of it can land on anything the
    // panel draws a tile in - its own or a neighbour's.
    let m = metrics();
    let l = Layout::compute(
        &[
            at("Apps", 24, "left@50"),
            at("Browsing", 17, "right@50"),
            middle(0, 4, 2),
            middle(1, 4, 2),
        ],
        m,
        WORK,
    );
    let tiles: Vec<Rect> = (0..l.tile_count()).map(|n| l.tile_rect(n, 0.0)).collect();
    for band in 0..l.bands().len() {
        for ring in l.band_ring(band, 0.0) {
            for (x, y) in ring {
                assert!(
                    !tiles.iter().any(|tile| tile.contains(x, y)),
                    "band {band}: a ring corner lands on a tile at {x},{y}"
                );
            }
        }
    }
}

#[test]
fn every_ring_closes() {
    // The walk follows edges until it comes back to where it started. A
    // ring that did not close would be drawn as an open path, which is a
    // stroke running off across the panel.
    let m = metrics();
    for count in 1..24 {
        let l = Layout::compute(
            &[shape("Apps", count), middle(0, 4, 2), middle(1, 4, 2)],
            m,
            WORK,
        );
        for (index, band) in l.bands().iter().enumerate() {
            if band.count == 0 {
                continue;
            }
            for ring in l.band_ring(index, 0.0) {
                assert!(ring.len() >= 4, "{count} items: a ring of {}", ring.len());
                assert_eq!(ring.len() % 2, 0, "{count} items: odd corners on a rectilinear ring");
            }
        }
    }
}

#[test]
fn a_header_is_not_a_tile() {
    let l = Layout::compute(&[shape("Pinned", 2)], metrics(), WORK);
    let header = l.headers(0.0).next().unwrap().1;
    assert_eq!(l.hit_test(header.x + 5.0, header.y + 5.0, 0.0), None);
}

#[test]
fn empty_sections_contribute_nothing() {
    let with_empty = vec![shape("Pinned", 0), shape("Windows", 3)];
    let without = vec![shape("Windows", 3)];
    let a = Layout::compute(&with_empty, metrics(), WORK);
    let b = Layout::compute(&without, metrics(), WORK);

    assert_eq!(a.tile_count(), 3);
    assert_eq!(a.headers(0.0).count(), 1);
    assert_eq!(a.content_h, b.content_h);
    assert_eq!(a.tile_rect(0, 0.0), b.tile_rect(0, 0.0));
}

#[test]
fn untitled_sections_still_group_without_a_header() {
    let l = Layout::compute(&[shape("", 2), shape("", 2)], metrics(), WORK);
    assert_eq!(l.headers(0.0).count(), 0);
    assert_eq!(l.tile_count(), 4);
    // Still two groups: the second starts a new row despite cols == 2.
    assert!(l.tile_rect(2, 0.0).y > l.tile_rect(0, 0.0).y);
}

// --- filtering ---

#[test]
fn a_fixed_column_count_holds_the_panel_still_as_matches_fall_away() {
    let m = Metrics { fixed_cols: 9, ..metrics() };
    let wide = Layout::compute(&one(40), m, WORK);
    let narrow = Layout::compute(&one(2), m, WORK);

    assert_eq!(narrow.cols, 9);
    assert_eq!(narrow.panel.w, wide.panel.w);
    assert_eq!(narrow.panel.x, wide.panel.x);
    // Only the height gives way, and the first tile stays where it was.
    assert!(narrow.panel.h < wide.panel.h);
    assert_eq!(narrow.tile_rect(0, 0.0).x, wide.tile_rect(0, 0.0).x);
}

#[test]
fn a_fixed_count_still_yields_to_the_screen() {
    // A width frozen on an ultrawide, then applied on a laptop panel.
    const SMALL: Rect = Rect { x: 0.0, y: 0.0, w: 1280.0, h: 800.0 };
    let m = Metrics { fixed_cols: 40, ..metrics() };
    let l = Layout::compute(&one(40), m, SMALL);
    assert!(l.panel.w <= SMALL.w * 0.8, "panel {} overflowed", l.panel.w);
    assert_eq!(l.cols, Layout::compute(&one(40), metrics(), SMALL).cols);
}

#[test]
fn zero_matches_still_leave_a_panel_to_say_so_in() {
    let m = Metrics { fixed_cols: 6, search_h: 30.0, ..metrics() };
    let l = Layout::compute(&[], m, WORK);
    assert_eq!(l.cols, 6, "the strip must not collapse to one column");
    assert!(l.panel.h >= 30.0);
    let strip = l.search_rect();
    assert!(strip.w > 0.0 && strip.h > 0.0);
}

#[test]
fn the_search_strip_sits_above_every_tile_and_header() {
    let m = Metrics { search_h: 30.0, ..metrics() };
    let l = Layout::compute(&[shape("Pinned", 4)], m, WORK);
    let strip = l.search_rect();

    assert_eq!(strip.y, 0.0);
    assert_eq!(strip.h, 30.0);
    assert!(strip.y + strip.h <= l.headers(0.0).next().unwrap().1.y);
    assert!(strip.y + strip.h <= l.tile_rect(0, 0.0).y);
    // And it costs exactly its own height.
    let without = Layout::compute(&[shape("Pinned", 4)], metrics(), WORK);
    assert_eq!(l.content_h, without.content_h + 30.0);
}

#[test]
fn the_search_strip_is_chrome_not_a_section() {
    let m = Metrics { search_h: 30.0, ..metrics() };
    let l = Layout::compute(&[shape("Pinned", 4)], m, WORK);

    assert_eq!(band_at(&l, 5.0, 5.0), None, "a drop on the strip belongs to nobody");
    assert_eq!(l.hit_test(5.0, 5.0, 0.0), None);
    // Everything below it is still covered.
    for y in 30..l.panel.h as i32 {
        assert!(band_at(&l, 5.0, y as f32).is_some(), "no band at y={y}");
    }
}

#[test]
fn the_strip_does_not_scroll_with_the_grid() {
    let m = Metrics { search_h: 30.0, ..metrics() };
    let l = Layout::compute(&one(500), m, WORK);
    assert!(l.max_scroll > 0.0);

    // The grid slides under a strip that takes no scroll offset at all.
    let strip = l.search_rect();
    assert!(l.tile_rect(0, l.max_scroll).y < l.tile_rect(0, 0.0).y);
    assert_eq!(strip.y, 0.0);
    assert_eq!(strip.h, 30.0);
}

// --- bands and drop slots ---

#[test]
fn bands_cover_the_whole_panel_with_no_dead_space() {
    let sections = vec![shape("Pinned", 3), shape("Windows", 5)];
    let l = Layout::compute(&sections, metrics(), WORK);

    assert_eq!(l.bands().len(), 2);
    assert_eq!(l.bands()[0].rect.y, 0.0);
    let last = l.bands().last().unwrap();
    assert_eq!(last.rect.y + last.rect.h, l.content_h);
    assert_eq!(l.bands()[0].rect.h, l.bands()[1].rect.y);

    // Every row of pixels down the panel belongs to some band.
    for y in 0..l.panel.h as i32 {
        assert!(band_at(&l, 5.0, y as f32).is_some(), "no band at y={y}");
    }
}

#[test]
fn empty_sections_do_not_get_a_band() {
    let l = Layout::compute(&[shape("Pinned", 0), shape("Windows", 2)], metrics(), WORK);
    assert_eq!(l.bands().len(), 1);
    // The band still names the section it came from, not its position.
    assert_eq!(l.bands()[0].section, 1);
}

#[test]
fn a_tile_belongs_to_the_band_it_was_laid_out_in() {
    let l = Layout::compute(&[shape("A", 3), shape("B", 4)], metrics(), WORK);
    assert_eq!(l.band_of(0), Some(0));
    assert_eq!(l.band_of(2), Some(0));
    assert_eq!(l.band_of(3), Some(1));
    assert_eq!(l.band_of(6), Some(1));
    assert_eq!(l.band_of(7), None);

    // And a point inside a tile agrees with the tile's own band.
    let r = l.tile_rect(4, 0.0);
    assert_eq!(band_at(&l, r.x + 1.0, r.y + 1.0), l.band_of(4));
}

#[test]
fn a_drop_lands_on_the_nearest_gap_between_tiles() {
    let l = Layout::compute(&one(5), metrics(), WORK);
    let first = l.tile_rect(0, 0.0);
    let third = l.tile_rect(2, 0.0);

    // Left of the first tile, and on its left half: before everything.
    assert_eq!(l.insert_slot(0, 1.0, first.y + 5.0, 0.0), 0);
    assert_eq!(l.insert_slot(0, first.x + 5.0, first.y + 5.0, 0.0), 0);
    // Right half of a tile means after it.
    assert_eq!(l.insert_slot(0, first.x + first.w - 5.0, first.y + 5.0, 0.0), 1);
    assert_eq!(l.insert_slot(0, third.x + third.w - 5.0, third.y + 5.0, 0.0), 3);
    // Past the last tile, clamped to the end.
    assert_eq!(l.insert_slot(0, l.panel.w - 1.0, l.panel.h - 1.0, 0.0), 5);
}

#[test]
fn drop_slots_are_measured_within_the_section_not_the_panel() {
    let l = Layout::compute(&[shape("A", 4), shape("B", 4)], metrics(), WORK);
    let second = l.bands()[1].clone();
    let first_of_b = l.tile_rect(second.first, 0.0);

    assert_eq!(l.insert_slot(1, first_of_b.x + 5.0, first_of_b.y + 5.0, 0.0), 0);
    assert_eq!(
        l.insert_slot(1, first_of_b.x + first_of_b.w - 5.0, first_of_b.y + 5.0, 0.0),
        1
    );
}

#[test]
fn drop_slots_follow_the_scroll_offset() {
    let l = Layout::compute(&one(500), metrics(), WORK);
    let scroll = 200.0;
    let index = l.cols * 3;
    let r = l.tile_rect(index, scroll);
    assert_eq!(l.insert_slot(0, r.x + 5.0, r.y + 5.0, scroll), index);
}

#[test]
fn moving_a_tile_shifts_only_what_it_passes() {
    // 0 1 2 3 4, drag 0 to the end.
    assert_eq!(reordered(5, 0, 5), vec![1, 2, 3, 4, 0]);
    // Drag the last tile to the front.
    assert_eq!(reordered(5, 4, 0), vec![4, 0, 1, 2, 3]);
    // One step right: the insertion point is past the tile's own slot.
    assert_eq!(reordered(5, 1, 3), vec![0, 2, 1, 3, 4]);
    // One step left.
    assert_eq!(reordered(5, 3, 1), vec![0, 3, 1, 2, 4]);
}

#[test]
fn dropping_a_tile_back_where_it_started_changes_nothing() {
    for slot in 0..5 {
        assert_eq!(reordered(5, slot, slot), vec![0, 1, 2, 3, 4]);
        assert_eq!(reordered(5, slot, slot + 1), vec![0, 1, 2, 3, 4]);
    }
}

/// A merged section: 3 taskbar pins then 2 manual ones, one band of 5.
const MERGED: [char; 5] = ['t', 't', 't', 'm', 'm'];

#[test]
fn a_run_covers_only_the_neighbours_from_the_same_source() {
    for tile in 0..3 {
        assert_eq!(origin_run(&MERGED, 0, 5, tile), (0, 3), "taskbar tile {tile}");
    }
    for tile in 3..5 {
        assert_eq!(origin_run(&MERGED, 0, 5, tile), (3, 2), "manual tile {tile}");
    }
}

#[test]
fn a_run_never_leaves_its_band() {
    // Same origins either side of the seam at 3: the band is the wall.
    let origins = ['m', 'm', 'm', 'm', 'm'];
    assert_eq!(origin_run(&origins, 3, 2, 4), (3, 2));
    assert_eq!(origin_run(&origins, 0, 3, 1), (0, 3));
}

#[test]
fn a_single_source_section_is_one_whole_run() {
    let origins = ['w'; 6];
    assert_eq!(origin_run(&origins, 0, 6, 3), (0, 6));
}

#[test]
fn a_run_stops_at_the_end_of_the_list() {
    // A band claiming more tiles than exist must not walk off the end.
    assert_eq!(origin_run(&MERGED, 0, 99, 0), (0, 3));
    assert_eq!(origin_run(&MERGED, 0, 5, 99), (99, 0));
}

/// The whole point of the seam: reordering inside one run leaves every tile
/// belonging to the other source exactly where it was.
#[test]
fn reordering_a_run_cannot_disturb_the_other_source() {
    let (first, count) = origin_run(&MERGED, 0, 5, 3);
    let moved: Vec<char> = reordered(count, 3 - first, 2)
        .iter()
        .map(|slot| MERGED[first + slot])
        .collect();
    assert_eq!(moved, ['m', 'm']);
    assert_eq!(&MERGED[..first], ['t', 't', 't']);
}

#[test]
fn sections_scroll_together_as_one_surface() {
    let sections = vec![shape("Pinned", 20), shape("Windows", 60)];
    let l = Layout::compute(&sections, metrics(), WORK);
    assert!(l.max_scroll > 0.0);

    let scroll = l.max_scroll;
    for (index, unscrolled) in (0..l.tile_count()).map(|i| (i, l.tile_rect(i, 0.0))) {
        let scrolled = l.tile_rect(index, scroll);
        assert!((unscrolled.y - scrolled.y - scroll).abs() < 0.01);
    }
    for ((_, a, _), (_, b, _)) in l.headers(0.0).zip(l.headers(scroll)) {
        assert!((a.y - b.y - scroll).abs() < 0.01);
    }
}

// --- the centre block ---

/// Every tile belonging to a box that is not the centre.
fn around(l: &Layout, middle: &[usize]) -> Vec<Rect> {
    let center: Vec<&Band> = l.bands().iter().filter(|b| b.center).collect();
    assert_eq!(center.len(), middle.len(), "wrong number of centre bands");
    let held: Vec<usize> = center
        .iter()
        .flat_map(|b| b.first..b.first + b.count)
        .collect();
    (0..l.tile_count())
        .filter(|index| !held.contains(index))
        .map(|index| l.tile_rect(index, 0.0))
        .collect()
}

/// The rectangle the centre block actually occupies.
fn block(l: &Layout) -> Rect {
    covering(
        &l.bands()
            .iter()
            .filter(|b| b.center)
            .cloned()
            .collect::<Vec<_>>(),
    )
}

#[test]
fn a_three_by_three_a_side_block_still_leaves_a_panel_around_it() {
    // What a new install starts with: nine slots a half, six columns of
    // block. It is the widest thing the settings squares can ask for short
    // of four each way, so this is where "the block wins over max_columns"
    // has to stop being free.
    let sections = vec![shape("Apps", 24), middle(0, 9, 3), middle(1, 9, 3)];
    let l = Layout::compute(&sections, metrics(), WORK);
    let b = block(&l);

    assert!(b.x >= 0.0 && b.x + b.w <= l.panel.w, "the block hangs off the panel");
    assert!((b.w - (6.0 * 200.0 + 5.0 * 10.0)).abs() < 0.5, "the block is {} wide", b.w);
    assert!((b.h - (3.0 * 140.0 + 2.0 * 10.0)).abs() < 0.5, "the block is {} tall", b.h);
    // And the grid still has somewhere to wrap to on both sides of it.
    let around = around(&l, &[1, 2]);
    assert!(around.iter().any(|r| r.x + r.w <= b.x), "nothing fits down the left");
    assert!(around.iter().any(|r| r.x >= b.x + b.w), "nothing fits down the right");
}

#[test]
fn the_centre_holds_the_middle_of_the_screen() {
    // The whole reason it exists: this is where a gaze pointer is most
    // accurate, so it is the one box whose position is not up for grabs.
    //
    // Measured against the screen, not the panel. Wrapping is a step
    // function and the two chase each other forever, so the panel is what
    // moves - which is fine, because the screen is what the eyes are aimed
    // at.
    for count in [4usize, 17, 30, 45] {
        let sections = vec![shape("Apps", count), middle(0, 4, 2), middle(1, 4, 2)];
        let l = Layout::compute(&sections, metrics(), WORK);
        let b = block(&l);

        let across = l.panel.x + b.x + b.w / 2.0;
        let down = l.panel.y + b.y + b.h / 2.0;
        assert!(
            (across - (WORK.x + WORK.w / 2.0)).abs() < 1.0,
            "{count} tiles: the block's middle is at x {across}, the screen's at {}",
            WORK.x + WORK.w / 2.0
        );
        assert!(
            (down - (WORK.y + WORK.h / 2.0)).abs() < 1.0,
            "{count} tiles: the block's middle is at y {down}, the screen's at {}",
            WORK.y + WORK.h / 2.0
        );
    }
}

#[test]
fn the_panel_is_still_centred_when_there_is_no_block() {
    let sections = vec![shape("Apps", 30)];
    let l = Layout::compute(&sections, metrics(), WORK);
    assert!(
        ((l.panel.y - WORK.y) - (WORK.h - l.panel.h - (l.panel.y - WORK.y))).abs() < 1.5
    );
}

#[test]
fn a_block_on_a_panel_taller_than_the_screen_still_starts_on_the_screen() {
    // Sixty tiles overflows and scrolls. The panel cannot slide up to
    // centre the block without hanging off the top.
    let sections = vec![shape("Apps", 60), middle(0, 4, 2), middle(1, 4, 2)];
    let l = Layout::compute(&sections, metrics(), WORK);
    assert!(l.panel.y >= WORK.y - 0.5, "the panel starts at {}", l.panel.y);
    assert!(
        l.panel.y + l.panel.h <= WORK.y + WORK.h + 0.5,
        "the panel ends at {}",
        l.panel.y + l.panel.h
    );
}

#[test]
fn nothing_else_is_laid_out_underneath_the_centre() {
    let sections = vec![shape("Apps", 40), middle(0, 4, 2), middle(1, 4, 2)];
    let l = Layout::compute(&sections, metrics(), WORK);
    let b = block(&l);

    for tile in around(&l, &[0, 1]) {
        assert!(
            !tile.overlaps(&b),
            "a tile at {},{} sits under the centre block {b:?}",
            tile.x,
            tile.y
        );
    }
}

#[test]
fn the_boxes_wrap_around_the_centre_rather_than_being_cut_by_it() {
    // The point of the whole arrangement. The bento is planned as if the
    // centre were not there, so a box that reaches across the panel comes
    // out either side of it - not split into two boxes, and not stopped.
    let sections = vec![shape("Apps", 40), middle(0, 4, 2), middle(1, 4, 2)];
    let l = Layout::compute(&sections, metrics(), WORK);
    let b = block(&l);
    let tiles = around(&l, &[0, 1]);

    let spans = |edge: f32, side: fn(&Rect, f32) -> bool| {
        tiles.iter().filter(|t| side(t, edge)).count()
    };
    let left = spans(b.x, |t, edge| t.x + t.w <= edge + 0.01);
    let right = spans(b.x + b.w, |t, edge| t.x >= edge - 0.01);
    assert!(left > 0 && right > 0, "{left} tiles left of the centre, {right} right of it");

    // And one box, not two: every one of those tiles belongs to the same
    // band it would have without a centre at all.
    assert_eq!(l.bands().iter().filter(|b| !b.center).count(), 1);
}

#[test]
fn a_bar_slides_past_the_centre_rather_than_breaking_around_it() {
    // Seven controls on one row. Wrapped, they came out as four down the
    // left and three up on the right - in reading order and in no order at
    // all to look at. A bar has one row either way, so it has nothing to
    // gain by going round and its shape to lose.
    let sections = vec![shape("Apps", 24), shape("Bar", 7), middle(0, 4, 2), middle(1, 4, 2)];
    let l = Layout::compute(&sections, metrics(), WORK);
    let bar = l
        .bands()
        .iter()
        .find(|band| band.section == 1)
        .expect("the bar has a band");

    let tiles: Vec<Rect> = (bar.first..bar.first + bar.count)
        .map(|index| l.tile_rect(index, 0.0))
        .collect();
    let top = tiles[0].y;
    assert!(
        tiles.iter().all(|tile| (tile.y - top).abs() < 0.01),
        "the bar broke across rows: {tiles:?}"
    );
    // And it is still one unbroken run, left to right.
    let m = metrics();
    for pair in tiles.windows(2) {
        assert!(
            (pair[1].x - pair[0].x - (m.tile_w + m.gap)).abs() < 0.01,
            "a gap opened in the bar at {}", pair[1].x
        );
    }
    for tile in &tiles {
        assert!(!tile.overlaps(&block(&l)), "the bar sits under the centre");
    }
}

#[test]
fn a_bar_wraps_into_the_cells_beside_the_block_rather_than_sliding_past() {
    // The block against one side of a box leaves a single run of free
    // cells, and a run is something a bar can wrap into. Sliding past it
    // instead put a three-tile box two rows below the space it fitted in,
    // and left that space holding nothing.
    // The working config's own numbers, because this is a rule about how
    // much room the block leaves beside it and that depends on the shape of
    // the real panel: ten columns, a three-a-side block, two columns clear
    // either side of it.
    let m = live();
    let l = Layout::compute(
        &[
            at("Browsing", 3, "right/bottom"),
            shape("Apps", 14),
            shape("Active", 2),
            at("Bookmarks", 12, "right/top"),
            at("", 4, "bottom"),
            middle(0, 9, 3),
            middle(1, 9, 3),
        ],
        m,
        SCREEN,
    );
    let bar = l.bands().iter().find(|band| band.section == 0).expect("the bar");
    let first = l.tile_rect(bar.first, 0.0);
    let last = l.tile_rect(bar.first + bar.count - 1, 0.0);
    let (block, _) = l.center_frame().expect("a block");

    // Beside the block, not below it.
    assert!(
        first.y < block.y + block.h,
        "the bar slid to {}, past the block ending at {}",
        first.y,
        block.y + block.h
    );
    // And clear of it, which is the whole point of not just ignoring the
    // hole.
    for n in bar.first..bar.first + bar.count {
        assert!(!l.tile_rect(n, 0.0).overlaps(&block), "tile {n} sits under the block");
    }
    assert!(last.y >= first.y, "the bar ran backwards");
}

#[test]
fn a_title_lands_on_its_own_ring_and_not_on_the_block() {
    // The block can take the whole start of a box's first row. A title left
    // at the box's left edge then floats over the block, with none of the
    // tiles it names anywhere near it.
    let m = live();
    let l = Layout::compute(
        &[
            at("Browsing", 3, "right/bottom"),
            shape("Apps", 14),
            shape("Active", 2),
            at("Bookmarks", 12, "right/top"),
            at("", 4, "bottom"),
            middle(0, 9, 3),
            middle(1, 9, 3),
        ],
        m,
        SCREEN,
    );
    let (block, _) = l.center_frame().expect("a block");
    for (title, rect, band) in l.headers(0.0) {
        assert!(
            !block.contains(rect.x, rect.y + rect.h / 2.0),
            "\"{title}\" sits on the block at {},{}",
            rect.x,
            rect.y
        );
        // And over its own first tile's column, which is what makes it
        // read as belonging to that box.
        let first = l.tile_rect(l.bands()[band].first, 0.0);
        assert_eq!(rect.x, first.x + m.header_gap, "\"{title}\" is not over its tiles");
    }
}

#[test]
fn a_drop_counts_tiles_and_not_the_cells_the_block_took() {
    // The box wraps round the block, so its cells and its tiles are not the
    // same list. Counting cells put every drop past the block that many
    // places too far along, and silently scrambled the order it wrote.
    let m = metrics();
    let l = Layout::compute(
        &[shape("Apps", 24), middle(0, 4, 2), middle(1, 4, 2)],
        m,
        WORK,
    );
    let band = l
        .bands()
        .iter()
        .position(|band| !band.center && band.count > 0)
        .expect("the apps box");

    // Dropped on a tile's own left edge, the slot is that tile's index -
    // for every tile, including the ones past the hole.
    for n in 0..l.bands()[band].count {
        let tile = l.tile_rect(n, 0.0);
        assert_eq!(
            l.insert_slot(band, tile.x, tile.y + tile.h / 2.0, 0.0),
            n,
            "tile {n} at {},{} resolved to the wrong slot",
            tile.x,
            tile.y
        );
    }
}

#[test]
fn a_bar_that_already_clears_the_centre_is_left_where_it_was() {
    // Two tiles down the left, nowhere near the middle. Nothing to slide
    // past, so nothing moves. Untitled, so its band starts where its tiles
    // do and any push would show.
    // Listed first, so it takes the top of the content and a push would
    // show as a row of empty space above it.
    let short = vec![shape("", 2), shape("Apps", 24), middle(0, 4, 2), middle(1, 4, 2)];
    let l = Layout::compute(&short, metrics(), WORK);
    let bar = l.bands().iter().find(|band| band.section == 0).unwrap();
    let first = l.tile_rect(bar.first, 0.0);
    assert!(!first.overlaps(&block(&l)), "the test bar is not clear of the centre");
    assert!(
        (first.y - metrics().padding).abs() < 0.01,
        "the bar was pushed to {} instead of sitting at the top",
        first.y
    );
}

#[test]
fn the_centre_lands_on_whole_cells_of_the_grid() {
    // Off the grid it costs every row it grazes: a row overlapping it by
    // ten pixels loses its middle columns exactly as a row sitting squarely
    // behind it does, and the panel fills with space holding nothing.
    for count in [12usize, 24, 40] {
        let sections = vec![shape("Apps", count), middle(0, 4, 2), middle(1, 4, 2)];
        let l = Layout::compute(&sections, metrics(), WORK);
        let m = metrics();
        let step = m.tile_h + m.gap;
        let b = block(&l);

        // A tile of the box the block sits in, to read the row grid off.
        let grid_top = l.tile_rect(0, 0.0).y;
        let offset = (b.y - grid_top) / step;
        assert!(
            (offset - offset.round()).abs() < 0.01,
            "{count} tiles: the block sits {offset} rows down, not a whole number"
        );
    }
}

#[test]
fn a_row_that_only_grazes_the_centre_keeps_its_middle() {
    // The bug this fixes: every row either sits squarely behind the block
    // or is clear of it, so the only cells lost are the ones the block is
    // actually standing on.
    let sections = vec![shape("Apps", 40), middle(0, 4, 2), middle(1, 4, 2)];
    let l = Layout::compute(&sections, metrics(), WORK);
    let b = block(&l);
    let m = metrics();

    // Count the tiles on each row of the surrounding box. Only the rows the
    // block occupies may be short, and they are short by exactly its width.
    let mut per_row: std::collections::BTreeMap<i64, usize> = Default::default();
    for tile in around(&l, &[0, 1]) {
        *per_row.entry((tile.y * 100.0) as i64).or_default() += 1;
    }
    let across = 4;
    for (key, held) in per_row {
        let y = key as f32 / 100.0;
        let row = Rect { x: 0.0, y, w: l.panel.w, h: m.tile_h };
        let behind = row.overlaps(&b);
        let last = held < l.cols && !behind;
        assert!(
            held == l.cols || held == l.cols - across || last,
            "row at {y} holds {held} of {} tiles, block behind it: {behind}",
            l.cols
        );
    }
}

#[test]
fn reading_order_survives_the_hole() {
    // Left to right then down, skipping what the centre stands on. A tile
    // is never earlier in the list than the one above and left of it.
    let sections = vec![shape("Apps", 40), middle(0, 4, 2), middle(1, 4, 2)];
    let l = Layout::compute(&sections, metrics(), WORK);
    let tiles = around(&l, &[0, 1]);

    for pair in tiles.windows(2) {
        let (a, b) = (pair[0], pair[1]);
        let later = b.y > a.y + 0.01 || ((b.y - a.y).abs() < 0.01 && b.x > a.x);
        assert!(later, "tile at {},{} does not read after {},{}", b.x, b.y, a.x, a.y);
    }
}

#[test]
fn a_short_panel_still_grows_tall_enough_to_hold_the_centre() {
    // One tile and a centre block: the panel cannot be one tile tall.
    let sections = vec![shape("Apps", 1), middle(0, 4, 2), middle(1, 4, 2)];
    let l = Layout::compute(&sections, metrics(), WORK);
    let b = block(&l);
    assert!(
        b.y + b.h <= l.content_h + 0.01,
        "the centre ends at {} and the content at {}",
        b.y + b.h,
        l.content_h
    );
    assert!(b.y >= 0.0, "the centre starts above the panel at {}", b.y);
}

#[test]
fn the_centre_keeps_its_shape_whatever_is_around_it() {
    // A learnable position means the same rectangle every summon, however
    // many windows happen to be open.
    let m = metrics();
    let shapes = |count| vec![shape("Apps", count), middle(0, 4, 2), middle(1, 4, 2)];
    let sizes: Vec<(f32, f32)> = [4usize, 20, 45]
        .into_iter()
        .map(|count| {
            let b = block(&Layout::compute(&shapes(count), m, WORK));
            (b.w, b.h)
        })
        .collect();
    assert!(
        sizes.windows(2).all(|pair| pair[0] == pair[1]),
        "the centre changed size with the grid around it: {sizes:?}"
    );
}

#[test]
fn a_half_that_is_short_leaves_its_slots_empty_rather_than_shortening_the_block() {
    // Two rows on the left, one on the right: the block is still two rows.
    let sections = vec![shape("Apps", 20), middle(0, 4, 2), middle(1, 2, 2)];
    let l = Layout::compute(&sections, metrics(), WORK);
    let m = metrics();
    let b = block(&l);
    assert!((b.h - (2.0 * m.tile_h + m.gap)).abs() < 0.5, "block is {} tall", b.h);
}

#[test]
fn an_empty_centre_leaves_the_panel_exactly_as_it_was() {
    let plain = vec![shape("Apps", 24)];
    let with_centre = vec![shape("Apps", 24), middle(0, 0, 2), middle(1, 0, 2)];
    let a = Layout::compute(&plain, metrics(), WORK);
    let b = Layout::compute(&with_centre, metrics(), WORK);
    assert_eq!(a.panel, b.panel);
    assert_eq!(a.cols, b.cols);
    for index in 0..a.tile_count() {
        assert_eq!(a.tile_rect(index, 0.0), b.tile_rect(index, 0.0));
    }
}

#[test]
fn the_centre_is_never_squeezed_by_a_narrow_panel() {
    // Four tiles across is what the block asked for, and it gets them even
    // though the grid beside it wants only two.
    let sections = vec![shape("Apps", 2), middle(0, 4, 2), middle(1, 4, 2)];
    let l = Layout::compute(&sections, metrics(), WORK);
    let m = metrics();
    assert!(l.cols >= 4, "panel came out {} columns wide", l.cols);
    let b = block(&l);
    assert!((b.w - (4.0 * m.tile_w + 3.0 * m.gap)).abs() < 0.5, "block is {} wide", b.w);
}

#[test]
fn a_centre_wider_than_the_panel_takes_the_panel_and_nothing_breaks() {
    // A hard column cap the block cannot fit inside. It takes what there
    // is rather than overflowing, and the grid wraps below it.
    let m = Metrics { max_cols: 3, ..metrics() };
    let sections = vec![shape("Apps", 12), middle(0, 4, 2), middle(1, 4, 2)];
    let l = Layout::compute(&sections, m, WORK);
    let b = block(&l);
    assert!(b.x >= 0.0 && b.x + b.w <= l.panel.w + 0.01, "block {b:?} left the panel");
    for tile in around(&l, &[0, 1]) {
        assert!(!tile.overlaps(&b), "a tile at {},{} sits under the centre", tile.x, tile.y);
    }
}

#[test]
fn every_tile_of_the_centre_lands_inside_the_block() {
    let sections = vec![shape("Apps", 20), middle(0, 4, 2), middle(1, 4, 2)];
    let l = Layout::compute(&sections, metrics(), WORK);
    let b = block(&l);
    for band in l.bands().iter().filter(|band| band.center) {
        for index in band.first..band.first + band.count {
            let tile = l.tile_rect(index, 0.0);
            assert!(
                tile.x >= b.x - 0.01
                    && tile.x + tile.w <= b.x + b.w + 0.01
                    && tile.y >= b.y - 0.01
                    && tile.y + tile.h <= b.y + b.h + 0.01,
                "centre tile {index} at {},{} is outside the block {b:?}",
                tile.x,
                tile.y
            );
        }
    }
}

#[test]
fn the_two_halves_sit_side_by_side_in_order() {
    let sections = vec![shape("Apps", 20), middle(0, 4, 2), middle(1, 4, 2)];
    let l = Layout::compute(&sections, metrics(), WORK);
    let halves: Vec<&Band> = l.bands().iter().filter(|b| b.center).collect();
    assert_eq!(halves.len(), 2);
    assert!(
        halves[0].rect.x + halves[0].rect.w <= halves[1].rect.x + 0.01,
        "the halves overlap: {:?} and {:?}",
        halves[0].rect,
        halves[1].rect
    );
    assert!((halves[0].rect.y - halves[1].rect.y).abs() < 0.01, "the halves are not level");
}

#[test]
fn the_centre_takes_no_header_however_it_is_titled() {
    // A header would spend a row of the most valuable space on the panel
    // saying what the icons already say.
    let mut titled = middle(0, 4, 2);
    titled.title = "Favorites".into();
    let sections = vec![shape("Apps", 12), titled];
    let l = Layout::compute(&sections, metrics(), WORK);
    assert_eq!(l.headers(0.0).count(), 1, "the centre drew a header");
}

#[test]
fn the_centre_never_takes_a_place_in_the_tree() {
    // Placed by hand after the tree, so its bands come last and `stretch`
    // - which walks the tree by leaf order - can never reach them.
    let sections = vec![at("Left", 8, "left@30"), shape("Rest", 20), middle(0, 4, 2)];
    let l = Layout::compute(&sections, metrics(), WORK);
    let bands = l.bands();
    assert!(bands.last().is_some_and(|band| band.center));
    assert!(bands[..bands.len() - 1].iter().all(|band| !band.center));
}

// --- the panel as a whole ---

/// Panels of every kind: one row, many, boxes cut across, a centre block, a
/// filter strip.
fn panels() -> Vec<(Vec<SectionShape>, Metrics)> {
    let strip = Metrics { search_h: 56.0, ..metrics() };
    vec![
        (one(1), metrics()),
        (one(7), metrics()),
        (one(60), strip),
        (vec![at("Left", 8, "left@30"), shape("Rest", 20)], metrics()),
        (vec![at("Top", 5, "top"), at("Right", 9, "right@40"), shape("Rest", 11)], strip),
        (vec![shape("Apps", 40), middle(0, 9, 3), middle(1, 9, 3)], live()),
        (vec![at("Left", 12, "left@30"), shape("Rest", 30), middle(0, 4, 2)], metrics()),
    ]
}

#[test]
fn no_tile_lies_under_the_corner_button_however_few_there_are() {
    for (m, work) in [(metrics(), WORK), (live(), SCREEN)] {
        for count in 1..40 {
            let l = Layout::compute(&one(count), m, work);
            assert_eq!(l.max_scroll, 0.0);
            let home = l.home_rect();
            assert_eq!((home.w, home.h), (m.tile_w, m.tile_h));
            assert!(home.x + home.w <= l.panel.w && home.y + home.h <= l.content_h);
            for tile in 0..count {
                let rect = l.tile_rect(tile, 0.0);
                assert!(!rect.overlaps(&home), "tile {tile} of {count} is under the button");
            }
        }
    }
}

#[test]
fn a_panel_of_one_tile_gives_the_button_a_row_of_its_own() {
    let l = Layout::compute(&one(1), metrics(), WORK);
    assert_eq!(l.cols, 1);
    assert_eq!(l.tile_rect(0, 0.0), Rect { x: 20.0, y: 20.0, w: 200.0, h: 140.0 });
    assert_eq!(l.home_rect(), Rect { x: 20.0, y: 170.0, w: 200.0, h: 140.0 });
    assert_eq!(l.content_h, 330.0);
}

#[test]
fn a_drop_turns_exactly_at_the_centre_of_a_tile() {
    let l = Layout::compute(&one(5), metrics(), WORK);
    for tile in 0..5 {
        let rect = l.tile_rect(tile, 0.0);
        let (y, centre) = (rect.y + rect.h / 2.0, rect.x + rect.w / 2.0);
        assert_eq!(l.insert_slot(0, rect.x, y, 0.0), tile);
        assert_eq!(l.insert_slot(0, centre - 0.5, y, 0.0), tile);
        assert_eq!(l.insert_slot(0, centre + 0.5, y, 0.0), tile + 1);
        assert_eq!(l.insert_slot(0, centre + 4.0, y, 0.0), tile + 1);
    }
}

#[test]
fn every_tile_of_a_run_names_the_same_run() {
    let origins = ['a', 'a', 'b', 'a', 'a', 'a', 'c', 'c'];
    let mut next = 1;
    while next < 7 {
        let (first, count) = origin_run(&origins, 1, 6, next);
        assert!(first == next && count > 0);
        for tile in first..first + count {
            assert_eq!(origin_run(&origins, 1, 6, tile), (first, count));
        }
        next = first + count;
    }
    assert_eq!(next, 7);
}

#[test]
fn titles_and_empty_sections_anywhere_move_nothing() {
    for (sections, m) in panels() {
        let mut padded = Vec::new();
        for (i, section) in sections.iter().enumerate() {
            padded.push(at("Gone", 0, "left@20"));
            let mut named = section.clone();
            named.title = format!("Name {i}");
            padded.push(named);
            padded.push(middle(i, 0, 2));
            padded.push(shape("", 0));
        }
        let (a, b) = (Layout::compute(&sections, m, WORK), Layout::compute(&padded, m, WORK));
        assert_eq!((a.cols, a.panel), (b.cols, b.panel));
        assert_eq!((a.content_h, a.max_scroll), (b.content_h, b.max_scroll));
        assert_eq!(a.tile_count(), b.tile_count());
        assert_eq!(a.bands().len(), b.bands().len());
        for tile in 0..a.tile_count() {
            assert_eq!(a.tile_rect(tile, 0.0), b.tile_rect(tile, 0.0));
        }
    }
}

#[test]
fn the_tiles_of_a_panel_keep_to_one_lattice_and_apart() {
    for (sections, m) in panels() {
        let l = Layout::compute(&sections, m, WORK);
        assert_eq!(l.tile_count(), sections.iter().map(|s| s.count).sum::<usize>());
        let tiles: Vec<Rect> = (0..l.tile_count()).map(|t| l.tile_rect(t, 0.0)).collect();
        for (t, tile) in tiles.iter().enumerate() {
            assert_eq!((tile.w, tile.h), (m.tile_w, m.tile_h));
            assert_eq!((tile.x - m.padding) % (m.tile_w + m.gap), 0.0);
            assert_eq!((tile.y - m.padding - m.search_h) % (m.tile_h + m.gap), 0.0);
            assert!(tiles[t + 1..].iter().all(|other| !tile.overlaps(other)));
        }
        for band in l.bands() {
            for pair in tiles[band.first..band.first + band.count].windows(2) {
                let (a, b) = (pair[0], pair[1]);
                assert!(b.y > a.y || b.y == a.y && b.x > a.x);
            }
        }
    }
}

#[test]
fn the_bands_of_a_panel_part_it_between_them() {
    for (sections, m) in panels() {
        let l = Layout::compute(&sections, m, WORK);
        let mut named: Vec<usize> = l.bands().iter().map(|band| band.section).collect();
        named.sort_unstable();
        assert_eq!(named, (0..sections.len()).collect::<Vec<usize>>());
        let first = l.bands().iter().position(|band| band.center).unwrap_or(l.bands().len());
        assert!(l.bands()[first..].iter().all(|band| band.center));
        let boxes: Vec<&Band> = l.bands()[..first].iter().collect();
        let width = l.cols as f32 * (m.tile_w + m.gap) - m.gap + 2.0 * m.padding;
        let at = |x: f32, y: f32| boxes.iter().filter(|band| band.rect.contains(x, y)).count();
        for i in 0..40 {
            for j in 0..40 {
                let x = width * i as f32 / 40.0;
                let y = m.search_h + (l.content_h - m.search_h) * j as f32 / 40.0;
                assert_eq!(at(x, y), 1, "{x},{y}");
            }
        }
        assert_eq!(at(width, l.content_h / 2.0), 0);
        assert_eq!(at(width / 2.0, l.content_h), 0);
        assert_eq!(at(width / 2.0, m.search_h - 1.0), 0);
        for band in l.bands() {
            for t in band.first..band.first + band.count {
                let (tile, own) = (l.tile_rect(t, 0.0), band.rect);
                assert!(own.x <= tile.x && tile.x + tile.w <= own.x + own.w);
                assert!(own.y <= tile.y && tile.y + tile.h <= own.y + own.h);
            }
        }
    }
}

#[test]
fn a_point_scrolled_past_anything_hits_nothing() {
    let l = Layout::compute(&one(20), metrics(), WORK);
    let tile = l.inner.tile_rect(0, 0);
    let (x, y) = (tile.x + 1, tile.y + 1);
    assert_eq!(l.inner.hit_test(x, y, 0), Some(0));
    assert_eq!(l.inner.hit_test(x, y, i64::MAX), None);
    assert_eq!(l.inner.hit_test(x, y, i64::MIN), None);
    assert_eq!(l.inner.hit_test(i64::MIN, y, 0), None);
    assert_eq!(l.inner.hit_test(x, i64::MAX, i64::MAX), None);
}

#[test]
fn an_offered_resize_goes_the_way_it_says() {
    for panel_cols in 2..60 {
        for cols in 1..=panel_cols {
            let state = BoxState { cols, panel_cols, ..placed() };
            for (control, next) in [(Control::Grow, cols + 1), (Control::Shrink, cols - 1)] {
                if control.allowed(&state) {
                    let share = of(control.resized(&state).unwrap());
                    assert_eq!((share * panel_cols as f32).round() as usize, next);
                    assert!(next >= 1 && next < panel_cols);
                }
            }
        }
    }
    for percent in 1..100 {
        let share_now = percent * 10_000;
        let state = BoxState { at: At::parse("top"), share_now, ..placed() };
        if Control::Grow.allowed(&state) {
            let share = Control::Grow.resized(&state).unwrap();
            assert!(share > share_now && (100_000..=900_000).contains(&share));
        }
        if Control::Shrink.allowed(&state) {
            let share = Control::Shrink.resized(&state).unwrap();
            assert!(share < share_now && (100_000..=900_000).contains(&share));
        }
    }
}

#[test]
fn a_drop_past_the_end_is_a_drop_at_the_end() {
    assert_eq!(reordered(5, 1, 5), vec![0, 2, 3, 4, 1]);
    assert_eq!(reordered(5, 1, 6), vec![0, 2, 3, 4, 1]);
    assert_eq!(reordered(5, 1, usize::MAX), vec![0, 2, 3, 4, 1]);
}
