//! What reaches the window, and what is done about it.

use vstd::prelude::*;
use crate::clicks;
use crate::drag;
use crate::drag::cancel_press;
use crate::geometry::PX;
use crate::keys;
use crate::keys::Key;
use crate::query;
use crate::scene;
use crate::scene::{square_at, Scene};
use crate::session;
use crate::session::{both, just, none, Effect, Session, SessionView, State, Turn};

verus! {

/// The key that summons the panel.
pub const HOTKEY: i32 = 1;

/// The timer that says the panel is alive while it is up.
pub const HEARTBEAT: usize = 1;

/// The timer that asks, a moment after a mode lost focus, whether it really
/// lost it.
pub const DEACTIVATED: usize = 2;

/// A click on the tray icon.
#[derive(Debug, Clone, Copy, PartialEq, Eq, Structural)]
pub enum TrayClick {
    Left,
    Right,
    Other,
}

/// What reaches the window.
#[derive(Debug, Clone, Copy, PartialEq, Eq)]
pub enum Message {
    Hotkey(i32),
    /// A second copy was launched. Same intent as the hotkey.
    Summon,
    Timer(usize),
    Tray(TrayClick),
    ModelChanged,
    TabsChanged,
    Paired,
    IconReady,
    ConfigChanged,
    /// Where the pointer is, in whole pixels from the panel's corner. A captured
    /// drag reports points outside the window.
    MouseMove { x: i16, y: i16 },
    MouseLeave,
    ButtonDown { x: i16, y: i16 },
    ButtonUp { x: i16, y: i16 },
    RightUp { x: i16, y: i16 },
    CaptureLost,
    Wheel(i16),
    KeyDown { key: Key, repeat: bool },
    Typed(char),
    /// The window lost the focus.
    Deactivated,
    DisplayChanged,
    Other,
}

/// What the desktop says when asked.
#[derive(Debug, Clone, Copy, PartialEq, Eq)]
pub struct World {
    /// The window in front.
    pub front: Option<u64>,
    /// The panel was put out of action after a fault.
    pub neutralized: bool,
    /// How far a hand wobbles, in whole pixels.
    pub slop: (i16, i16),
}

/// A word of a message as a signed number.
pub open spec fn signed(word: int) -> int {
    if word >= 0x8000 {
        word - 0x1_0000
    } else {
        word
    }
}

/// The point in a mouse message, in whole pixels: across in the low word, down
/// in the one above it. Signed, because a captured drag reports positions
/// outside the window.
pub fn point_of(lparam: u64) -> (point: (i16, i16))
    ensures
        point.0 == signed(lparam as int % 0x1_0000),
        point.1 == signed(lparam as int / 0x1_0000 % 0x1_0000),
{
    (sign_word(lparam % 0x1_0000), sign_word(lparam / 0x1_0000 % 0x1_0000))
}

fn sign_word(word: u64) -> (n: i16)
    requires
        word < 0x1_0000,
    ensures
        n == signed(word as int),
{
    if word >= 0x8000 {
        (word as i64 - 0x1_0000) as i16
    } else {
        word as i16
    }
}

/// The focus was lost a moment ago: gone for good, or only on the way back.
#[verifier::opaque]
pub open spec fn settling(s: SessionView, front: Option<u64>) -> Turn {
    let asked = seq![Effect::StopAsking];
    if !s.state.visible || s.state.popup || s.state.arranging || front == Some(s.state.own) {
        Turn { after: s, does: asked }
    } else {
        let gone = session::hiding(s, false);
        Turn { after: gone.after, does: asked + gone.does }
    }
}

/// The settings square a point lights: the first that has the point and does
/// anything where the config stands.
pub open spec fn live_setting(
    scene: Scene,
    x: int,
    y: int,
    from: int,
) -> Option<int>
    decreases scene.settings@.len() - from,
{
    if from >= scene.settings@.len() {
        None
    } else if scene.settings@[from].1.holds(x, y) && scene.settings@[from].0.applies_to(
        scene.config,
    ) {
        Some(from)
    } else {
        live_setting(scene, x, y, from + 1)
    }
}

/// A place as a number that can be held.
pub open spec fn place(at: Option<int>) -> Option<usize> {
    match at {
        Some(at) => Some(at as usize),
        None => None,
    }
}

/// The option a point lights: the one it is on, if that applies.
pub open spec fn live_option(scene: Scene, x: int, y: int) -> Option<usize> {
    match scene::option_from(scene.options@, x, y, 0) {
        Some(i) => if scene.options@[i].allowed {
            Some(i as usize)
        } else {
            None
        },
        None => None,
    }
}

/// The box a point lights, by its section.
pub open spec fn live_box(scene: Scene, x: int, y: int, scroll: int) -> Option<usize> {
    match scene.box_under(x, y, scroll) {
        Some(band) => Some(scene.layout.bands@[band].section),
        None => None,
    }
}

/// The pointer over the settings squares.
pub open spec fn over_settings(s: SessionView, next: Option<usize>) -> Turn {
    if next == s.state.hover_setting {
        s.still()
    } else {
        Turn {
            after: s.with(State { hover_setting: next, ..s.state }),
            does: seq![Effect::RefreshSettings],
        }
    }
}

/// The pointer over the big menu.
pub open spec fn over_menu(s: SessionView, next: Option<usize>) -> Turn {
    if next == s.state.hover_menu {
        s.still()
    } else {
        Turn {
            after: s.with(State { hover_menu: next, ..s.state }),
            does: seq![Effect::RefreshMenu],
        }
    }
}

/// The pointer over the options.
pub open spec fn over_options(s: SessionView, next: Option<usize>) -> Turn {
    if next == s.state.hover_option {
        s.still()
    } else {
        Turn {
            after: s.with(State { hover_option: next, ..s.state }),
            does: seq![Effect::RefreshOptions],
        }
    }
}

/// The pointer over the boxes.
pub open spec fn over_boxes(s: SessionView, next: Option<usize>) -> Turn {
    if next == s.state.hover_box {
        s.still()
    } else {
        Turn {
            after: s.with(State { hover_box: next, ..s.state }),
            does: seq![Effect::RefreshBoxes],
        }
    }
}

/// The pointer over the corner button, or off it.
pub open spec fn over_home(s: SessionView, over: bool) -> Turn {
    if over == s.state.hover_home {
        s.still()
    } else {
        Turn {
            after: s.with(State { hover_home: over, ..s.state }),
            does: seq![Effect::RefreshMenu],
        }
    }
}

/// The pointer over whatever is on top: a surface, the boxes being edited, the
/// corner button, or the tiles.
#[verifier::opaque]
pub open spec fn over_top(s: SessionView, scene: Scene, x: int, y: int) -> Turn {
    if s.state.settings_up {
        over_settings(s, place(live_setting(scene, x, y, 0)))
    } else if s.state.menu_up {
        over_menu(s, place(scene::square_from(scene.menu@, x, y, 0)))
    } else if s.editing() {
        let optioned = over_options(s, live_option(scene, x, y));
        // A box does not light up through the plate over it.
        if scene::over(scene.plate, x, y) {
            optioned
        } else {
            optioned.then_turn(
                over_boxes(optioned.after, live_box(scene, x, y, s.state.scroll as int)),
            )
        }
    } else if scene::over(scene.home, x, y) {
        session::hovering(s, None)
    } else {
        session::hovering(s, place(scene.tile_under(x, y, s.state.scroll as int)))
    }
}

/// The pointer moving with nothing pressed.
#[verifier::opaque]
pub open spec fn pointing(s: SessionView, scene: Scene, x: int, y: int) -> Turn {
    let heard = Turn {
        after: s,
        does: if s.state.tracking {
            Seq::empty()
        } else {
            seq![Effect::Track]
        },
    };
    let homed = heard.then_turn(over_home(s, scene::over(scene.home, x, y)));
    homed.then_turn(over_top(homed.after, scene, x, y))
}

/// Neither a box nor an option under the pointer.
pub open spec fn unboxing(s: SessionView) -> Turn {
    Turn {
        after: s.with(State { hover_box: None, hover_option: None, ..s.state }),
        does: (if s.state.hover_box is Some {
            seq![Effect::RefreshBoxes]
        } else {
            Seq::empty()
        }) + (if s.state.hover_option is Some {
            seq![Effect::RefreshOptions]
        } else {
            Seq::empty()
        }),
    }
}

/// The pointer leaving the window.
#[verifier::opaque]
pub open spec fn departing(s: SessionView) -> Turn {
    let unheard = s.with(State { tracking: false, ..s.state });
    if s.editing() {
        unboxing(unheard)
    } else {
        session::hovering(unheard, None)
    }
}

/// A session whose button-down was taken by something drawn over the grid.
#[verifier::opaque]
pub open spec fn taken(s: SessionView) -> SessionView {
    s.with(State { handled_down: true, ..s.state })
}

/// The settings put away, and a question they asked with them.
#[verifier::opaque]
pub open spec fn settings_away(s: SessionView) -> Turn {
    Turn {
        after: s.with(State { settings_up: false, asking_reset: false, ..s.state }).unlit(),
        does: seq![Effect::Rebuild],
    }
}

/// The big menu put away.
#[verifier::opaque]
pub open spec fn menu_away(s: SessionView) -> Turn {
    Turn {
        after: s.with(State { menu_up: false, ..s.state }).unlit(),
        does: seq![Effect::Rebuild],
    }
}

/// A session with the button up again and nothing pressed.
#[verifier::opaque]
pub open spec fn lifted(s: SessionView) -> SessionView {
    s.with(State { handled_down: false, press: None, ..s.state })
}

/// The context menu about to be shown at a point.
#[verifier::opaque]
pub open spec fn popping(s: SessionView, x: int, y: int) -> Turn {
    Turn {
        after: s.with(State { popup: true, ..s.state }),
        does: seq![Effect::ShowPopup { x: x as i64, y: y as i64 }],
    }
}

/// The capture lost to something else: a press is let go.
#[verifier::opaque]
pub open spec fn uncaught(s: SessionView) -> Turn {
    match s.state.press {
        Some(press) => Turn {
            after: s.with(State { press: None, ..s.state }),
            does: drag::cancelling(press),
        },
        None => s.still(),
    }
}

/// The button going down. The corner button is over everything and answers
/// first; then whatever surface is up; then a mode that takes clicks. A press
/// on a tile is not yet a click.
#[verifier::opaque]
pub open spec fn downing(s: SessionView, scene: Scene, x: int, y: int) -> Turn {
    let taken = taken(s);
    if scene::over(scene.home, x, y) {
        session::pressing_home(taken)
    } else if s.state.settings_up {
        match scene::square_from(scene.settings@, x, y, 0) {
            Some(i) => clicks::setting(taken, scene.config, scene.settings@[i].0),
            // Anywhere else closes it, the way the menu does.
            None => settings_away(taken),
        }
    } else if s.state.menu_up {
        match scene::square_from(scene.menu@, x, y, 0) {
            Some(i) => clicks::command(
                taken,
                scene.board.sections@.len() > 0,
                scene.menu@[i].0,
            ),
            None => menu_away(taken),
        }
    } else if s.state.mode.takes_clicks() {
        clicks::mode_clicking(taken, scene, x, y)
    } else {
        match scene.tile_under(x, y, s.state.scroll as int) {
            Some(tile) => drag::pressing(s, scene, tile as usize, x, y),
            None => s.still(),
        }
    }
}

/// The button coming up. A drag is saved, a press that never travelled is a
/// click, and a click on the panel's own padding dismisses it. What the button
/// going down already did is not done again.
#[verifier::opaque]
pub open spec fn upping(s: SessionView, scene: Scene, x: int, y: int) -> Turn {
    let up = lifted(s);
    let tile = scene.tile_under(x, y, s.state.scroll as int);
    match s.state.press {
        Some(press) => if press.dragging && press.band is Some {
            Turn { after: up, does: seq![Effect::ReleaseCapture, Effect::SaveOrder(press)] }
        } else if press.dragging || tile != Some(press.tile as int) {
            Turn { after: up, does: drag::cancelling(press) }
        } else {
            Turn { after: up, does: drag::cancelling(press) }.then_turn(
                clicks::activating(up, scene, press.tile),
            )
        },
        None => if s.state.handled_down || s.in_mode() || s.state.menu_up || s.state.settings_up
            || scene::over(scene.home, x, y) || scene.on_strip(s.query, y) || tile is Some {
            up.still()
        } else {
            session::hiding(up, true)
        },
    }
}

/// The focus lost. The modes that take clicks hand it away as part of their
/// work, so they ask again a moment later; the rest are dismissed.
#[verifier::opaque]
pub open spec fn blurring(s: SessionView) -> (Turn, bool) {
    if s.state.popup {
        (s.still(), false)
    } else if s.state.arranging {
        (s.still(), true)
    } else if s.state.mode.takes_clicks() {
        (Turn { after: s, does: seq![Effect::AskAgain] }, true)
    } else {
        (session::hiding(s, false), true)
    }
}

/// The word that the model changed is only for a panel that is up.
#[verifier::opaque]
pub open spec fn following(s: SessionView) -> Turn {
    Turn {
        after: s,
        does: if s.state.visible {
            seq![Effect::Follow]
        } else {
            Seq::empty()
        },
    }
}

/// Whole pixels as a length.
pub open spec fn pixels(n: i16) -> int {
    n * PX
}

/// What is done about a message, and whether it is claimed.
pub open spec fn handled(s: SessionView, scene: Scene, world: World, message: Message) -> (
    Turn,
    bool,
) {
    match message {
        Message::Hotkey(id) => if id == HOTKEY {
            (session::toggling(s, world.front, world.neutralized), true)
        } else {
            (s.still(), false)
        },
        Message::Summon => (session::toggling(s, world.front, world.neutralized), true),
        Message::Timer(id) => if id == DEACTIVATED {
            (settling(s, world.front), true)
        } else {
            (s.doing(Effect::Beat), true)
        },
        Message::Tray(click) => match click {
            TrayClick::Left => (session::toggling(s, world.front, world.neutralized), true),
            TrayClick::Right => (s.doing(Effect::ShowTrayMenu), true),
            TrayClick::Other => (s.still(), true),
        },
        Message::ModelChanged => (following(s), true),
        Message::TabsChanged => (following(s), true),
        Message::Paired => (s.doing(Effect::RefreshTray), true),
        Message::IconReady => (
            if s.state.visible {
                s.doing(Effect::FillIcons)
            } else {
                s.still()
            },
            true,
        ),
        Message::ConfigChanged => (s.doing(Effect::ReloadConfig), true),
        Message::MouseMove { x, y } => (
            if s.state.press is Some {
                drag::dragging(
                    s,
                    scene.layout,
                    pixels(x),
                    pixels(y),
                    (pixels(world.slop.0), pixels(world.slop.1)),
                )
            } else {
                pointing(s, scene, pixels(x), pixels(y))
            },
            true,
        ),
        Message::MouseLeave => (departing(s), true),
        Message::ButtonDown { x, y } => (downing(s, scene, pixels(x), pixels(y)), true),
        Message::ButtonUp { x, y } => (upping(s, scene, pixels(x), pixels(y)), true),
        Message::RightUp { x, y } => (popping(s, pixels(x), pixels(y)), true),
        Message::CaptureLost => (uncaught(s), true),
        Message::Wheel(turn) => (
            keys::scrolling(s, scene.layout, s.state.scroll - pixels(turn)),
            true,
        ),
        // A hidden panel has no keyboard.
        Message::KeyDown { key, repeat } => if s.state.visible {
            keys::keying(s, scene, key, repeat)
        } else {
            (s.still(), false)
        },
        Message::Typed(c) => if s.state.visible {
            (session::typing(s, scene.layout.cols, c), true)
        } else {
            (s.still(), false)
        },
        Message::Deactivated => blurring(s),
        Message::DisplayChanged => if s.state.visible {
            (following(s), true)
        } else {
            (s.still(), false)
        },
        Message::Other => (s.still(), false),
    }
}

fn same_place(a: Option<usize>, b: Option<usize>) -> (yes: bool)
    ensures
        yes == (a == b),
{
    match (a, b) {
        (Some(a), Some(b)) => a == b,
        (None, None) => true,
        _ => false,
    }
}

fn setting_under(scene: &Scene, x: i64, y: i64) -> (at: Option<usize>)
    ensures
        at == place(live_setting(*scene, x as int, y as int, 0)),
{
    let n: usize = scene.settings.len();
    let mut i: usize = 0;
    while i < n
        invariant
            i <= n,
            n == scene.settings@.len(),
            live_setting(*scene, x as int, y as int, 0) == live_setting(
                *scene,
                x as int,
                y as int,
                i as int,
            ),
        decreases n - i,
    {
        if scene.settings[i].1.contains(x, y) && scene.settings[i].0.applies(&scene.config) {
            return Some(i);
        }
        i += 1;
    }
    None
}

fn option_under(scene: &Scene, x: i64, y: i64) -> (at: Option<usize>)
    ensures
        at == live_option(*scene, x as int, y as int),
{
    match scene.option_at(x, y) {
        Some(i) => if scene.options[i].allowed {
            Some(i)
        } else {
            None
        },
        None => None,
    }
}

fn box_under(scene: &Scene, x: i64, y: i64, scroll: i64) -> (section: Option<usize>)
    requires
        query::measured(y as int),
        query::measured(scroll as int),
    ensures
        section == live_box(*scene, x as int, y as int, scroll as int),
{
    match scene.box_at(x, y, scroll) {
        Some(band) => Some(scene.layout.bands[band].section),
        None => None,
    }
}

fn to_length(n: i16) -> (length: i64)
    ensures
        length == pixels(n),
        query::measured(length as int),
{
    n as i64 * PX
}

impl Session {
    /// The question whether the focus is still lost came due.
    pub fn settle_focus(&mut self, front: Option<u64>) -> (effects: Vec<Effect>)
        ensures
            final(self)@ == settling(old(self)@, front).after,
            effects@ == settling(old(self)@, front).does,
    {
        proof {
            reveal(settling);
        }
        let ours = match front {
            Some(front) => front == self.state.own,
            None => false,
        };
        let mut effects = just(Effect::StopAsking);
        if !self.state.visible || self.state.popup || self.state.arranging || ours {
            return effects;
        }
        let mut gone = self.dismiss(false);
        effects.append(&mut gone);
        effects
    }

    fn point_at_settings(&mut self, next: Option<usize>) -> (effects: Vec<Effect>)
        ensures
            final(self)@ == over_settings(old(self)@, next).after,
            effects@ == over_settings(old(self)@, next).does,
    {
        if same_place(next, self.state.hover_setting) {
            return none();
        }
        self.state.hover_setting = next;
        just(Effect::RefreshSettings)
    }

    fn point_at_menu(&mut self, next: Option<usize>) -> (effects: Vec<Effect>)
        ensures
            final(self)@ == over_menu(old(self)@, next).after,
            effects@ == over_menu(old(self)@, next).does,
    {
        if same_place(next, self.state.hover_menu) {
            return none();
        }
        self.state.hover_menu = next;
        just(Effect::RefreshMenu)
    }

    fn point_at_option(&mut self, next: Option<usize>) -> (effects: Vec<Effect>)
        ensures
            final(self)@ == over_options(old(self)@, next).after,
            effects@ == over_options(old(self)@, next).does,
            final(self).state.scroll == old(self).state.scroll,
    {
        if same_place(next, self.state.hover_option) {
            return none();
        }
        self.state.hover_option = next;
        just(Effect::RefreshOptions)
    }

    fn point_at_box(&mut self, next: Option<usize>) -> (effects: Vec<Effect>)
        ensures
            final(self)@ == over_boxes(old(self)@, next).after,
            effects@ == over_boxes(old(self)@, next).does,
    {
        if same_place(next, self.state.hover_box) {
            return none();
        }
        self.state.hover_box = next;
        just(Effect::RefreshBoxes)
    }

    fn point_at_home(&mut self, over: bool) -> (effects: Vec<Effect>)
        ensures
            final(self)@ == over_home(old(self)@, over).after,
            effects@ == over_home(old(self)@, over).does,
            final(self).state.scroll == old(self).state.scroll,
    {
        if over == self.state.hover_home {
            return none();
        }
        self.state.hover_home = over;
        just(Effect::RefreshMenu)
    }

    fn point_at_top(&mut self, scene: &Scene, x: i64, y: i64) -> (effects: Vec<Effect>)
        requires
            scene.wf(),
            query::measured(y as int),
            query::measured(old(self).state.scroll as int),
        ensures
            final(self)@ == over_top(old(self)@, *scene, x as int, y as int).after,
            effects@ == over_top(old(self)@, *scene, x as int, y as int).does,
    {
        proof {
            reveal(over_top);
        }
        if self.state.settings_up {
            return self.point_at_settings(setting_under(scene, x, y));
        }
        if self.state.menu_up {
            return self.point_at_menu(square_at(&scene.menu, x, y));
        }
        if self.editing() {
            let scroll = self.state.scroll;
            let mut effects = self.point_at_option(option_under(scene, x, y));
            if !scene.on_plate(x, y) {
                let mut boxed = self.point_at_box(box_under(scene, x, y, scroll));
                effects.append(&mut boxed);
            }
            return effects;
        }
        if scene.on_home(x, y) {
            return self.set_hover(None);
        }
        self.set_hover(scene.tile_at(x, y, self.state.scroll))
    }

    /// The pointer moved with nothing pressed.
    pub fn point(&mut self, scene: &Scene, x: i64, y: i64) -> (effects: Vec<Effect>)
        requires
            scene.wf(),
            query::measured(y as int),
            query::measured(old(self).state.scroll as int),
        ensures
            final(self)@ == pointing(old(self)@, *scene, x as int, y as int).after,
            effects@ == pointing(old(self)@, *scene, x as int, y as int).does,
    {
        proof {
            reveal(pointing);
        }
        let mut effects = none();
        if !self.state.tracking {
            effects.push(Effect::Track);
        }
        let ghost heard = effects@;
        let mut homed = self.point_at_home(scene.on_home(x, y));
        let mut top = self.point_at_top(scene, x, y);
        let ghost (first, second) = (homed@, top@);
        effects.append(&mut homed);
        effects.append(&mut top);
        assert(effects@ =~= heard + first + second);
        effects
    }

    fn leave_boxes(&mut self) -> (effects: Vec<Effect>)
        ensures
            final(self)@ == unboxing(old(self)@).after,
            effects@ == unboxing(old(self)@).does,
    {
        let mut effects = none();
        if self.state.hover_box.is_some() {
            effects.push(Effect::RefreshBoxes);
        }
        if self.state.hover_option.is_some() {
            effects.push(Effect::RefreshOptions);
        }
        assert(effects@ =~= unboxing(self@).does);
        self.state.hover_box = None;
        self.state.hover_option = None;
        effects
    }

    /// The pointer left the window.
    pub fn leave(&mut self) -> (effects: Vec<Effect>)
        ensures
            final(self)@ == departing(old(self)@).after,
            effects@ == departing(old(self)@).does,
    {
        proof {
            reveal(departing);
        }
        self.state.tracking = false;
        if self.editing() {
            self.leave_boxes()
        } else {
            self.set_hover(None)
        }
    }

    fn take_down(&mut self)
        ensures
            final(self)@ == taken(old(self)@),
            final(self).state.scroll == old(self).state.scroll,
    {
        proof {
            reveal(taken);
        }
        self.state.handled_down = true;
    }

    fn put_settings_away(&mut self) -> (effects: Vec<Effect>)
        ensures
            final(self)@ == settings_away(old(self)@).after,
            effects@ == settings_away(old(self)@).does,
    {
        proof {
            reveal(settings_away);
        }
        self.state.settings_up = false;
        self.state.asking_reset = false;
        self.unlight();
        just(Effect::Rebuild)
    }

    fn put_menu_away(&mut self) -> (effects: Vec<Effect>)
        ensures
            final(self)@ == menu_away(old(self)@).after,
            effects@ == menu_away(old(self)@).does,
    {
        proof {
            reveal(menu_away);
        }
        self.state.menu_up = false;
        self.unlight();
        just(Effect::Rebuild)
    }

    fn lift(&mut self)
        ensures
            final(self)@ == lifted(old(self)@),
            final(self).state.scroll == old(self).state.scroll,
            final(self).state.menu_up == old(self).state.menu_up,
            final(self).state.settings_up == old(self).state.settings_up,
            final(self)@.in_mode() == old(self)@.in_mode(),
            final(self)@.query == old(self)@.query,
    {
        proof {
            reveal(lifted);
        }
        self.state.handled_down = false;
        self.state.press = None;
    }

    fn open_popup(&mut self, x: i64, y: i64) -> (effects: Vec<Effect>)
        ensures
            final(self)@ == popping(old(self)@, x as int, y as int).after,
            effects@ == popping(old(self)@, x as int, y as int).does,
    {
        proof {
            reveal(popping);
        }
        self.state.popup = true;
        just(Effect::ShowPopup { x, y })
    }

    /// The button went down.
    pub fn button_down(&mut self, scene: &Scene, x: i64, y: i64) -> (effects: Vec<Effect>)
        requires
            scene.wf(),
            query::measured(x as int),
            query::measured(y as int),
            query::measured(old(self).state.scroll as int),
        ensures
            final(self)@ == downing(old(self)@, *scene, x as int, y as int).after,
            effects@ == downing(old(self)@, *scene, x as int, y as int).does,
    {
        proof {
            reveal(downing);
        }
        if scene.on_home(x, y) {
            self.take_down();
            return self.press_home();
        }
        if self.state.settings_up {
            self.take_down();
            return match square_at(&scene.settings, x, y) {
                Some(i) => self.run_setting(&scene.config, scene.settings[i].0),
                None => self.put_settings_away(),
            };
        }
        if self.state.menu_up {
            self.take_down();
            return match square_at(&scene.menu, x, y) {
                Some(i) => self.run_command(
                    scene.board.sections.len() > 0,
                    scene.menu[i].0,
                ),
                None => self.put_menu_away(),
            };
        }
        if self.state.mode.takes_clicks() {
            self.take_down();
            return self.mode_click(scene, x, y);
        }
        match scene.tile_at(x, y, self.state.scroll) {
            Some(tile) => self.begin_press(scene, tile, x, y),
            None => none(),
        }
    }

    /// The button came up.
    pub fn button_up(&mut self, scene: &Scene, x: i64, y: i64) -> (effects: Vec<Effect>)
        requires
            scene.wf(),
            query::measured(old(self).state.scroll as int),
        ensures
            final(self)@ == upping(old(self)@, *scene, x as int, y as int).after,
            effects@ == upping(old(self)@, *scene, x as int, y as int).does,
    {
        proof {
            reveal(upping);
        }
        let handled = self.state.handled_down;
        let pressed = self.state.press;
        self.lift();
        let tile = scene.tile_at(x, y, self.state.scroll);
        if let Some(press) = pressed {
            if press.dragging && press.band.is_some() {
                return both(Effect::ReleaseCapture, Effect::SaveOrder(press));
            }
            let mut effects = cancel_press(&press);
            if !press.dragging && same_place(tile, Some(press.tile)) {
                let mut clicked = self.activate(scene, press.tile);
                effects.append(&mut clicked);
            }
            return effects;
        }
        if handled || self.in_mode() || self.state.menu_up || self.state.settings_up {
            return none();
        }
        if scene.on_home(x, y) || scene.search_hit(&self.query, y) || tile.is_some() {
            return none();
        }
        self.dismiss(true)
    }

    /// The window lost the focus.
    pub fn blur(&mut self) -> (got: (Vec<Effect>, bool))
        ensures
            final(self)@ == blurring(old(self)@).0.after,
            got.0@ == blurring(old(self)@).0.does,
            got.1 == blurring(old(self)@).1,
    {
        proof {
            reveal(blurring);
        }
        if self.state.popup {
            return (none(), false);
        }
        if self.state.arranging {
            return (none(), true);
        }
        if self.state.mode.takes_clicks() {
            return (just(Effect::AskAgain), true);
        }
        (self.dismiss(false), true)
    }

    fn follow_if_up(&self) -> (effects: Vec<Effect>)
        ensures
            effects@ == following(self@).does,
            following(self@).after == self@,
    {
        proof {
            reveal(following);
        }
        if self.state.visible {
            just(Effect::Follow)
        } else {
            none()
        }
    }

    fn lose_capture(&mut self) -> (effects: Vec<Effect>)
        ensures
            final(self)@ == uncaught(old(self)@).after,
            effects@ == uncaught(old(self)@).does,
    {
        proof {
            reveal(uncaught);
        }
        match self.state.press {
            Some(press) => {
                self.state.press = None;
                cancel_press(&press)
            },
            None => none(),
        }
    }

    /// A message reached the window. One that is not claimed is for the
    /// desktop's own handling.
    #[verifier::spinoff_prover]
    pub fn handle(&mut self, scene: &Scene, world: &World, message: Message) -> (got: (
        Vec<Effect>,
        bool,
    ))
        requires
            scene.wf(),
            query::measured(old(self).state.scroll as int),
            message is MouseMove ==> (old(self).state.press matches Some(press) ==> drag::fits(
                press,
                scene.layout,
            )),
        ensures
            final(self)@ == handled(old(self)@, *scene, *world, message).0.after,
            got.0@ == handled(old(self)@, *scene, *world, message).0.does,
            got.1 == handled(old(self)@, *scene, *world, message).1,
    {
        match message {
            Message::Hotkey(id) => if id == HOTKEY {
                (self.toggle(world.front, world.neutralized), true)
            } else {
                (none(), false)
            },
            Message::Summon => (self.toggle(world.front, world.neutralized), true),
            Message::Timer(id) => if id == DEACTIVATED {
                (self.settle_focus(world.front), true)
            } else {
                (just(Effect::Beat), true)
            },
            Message::Tray(click) => match click {
                TrayClick::Left => (self.toggle(world.front, world.neutralized), true),
                TrayClick::Right => (just(Effect::ShowTrayMenu), true),
                TrayClick::Other => (none(), true),
            },
            Message::ModelChanged => (self.follow_if_up(), true),
            Message::TabsChanged => (self.follow_if_up(), true),
            Message::Paired => (just(Effect::RefreshTray), true),
            Message::IconReady => if self.state.visible {
                (just(Effect::FillIcons), true)
            } else {
                (none(), true)
            },
            Message::ConfigChanged => (just(Effect::ReloadConfig), true),
            Message::MouseMove { x, y } => {
                let (px, py) = (to_length(x), to_length(y));
                if self.state.press.is_some() {
                    let slop = (to_length(world.slop.0), to_length(world.slop.1));
                    (self.press_moved_to(&scene.layout, px, py, slop), true)
                } else {
                    (self.point(scene, px, py), true)
                }
            },
            Message::MouseLeave => (self.leave(), true),
            Message::ButtonDown { x, y } => (
                self.button_down(scene, to_length(x), to_length(y)),
                true,
            ),
            Message::ButtonUp { x, y } => (
                self.button_up(scene, to_length(x), to_length(y)),
                true,
            ),
            Message::RightUp { x, y } => (self.open_popup(to_length(x), to_length(y)), true),
            Message::CaptureLost => (self.lose_capture(), true),
            Message::Wheel(turn) => (self.scroll_by(&scene.layout, turn), true),
            Message::KeyDown { key, repeat } => if self.state.visible {
                self.on_key(scene, key, repeat)
            } else {
                (none(), false)
            },
            Message::Typed(c) => if self.state.visible {
                (self.on_char(scene.layout.cols, c), true)
            } else {
                (none(), false)
            },
            Message::Deactivated => self.blur(),
            Message::DisplayChanged => if self.state.visible {
                (self.follow_if_up(), true)
            } else {
                (none(), false)
            },
            Message::Other => (none(), false),
        }
    }
}

} // verus!
