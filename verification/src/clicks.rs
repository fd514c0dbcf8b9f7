//! What a click does.

use vstd::prelude::*;
use crate::board;
use crate::board::Board;
use crate::config::{Change, Config, SectionConfig};
use crate::menu::Command;
use crate::model::{Item, Kind, Mode, Move, Source, Target};
use crate::num;
use crate::query;
use crate::scene;
use crate::scene::{EditOption, Scene};
use crate::session;
use crate::session::{both, just, none, Effect, Lane, Picked, Session, SessionView, State, Turn};
use crate::settings;
use crate::settings::{center_holds_next, center_resize, center_toggle, Setting};
use crate::text::same;

verus! {

/// One settings square clicked. The surface stays up, unlike the menu: settings
/// are the one thing done several of in a row.
#[verifier::opaque]
pub open spec fn setting(s: SessionView, config: Config, setting: Setting) -> Turn {
    let refocused = |state: State|
        Turn { after: s.with(state).unlit(), does: seq![Effect::Rebuild, Effect::KeepFocus] };
    match setting {
        Setting::Done => Turn {
            after: s.with(State { settings_up: false, asking_reset: false, ..s.state }).unlit(),
            does: seq![Effect::Rebuild],
        },
        Setting::OpenFile => Turn {
            after: s.with(State { settings_up: false, asking_reset: false, ..s.state }).unlit(),
            does: seq![Effect::OpenConfig, Effect::Rebuild],
        },
        _ => if !setting.applies_to(config) {
            s.still()
        } else {
            match setting {
                // The reset asks first, and the question takes the surface.
                Setting::Reset => refocused(State { asking_reset: true, ..s.state }),
                Setting::ResetNo => refocused(State { asking_reset: false, ..s.state }),
                Setting::ResetYes => Turn {
                    after: s.with(State { asking_reset: false, ..s.state }),
                    does: seq![Effect::ResetLayout],
                },
                _ => Turn {
                    after: s,
                    does: match setting.writes(config) {
                        Some(change) => seq![Effect::Write(change)],
                        None => Seq::empty(),
                    },
                },
            }
        },
    }
}

/// Whatever the big menu was asked for. Each square closes it: none of them are
/// things done twice in a row.
#[verifier::opaque]
pub open spec fn command(s: SessionView, boxed: bool, command: Command) -> Turn {
    let closed = s.with(State { menu_up: false, ..s.state });
    match command.mode() {
        Some(mode) => session::entering(closed, boxed, mode),
        None => match command {
            Command::AddApp => Turn { after: closed, does: seq![Effect::Pick(Picked::App)] },
            Command::AddFolder => Turn { after: closed, does: seq![Effect::Pick(Picked::Folder)] },
            Command::AddFile => Turn { after: closed, does: seq![Effect::Pick(Picked::File)] },
            Command::Settings => Turn {
                after: closed.with(
                    State { settings_up: true, asking_reset: false, ..closed.state },
                ).unlit(),
                does: seq![Effect::Rebuild],
            },
            _ => Turn { after: closed.unlit(), does: seq![Effect::Rebuild] },
        },
    }
}

/// The window the bar acts on being sent somewhere. The panel stays up: these
/// are clicked in runs.
#[verifier::opaque]
pub open spec fn arranging(s: SessionView, moving: Option<u64>, to: Move) -> Turn {
    match moving {
        None => s.still(),
        Some(handle) => Turn {
            after: s.with(State { arranging: true, ..s.state }),
            does: seq![Effect::Arrange { handle, to }],
        },
    }
}

/// A tile taken as the thing to move, without leaving for it. One with nothing
/// of it open is started, and its window taken when it turns up.
#[verifier::opaque]
pub open spec fn picking(s: SessionView, board: Board, dry: bool, tile: usize) -> Turn {
    let item = board.tile(tile as int);
    let held = s.with(State { stay: true, ..s.state }).unlit();
    let shown = seq![Effect::FrameTarget, Effect::Rebuild];
    match board.window_behind(item) {
        Some(handle) => Turn {
            after: SessionView {
                pending: None,
                ..held.with(State { target: Some(handle), ..held.state })
            },
            does: shown,
        },
        None => if item.kind == Kind::App || item.kind == Kind::Folder {
            Turn {
                after: SessionView {
                    pending: board::words(item.app),
                    ..held.with(State { target: None, ..held.state })
                },
                does: seq![
                    if dry {
                        Effect::SayWould(tile)
                    } else {
                        Effect::Launch(tile)
                    },
                ] + shown,
            }
        } else {
            // A tab or a link is not a window.
            Turn { after: held, does: shown }
        },
    }
}

/// A tile gone to. The panel gets out of the way first, and does not put the
/// caller back: it is about to be replaced.
#[verifier::opaque]
pub open spec fn going(s: SessionView, dry: bool, tile: usize) -> Turn {
    if dry {
        let gone = session::hiding(s, true);
        Turn { after: gone.after, does: seq![Effect::SayWould(tile)] + gone.does }
    } else {
        let gone = session::hiding(s, false);
        Turn { after: gone.after, does: gone.does + seq![Effect::Activate(tile)] }
    }
}

/// A tile clicked.
#[verifier::opaque]
pub open spec fn activating(s: SessionView, scene: Scene, tile: usize) -> Turn {
    let boxed = scene.board.sections@.len() > 0;
    if !scene.board.has(tile as int) {
        s.still()
    } else {
        match scene.board.tile(tile as int).target {
            // An empty square says what it is for by doing it: the mode comes up
            // aimed at the square that was clicked.
            Target::Slot => {
                let on = session::entering(s, boxed, Mode::Favorites);
                Turn {
                    after: on.after.with(
                        State {
                            filling: scene.board.half_of(scene.drawn, tile as int),
                            ..on.after.state
                        },
                    ),
                    does: on.does + seq![Effect::RefreshLanding],
                }
            },
            // The same square turns the mode on and off.
            Target::Mode(mode) => if s.state.mode == mode {
                session::leaving(s)
            } else {
                session::entering(s, boxed, mode)
            },
            Target::Stay => session::latching(s),
            Target::Arrange(to) => arranging(s, scene.moving, to),
            // Not a window, so holding the panel open has nothing to pick.
            Target::NewTab => going(s, scene.config.dry_run, tile),
            _ => if s.state.stay {
                picking(s, scene.board, scene.config.dry_run, tile)
            } else {
                going(s, scene.config.dry_run, tile)
            },
        }
    }
}

/// A tile put into the centre block, or taken back out. One gesture both ways.
#[verifier::opaque]
pub open spec fn favoring(s: SessionView, scene: Scene, tile: usize) -> Turn {
    if !scene.board.has(tile as int) {
        s.still()
    } else {
        let item = scene.board.tile(tile as int);
        if item.target is Slot {
            // An empty square is where things land: clicking one aims the mode
            // at its list, and clicking the one it is aimed at turns it off.
            let half = scene.board.half_of(scene.drawn, tile as int);
            if half is Some && half == s.state.filling {
                session::leaving(s)
            } else {
                Turn {
                    after: s.with(State { filling: half, ..s.state }),
                    does: seq![Effect::RefreshLanding],
                }
            }
        } else if !scene.board.center_takes(scene.drawn, item) {
            s.still()
        } else if item.origin == Source::Center {
            Turn { after: s, does: seq![Effect::ForgetInCenter(tile)] }
        } else {
            Turn { after: s, does: seq![Effect::AddToCenter { half: item.half, tile }] }
        }
    }
}

/// The window behind a tile asked to close. Never the panel's own.
#[verifier::opaque]
pub open spec fn closing(s: SessionView, scene: Scene, tile: usize) -> Turn {
    if !scene.board.has(tile as int) {
        s.still()
    } else {
        match scene.board.window_behind(scene.board.tile(tile as int)) {
            None => s.still(),
            Some(handle) => if handle == s.state.own {
                s.still()
            } else if scene.config.dry_run {
                Turn { after: s, does: seq![Effect::SayWouldClose(handle)] }
            } else {
                Turn { after: s, does: seq![Effect::Close(handle)] }
            },
        }
    }
}

/// The most tiles a box is set to show, as the config has it from `from` on. 0
/// is all of them.
pub open spec fn cap_from(sections: Seq<SectionConfig>, title: Seq<char>, from: int) -> usize
    decreases sections.len() - from,
{
    if from >= sections.len() {
        0
    } else if sections[from].title@ == title {
        sections[from].max_items
    } else {
        cap_from(sections, title, from + 1)
    }
}

/// The box being edited: its title, and how many tiles it shows. `None` when
/// nothing is picked.
pub open spec fn edited(s: SessionView, board: Board) -> Option<(Seq<char>, nat)> {
    match s.state.edit {
        Some(section) => if section < board.sections@.len() {
            let section = board.sections@[section as int];
            Some((section.title@, section.items@.len()))
        } else {
            None
        },
        None => None,
    }
}

/// The write that has the box being edited show a number of tiles, unless that
/// is what it is set to.
pub open spec fn show_count(s: SessionView, scene: Scene, count: nat) -> Seq<Effect> {
    match edited(s, scene.board) {
        Some((title, _)) => if cap_from(scene.config.sections@, title, 0) != count {
            seq![Effect::SetShown(count as usize)]
        } else {
            Seq::empty()
        },
        None => Seq::empty(),
    }
}

/// An option of the box being edited taken.
#[verifier::opaque]
pub open spec fn applying(s: SessionView, scene: Scene, option: EditOption) -> Turn {
    let shown = match edited(s, scene.board) {
        Some((_, shown)) => shown,
        None => 0,
    };
    match option {
        EditOption::Done => session::leaving(s),
        EditOption::Fewer => Turn {
            after: s,
            does: show_count(s, scene, num::larger(shown - 1, 1) as nat),
        },
        EditOption::More => Turn {
            after: s,
            does: show_count(s, scene, num::smaller(shown as int + 1, usize::MAX as int) as nat),
        },
        // One write, and nothing else on the panel moves. None at all where the
        // config says so already.
        EditOption::Left | EditOption::Right | EditOption::FullWidth => Turn {
            after: s,
            does: if edited(s, scene.board) is Some && scene.spelled != option.put_in() {
                seq![Effect::SetLane(option.put_in()->0)]
            } else {
                Seq::empty()
            },
        },
        EditOption::CenterHolds => Turn {
            after: s,
            does: seq![
                Effect::WriteCenter(
                    Change::CenterContents(
                        settings::contents_after(scene.config.center.contents),
                    ),
                ),
            ],
        },
        EditOption::CenterOn => Turn {
            after: s,
            does: seq![Effect::WriteCenter(settings::toggled(scene.config))],
        },
        EditOption::MoveUp | EditOption::MoveDown => Turn {
            after: s,
            does: if edited(s, scene.board) is Some {
                seq![Effect::MoveSection(option == EditOption::MoveUp)]
            } else {
                Seq::empty()
            },
        },
        _ => Turn {
            after: s,
            does: match settings::resized(
                scene.config,
                option.reshapes().0 as isize,
                option.reshapes().1 as isize,
            ) {
                Some(change) => seq![Effect::WriteCenter(change)],
                None => Seq::empty(),
            },
        },
    }
}

/// A box picked to edit. Picking it again puts its options away: they sit over
/// the middle of the panel, so there has to be a way to clear them.
#[verifier::opaque]
pub open spec fn boxing(s: SessionView, scene: Scene, x: int, y: int) -> Turn {
    match scene.section_under(x, y, s.state.scroll as int) {
        None => s.still(),
        Some(section) => Turn {
            after: s.with(
                State {
                    edit: if s.state.edit == Some(section as usize) {
                        None
                    } else {
                        Some(section as usize)
                    },
                    ..s.state
                },
            ).unlit(),
            does: seq![Effect::Rebuild],
        },
    }
}

/// A click while editing: an option if it hit one, otherwise the box under it.
/// The plate answers for the whole of itself, greyed squares and gaps included.
#[verifier::opaque]
pub open spec fn edit_clicking(s: SessionView, scene: Scene, x: int, y: int) -> Turn {
    let turn = if scene::over(scene.plate, x, y) {
        match scene::option_from(scene.options@, x, y, 0) {
            Some(i) => if scene.options@[i].allowed {
                applying(s, scene, scene.options@[i].option)
            } else {
                s.still()
            },
            None => s.still(),
        }
    } else {
        boxing(s, scene, x, y)
    };
    turn.and(seq![Effect::KeepFocus])
}

/// A click on the grid while a mode takes clicks. The squares that turn modes
/// on turn them off, and a click on the panel's own padding dismisses.
#[verifier::opaque]
pub open spec fn mode_clicking(s: SessionView, scene: Scene, x: int, y: int) -> Turn {
    let tile = scene.tile_under(x, y, s.state.scroll as int);
    if !scene::over(scene.plate, x, y) && tile is Some && scene.board.has(tile->0)
        && scene.board.tile(tile->0).target is Mode {
        activating(s, scene, tile->0 as usize).and(seq![Effect::KeepFocus])
    } else {
        match s.state.mode {
            Mode::Layout => edit_clicking(s, scene, x, y),
            Mode::Favorites => match tile {
                Some(tile) => favoring(s, scene, tile as usize).and(seq![Effect::KeepFocus]),
                None => session::hiding(s, true),
            },
            Mode::Close => match tile {
                Some(tile) => closing(s, scene, tile as usize).and(seq![Effect::KeepFocus]),
                None => session::hiding(s, true),
            },
            // These leave the grid alone.
            _ => s.still(),
        }
    }
}

impl Session {
    /// One settings square was clicked.
    #[verifier::rlimit(60)]
    pub fn run_setting(&mut self, config: &Config, square: Setting) -> (effects: Vec<Effect>)
        ensures
            final(self)@ == setting(old(self)@, *config, square).after,
            effects@ == setting(old(self)@, *config, square).does,
    {
        proof {
            reveal(setting);
        }
        match square {
            Setting::Done => {
                self.state.settings_up = false;
                self.state.asking_reset = false;
                self.unlight();
                return just(Effect::Rebuild);
            },
            Setting::OpenFile => {
                self.state.settings_up = false;
                self.state.asking_reset = false;
                self.unlight();
                return both(Effect::OpenConfig, Effect::Rebuild);
            },
            _ => {},
        }
        // A square that does not apply is not applied either. The surface greys
        // it out; this is the half that makes that true.
        if !square.applies(config) {
            return none();
        }
        match square {
            Setting::Reset => {
                self.state.asking_reset = true;
                self.unlight();
                both(Effect::Rebuild, Effect::KeepFocus)
            },
            Setting::ResetNo => {
                self.state.asking_reset = false;
                self.unlight();
                both(Effect::Rebuild, Effect::KeepFocus)
            },
            Setting::ResetYes => {
                self.state.asking_reset = false;
                just(Effect::ResetLayout)
            },
            _ => match square.next(config) {
                Some(change) => just(Effect::Write(change)),
                None => none(),
            },
        }
    }

    /// Whatever the big menu was asked for.
    #[verifier::rlimit(40)]
    pub fn run_command(&mut self, boxed: bool, square: Command) -> (effects: Vec<Effect>)
        ensures
            final(self)@ == command(old(self)@, boxed, square).after,
            effects@ == command(old(self)@, boxed, square).does,
    {
        proof {
            reveal(command);
        }
        let ghost start = self@;
        self.state.menu_up = false;
        assert(self@ == start.with(State { menu_up: false, ..start.state }));
        if let Some(mode) = square.mode() {
            return self.enter_mode(boxed, mode);
        }
        match square {
            Command::AddApp => just(Effect::Pick(Picked::App)),
            Command::AddFolder => just(Effect::Pick(Picked::Folder)),
            Command::AddFile => just(Effect::Pick(Picked::File)),
            // The squares, not the file. Opening the file is one of them.
            Command::Settings => {
                self.state.settings_up = true;
                self.state.asking_reset = false;
                self.unlight();
                just(Effect::Rebuild)
            },
            _ => {
                self.unlight();
                just(Effect::Rebuild)
            },
        }
    }

    /// Send the window the bar acts on somewhere.
    pub fn arrange(&mut self, moving: Option<u64>, to: Move) -> (effects: Vec<Effect>)
        ensures
            final(self)@ == arranging(old(self)@, moving, to).after,
            effects@ == arranging(old(self)@, moving, to).does,
    {
        proof {
            reveal(arranging);
        }
        match moving {
            None => none(),
            Some(handle) => {
                self.state.arranging = true;
                just(Effect::Arrange { handle, to })
            },
        }
    }

    /// Take a tile as the thing to move, without leaving for it.
    fn pick(&mut self, board: &Board, dry: bool, tile: usize, item: &Item) -> (effects: Vec<Effect>)
        requires
            board.wf(),
            *item == board.tile(tile as int),
        ensures
            final(self)@ == picking(old(self)@, *board, dry, tile).after,
            effects@ == picking(old(self)@, *board, dry, tile).does,
    {
        proof {
            reveal(picking);
        }
        let ghost start = self@;
        self.state.stay = true;
        self.unlight();
        let ghost held = self@;
        assert(held == start.with(State { stay: true, ..start.state }).unlit());
        if let Some(handle) = board.window_for(item) {
            self.state.target = Some(handle);
            self.pending = None;
            return both(Effect::FrameTarget, Effect::Rebuild);
        }
        if item.kind == Kind::App || item.kind == Kind::Folder {
            self.pending = match &item.app {
                Some(app) => Some(app.clone()),
                None => None,
            };
            self.state.target = None;
            let mut effects = just(
                if dry {
                    Effect::SayWould(tile)
                } else {
                    Effect::Launch(tile)
                },
            );
            effects.push(Effect::FrameTarget);
            effects.push(Effect::Rebuild);
            assert(effects@ =~= picking(start, *board, dry, tile).does);
            return effects;
        }
        both(Effect::FrameTarget, Effect::Rebuild)
    }

    /// Go to what a tile stands for.
    fn go(&mut self, dry: bool, tile: usize) -> (effects: Vec<Effect>)
        ensures
            final(self)@ == going(old(self)@, dry, tile).after,
            effects@ == going(old(self)@, dry, tile).does,
    {
        proof {
            reveal(going);
        }
        if dry {
            let mut effects = just(Effect::SayWould(tile));
            let mut gone = self.dismiss(true);
            effects.append(&mut gone);
            effects
        } else {
            let mut effects = self.dismiss(false);
            effects.push(Effect::Activate(tile));
            assert(effects@ =~= going(old(self)@, dry, tile).does);
            effects
        }
    }

    /// A tile was clicked.
    pub fn activate(&mut self, scene: &Scene, tile: usize) -> (effects: Vec<Effect>)
        requires
            scene.wf(),
        ensures
            final(self)@ == activating(old(self)@, *scene, tile).after,
            effects@ == activating(old(self)@, *scene, tile).does,
    {
        proof {
            reveal(activating);
        }
        let boxed = scene.board.sections.len() > 0;
        let dry = scene.config.dry_run;
        let item = match scene.board.item(tile) {
            Some(item) => item,
            None => {
                return none();
            },
        };
        match &item.target {
            Target::Slot => {
                let half = scene.board.slot_half(&scene.drawn, tile);
                let mut effects = self.enter_mode(boxed, Mode::Favorites);
                self.state.filling = half;
                let ghost on = effects@;
                effects.push(Effect::RefreshLanding);
                assert(effects@ =~= on + seq![Effect::RefreshLanding]);
                effects
            },
            Target::Mode(mode) => if self.state.mode == *mode {
                self.leave_mode()
            } else {
                self.enter_mode(boxed, *mode)
            },
            Target::Stay => self.toggle_stay(),
            Target::Arrange(to) => self.arrange(scene.moving, *to),
            Target::NewTab => self.go(dry, tile),
            _ => if self.state.stay {
                self.pick(&scene.board, dry, tile, item)
            } else {
                self.go(dry, tile)
            },
        }
    }

    /// Put a tile into the centre block, or take it back out.
    pub fn toggle_center(&mut self, scene: &Scene, tile: usize) -> (effects: Vec<Effect>)
        requires
            scene.wf(),
        ensures
            final(self)@ == favoring(old(self)@, *scene, tile).after,
            effects@ == favoring(old(self)@, *scene, tile).does,
    {
        proof {
            reveal(favoring);
        }
        let item = match scene.board.item(tile) {
            Some(item) => item,
            None => {
                return none();
            },
        };
        if item.target.is_slot() {
            let half = scene.board.slot_half(&scene.drawn, tile);
            let aimed = match (half, self.state.filling) {
                (Some(half), Some(filling)) => half == filling,
                _ => false,
            };
            if aimed {
                return self.leave_mode();
            }
            self.state.filling = half;
            return just(Effect::RefreshLanding);
        }
        match scene.board.center_would(&scene.drawn, item) {
            None => none(),
            Some((half, _)) => if item.origin == Source::Center {
                just(Effect::ForgetInCenter(tile))
            } else {
                just(Effect::AddToCenter { half, tile })
            },
        }
    }

    /// Ask the window behind a tile to close.
    pub fn close_tile(&self, scene: &Scene, tile: usize) -> (effects: Vec<Effect>)
        requires
            scene.wf(),
        ensures
            effects@ == closing(self@, *scene, tile).does,
            closing(self@, *scene, tile).after == self@,
    {
        proof {
            reveal(closing);
        }
        match scene.board.item(tile) {
            None => none(),
            Some(item) => match scene.board.window_for(item) {
                None => none(),
                Some(handle) => if handle == self.state.own {
                    none()
                } else if scene.config.dry_run {
                    just(Effect::SayWouldClose(handle))
                } else {
                    just(Effect::Close(handle))
                },
            },
        }
    }

    /// Pick the box under a point, or put its options away.
    pub fn pick_box(&mut self, scene: &Scene, x: i64, y: i64) -> (effects: Vec<Effect>)
        requires
            query::measured(y as int),
            query::measured(old(self).state.scroll as int),
        ensures
            final(self)@ == boxing(old(self)@, *scene, x as int, y as int).after,
            effects@ == boxing(old(self)@, *scene, x as int, y as int).does,
    {
        proof {
            reveal(boxing);
        }
        match scene.section_at(x, y, self.state.scroll) {
            None => none(),
            Some(section) => {
                let again = match self.state.edit {
                    Some(edit) => edit == section,
                    None => false,
                };
                self.state.edit = if again {
                    None
                } else {
                    Some(section)
                };
                self.unlight();
                just(Effect::Rebuild)
            },
        }
    }

    fn show_count(&self, scene: &Scene, count: usize) -> (effects: Vec<Effect>)
        ensures
            effects@ == show_count(self@, *scene, count as nat),
    {
        match self.state.edit {
            Some(section) => if section < scene.board.sections.len() {
                let title = scene.board.sections[section].title.as_str();
                if cap_of(&scene.config.sections, title) != count {
                    just(Effect::SetShown(count))
                } else {
                    none()
                }
            } else {
                none()
            },
            None => none(),
        }
    }

    /// Take an option of the box being edited. Every one of these is also a
    /// key, but the square is the way it is meant to be reached.
    pub fn apply_option(&mut self, scene: &Scene, option: EditOption) -> (effects: Vec<Effect>)
        ensures
            final(self)@ == applying(old(self)@, *scene, option).after,
            effects@ == applying(old(self)@, *scene, option).does,
    {
        proof {
            reveal(applying);
        }
        let picked = match self.state.edit {
            Some(section) => section < scene.board.sections.len(),
            None => false,
        };
        let shown: usize = match self.state.edit {
            Some(section) => if section < scene.board.sections.len() {
                scene.board.sections[section].items.len()
            } else {
                0
            },
            None => 0,
        };
        match option {
            EditOption::Done => self.leave_mode(),
            EditOption::Fewer => self.show_count(
                scene,
                if shown > 2 {
                    shown - 1
                } else {
                    1
                },
            ),
            EditOption::More => self.show_count(scene, shown.saturating_add(1)),
            EditOption::Left | EditOption::Right | EditOption::FullWidth => match option.lane() {
                Some(lane) => if picked && !same_lane(scene.spelled, lane) {
                    just(Effect::SetLane(lane))
                } else {
                    none()
                },
                None => none(),
            },
            EditOption::CenterHolds => just(Effect::WriteCenter(center_holds_next(&scene.config))),
            EditOption::CenterOn => just(Effect::WriteCenter(center_toggle(&scene.config))),
            EditOption::MoveUp => if picked {
                just(Effect::MoveSection(true))
            } else {
                none()
            },
            EditOption::MoveDown => if picked {
                just(Effect::MoveSection(false))
            } else {
                none()
            },
            _ => {
                let (across, down): (isize, isize) = match option {
                    EditOption::CenterNarrower => (-1, 0),
                    EditOption::CenterWider => (1, 0),
                    EditOption::CenterShorter => (0, -1),
                    _ => (0, 1),
                };
                match center_resize(&scene.config, across, down) {
                    Some(change) => just(Effect::WriteCenter(change)),
                    None => none(),
                }
            },
        }
    }

    /// A click while editing.
    pub fn edit_click(&mut self, scene: &Scene, x: i64, y: i64) -> (effects: Vec<Effect>)
        requires
            query::measured(y as int),
            query::measured(old(self).state.scroll as int),
        ensures
            final(self)@ == edit_clicking(old(self)@, *scene, x as int, y as int).after,
            effects@ == edit_clicking(old(self)@, *scene, x as int, y as int).does,
    {
        proof {
            reveal(edit_clicking);
        }
        let mut effects = if scene.on_plate(x, y) {
            match scene.option_at(x, y) {
                Some(i) => if scene.options[i].allowed {
                    self.apply_option(scene, scene.options[i].option)
                } else {
                    none()
                },
                None => none(),
            }
        } else {
            self.pick_box(scene, x, y)
        };
        let ghost turned = effects@;
        effects.push(Effect::KeepFocus);
        assert(effects@ =~= turned + seq![Effect::KeepFocus]);
        effects
    }

    /// A click on the grid while a mode takes clicks.
    pub fn mode_click(&mut self, scene: &Scene, x: i64, y: i64) -> (effects: Vec<Effect>)
        requires
            scene.wf(),
            query::measured(y as int),
            query::measured(old(self).state.scroll as int),
        ensures
            final(self)@ == mode_clicking(old(self)@, *scene, x as int, y as int).after,
            effects@ == mode_clicking(old(self)@, *scene, x as int, y as int).does,
    {
        proof {
            reveal(mode_clicking);
        }
        let tile = scene.tile_at(x, y, self.state.scroll);
        if !scene.on_plate(x, y) {
            if let Some(tile) = tile {
                if let Some(item) = scene.board.item(tile) {
                    if item.target.is_mode() {
                        let mut effects = self.activate(scene, tile);
                        let ghost turned = effects@;
                        effects.push(Effect::KeepFocus);
                        assert(effects@ =~= turned + seq![Effect::KeepFocus]);
                        return effects;
                    }
                }
            }
        }
        match self.state.mode {
            Mode::Layout => self.edit_click(scene, x, y),
            Mode::Favorites => match tile {
                Some(tile) => {
                    let mut effects = self.toggle_center(scene, tile);
                    let ghost turned = effects@;
                    effects.push(Effect::KeepFocus);
                    assert(effects@ =~= turned + seq![Effect::KeepFocus]);
                    effects
                },
                None => self.dismiss(true),
            },
            Mode::Close => match tile {
                Some(tile) => {
                    let mut effects = self.close_tile(scene, tile);
                    let ghost turned = effects@;
                    effects.push(Effect::KeepFocus);
                    assert(effects@ =~= turned + seq![Effect::KeepFocus]);
                    effects
                },
                None => self.dismiss(true),
            },
            _ => none(),
        }
    }
}

/// Whether a box that may have a lane has this one.
fn same_lane(has: Option<Lane>, lane: Lane) -> (yes: bool)
    ensures
        yes == (has == Some(lane)),
{
    match has {
        Some(has) => has == lane,
        None => false,
    }
}

/// The most tiles a box is set to show, as the config has it.
fn cap_of(sections: &Vec<SectionConfig>, title: &str) -> (cap: usize)
    ensures
        cap == cap_from(sections@, title@, 0),
{
    let n: usize = sections.len();
    let mut i: usize = 0;
    while i < n
        invariant
            i <= n,
            n == sections@.len(),
            cap_from(sections@, title@, 0) == cap_from(sections@, title@, i as int),
        decreases n - i,
    {
        if same(sections[i].title.as_str(), title) {
            return sections[i].max_items;
        }
        i += 1;
    }
    0
}

} // verus!
