//! What a key does.

use vstd::prelude::*;
use crate::clicks;
use crate::geometry::{Rect, PX};
use crate::layout::Layout;
use crate::num;
use crate::query;
use crate::scene;
use crate::scene::{EditOption, Scene};
use crate::session;
use crate::session::{just, none, Effect, Session, SessionView, State, Turn};

verus! {

/// The keys the panel knows.
#[derive(Debug, Clone, Copy, PartialEq, Eq, Structural)]
pub enum Key {
    Control,
    Escape,
    Enter,
    Left,
    Right,
    Up,
    Down,
    Home,
    End,
    Other,
}

/// How far a scroll that brings a tile on screen moves, given where the tile is
/// drawn and what of the panel is not under the strip.
pub open spec fn nudge(tile: Rect, strip: int, height: int) -> int {
    let (above, below) = (strip - tile.y, tile.y + tile.h - height);
    if above > 0 {
        -above
    } else if below > 0 {
        below
    } else {
        0
    }
}

/// A scroll offset moved to another place. Less than half a pixel is not a
/// scroll.
#[verifier::opaque]
pub open spec fn scrolling(s: SessionView, layout: Layout, to: int) -> Turn {
    let next = num::between(to, 0, layout.max_scroll as int);
    let moved = next - s.state.scroll;
    if layout.max_scroll <= 0 || (-PX < 2 * moved && 2 * moved < PX) {
        s.still()
    } else {
        Turn {
            after: s.with(State { scroll: next as i64, ..s.state }),
            does: seq![Effect::Reposition],
        }
    }
}

/// The rectangle of a tile before anything is scrolled. One there is not is
/// blank.
pub open spec fn tile_at(layout: Layout, index: int) -> Rect {
    if 0 <= index < layout.tiles@.len() {
        layout.tiles@[index]
    } else {
        Rect::spec_blank()
    }
}

/// The filter strip's height, as far as it is on the panel.
pub open spec fn strip_height(layout: Layout) -> int {
    num::smaller(layout.metrics.search_h as int, layout.panel.h as int)
}

/// A tile brought on screen.
pub open spec fn revealing(s: SessionView, layout: Layout, index: int) -> Turn {
    let tile = tile_at(layout, index).moved_up(s.state.scroll as int);
    let by = nudge(tile, strip_height(layout), layout.panel.h as int);
    if by == 0 {
        s.still()
    } else {
        scrolling(s, layout, s.state.scroll + by)
    }
}

/// A tile selected, by its place in the list. Home and End name a place, not a
/// direction.
#[verifier::opaque]
pub open spec fn choosing(s: SessionView, layout: Layout, len: nat, index: int) -> Turn {
    if len == 0 {
        s.still()
    } else {
        let tile = num::smaller(index, len - 1);
        let chosen = session::selecting(s, Some(tile as usize));
        chosen.then_turn(revealing(chosen.after, layout, tile))
    }
}

/// Where the selection goes when it is moved: kept to the grid, and onto an end
/// of it when there was none.
pub open spec fn stepped(selected: Option<usize>, len: nat, by: int) -> int {
    match selected {
        None => if by > 0 {
            0
        } else {
            len - 1
        },
        Some(current) => num::between(current + by, 0, len - 1),
    }
}

/// The selection moved.
#[verifier::opaque]
pub open spec fn moving(s: SessionView, layout: Layout, len: nat, by: int) -> Turn {
    if len == 0 {
        s.still()
    } else {
        choosing(s, layout, len, stepped(s.state.selected, len, by))
    }
}

/// Where a box is in the list of them, from `from` on.
pub open spec fn box_place(boxes: Seq<usize>, section: usize, from: int) -> Option<int>
    decreases boxes.len() - from,
{
    if from >= boxes.len() {
        None
    } else if boxes[from] == section {
        Some(from)
    } else {
        box_place(boxes, section, from + 1)
    }
}

/// The place in the list a step from the box being edited comes to, kept to the
/// list.
pub open spec fn next_box(boxes: Seq<usize>, edit: Option<usize>, by: int) -> int {
    let at = match edit {
        None => 0,
        Some(section) => match box_place(boxes, section, 0) {
            Some(at) => at,
            None => 0,
        },
    };
    num::between(at + by, 0, boxes.len() - 1)
}

/// The box being edited stepped along the boxes on screen, and kept to them.
pub open spec fn stepping(s: SessionView, boxes: Seq<usize>, by: int) -> Turn {
    if boxes.len() == 0 {
        s.still()
    } else {
        Turn {
            after: s.with(
                State { edit: Some(boxes[next_box(boxes, s.state.edit, by)]), ..s.state },
            ).unlit(),
            does: seq![Effect::Rebuild],
        }
    }
}

/// One step back, or one on.
pub open spec fn one_step(back: bool) -> int {
    if back {
        -1
    } else {
        1
    }
}

/// The option an arrow takes while a box is being edited. The arrows say the
/// same thing the squares do.
pub open spec fn arrow_option(key: Key) -> Option<EditOption> {
    match key {
        Key::Left => Some(EditOption::Left),
        Key::Right => Some(EditOption::Right),
        Key::Up => Some(EditOption::MoveUp),
        Key::Down => Some(EditOption::MoveDown),
        _ => None,
    }
}

/// A key while the bento is being rearranged: what it does, and whether it is
/// claimed. Nothing falls through to the filter.
#[verifier::opaque]
pub open spec fn edit_keying(s: SessionView, scene: Scene, key: Key) -> (Turn, bool) {
    if key == Key::Escape || key == Key::Enter {
        (session::leaving(s), true)
    } else if s.state.edit is None {
        // Nothing picked: arrows walk the boxes.
        let boxes = scene.boxes_upto(scene.layout.bands@.len());
        match key {
            Key::Left => (stepping(s, boxes, -1), true),
            Key::Right => (stepping(s, boxes, 1), true),
            _ => (s.still(), false),
        }
    } else {
        match arrow_option(key) {
            Some(option) => (
                if scene::offered_from(scene.options@, option, 0) {
                    clicks::applying(s, scene, option)
                } else {
                    s.still()
                },
                true,
            ),
            None => (s.still(), false),
        }
    }
}

/// A key: what it does, and whether it is claimed. Arrows and Enter work on the
/// whole grid, filtered or not.
#[verifier::opaque]
pub open spec fn keying(s: SessionView, scene: Scene, key: Key, repeat: bool) -> (Turn, bool) {
    let len = scene.board.spots@.len();
    let row = num::larger(scene.layout.cols as int, 1);
    if s.editing() {
        edit_keying(s, scene, key)
    } else if s.in_mode() && key == Key::Escape {
        (session::leaving(s), true)
    } else {
        match key {
            // A latch that fired on every repeat would flicker.
            Key::Control => (
                if repeat {
                    s.still()
                } else {
                    session::latching(s)
                },
                true,
            ),
            Key::Escape => (session::escaping(s, scene.layout.cols), true),
            Key::Enter => (
                match s.state.selected {
                    Some(tile) => clicks::activating(s, scene, tile),
                    None => s.still(),
                },
                true,
            ),
            Key::Left => (moving(s, scene.layout, len, -1), true),
            Key::Right => (moving(s, scene.layout, len, 1), true),
            Key::Up => (moving(s, scene.layout, len, -row), true),
            Key::Down => (moving(s, scene.layout, len, row), true),
            Key::Home => (choosing(s, scene.layout, len, 0), true),
            Key::End => (choosing(s, scene.layout, len, usize::MAX as int), true),
            Key::Other => (s.still(), false),
        }
    }
}

impl Session {
    fn scroll_to(&mut self, layout: &Layout, to: i64) -> (effects: Vec<Effect>)
        requires
            layout.wf(),
            query::measured(old(self).state.scroll as int),
        ensures
            final(self)@ == scrolling(old(self)@, *layout, to as int).after,
            effects@ == scrolling(old(self)@, *layout, to as int).does,
    {
        proof {
            reveal(scrolling);
        }
        if layout.max_scroll <= 0 {
            return none();
        }
        let next = layout.clamp_scroll(to);
        let moved: i64 = next - self.state.scroll;
        if -PX < 2 * moved && 2 * moved < PX {
            return none();
        }
        self.state.scroll = next;
        just(Effect::Reposition)
    }

    /// Scroll by a turn of the wheel, in whole pixels: away from the user moves
    /// the content down.
    pub fn scroll_by(&mut self, layout: &Layout, pixels: i16) -> (effects: Vec<Effect>)
        requires
            layout.wf(),
            query::measured(old(self).state.scroll as int),
        ensures
            ({
                let turn = scrolling(
                    old(self)@,
                    *layout,
                    old(self).state.scroll - pixels * PX,
                );
                final(self)@ == turn.after && effects@ == turn.does
            }),
    {
        let to: i64 = self.state.scroll - pixels as i64 * PX;
        self.scroll_to(layout, to)
    }

    /// Keep the selection from being walked off a scrolling grid.
    pub fn scroll_into_view(&mut self, layout: &Layout, index: usize) -> (effects: Vec<Effect>)
        requires
            layout.wf(),
            query::measured(old(self).state.scroll as int),
        ensures
            final(self)@ == revealing(old(self)@, *layout, index as int).after,
            effects@ == revealing(old(self)@, *layout, index as int).does,
    {
        proof {
            reveal(scrolling);
        }
        let tile = layout.tile_rect(index, self.state.scroll);
        // The grid scrolls under the strip, so visible starts below it.
        let top = layout.search_rect().h;
        assert(tile_at(*layout, index as int).near_enough());
        let above: i64 = top - tile.y;
        let below: i64 = tile.y + tile.h - layout.panel.h;
        let by: i64 = if above > 0 {
            -above
        } else if below > 0 {
            below
        } else {
            return none();
        };
        let to: i64 = self.state.scroll + by;
        self.scroll_to(layout, to)
    }

    /// Select a tile by its place.
    pub fn select_index(&mut self, layout: &Layout, len: usize, index: usize) -> (effects: Vec<
        Effect,
    >)
        requires
            layout.wf(),
            query::measured(old(self).state.scroll as int),
        ensures
            final(self)@ == choosing(old(self)@, *layout, len as nat, index as int).after,
            effects@ == choosing(old(self)@, *layout, len as nat, index as int).does,
    {
        proof {
            reveal(choosing);
        }
        if len == 0 {
            return none();
        }
        let tile: usize = if index < len - 1 {
            index
        } else {
            len - 1
        };
        let mut effects = self.set_selected(Some(tile));
        let mut shown = self.scroll_into_view(layout, tile);
        effects.append(&mut shown);
        effects
    }

    /// Move the selection. An end of the grid comes first, not the middle.
    pub fn move_selection(&mut self, layout: &Layout, len: usize, back: bool, by: usize) -> (effects:
        Vec<Effect>)
        requires
            layout.wf(),
            query::measured(old(self).state.scroll as int),
            by >= 1,
        ensures
            ({
                let step = if back {
                    -(by as int)
                } else {
                    by as int
                };
                let turn = moving(old(self)@, *layout, len as nat, step);
                final(self)@ == turn.after && effects@ == turn.does
            }),
    {
        proof {
            reveal(moving);
        }
        if len == 0 {
            return none();
        }
        let last: usize = len - 1;
        let next: usize = match self.state.selected {
            None => if back {
                last
            } else {
                0
            },
            Some(current) => if back {
                if current < by {
                    0
                } else if current - by < last {
                    current - by
                } else {
                    last
                }
            } else if current < last && by < last - current {
                current + by
            } else {
                last
            },
        };
        self.select_index(layout, len, next)
    }

    /// Step the box being edited along the boxes on screen.
    pub fn edit_step(&mut self, boxes: &Vec<usize>, back: bool) -> (effects: Vec<Effect>)
        ensures
            final(self)@ == stepping(old(self)@, boxes@, one_step(back)).after,
            effects@ == stepping(old(self)@, boxes@, one_step(back)).does,
    {
        if boxes.len() == 0 {
            return none();
        }
        let next = step_box(boxes, self.state.edit, back);
        self.state.edit = Some(boxes[next]);
        self.unlight();
        just(Effect::Rebuild)
    }

    /// A key while the bento is being rearranged.
    pub fn edit_key(&mut self, scene: &Scene, key: Key) -> (got: (Vec<Effect>, bool))
        ensures
            final(self)@ == edit_keying(old(self)@, *scene, key).0.after,
            got.0@ == edit_keying(old(self)@, *scene, key).0.does,
            got.1 == edit_keying(old(self)@, *scene, key).1,
    {
        proof {
            reveal(edit_keying);
        }
        if key == Key::Escape || key == Key::Enter {
            return (self.leave_mode(), true);
        }
        if self.state.edit.is_none() {
            let boxes = scene.boxes();
            return match key {
                Key::Left => (self.edit_step(&boxes, true), true),
                Key::Right => (self.edit_step(&boxes, false), true),
                _ => (none(), false),
            };
        }
        let option = match key {
            Key::Left => EditOption::Left,
            Key::Right => EditOption::Right,
            Key::Up => EditOption::MoveUp,
            Key::Down => EditOption::MoveDown,
            _ => {
                return (none(), false);
            },
        };
        // Claimed whether or not the option applies: an arrow falling through
        // is worse than one doing nothing.
        if scene.offers(option) {
            (self.apply_option(scene, option), true)
        } else {
            (none(), true)
        }
    }

    /// A key was pressed. One that is not claimed is for whoever comes next.
    #[verifier::rlimit(40)]
    pub fn on_key(&mut self, scene: &Scene, key: Key, repeat: bool) -> (got: (Vec<Effect>, bool))
        requires
            scene.wf(),
            query::measured(old(self).state.scroll as int),
        ensures
            final(self)@ == keying(old(self)@, *scene, key, repeat).0.after,
            got.0@ == keying(old(self)@, *scene, key, repeat).0.does,
            got.1 == keying(old(self)@, *scene, key, repeat).1,
    {
        proof {
            reveal(keying);
        }
        if self.editing() {
            return self.edit_key(scene, key);
        }
        // The picking modes leave the grid alone, so the keys still work as they
        // always did. Escape backs out of the mode first.
        if self.in_mode() && key == Key::Escape {
            return (self.leave_mode(), true);
        }
        let layout = &scene.layout;
        let len: usize = scene.board.len();
        let row: usize = if layout.cols < 1 {
            1
        } else {
            layout.cols
        };
        match key {
            Key::Control => if repeat {
                (none(), true)
            } else {
                (self.toggle_stay(), true)
            },
            Key::Escape => (self.escape(layout.cols), true),
            Key::Enter => match self.state.selected {
                Some(tile) => (self.activate(scene, tile), true),
                None => (none(), true),
            },
            Key::Left => (self.move_selection(layout, len, true, 1), true),
            Key::Right => (self.move_selection(layout, len, false, 1), true),
            Key::Up => (self.move_selection(layout, len, true, row), true),
            Key::Down => (self.move_selection(layout, len, false, row), true),
            Key::Home => (self.select_index(layout, len, 0), true),
            Key::End => (self.select_index(layout, len, usize::MAX), true),
            Key::Other => (none(), false),
        }
    }
}

/// Where a box is in the list of them, and the first place when it is not.
fn find_box(boxes: &Vec<usize>, section: usize) -> (at: usize)
    ensures
        at == (match box_place(boxes@, section, 0) {
            Some(at) => at,
            None => 0,
        }),
        boxes.len() > 0 ==> at < boxes.len(),
{
    let n: usize = boxes.len();
    let mut i: usize = 0;
    while i < n
        invariant
            i <= n,
            n == boxes@.len(),
            box_place(boxes@, section, 0) == box_place(boxes@, section, i as int),
        decreases n - i,
    {
        if boxes[i] == section {
            return i;
        }
        i += 1;
    }
    0
}

fn step_box(boxes: &Vec<usize>, edit: Option<usize>, back: bool) -> (next: usize)
    requires
        boxes.len() > 0,
    ensures
        next == next_box(boxes@, edit, one_step(back)),
        next < boxes.len(),
{
    let at: usize = match edit {
        None => 0,
        Some(section) => find_box(boxes, section),
    };
    if back {
        if at == 0 {
            0
        } else {
            at - 1
        }
    } else if at < boxes.len() - 1 {
        at + 1
    } else {
        boxes.len() - 1
    }
}

/// The selection is never walked off the grid: wherever it was and however far
/// it is moved, it lands on a tile there is.
pub proof fn an_arrow_keeps_the_selection_on_the_grid(
    selected: Option<usize>,
    len: nat,
    by: int,
)
    requires
        len > 0,
    ensures
        0 <= stepped(selected, len, by) < len,
{
}

/// A selected tile is brought on screen: one that lies in the content and is no
/// taller than what is shown of it ends up below the strip and above the foot
/// of the panel, to within half a pixel.
pub proof fn a_selected_tile_is_brought_on_screen(s: SessionView, layout: Layout, index: int)
    requires
        layout.wf(),
        0 <= s.state.scroll <= layout.max_scroll,
        0 <= index < layout.tiles@.len(),
        layout.tiles@[index].h >= 0,
        strip_height(layout) <= layout.tiles@[index].y,
        layout.tiles@[index].y + layout.tiles@[index].h <= layout.panel.h + layout.max_scroll,
        layout.tiles@[index].h <= layout.panel.h - strip_height(layout),
    ensures
        ({
            let after = revealing(s, layout, index).after;
            let y = layout.tiles@[index].y - after.state.scroll;
            &&& 2 * strip_height(layout) - PX < 2 * y
            &&& 2 * (y + layout.tiles@[index].h) < 2 * layout.panel.h + PX
            &&& 0 <= after.state.scroll <= layout.max_scroll
        }),
{
    reveal(scrolling);
    assert(layout.tiles@[index].near_enough());
}

} // verus!
