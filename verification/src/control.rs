//! The options offered for the box being edited.

use vstd::prelude::*;
use crate::at::{At, WHOLE};
use crate::num;
use crate::num::div_near;
use crate::place;
use crate::side::Side;

verus! {

/// One option offered for the box being edited.
///
/// Three ideas, kept apart because mixing them is what makes this confusing:
///
/// 1. Claim a side. The box becomes the whole of it, full height or full width,
///    and whatever was there is moved off.
/// 2. Arrange. Move up and down the stack that fills whatever the claimed sides
///    left over.
/// 3. Size. How much of its cut the box takes, and how many tiles it shows.
#[derive(Debug, Clone, Copy, PartialEq, Eq, Structural)]
pub enum Control {
    ClaimLeft,
    ClaimTop,
    ClaimBottom,
    ClaimRight,
    /// Earlier or later in the stack that fills the leftover space.
    MoveUp,
    MoveDown,
    /// More or less of the cut this box sits on.
    Grow,
    Shrink,
    Fewer,
    More,
    Done,
}

/// Every option in reading order, four to a row.
pub const CONTROLS: [Control; 11] = [
    // Claim a side.
    Control::ClaimLeft,
    Control::ClaimTop,
    Control::ClaimBottom,
    Control::ClaimRight,
    // Arrange.
    Control::MoveUp,
    Control::MoveDown,
    // Size.
    Control::Grow,
    Control::Shrink,
    Control::Fewer,
    Control::More,
    Control::Done,
];

/// The box being edited, as the options need to see it. Gathered by the panel,
/// judged here.
#[derive(Debug, Clone, PartialEq)]
pub struct BoxState {
    /// Tiles it shows, and tiles it could show.
    pub shown: usize,
    pub total: usize,
    /// Where it sits now, if it has been placed at all.
    pub at: Option<At>,
    /// Boxes on the panel. A lone box has nowhere to be sent.
    pub boxes: usize,
    /// Position in the stack that fills the leftover space, and how many are in
    /// it. Only meaningful when `at` is `None`.
    pub at_stack: usize,
    pub stack: usize,
    /// Columns the box takes, and the panel's whole budget.
    pub cols: usize,
    pub panel_cols: usize,
    /// The part of its cut the box currently fills, as laid out, in millionths.
    ///
    /// Measured rather than read from `at`: a box sized by its contents has no
    /// share written down.
    pub share_now: u32,
}

impl BoxState {
    /// Whether the box sits on a cut that divides width.
    pub open spec fn across(&self) -> bool {
        self.at matches Some(at) && at.spec_splits_width()
    }

    fn is_across(&self) -> (across: bool)
        ensures
            across == self.across(),
    {
        match &self.at {
            Some(at) => at.splits_width(),
            None => false,
        }
    }
}

/// How much of its cut a box resized down the panel gains or gives up at a
/// time, and the least and most of one it may hold.
pub const NUDGE: u32 = 80_000;

pub const SHORTEST: u32 = 100_000;

pub const TALLEST: u32 = 900_000;

impl Control {
    pub open spec fn claimed(self) -> Option<Side> {
        match self {
            Control::ClaimLeft => Some(Side::Left),
            Control::ClaimRight => Some(Side::Right),
            Control::ClaimTop => Some(Side::Top),
            Control::ClaimBottom => Some(Side::Bottom),
            _ => None,
        }
    }

    /// The side this option claims, if it is one of those.
    pub fn side(self) -> (side: Option<Side>)
        ensures
            side == self.claimed(),
    {
        match self {
            Control::ClaimLeft => Some(Side::Left),
            Control::ClaimRight => Some(Side::Right),
            Control::ClaimTop => Some(Side::Top),
            Control::ClaimBottom => Some(Side::Bottom),
            _ => None,
        }
    }

    pub open spec fn mark(self) -> Seq<char> {
        match self {
            Control::ClaimLeft => "\u{2590}"@,
            Control::ClaimRight => "\u{258C}"@,
            Control::ClaimTop => "\u{2584}"@,
            Control::ClaimBottom => "\u{2580}"@,
            Control::MoveUp => "\u{2191}"@,
            Control::MoveDown => "\u{2193}"@,
            Control::Grow => "\u{2194}"@,
            Control::Shrink => "\u{2192}\u{2190}"@,
            Control::Fewer => "\u{2212}"@,
            Control::More => "+"@,
            Control::Done => "\u{2713}"@,
        }
    }

    /// The big mark on the option tile.
    pub fn glyph(self) -> (glyph: &'static str)
        ensures
            glyph@ == self.mark(),
    {
        match self {
            Control::ClaimLeft => "\u{2590}",
            Control::ClaimRight => "\u{258C}",
            Control::ClaimTop => "\u{2584}",
            Control::ClaimBottom => "\u{2580}",
            Control::MoveUp => "\u{2191}",
            Control::MoveDown => "\u{2193}",
            // Replaced by `wording` whenever a box is selected: which way these
            // move is a property of the cut, not of the button.
            Control::Grow => "\u{2194}",
            Control::Shrink => "\u{2192}\u{2190}",
            Control::Fewer => "\u{2212}",
            Control::More => "+",
            Control::Done => "\u{2713}",
        }
    }

    pub open spec fn name(self) -> Seq<char> {
        match self {
            Control::ClaimLeft => "Full left"@,
            Control::ClaimRight => "Full right"@,
            Control::ClaimTop => "Full top"@,
            Control::ClaimBottom => "Full bottom"@,
            Control::MoveUp => "Move up"@,
            Control::MoveDown => "Move down"@,
            Control::Grow => "Bigger"@,
            Control::Shrink => "Smaller"@,
            Control::Fewer => "Fewer tiles"@,
            Control::More => "More tiles"@,
            Control::Done => "Done"@,
        }
    }

    /// Said in words underneath. A gaze pointer settles on a tile long enough
    /// to read one, and a glyph alone is a guess.
    pub fn label(self) -> (label: &'static str)
        ensures
            label@ == self.name(),
    {
        match self {
            Control::ClaimLeft => "Full left",
            Control::ClaimRight => "Full right",
            Control::ClaimTop => "Full top",
            Control::ClaimBottom => "Full bottom",
            Control::MoveUp => "Move up",
            Control::MoveDown => "Move down",
            Control::Grow => "Bigger",
            Control::Shrink => "Smaller",
            Control::Fewer => "Fewer tiles",
            Control::More => "More tiles",
            Control::Done => "Done",
        }
    }

    /// Which way a size option moves, and nothing for any other option.
    pub open spec fn step(self) -> int {
        match self {
            Control::Grow => 1,
            Control::Shrink => -1,
            _ => 0,
        }
    }

    /// The columns a box resized across the panel comes to.
    pub open spec fn next_cols(self, state: BoxState) -> int {
        num::between(state.cols + self.step(), 1, state.panel_cols - 1)
    }

    /// The share this option writes.
    pub open spec fn next_share(self, state: BoxState) -> Option<u32> {
        if self.step() == 0 || state.at is None {
            None
        } else if state.across() && state.panel_cols > 1 {
            Some(
                num::nearest(
                    (self.next_cols(state) * WHOLE) as nat,
                    state.panel_cols as nat,
                ) as u32,
            )
        } else {
            Some(
                num::between(
                    state.share_now + self.step() * NUDGE,
                    SHORTEST as int,
                    TALLEST as int,
                ) as u32,
            )
        }
    }

    /// The share this option should write, given where the box is now, in
    /// millionths.
    ///
    /// Across the panel it steps a whole column at a time, so every click moves
    /// the edge somewhere visible. A nudge that does not cross a column
    /// boundary reads as a button that sometimes does nothing.
    pub fn resized(self, state: &BoxState) -> (share: Option<u32>)
        ensures
            share == self.next_share(*state),
    {
        let grow = match self {
            Control::Grow => true,
            Control::Shrink => false,
            _ => return None,
        };
        if state.at.is_none() {
            return None;
        }
        if state.is_across() && state.panel_cols > 1 {
            let most: usize = state.panel_cols - 1;
            let moved: usize = if grow {
                state.cols.saturating_add(1)
            } else {
                state.cols.saturating_sub(1)
            };
            let cols: usize = if moved < 1 {
                1
            } else if moved > most {
                most
            } else {
                moved
            };
            let n: u128 = cols as u128 * WHOLE as u128;
            let d: u128 = state.panel_cols as u128;
            proof {
                lemma_share(cols as int, state.panel_cols as int);
            }
            Some(div_near(n, d) as u32)
        } else {
            let now: u32 = state.share_now;
            let moved: u32 = if grow {
                now.saturating_add(NUDGE)
            } else {
                now.saturating_sub(NUDGE)
            };
            Some(
                if moved < SHORTEST {
                    SHORTEST
                } else if moved > TALLEST {
                    TALLEST
                } else {
                    moved
                },
            )
        }
    }

    /// Whether the box holds just the side this option claims.
    pub open spec fn is_held(self, state: BoxState) -> bool {
        self.claimed() matches Some(side) && state.at matches Some(at) && at.cuts@ == seq![side]
    }

    /// Whether this is the side the box already holds. Drawn lit, and clicking
    /// it gives the side back rather than claiming it again.
    pub fn holds(self, state: &BoxState) -> (held: bool)
        ensures
            held == self.is_held(*state),
    {
        match (self.side(), &state.at) {
            (Some(side), Some(at)) => {
                let held = at.cuts.len() == 1 && at.cuts[0] == side;
                if held {
                    assert(at.cuts@ =~= seq![side]);
                }
                held
            },
            _ => false,
        }
    }

    /// The mark and the words of this option against a particular box.
    pub open spec fn worded(self, state: BoxState) -> (Seq<char>, Seq<char>) {
        if self.is_held(state) {
            (
                self.mark(),
                match self {
                    Control::ClaimLeft => "Leave left"@,
                    Control::ClaimRight => "Leave right"@,
                    Control::ClaimTop => "Leave top"@,
                    Control::ClaimBottom => "Leave bottom"@,
                    _ => self.name(),
                },
            )
        } else {
            match self {
                Control::Grow => if state.across() {
                    ("\u{2194}"@, "Wider"@)
                } else {
                    ("\u{2195}"@, "Taller"@)
                },
                Control::Shrink => if state.across() {
                    ("\u{2192}\u{2190}"@, "Narrower"@)
                } else {
                    ("\u{2193}\u{2191}"@, "Shorter"@)
                },
                _ => (self.mark(), self.name()),
            }
        }
    }

    /// Glyph and label for this option against a particular box.
    ///
    /// Only the two size options change with the cut: everything else means the
    /// same thing wherever the box sits. "Bigger" on a box down the left means
    /// wider, and on a box across the bottom means taller. The side a box holds
    /// says what the click does, not where the box is.
    pub fn wording(self, state: &BoxState) -> (words: (&'static str, &'static str))
        ensures
            (words.0@, words.1@) == self.worded(*state),
    {
        let across = state.is_across();
        if self.holds(state) {
            return match self {
                Control::ClaimLeft => (self.glyph(), "Leave left"),
                Control::ClaimRight => (self.glyph(), "Leave right"),
                Control::ClaimTop => (self.glyph(), "Leave top"),
                Control::ClaimBottom => (self.glyph(), "Leave bottom"),
                _ => (self.glyph(), self.label()),
            };
        }
        match self {
            Control::Grow => if across {
                ("\u{2194}", "Wider")
            } else {
                ("\u{2195}", "Taller")
            },
            Control::Shrink => if across {
                ("\u{2192}\u{2190}", "Narrower")
            } else {
                ("\u{2193}\u{2191}", "Shorter")
            },
            _ => (self.glyph(), self.label()),
        }
    }

    /// Whether this option applies to a box.
    pub open spec fn applies(self, state: BoxState) -> bool {
        if self == Control::Done {
            true
        } else if state.boxes < 2 {
            // Nothing to divide the panel with.
            false
        } else {
            match self {
                Control::MoveUp => state.at is None && state.at_stack > 0,
                Control::MoveDown => state.at is None && state.at_stack + 1 < state.stack,
                Control::Grow => state.at is Some && if state.across() {
                    state.cols + 1 < state.panel_cols
                } else {
                    state.share_now < TALLEST
                },
                Control::Shrink => state.at is Some && if state.across() {
                    state.cols > 1
                } else {
                    state.share_now > SHORTEST
                },
                Control::Fewer => state.shown > 1,
                Control::More => state.shown < state.total,
                _ => true,
            }
        }
    }

    /// Whether this option would do something sensible right now.
    ///
    /// Offering one that cannot apply is worse than hiding it: every option
    /// writes to the config, and one that runs off the bottom writes the
    /// opposite of the word on the button.
    pub fn allowed(self, state: &BoxState) -> (yes: bool)
        ensures
            yes == self.applies(*state),
    {
        if state.boxes < 2 {
            return matches!(self, Control::Done);
        }
        match self {
            Control::MoveUp => state.at.is_none() && state.at_stack > 0,
            Control::MoveDown => state.at.is_none() && state.at_stack < usize::MAX && state.at_stack
                + 1 < state.stack,
            Control::Grow => state.at.is_some() && if state.is_across() {
                state.cols < usize::MAX && state.cols + 1 < state.panel_cols
            } else {
                state.share_now < TALLEST
            },
            Control::Shrink => state.at.is_some() && if state.is_across() {
                state.cols > 1
            } else {
                state.share_now > SHORTEST
            },
            Control::Fewer => state.shown > 1,
            Control::More => state.shown < state.total,
            _ => true,
        }
    }
}

proof fn lemma_share(cols: int, panel: int)
    requires
        1 <= cols < panel <= usize::MAX,
    ensures
        num::nearest((cols * WHOLE) as nat, panel as nat) <= WHOLE,
        (cols * WHOLE) / panel < WHOLE,
{
    let n = cols * WHOLE;
    vstd::arithmetic::div_mod::lemma_fundamental_div_mod(n, panel);
    let (q, r) = (n / panel, n % panel);
    assert(q < WHOLE) by (nonlinear_arith)
        requires
            n == panel * q + r,
            n == cols * WHOLE,
            0 <= r,
            0 <= cols < panel,
    ;
}

/// A box on its own is offered a way out and nothing else; any other box can be
/// sent to any side, and the way out never goes away.
pub proof fn a_lone_box_is_offered_only_done(control: Control, state: BoxState)
    ensures
        state.boxes < 2 ==> control.applies(state) == (control == Control::Done),
        control == Control::Done ==> control.applies(state),
        state.boxes >= 2 && control.claimed() is Some ==> control.applies(state),
{
}

/// A size option that is offered always has a share to write.
pub proof fn an_offered_resize_writes_a_share(control: Control, state: BoxState)
    requires
        control.applies(state),
        control.step() != 0,
    ensures
        control.next_share(state) is Some,
{
}

proof fn lemma_column_of_share(cols: int, panel: int)
    requires
        1 <= cols < panel <= WHOLE,
    ensures
        ({
            let share = num::nearest((cols * WHOLE) as nat, panel as nat);
            &&& 0 < share < WHOLE
            &&& num::nearest((panel * share) as nat, WHOLE as nat) == cols
            &&& num::nearest((panel * (WHOLE - share)) as nat, WHOLE as nat) == panel - cols
        }),
{
    let w = WHOLE as int;
    let n = cols * w;
    let share = num::nearest(n as nat, panel as nat) as int;
    vstd::arithmetic::div_mod::lemma_fundamental_div_mod(n, panel);
    let (q, r) = (n / panel, n % panel);
    assert(n >= panel) by (nonlinear_arith)
        requires
            n == cols * w,
            cols >= 1,
            w >= panel,
            panel > 0,
    ;
    // The share is within half a column of the column it came from.
    assert(-panel <= 2 * panel * share - 2 * n <= panel) by (nonlinear_arith)
        requires
            n == panel * q + r,
            0 <= r < panel,
            share == q && 2 * r < panel || share == q + 1 && 2 * r >= panel,
    ;
    assert(share > 0) by (nonlinear_arith)
        requires
            -panel <= 2 * panel * share - 2 * n,
            n >= panel,
            panel > 0,
    ;
    assert(cols * w <= (panel - 1) * w) by (nonlinear_arith)
        requires
            cols <= panel - 1,
            w > 0,
    ;
    assert(2 * ((panel - 1) * w) == 2 * panel * w - 2 * w) by (nonlinear_arith);
    assert(share < w) by (nonlinear_arith)
        requires
            2 * panel * share <= 2 * n + panel,
            2 * n + panel < 2 * panel * w,
            panel > 0,
    ;
    if panel == w {
        assert(q == cols && r == 0) by {
            vstd::arithmetic::div_mod::lemma_fundamental_div_mod_converse(n, w, cols, 0);
        }
    }
    let back = panel * share;
    assert(2 * back == 2 * panel * share) by (nonlinear_arith)
        requires
            back == panel * share,
    ;
    lemma_nearest(back, cols);
    let rest = panel * (w - share);
    assert(2 * rest == 2 * panel * w - 2 * panel * share) by (nonlinear_arith)
        requires
            rest == panel * (w - share),
    ;
    assert(2 * ((panel - cols) * w) == 2 * panel * w - 2 * (cols * w)) by (nonlinear_arith);
    lemma_nearest(rest, panel - cols);
}

/// A number less than half a whole from a multiple of it is nearest to that
/// multiple.
proof fn lemma_nearest(n: int, c: int)
    requires
        0 <= n,
        0 <= c,
        -(WHOLE as int) < 2 * n - 2 * (c * WHOLE) < WHOLE,
    ensures
        num::nearest(n as nat, WHOLE as nat) == c,
{
    let w = WHOLE as int;
    if n >= c * w {
        vstd::arithmetic::div_mod::lemma_fundamental_div_mod_converse(n, w, c, n - c * w);
    } else {
        assert((c - 1) * w == c * w - w) by (nonlinear_arith);
        vstd::arithmetic::div_mod::lemma_fundamental_div_mod_converse(
            n,
            w,
            c - 1,
            n - (c - 1) * w,
        );
    }
}

/// A size option that is offered writes a share, and in the direction it names.
/// Across the panel the share comes to one column more or one fewer, with a
/// column left on either side of the cut; down the panel it is more or less than
/// the box has, and neither half is squeezed out.
pub proof fn an_offered_resize_goes_the_way_it_says(control: Control, state: BoxState)
    requires
        control.applies(state),
        control.step() != 0,
        1 <= state.cols <= state.panel_cols <= WHOLE,
        state.panel_cols > 1,
    ensures
        control.next_share(state) is Some,
        ({
            let share = control.next_share(state)->0;
            if state.across() {
                let cols = num::nearest((share * state.panel_cols) as nat, WHOLE as nat);
                &&& cols == state.cols + control.step()
                &&& 1 <= cols <= state.panel_cols - 1
            } else {
                &&& SHORTEST <= share <= TALLEST
                &&& control == Control::Grow ==> share > state.share_now
                &&& control == Control::Shrink ==> share < state.share_now
            }
        }),
{
    if state.across() {
        let share = control.next_share(state)->0;
        lemma_column_of_share(state.cols + control.step(), state.panel_cols as int);
        assert(share * state.panel_cols == state.panel_cols * share) by (nonlinear_arith);
    }
}

/// A click on a size option that is offered moves the box's edge by one whole
/// column, whichever half of its cut the box is.
pub proof fn an_offered_resize_moves_one_column(
    control: Control,
    state: BoxState,
    near: nat,
    far: nat,
)
    requires
        control.applies(state),
        control.step() != 0,
        state.across(),
        1 <= state.cols <= state.panel_cols <= WHOLE,
        state.panel_cols > 1,
    ensures
        ({
            let share = control.next_share(state)->0;
            let cols = state.cols + control.step();
            &&& place::divided(state.panel_cols as nat, near, far, share as nat) == cols
            &&& place::divided(
                state.panel_cols as nat,
                near,
                far,
                (WHOLE - share) as nat,
            ) == state.panel_cols - cols
        }),
{
    let cols = state.cols + control.step();
    lemma_column_of_share(cols, state.panel_cols as int);
    let share = control.next_share(state)->0;
    assert(state.panel_cols as nat * share as nat == state.panel_cols * share) by (nonlinear_arith);
}

} // verus!
