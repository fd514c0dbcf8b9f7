//! The four sides a cut can leave a box on.

use vstd::prelude::*;
use crate::text;
use crate::text::{chars_of, lower, spells, trim};

verus! {

/// One cut in the panel: which side of it a box ends up on.
///
/// Left and right cut a rectangle down the middle; top and bottom cut it
/// across. Nothing else is needed to describe a bento, because every bento is
/// a rectangle cut in two, over and over.
#[derive(Debug, Clone, Copy, PartialEq, Eq, Structural)]
pub enum Side {
    Left,
    Right,
    Top,
    Bottom,
}

/// Which way a cut runs.
#[derive(Debug, Clone, Copy, PartialEq, Eq, Structural)]
pub enum Axis {
    /// Side by side.
    Across,
    /// Stacked.
    Down,
}

impl Side {
    pub open spec fn spec_axis(self) -> Axis {
        if self is Left || self is Right {
            Axis::Across
        } else {
            Axis::Down
        }
    }

    pub open spec fn spec_first(self) -> bool {
        self is Left || self is Top
    }

    /// Which way the cut runs.
    #[verifier::when_used_as_spec(spec_axis)]
    pub fn axis(self) -> (axis: Axis)
        ensures
            axis == self.spec_axis(),
    {
        match self {
            Side::Left | Side::Right => Axis::Across,
            Side::Top | Side::Bottom => Axis::Down,
        }
    }

    /// Whether this is the near half of its cut.
    #[verifier::when_used_as_spec(spec_first)]
    pub fn first(self) -> (near: bool)
        ensures
            near == self.spec_first(),
    {
        matches!(self, Side::Left | Side::Top)
    }

    /// The side a word names: its own name, or a short one.
    pub open spec fn named(word: Seq<char>) -> Option<Side> {
        let w = text::lowered(text::trimmed(word));
        if w == "left"@ || w == "l"@ {
            Some(Side::Left)
        } else if w == "right"@ || w == "r"@ {
            Some(Side::Right)
        } else if w == "top"@ || w == "t"@ || w == "up"@ {
            Some(Side::Top)
        } else if w == "bottom"@ || w == "b"@ || w == "down"@ {
            Some(Side::Bottom)
        } else {
            None
        }
    }

    /// The side some characters name.
    pub fn read(chars: &Vec<char>) -> (side: Option<Side>)
        ensures
            side == Side::named(chars@),
    {
        let word = lower(&trim(chars));
        if spells(&word, "left") || spells(&word, "l") {
            Some(Side::Left)
        } else if spells(&word, "right") || spells(&word, "r") {
            Some(Side::Right)
        } else if spells(&word, "top") || spells(&word, "t") || spells(&word, "up") {
            Some(Side::Top)
        } else if spells(&word, "bottom") || spells(&word, "b") || spells(&word, "down") {
            Some(Side::Bottom)
        } else {
            None
        }
    }

    pub fn parse(word: &str) -> (side: Option<Side>)
        ensures
            side == Side::named(word@),
    {
        Side::read(&chars_of(word))
    }

    pub open spec fn spelled(self) -> Seq<char> {
        match self {
            Side::Left => "left"@,
            Side::Right => "right"@,
            Side::Top => "top"@,
            Side::Bottom => "bottom"@,
        }
    }

    pub fn word(self) -> (word: &'static str)
        ensures
            word@ == self.spelled(),
    {
        match self {
            Side::Left => "left",
            Side::Right => "right",
            Side::Top => "top",
            Side::Bottom => "bottom",
        }
    }
}

proof fn lemma_plain(s: Seq<char>)
    requires
        forall|i: int| 0 <= i < s.len() ==> 'a' <= #[trigger] s[i] <= 'z',
    ensures
        text::lowered(text::trimmed(s)) == s,
{
    if s.len() > 0 {
        assert(!text::is_white(s[0]));
        assert(!text::is_white(s[s.len() - 1]));
    }
    assert(text::trimmed(s) == s);
    assert(text::lowered(s) =~= s);
}

/// A side's own word names it.
pub proof fn a_side_is_named_by_its_word(side: Side)
    ensures
        Side::named(side.spelled()) == Some(side),
        forall|i: int| 0 <= i < side.spelled().len() ==> 'a' <= #[trigger] side.spelled()[i] <= 'z',
        side.spelled().len() > 0,
{
    reveal_strlit("left");
    reveal_strlit("l");
    reveal_strlit("right");
    reveal_strlit("r");
    reveal_strlit("top");
    reveal_strlit("t");
    reveal_strlit("up");
    reveal_strlit("bottom");
    reveal_strlit("b");
    reveal_strlit("down");
    let word = side.spelled();
    assert forall|i: int| 0 <= i < word.len() implies 'a' <= #[trigger] word[i] <= 'z' by {}
    lemma_plain(word);
    match side {
        Side::Left => {},
        Side::Right => {
            assert(word.len() == 5);
        },
        Side::Top => {
            assert(word.len() == 3);
        },
        Side::Bottom => {
            assert(word.len() == 6);
        },
    }
}

} // verus!
