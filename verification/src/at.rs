//! Where a box sits: the path of cuts that leads to it.

use vstd::prelude::*;
use crate::percent;
use crate::percent::read_share;
use crate::side::{Axis, Side};
use crate::text;
use crate::text::{chars_of, find, part, split, trim};

verus! {

/// All of a cut, in the millionths that shares are counted in.
pub const WHOLE: u32 = 1_000_000;

/// Where a box sits, as a run of cuts from the whole panel inward.
///
/// `left` is the whole left half. `right/top` is the top of what is left over
/// after that cut. A share pins one side to a fraction of its parent; without
/// one the two halves are sized by what they hold.
#[derive(Debug, Clone, PartialEq)]
pub struct At {
    pub cuts: Vec<Side>,
    /// Millionths of the last cut in `cuts`. 0 to size by content.
    pub share: u32,
}

impl At {
    pub open spec fn spec_splits_width(&self) -> bool {
        self.cuts@.len() > 0 && self.cuts@.last().axis() == Axis::Across
    }

    /// Whether the cut this sits on divides width rather than height.
    ///
    /// What "bigger" means depends on it: a box on a left/right cut grows
    /// wider, one on a top/bottom cut grows taller.
    #[verifier::when_used_as_spec(spec_splits_width)]
    pub fn splits_width(&self) -> (across: bool)
        ensures
            across == self.spec_splits_width(),
    {
        let depth = self.cuts.len();
        depth > 0 && self.cuts[depth - 1].axis() == Axis::Across
    }
}

/// The sides the first `n` words of a path name, blank ones passed over, and
/// `None` where one of them names none.
pub open spec fn sides_of(words: Seq<Seq<char>>, n: nat) -> Option<Seq<Side>>
    decreases n,
{
    if n == 0 {
        Some(Seq::empty())
    } else {
        let word = words[n - 1];
        match sides_of(words, (n - 1) as nat) {
            None => None,
            Some(before) => if text::trimmed(word).len() == 0 {
                Some(before)
            } else {
                match Side::named(word) {
                    None => None,
                    Some(side) => Some(before.push(side)),
                }
            },
        }
    }
}

/// The cuts a path names, which are at least one.
pub open spec fn path_of(path: Seq<char>) -> Option<Seq<Side>> {
    let words = text::pieces(path);
    match sides_of(words, words.len()) {
        Some(cuts) if cuts.len() > 0 => Some(cuts),
        _ => None,
    }
}

/// The cuts and the share some text names: a path, and after an `@` how many
/// hundredths of its last cut.
pub open spec fn placed_at(spec: Seq<char>) -> Option<(Seq<Side>, u32)> {
    let mark = text::place_of(spec, '@') as int;
    let share = if mark < spec.len() {
        percent::share_of(spec.skip(mark + 1))
    } else {
        Some(0u32)
    };
    match (path_of(spec.take(mark)), share) {
        (Some(cuts), Some(share)) => Some((cuts, share)),
        _ => None,
    }
}

proof fn lemma_sides_none(words: Seq<Seq<char>>, i: nat, n: nat)
    requires
        i <= n,
        sides_of(words, i) is None,
    ensures
        sides_of(words, n) is None,
    decreases n,
{
    if i < n {
        lemma_sides_none(words, i, (n - 1) as nat);
    }
}

fn read_path(path: &Vec<char>) -> (cuts: Option<Vec<Side>>)
    ensures
        match (cuts, path_of(path@)) {
            (Some(got), Some(want)) => got@ == want,
            (None, None) => true,
            _ => false,
        },
{
    let words = split(path);
    let ghost views = text::pieces(path@);
    let mut cuts: Vec<Side> = Vec::new();
    for i in 0..words.len()
        invariant
            text::piece_views(words@) == views,
            sides_of(views, i as nat) == Some(cuts@),
            views == text::pieces(path@),
    {
        let word = &words[i];
        assert(views[i as int] == word@);
        if trim(word).len() > 0 {
            match Side::read(word) {
                Some(side) => cuts.push(side),
                None => {
                    proof {
                        lemma_sides_none(views, (i + 1) as nat, views.len());
                    }
                    return None;
                },
            }
        }
    }
    if cuts.len() == 0 {
        None
    } else {
        Some(cuts)
    }
}

/// A whole number in digits.
pub open spec fn decimal(n: nat) -> Seq<char>
    decreases n,
{
    if n < 10 {
        seq![('0' as u32 + n) as char]
    } else {
        decimal(n / 10).push(('0' as u32 + n % 10) as char)
    }
}

/// A share in whole hundredths, and the even one of two as near.
pub open spec fn hundredths(share: nat) -> nat {
    let (whole, part) = (share / 10_000, share % 10_000);
    if part > 5_000 || part == 5_000 && whole % 2 == 1 {
        whole + 1
    } else {
        whole
    }
}

/// The words of the first `n` cuts of a path, with a slash between each two.
pub open spec fn spelled_path(cuts: Seq<Side>, n: nat) -> Seq<char>
    decreases n,
{
    if n == 0 {
        Seq::empty()
    } else if n == 1 {
        cuts[0].spelled()
    } else {
        spelled_path(cuts, (n - 1) as nat) + "/"@ + cuts[n - 1].spelled()
    }
}

pub(crate) fn add_decimal(text: &mut String, n: usize)
    ensures
        final(text)@ == old(text)@ + decimal(n as nat),
    decreases n,
{
    if n >= 10 {
        add_decimal(text, n / 10);
    }
    let ghost before = text@;
    let last = digit_str((n % 10) as u32);
    text.append(last);
    assert(text@ =~= before.push(('0' as u32 + n % 10) as char));
    assert(text@ =~= old(text)@ + decimal(n as nat));
}

fn digit_str(d: u32) -> (s: &'static str)
    requires
        d < 10,
    ensures
        s@ == seq![('0' as u32 + d) as char],
{
    proof {
        reveal_strlit("0");
        reveal_strlit("1");
        reveal_strlit("2");
        reveal_strlit("3");
        reveal_strlit("4");
        reveal_strlit("5");
        reveal_strlit("6");
        reveal_strlit("7");
        reveal_strlit("8");
        reveal_strlit("9");
    }
    let s = match d {
        0 => "0",
        1 => "1",
        2 => "2",
        3 => "3",
        4 => "4",
        5 => "5",
        6 => "6",
        7 => "7",
        8 => "8",
        _ => "9",
    };
    assert(s@ =~= seq![('0' as u32 + d) as char]);
    s
}

impl At {
    /// `"right/top"`, or `"left@35"` to pin the left side to 35% of the width.
    ///
    /// Unreadable input is no placement rather than an error: a typo in a
    /// hand-edited config should cost one section its position, not the panel.
    pub fn parse(spec: &str) -> (at: Option<At>)
        ensures
            match (at, placed_at(spec@)) {
                (Some(at), Some(want)) => at.cuts@ == want.0 && at.share == want.1,
                (None, None) => true,
                _ => false,
            },
    {
        let chars = chars_of(spec);
        let mark = find(&chars, '@');
        let share = if mark < chars.len() {
            let percent = part(&chars, mark + 1, chars.len());
            assert(percent@ =~= spec@.skip(mark + 1));
            read_share(&percent)
        } else {
            Some(0)
        };
        let path = part(&chars, 0, mark);
        assert(path@ =~= spec@.take(mark as int));
        match (read_path(&path), share) {
            (Some(cuts), Some(share)) => Some(At { cuts, share }),
            _ => None,
        }
    }

    /// How a placement is written.
    pub open spec fn spelling(&self) -> Seq<char> {
        let path = spelled_path(self.cuts@, self.cuts@.len());
        if self.share > 0 {
            path + "@"@ + decimal(hundredths(self.share as nat))
        } else {
            path
        }
    }

    /// Back to the config spelling.
    pub fn spell(&self) -> (text: String)
        ensures
            text@ == self.spelling(),
    {
        let mut text = String::new();
        for i in 0..self.cuts.len()
            invariant
                text@ == spelled_path(self.cuts@, i as nat),
        {
            let ghost before = text@;
            if i > 0 {
                text.append("/");
            }
            text.append(self.cuts[i].word());
            if i == 0 {
                assert(text@ =~= self.cuts@[0].spelled());
            }
        }
        if self.share > 0 {
            let (whole, part): (u32, u32) = (self.share / 10_000, self.share % 10_000);
            let percent: u32 = if part > 5_000 || part == 5_000 && whole % 2 == 1 {
                whole + 1
            } else {
                whole
            };
            text.append("@");
            add_decimal(&mut text, percent as usize);
        }
        text
    }
}

proof fn lemma_piece_word(s: Seq<char>, w: Seq<char>)
    requires
        forall|i: int| 0 <= i < w.len() ==> !text::is_separator(#[trigger] w[i]),
    ensures
        text::pieces(s + w) == text::pieces(s).update(
            text::pieces(s).len() - 1,
            text::pieces(s).last() + w,
        ),
    decreases w.len(),
{
    text::lemma_pieces(s);
    let before = text::pieces(s);
    if w.len() == 0 {
        assert(s + w =~= s);
        assert(before.last() + w =~= before.last());
        assert(before =~= before.update(before.len() - 1, before.last()));
    } else {
        let shorter = w.drop_last();
        assert forall|i: int| 0 <= i < shorter.len() implies !text::is_separator(
            #[trigger] shorter[i],
        ) by {
            assert(shorter[i] == w[i]);
        }
        lemma_piece_word(s, shorter);
        assert((s + w).drop_last() =~= s + shorter);
        assert(!text::is_separator(w[w.len() - 1]));
        assert((before.last() + shorter).push(w.last()) =~= before.last() + w);
        assert(text::pieces(s + w) =~= before.update(before.len() - 1, before.last() + w));
    }
}

/// The words of a path.
spec fn words_of(cuts: Seq<Side>, n: nat) -> Seq<Seq<char>> {
    Seq::new(n, |i: int| cuts[i].spelled())
}

proof fn lemma_word_plain(side: Side)
    ensures
        forall|i: int|
            0 <= i < side.spelled().len() ==> !text::is_separator(#[trigger] side.spelled()[i])
                && side.spelled()[i] != '@' && !text::is_white(side.spelled()[i]),
        side.spelled().len() > 0,
        text::trimmed(side.spelled()).len() > 0,
{
    crate::side::a_side_is_named_by_its_word(side);
    let word = side.spelled();
    assert forall|i: int| 0 <= i < word.len() implies !text::is_separator(#[trigger] word[i])
        && word[i] != '@' && !text::is_white(word[i]) by {
        assert('a' <= word[i] <= 'z');
    }
    assert(!text::is_white(word[0]) && !text::is_white(word[word.len() - 1]));
}

proof fn lemma_path_pieces(cuts: Seq<Side>, n: nat)
    requires
        1 <= n <= cuts.len(),
    ensures
        text::pieces(spelled_path(cuts, n)) == words_of(cuts, n),
        forall|i: int|
            0 <= i < spelled_path(cuts, n).len() ==> #[trigger] spelled_path(cuts, n)[i] != '@',
    decreases n,
{
    let word = cuts[n - 1].spelled();
    lemma_word_plain(cuts[n - 1]);
    let path = spelled_path(cuts, n);
    if n == 1 {
        let none = Seq::<char>::empty();
        lemma_piece_word(none, word);
        assert(none + word =~= word);
        assert(text::pieces(none) =~= seq![none]);
        assert(text::pieces(word) =~= words_of(cuts, 1));
    } else {
        let m = (n - 1) as nat;
        lemma_path_pieces(cuts, m);
        let before = spelled_path(cuts, m);
        reveal_strlit("/");
        let slashed = before + "/"@;
        assert("/"@ =~= seq!['/']);
        assert(slashed.drop_last() =~= before);
        assert(slashed.last() == '/');
        assert(text::pieces(slashed) =~= words_of(cuts, m).push(Seq::empty()));
        lemma_piece_word(slashed, word);
        assert(Seq::<char>::empty() + word =~= word);
        assert(text::pieces(path) =~= words_of(cuts, n));
        assert forall|i: int| 0 <= i < path.len() implies #[trigger] path[i] != '@' by {
            if i < before.len() {
                assert(path[i] == before[i]);
            } else if i > before.len() {
                assert(path[i] == word[i - before.len() - 1]);
            }
        }
    }
}

proof fn lemma_sides(cuts: Seq<Side>, n: nat, k: nat)
    requires
        k <= n <= cuts.len(),
    ensures
        sides_of(words_of(cuts, n), k) == Some(cuts.take(k as int)),
    decreases k,
{
    if k == 0 {
        assert(cuts.take(0) =~= Seq::empty());
    } else {
        lemma_sides(cuts, n, (k - 1) as nat);
        lemma_word_plain(cuts[k - 1]);
        crate::side::a_side_is_named_by_its_word(cuts[k - 1]);
        assert(cuts.take(k as int) =~= cuts.take(k - 1).push(cuts[k - 1]));
    }
}

proof fn lemma_place_past(a: Seq<char>, b: Seq<char>, c: char)
    requires
        forall|i: int| 0 <= i < a.len() ==> #[trigger] a[i] != c,
    ensures
        text::place_of(a + b, c) == a.len() + text::place_of(b, c),
    decreases a.len(),
{
    if a.len() == 0 {
        assert(a + b =~= b);
    } else {
        assert((a + b).drop_first() =~= a.drop_first() + b);
        assert forall|i: int| 0 <= i < a.drop_first().len() implies #[trigger] a.drop_first()[i]
            != c by {
            assert(a.drop_first()[i] == a[i + 1]);
        }
        lemma_place_past(a.drop_first(), b, c);
        assert((a + b)[0] == a[0]);
    }
}

proof fn lemma_absent(s: Seq<char>, c: char)
    requires
        forall|i: int| 0 <= i < s.len() ==> #[trigger] s[i] != c,
    ensures
        text::place_of(s, c) == s.len(),
{
    lemma_place_past(s, Seq::empty(), c);
    assert(s + Seq::<char>::empty() =~= s);
}

proof fn lemma_percent(n: nat)
    requires
        5 <= n <= 95,
    ensures
        percent::share_of(decimal(n)) == Some((n * 10_000) as u32),
{
    let s = decimal(n);
    reveal_with_fuel(decimal, 2);
    assert(percent::all_digits(s));
    assert(1 <= s.len() <= 2);
    assert(percent::is_digit(s[0]) && percent::is_digit(s[s.len() - 1]));
    assert(text::trimmed(s) == s);
    assert(percent::unsigned(s) == s);
    assert(text::lowered(s) =~= s) by {
        assert forall|i: int| 0 <= i < s.len() implies text::small(#[trigger] s[i]) == s[i] by {
            assert(percent::is_digit(s[i]));
        }
    }
    reveal_strlit("nan");
    reveal_strlit("inf");
    reveal_strlit("infinity");
    assert(s[0] != "nan"@[0] && s[0] != "inf"@[0] && s[0] != "infinity"@[0]);
    assert forall|i: int| 0 <= i < s.len() implies #[trigger] s[i] != 'e' && s[i] != 'E' && s[i]
        != '.' by {
        assert(percent::is_digit(s[i]));
    }
    lemma_absent(s, 'e');
    lemma_absent(s, 'E');
    assert(s.take(s.len() as int) =~= s);
    lemma_absent(s, '.');
    assert(percent::digits_of(s) == s);
    reveal_with_fuel(percent::whole, 7);
    if n < 10 {
        assert(percent::digit_of(s[0]) == n);
        assert(percent::whole(s, 5) == n * 10_000);
    } else {
        assert(percent::digit_of(s[0]) == n / 10);
        assert(percent::digit_of(s[1]) == n % 10);
        assert(percent::whole(s, 6) == n * 10_000);
    }
}

/// What is written is what is read back: every path of cuts, with no share or
/// with a share of whole hundredths in the range one may name.
pub proof fn a_placement_reads_back_as_it_was_written(at: At)
    requires
        at.cuts@.len() > 0,
        at.share == 0 || at.share % 10_000 == 0 && percent::LEAST <= at.share <= percent::MOST,
    ensures
        placed_at(at.spelling()) == Some((at.cuts@, at.share)),
{
    let cuts = at.cuts@;
    let path = spelled_path(cuts, cuts.len());
    lemma_path_pieces(cuts, cuts.len());
    lemma_sides(cuts, cuts.len(), cuts.len());
    assert(cuts.take(cuts.len() as int) =~= cuts);
    assert(path_of(path) == Some(cuts));
    let spec = at.spelling();
    if at.share == 0 {
        lemma_absent(path, '@');
        assert(path.take(path.len() as int) =~= path);
    } else {
        let n = (at.share / 10_000) as nat;
        let tail = decimal(n);
        reveal_strlit("@");
        assert("@"@ =~= seq!['@']);
        assert(spec =~= path + ("@"@ + tail));
        lemma_place_past(path, "@"@ + tail, '@');
        assert(spec.take(path.len() as int) =~= path);
        assert(spec.skip(path.len() as int + 1) =~= tail);
        lemma_percent(n);
    }
}

} // verus!
