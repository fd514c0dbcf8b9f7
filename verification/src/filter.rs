//! Typing narrows the panel to what matches.

use vstd::prelude::*;
use crate::board;
use crate::model::{Item, Section};
use crate::text;
use crate::text::trim;

verus! {

/// The items among the first `n` that match, in the order they were in.
pub open spec fn kept(items: Seq<Item>, scores: Seq<Option<u32>>, n: nat) -> Seq<Item>
    decreases n,
{
    if n == 0 {
        Seq::empty()
    } else {
        let before = kept(items, scores, (n - 1) as nat);
        if scores[n - 1] is Some {
            before.push(items[n - 1])
        } else {
            before
        }
    }
}

/// How well each of those matches, and how long its title is.
pub open spec fn marks(items: Seq<Item>, scores: Seq<Option<u32>>, n: nat) -> Seq<(u32, nat)>
    decreases n,
{
    if n == 0 {
        Seq::empty()
    } else {
        let before = marks(items, scores, (n - 1) as nat);
        match scores[n - 1] {
            Some(score) => before.push((score, items[n - 1].title@.len())),
            None => before,
        }
    }
}

/// The same over the first `n` sections, flattened.
pub open spec fn all_marks(
    sections: Seq<Section>,
    scores: Seq<Vec<Option<u32>>>,
    n: nat,
) -> Seq<(u32, nat)>
    decreases n,
{
    if n == 0 {
        Seq::empty()
    } else {
        all_marks(sections, scores, (n - 1) as nat) + marks(
            sections[n - 1].items@,
            scores[n - 1]@,
            scores[n - 1]@.len(),
        )
    }
}

/// Whether one match displaces another: a better one, or one as good with a
/// shorter title.
pub open spec fn beats(a: (u32, nat), b: (u32, nat)) -> bool {
    a.0 > b.0 || a.0 == b.0 && a.1 < b.1
}

/// The match Enter takes among the first `n`. Strict improvement to displace,
/// so ties keep the tile nearest the top.
pub open spec fn best_of(marks: Seq<(u32, nat)>, n: nat) -> Option<int>
    decreases n,
{
    if n == 0 {
        None
    } else {
        match best_of(marks, (n - 1) as nat) {
            None => Some(n - 1),
            Some(k) => if beats(marks[n - 1], marks[k]) {
                Some(n - 1)
            } else {
                Some(k)
            },
        }
    }
}

/// The match Enter takes is there whenever anything matches, nothing beats it,
/// and everything before it is beaten by it.
pub proof fn the_best_match_is_the_first_that_nothing_beats(marks: Seq<(u32, nat)>, n: nat)
    requires
        n <= marks.len(),
    ensures
        match best_of(marks, n) {
            None => n == 0,
            Some(k) => {
                &&& 0 <= k < n
                &&& forall|i: int| 0 <= i < n ==> !beats(#[trigger] marks[i], marks[k])
                &&& forall|i: int| 0 <= i < k ==> beats(marks[k], #[trigger] marks[i])
            },
        },
    decreases n,
{
    if n > 0 {
        the_best_match_is_the_first_that_nothing_beats(marks, (n - 1) as nat);
    }
}

/// Whether there is a score for every item of every section.
pub open spec fn scored(sections: Seq<Section>, scores: Seq<Vec<Option<u32>>>) -> bool {
    &&& scores.len() == sections.len()
    &&& forall|i: int|
        0 <= i < sections.len() ==> (#[trigger] scores[i])@.len() == sections[i].items@.len()
}

/// A section narrowed to what matches. Everything else about it stays.
pub open spec fn narrowed_to(got: Section, section: Section, scores: Seq<Option<u32>>) -> bool {
    &&& got.items@ == kept(section.items@, scores, scores.len())
    &&& got.title == section.title
    &&& got.total == section.total
    &&& got.columns == section.columns
    &&& got.center == section.center
    &&& got.slot == section.slot
    &&& got.edge == section.edge
    &&& got.color == section.color
}

/// The best match so far, and the number of matches so far.
struct Best {
    chosen: Option<usize>,
    score: u32,
    length: usize,
    flat: usize,
}

impl Best {
    spec fn of(&self, marks: Seq<(u32, nat)>) -> bool {
        &&& self.flat == marks.len()
        &&& match (self.chosen, best_of(marks, marks.len())) {
            (Some(k), Some(want)) => k == want && k < marks.len() && marks[k as int] == (
                self.score,
                self.length as nat,
            ),
            (None, None) => true,
            _ => false,
        }
    }
}

proof fn lemma_best_prefix(marks: Seq<(u32, nat)>, more: Seq<(u32, nat)>, n: nat)
    requires
        n <= marks.len(),
    ensures
        best_of(marks + more, n) == best_of(marks, n),
    decreases n,
{
    if n > 0 {
        lemma_best_prefix(marks, more, (n - 1) as nat);
        the_best_match_is_the_first_that_nothing_beats(marks, (n - 1) as nat);
    }
}

fn take_match(best: &mut Best, score: u32, length: usize, Ghost(marks): Ghost<Seq<(u32, nat)>>)
    requires
        old(best).of(marks),
        marks.len() < usize::MAX,
    ensures
        final(best).of(marks.push((score, length as nat))),
{
    proof {
        let more = marks.push((score, length as nat));
        assert(more =~= marks + seq![(score, length as nat)]);
        lemma_best_prefix(marks, seq![(score, length as nat)], marks.len());
    }
    let better = match best.chosen {
        None => true,
        Some(_) => score > best.score || (score == best.score && length < best.length),
    };
    if better {
        best.chosen = Some(best.flat);
        best.score = score;
        best.length = length;
    }
    best.flat += 1;
}

fn narrow(section: Section, scores: &Vec<Option<u32>>, best: &mut Best, Ghost(before): Ghost<
    Seq<(u32, nat)>,
>) -> (got: Section)
    requires
        scores@.len() == section.items@.len(),
        old(best).of(before),
        before.len() + scores@.len() <= usize::MAX,
    ensures
        narrowed_to(got, section, scores@),
        final(best).of(before + marks(section.items@, scores@, scores@.len())),
{
    let Section { title, items, total, columns, center, slot, edge, color } = section;
    let mut left: Vec<Item> = Vec::new();
    let ghost all = items@;
    let mut i: usize = 0;
    assert(before + marks(all, scores@, 0) =~= before);
    for item in iter: items
        invariant
            iter.seq() == all,
            i == iter.index(),
            scores@.len() == all.len(),
            left@ == kept(all, scores@, i as nat),
            best.of(before + marks(all, scores@, i as nat)),
            marks(all, scores@, i as nat).len() <= i,
            before.len() + scores@.len() <= usize::MAX,
    {
        assert(item == all[i as int]);
        if let Some(score) = scores[i] {
            let length: usize = item.title.as_str().unicode_len();
            let ghost sofar = before + marks(all, scores@, i as nat);
            take_match(best, score, length, Ghost(sofar));
            assert(sofar.push((score, length as nat)) =~= before + marks(
                all,
                scores@,
                (i + 1) as nat,
            ));
            left.push(item);
        }
        i += 1;
    }
    Section { title, items: left, total, columns, center, slot, edge, color }
}

proof fn lemma_marks_bounded(sections: Seq<Section>, scores: Seq<Vec<Option<u32>>>, n: nat)
    requires
        scored(sections, scores),
        n <= sections.len(),
    ensures
        all_marks(sections, scores, n).len() <= board::base_of(sections, n),
    decreases n,
{
    if n > 0 {
        lemma_marks_bounded(sections, scores, (n - 1) as nat);
        assert(scores[n - 1]@.len() == sections[n - 1].items@.len());
        lemma_marks_len(sections[n - 1].items@, scores[n - 1]@, scores[n - 1]@.len());
    }
}

proof fn lemma_marks_len(items: Seq<Item>, scores: Seq<Option<u32>>, n: nat)
    ensures
        marks(items, scores, n).len() == kept(items, scores, n).len(),
        marks(items, scores, n).len() <= n,
    decreases n,
{
    if n > 0 {
        lemma_marks_len(items, scores, (n - 1) as nat);
    }
}

/// Narrow some sections to what a query matches, given how well it matches each
/// item, and find the tile Enter takes. A query of nothing but space narrows
/// nothing and picks nothing.
///
/// Emptied sections stay in the list: the layout skips them, and taking them
/// out would break the link from a band to its section.
pub fn filtered(query: &Vec<char>, sections: Vec<Section>, scores: &Vec<Vec<Option<u32>>>) -> (got: (
    Vec<Section>,
    Option<usize>,
))
    requires
        scored(sections@, scores@),
        board::base_of(sections@, sections@.len()) <= usize::MAX,
    ensures
        text::trimmed(query@).len() == 0 ==> got.0@ == sections@ && got.1 is None,
        text::trimmed(query@).len() > 0 ==> {
            let all = all_marks(sections@, scores@, sections@.len());
            &&& got.0@.len() == sections@.len()
            &&& forall|i: int|
                0 <= i < sections@.len() ==> narrowed_to(
                    #[trigger] got.0@[i],
                    sections@[i],
                    scores@[i]@,
                )
            &&& match (got.1, best_of(all, all.len())) {
                (Some(k), Some(want)) => k == want,
                (None, None) => true,
                _ => false,
            }
        },
{
    if trim(query).len() == 0 {
        return (sections, None);
    }
    let mut best = Best { chosen: None, score: 0, length: 0, flat: 0 };
    let mut out: Vec<Section> = Vec::new();
    let ghost all = sections@;
    let count: usize = sections.len();
    let mut i: usize = 0;
    for section in iter: sections
        invariant
            iter.seq() == all,
            i == iter.index(),
            scored(all, scores@),
            all.len() == count,
            board::base_of(all, all.len()) <= usize::MAX,
            best.of(all_marks(all, scores@, i as nat)),
            out@.len() == i,
            forall|k: int|
                0 <= k < i ==> narrowed_to(#[trigger] out@[k], all[k], scores@[k]@),
    {
        assert(section == all[i as int]);
        assert(scores@[i as int]@.len() == all[i as int].items@.len());
        proof {
            lemma_marks_bounded(all, scores@, i as nat);
            board::lemma_base_bounds(all, i as nat, all.len());
        }
        let got = narrow(section, &scores[i], &mut best, Ghost(all_marks(all, scores@, i as nat)));
        out.push(got);
        i += 1;
    }
    (out, best.chosen)
}

} // verus!
