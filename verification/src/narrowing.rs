//! What typing leaves on the panel, and what Enter then takes.

use vstd::prelude::*;
use crate::board;
use crate::filter;
use crate::model::{Item, Section};

verus! {

/// Having a score is what makes an item a match.
pub open spec fn matching() -> spec_fn(Option<u32>) -> bool {
    |score: Option<u32>| score is Some
}

/// How many of the items before one match.
pub open spec fn matches_before(scores: Seq<Option<u32>>, i: int) -> nat {
    scores.take(i).filter(matching()).len()
}

proof fn lemma_counts(scores: Seq<Option<u32>>, i: int)
    requires
        0 <= i < scores.len(),
    ensures
        matches_before(scores, i + 1) == matches_before(scores, i) + if scores[i] is Some {
            1nat
        } else {
            0nat
        },
{
    reveal(Seq::filter);
    assert(scores.take(i + 1).drop_last() =~= scores.take(i));
    assert(scores.take(i + 1).last() == scores[i]);
}

proof fn lemma_grows(scores: Seq<Option<u32>>, i: int, k: int)
    requires
        0 <= i <= k <= scores.len(),
    ensures
        matches_before(scores, i) <= matches_before(scores, k),
        i < k && scores[i] is Some ==> matches_before(scores, i) < matches_before(scores, k),
    decreases k - i,
{
    if i < k {
        lemma_counts(scores, i);
        lemma_grows(scores, i + 1, k);
    }
}

proof fn lemma_kept(items: Seq<Item>, scores: Seq<Option<u32>>, n: nat)
    requires
        n <= scores.len(),
    ensures
        filter::kept(items, scores, n).len() == matches_before(scores, n as int),
        filter::marks(items, scores, n).len() == matches_before(scores, n as int),
        forall|i: int|
            #![trigger scores[i]]
            0 <= i < n && scores[i] is Some ==> {
                let at = matches_before(scores, i) as int;
                &&& at < matches_before(scores, n as int)
                &&& filter::kept(items, scores, n)[at] == items[i]
                &&& filter::marks(items, scores, n)[at] == (scores[i]->0, items[i].title@.len())
            },
    decreases n,
{
    if n == 0 {
        reveal(Seq::filter);
        assert(scores.take(0) =~= Seq::empty());
    } else {
        lemma_kept(items, scores, (n - 1) as nat);
        lemma_counts(scores, n - 1);
    }
}

proof fn lemma_found(scores: Seq<Option<u32>>, n: int, at: int) -> (i: int)
    requires
        0 <= n <= scores.len(),
        0 <= at < matches_before(scores, n),
    ensures
        0 <= i < n,
        scores[i] is Some,
        matches_before(scores, i) == at,
    decreases n,
{
    if n == 0 {
        reveal(Seq::filter);
        assert(scores.take(0) =~= Seq::empty());
        0
    } else {
        lemma_counts(scores, n - 1);
        if at < matches_before(scores, n - 1) {
            lemma_found(scores, n - 1, at)
        } else {
            n - 1
        }
    }
}

/// A narrowed section holds what matches and nothing else: as many items as
/// there are matches, and every match at the place the matches before it leave
/// it, so each once and in the order they were in. Everything else about the
/// section stays.
pub proof fn a_narrowed_section_holds_exactly_what_matches(
    got: Section,
    section: Section,
    scores: Seq<Option<u32>>,
)
    requires
        scores.len() == section.items@.len(),
        filter::narrowed_to(got, section, scores),
    ensures
        got.items@.len() == scores.filter(matching()).len(),
        forall|i: int|
            0 <= i < scores.len() && (#[trigger] scores[i]) is Some ==> {
                &&& matches_before(scores, i) < got.items@.len()
                &&& got.items@[matches_before(scores, i) as int] == section.items@[i]
            },
        (forall|i: int| 0 <= i < scores.len() ==> (#[trigger] scores[i]) is Some) ==> got.items@
            == section.items@,
        got.title == section.title,
        got.total == section.total,
        got.columns == section.columns,
        got.center == section.center,
        got.slot == section.slot,
        got.edge == section.edge,
        got.color == section.color,
{
    let n = scores.len();
    lemma_kept(section.items@, scores, n);
    assert(scores.take(n as int) =~= scores);
    if forall|i: int| 0 <= i < scores.len() ==> (#[trigger] scores[i]) is Some {
        lemma_all(scores, n);
        assert forall|i: int| 0 <= i < n implies got.items@[i] == #[trigger] section.items@[i] by {
            lemma_all(scores, i as nat);
            assert(scores[i] is Some);
        }
        assert(got.items@ =~= section.items@);
    }
}

proof fn lemma_all(scores: Seq<Option<u32>>, n: nat)
    requires
        n <= scores.len(),
        forall|i: int| 0 <= i < scores.len() ==> (#[trigger] scores[i]) is Some,
    ensures
        matches_before(scores, n as int) == n,
    decreases n,
{
    if n == 0 {
        reveal(Seq::filter);
        assert(scores.take(0) =~= Seq::empty());
    } else {
        lemma_all(scores, (n - 1) as nat);
        lemma_counts(scores, n - 1);
        assert(scores[n - 1] is Some);
    }
}

/// Where a match is among the tiles of the narrowed panel: after those of the
/// sections before its own, and after the matches before it there.
pub open spec fn flat_place(
    narrowed: Seq<Section>,
    scores: Seq<Vec<Option<u32>>>,
    i: int,
    j: int,
) -> int {
    board::base_of(narrowed, i as nat) as int + matches_before(scores[i]@, j) as int
}

/// Whether every section of a panel was narrowed to what matches.
pub open spec fn all_narrowed(
    narrowed: Seq<Section>,
    sections: Seq<Section>,
    scores: Seq<Vec<Option<u32>>>,
) -> bool {
    &&& narrowed.len() == sections.len()
    &&& forall|i: int|
        0 <= i < sections.len() ==> filter::narrowed_to(
            #[trigger] narrowed[i],
            sections[i],
            scores[i]@,
        )
}

proof fn lemma_marks(
    narrowed: Seq<Section>,
    sections: Seq<Section>,
    scores: Seq<Vec<Option<u32>>>,
    n: nat,
)
    requires
        filter::scored(sections, scores),
        all_narrowed(narrowed, sections, scores),
        n <= sections.len(),
    ensures
        filter::all_marks(sections, scores, n).len() == board::base_of(narrowed, n),
        forall|i: int, j: int|
            #![trigger scores[i]@[j]]
            0 <= i < n && 0 <= j < scores[i]@.len() && scores[i]@[j] is Some ==> {
                let at = flat_place(narrowed, scores, i, j);
                &&& 0 <= at < board::base_of(narrowed, n)
                &&& filter::all_marks(sections, scores, n)[at] == (
                    scores[i]@[j]->0,
                    sections[i].items@[j].title@.len(),
                )
            },
    decreases n,
{
    if n > 0 {
        lemma_marks(narrowed, sections, scores, (n - 1) as nat);
        let last = n - 1;
        let own = scores[last]@;
        assert(own.len() == sections[last].items@.len());
        assert(filter::narrowed_to(narrowed[last], sections[last], own));
        lemma_kept(sections[last].items@, own, own.len());
        assert(own.take(own.len() as int) =~= own);
        let before = filter::all_marks(sections, scores, last as nat);
        assert forall|i: int, j: int|
            #![trigger scores[i]@[j]]
            0 <= i < n && 0 <= j < scores[i]@.len() && scores[i]@[j] is Some implies {
            let at = flat_place(narrowed, scores, i, j);
            &&& 0 <= at < board::base_of(narrowed, n)
            &&& filter::all_marks(sections, scores, n)[at] == (
                scores[i]@[j]->0,
                sections[i].items@[j].title@.len(),
            )
        } by {
            let at = flat_place(narrowed, scores, i, j);
            if i < last {
                assert(filter::all_marks(sections, scores, n)[at] == before[at]);
            } else {
                assert(own[j] is Some);
                assert(filter::all_marks(sections, scores, n)[at] == filter::marks(
                    sections[last].items@,
                    own,
                    own.len(),
                )[at - before.len()]);
            }
        }
    }
}

proof fn lemma_flat_found(
    narrowed: Seq<Section>,
    sections: Seq<Section>,
    scores: Seq<Vec<Option<u32>>>,
    n: nat,
    at: int,
) -> (found: (int, int))
    requires
        filter::scored(sections, scores),
        all_narrowed(narrowed, sections, scores),
        n <= sections.len(),
        0 <= at < board::base_of(narrowed, n),
    ensures
        0 <= found.0 < n,
        0 <= found.1 < scores[found.0]@.len(),
        scores[found.0]@[found.1] is Some,
        flat_place(narrowed, scores, found.0, found.1) == at,
    decreases n,
{
    if n == 0 {
        (0, 0)
    } else {
        let last = n - 1;
        let own = scores[last]@;
        let base = board::base_of(narrowed, last as nat) as int;
        if at < base {
            lemma_flat_found(narrowed, sections, scores, last as nat, at)
        } else {
            assert(own.len() == sections[last].items@.len());
            assert(filter::narrowed_to(narrowed[last], sections[last], own));
            lemma_kept(sections[last].items@, own, own.len());
            (last, lemma_found(own, own.len() as int, at - base))
        }
    }
}

proof fn lemma_flat_order(
    narrowed: Seq<Section>,
    sections: Seq<Section>,
    scores: Seq<Vec<Option<u32>>>,
    i: int,
    j: int,
    k: int,
    l: int,
)
    requires
        filter::scored(sections, scores),
        all_narrowed(narrowed, sections, scores),
        0 <= i <= k < sections.len(),
        0 <= j < scores[i]@.len(),
        0 <= l < scores[k]@.len(),
        scores[i]@[j] is Some,
        i < k || j < l,
    ensures
        flat_place(narrowed, scores, i, j) < flat_place(narrowed, scores, k, l),
{
    let own = scores[i]@;
    if i == k {
        lemma_grows(own, j, l);
    } else {
        assert(own.len() == sections[i].items@.len());
        assert(filter::narrowed_to(narrowed[i], sections[i], own));
        lemma_kept(sections[i].items@, own, own.len());
        lemma_grows(own, j, own.len() as int);
        board::lemma_base_bounds(narrowed, i as nat, k as nat);
    }
}

/// Enter takes something exactly where something matches, and what it takes is
/// the best match there is: no match of any section scores higher, none that
/// scores as high has a shorter title, and of those as good it is the one
/// nearest the top. Its place is counted on the panel as it is narrowed.
pub proof fn enter_takes_the_best_match(
    narrowed: Seq<Section>,
    sections: Seq<Section>,
    scores: Seq<Vec<Option<u32>>>,
)
    requires
        filter::scored(sections, scores),
        all_narrowed(narrowed, sections, scores),
    ensures
        ({
            let all = filter::all_marks(sections, scores, sections.len());
            let best = filter::best_of(all, all.len());
            &&& best is None <==> forall|i: int, j: int|
                #![trigger scores[i]@[j]]
                0 <= i < scores.len() && 0 <= j < scores[i]@.len() ==> scores[i]@[j] is None
            &&& best is Some ==> exists|i: int, j: int|
                #![trigger scores[i]@[j]]
                {
                    &&& 0 <= i < scores.len()
                    &&& 0 <= j < scores[i]@.len()
                    &&& scores[i]@[j] is Some
                    &&& best == Some(flat_place(narrowed, scores, i, j))
                    &&& is_best(sections, scores, i, j)
                }
        }),
{
    let n = sections.len();
    let all = filter::all_marks(sections, scores, n);
    let best = filter::best_of(all, all.len());
    filter::the_best_match_is_the_first_that_nothing_beats(all, all.len());
    lemma_marks(narrowed, sections, scores, n);
    if let Some(at) = best {
        let (i, j) = lemma_flat_found(narrowed, sections, scores, n, at);
        assert(scores[i]@[j] is Some);
        assert forall|k: int, l: int|
            #![trigger scores[k]@[l]]
            0 <= k < scores.len() && 0 <= l < scores[k]@.len() && scores[k]@[l] is Some implies {
            let (mine, other) = (scores[i]@[j]->0, scores[k]@[l]->0);
            let (length, longer) = (
                sections[i].items@[j].title@.len(),
                sections[k].items@[l].title@.len(),
            );
            &&& other <= mine
            &&& other == mine ==> length <= longer
            &&& (k < i || k == i && l < j) ==> other < mine || length < longer
        } by {
            let spot = flat_place(narrowed, scores, k, l);
            assert(!filter::beats(all[spot], all[at]));
            if k < i || k == i && l < j {
                lemma_flat_order(narrowed, sections, scores, k, l, i, j);
                assert(filter::beats(all[at], all[spot]));
            }
        }
        assert(is_best(sections, scores, i, j));
    } else {
        assert forall|i: int, j: int|
            #![trigger scores[i]@[j]]
            0 <= i < scores.len() && 0 <= j < scores[i]@.len() implies scores[i]@[j] is None by {
            if scores[i]@[j] is Some {
                assert(0 <= flat_place(narrowed, scores, i, j) < all.len());
            }
        }
    }
}

/// Whether a match is the best there is, and the first of those as good.
pub open spec fn is_best(
    sections: Seq<Section>,
    scores: Seq<Vec<Option<u32>>>,
    i: int,
    j: int,
) -> bool {
    forall|k: int, l: int|
        #![trigger scores[k]@[l]]
        0 <= k < scores.len() && 0 <= l < scores[k]@.len() && scores[k]@[l] is Some ==> {
            let (mine, other) = (scores[i]@[j]->0, scores[k]@[l]->0);
            let (length, longer) = (
                sections[i].items@[j].title@.len(),
                sections[k].items@[l].title@.len(),
            );
            &&& other <= mine
            &&& other == mine ==> length <= longer
            &&& (k < i || k == i && l < j) ==> other < mine || length < longer
        }
}

} // verus!
