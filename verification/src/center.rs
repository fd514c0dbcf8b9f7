//! The centre block: the boxes held in the middle of the panel.

use vstd::prelude::*;
use crate::num;
use crate::num::div_up;
use crate::section::SectionShape;

verus! {

/// Whether a section has a place in the centre block. An empty one drops out,
/// the same rule the tree uses: a half with nothing in it is not a box.
pub open spec fn centred(section: SectionShape) -> bool {
    section.center is Some && section.count > 0
}

/// Where a centred section asks to sit, left to right.
pub open spec fn seat(section: SectionShape) -> usize {
    match section.center {
        Some(seat) => seat,
        None => 0,
    }
}

/// How many of a run of boxes sit at or before a seat, counted back from the
/// end.
pub open spec fn rank(sections: Seq<SectionShape>, order: Seq<usize>, at: usize) -> nat
    decreases order.len(),
{
    if order.len() == 0 || seat(sections[order.last() as int]) <= at {
        order.len()
    } else {
        rank(sections, order.drop_last(), at)
    }
}

/// The centred sections among the first `n`, in the order they sit left to
/// right. Two asking for one seat keep the order they came in.
pub open spec fn center_order(sections: Seq<SectionShape>, n: nat) -> Seq<usize>
    decreases n,
{
    if n == 0 {
        Seq::empty()
    } else {
        let before = center_order(sections, (n - 1) as nat);
        let section = sections[n - 1];
        if centred(section) {
            before.insert(
                rank(sections, before, seat(section)) as int,
                (n - 1) as usize,
            )
        } else {
            before
        }
    }
}

/// Whether one box sits before another.
pub open spec fn sits_before(sections: Seq<SectionShape>, a: usize, b: usize) -> bool {
    let (seat_a, seat_b) = (seat(sections[a as int]), seat(sections[b as int]));
    seat_a < seat_b || seat_a == seat_b && a < b
}

pub proof fn lemma_rank(sections: Seq<SectionShape>, order: Seq<usize>, at: usize)
    requires
        seated(sections, order),
    ensures
        ({
            let k = rank(sections, order, at);
            &&& k <= order.len()
            &&& forall|i: int| 0 <= i < k ==> seat(sections[#[trigger] order[i] as int]) <= at
            &&& forall|i: int|
                k <= i < order.len() ==> seat(sections[#[trigger] order[i] as int]) > at
        }),
    decreases order.len(),
{
    if order.len() > 0 {
        if seat(sections[order.last() as int]) > at {
            let shorter = order.drop_last();
            assert forall|i: int| 0 <= i < shorter.len() implies shorter[i]
                == #[trigger] order[i] by {}
            lemma_rank(sections, shorter, at);
            let k = rank(sections, order, at);
            assert forall|i: int| 0 <= i < k implies seat(sections[#[trigger] order[i] as int])
                <= at by {
                assert(shorter[i] == order[i]);
            }
            assert forall|i: int| k <= i < order.len() implies seat(
                sections[#[trigger] order[i] as int],
            ) > at by {
                if i < shorter.len() {
                    assert(shorter[i] == order[i]);
                }
            }
        } else {
            assert forall|i: int| 0 <= i < order.len() implies seat(
                sections[#[trigger] order[i] as int],
            ) <= at by {
                assert(order.last() == order[order.len() - 1]);
                if i < order.len() - 1 {
                    assert(sits_before(sections, order[i], order[order.len() - 1]));
                }
            }
        }
    }
}

/// Whether a run of boxes sits left to right.
pub open spec fn seated(sections: Seq<SectionShape>, order: Seq<usize>) -> bool {
    forall|i: int, j: int|
        0 <= i < j < order.len() ==> sits_before(
            sections,
            #[trigger] order[i],
            #[trigger] order[j],
        )
}

proof fn lemma_seated_insert(
    sections: Seq<SectionShape>,
    before: Seq<usize>,
    index: usize,
)
    requires
        seated(sections, before),
        forall|i: int| 0 <= i < before.len() ==> #[trigger] before[i] < index,
    ensures
        seated(
            sections,
            before.insert(
                rank(sections, before, seat(sections[index as int])) as int,
                index,
            ),
        ),
{
    let at = seat(sections[index as int]);
    let k = rank(sections, before, at) as int;
    lemma_rank(sections, before, at);
    let order = before.insert(k, index);
    assert forall|i: int, j: int| 0 <= i < j < order.len() implies sits_before(
        sections,
        #[trigger] order[i],
        #[trigger] order[j],
    ) by {
        let a = if i < k {
            i
        } else {
            i - 1
        };
        let b = if j < k {
            j
        } else {
            j - 1
        };
        if i == k {
            assert(order[j] == before[b]);
        } else if j == k {
            assert(order[i] == before[a]);
        } else {
            assert(order[i] == before[a] && order[j] == before[b]);
        }
    }
}

/// The block holds each centred section once and nothing else, left to right by
/// the seat it asked for.
pub proof fn center_boxes_sit_in_order(sections: Seq<SectionShape>, n: nat)
    requires
        n <= sections.len() <= usize::MAX,
    ensures
        seated(sections, center_order(sections, n)),
        center_order(sections, n).len() <= n,
        forall|i: int|
            0 <= i < center_order(sections, n).len() ==> #[trigger] center_order(sections, n)[i]
                < n && centred(sections[center_order(sections, n)[i] as int]),
        forall|k: usize|
            k < n && centred(sections[k as int]) ==> #[trigger] center_order(
                sections,
                n,
            ).contains(k),
    decreases n,
{
    if n > 0 {
        let index = (n - 1) as usize;
        center_boxes_sit_in_order(sections, index as nat);
        let before = center_order(sections, index as nat);
        let order = center_order(sections, n);
        if centred(sections[n - 1]) {
            let at = seat(sections[n - 1]);
            let k = rank(sections, before, at) as int;
            lemma_rank(sections, before, at);
            lemma_seated_insert(sections, before, index);
            assert(order == before.insert(k, index));
            assert forall|i: int| 0 <= i < order.len() implies #[trigger] order[i] < n && centred(
                sections[order[i] as int],
            ) by {
                if i < k {
                    assert(order[i] == before[i]);
                } else if i > k {
                    assert(order[i] == before[i - 1]);
                }
            }
            assert forall|m: usize| m < n && centred(
                sections[m as int],
            ) implies #[trigger] order.contains(m) by {
                if m < n - 1 {
                    assert(before.contains(m));
                    let i = choose|i: int| 0 <= i < before.len() && before[i] == m;
                    if i < k {
                        assert(order[i] == m);
                    } else {
                        assert(order[i + 1] == m);
                    }
                } else {
                    assert(order[k] == m);
                }
            }
        } else {
            assert(order == before);
        }
    }
}

/// The centre block's boxes, in the order they sit left to right.
pub fn center_boxes(sections: &[SectionShape]) -> (found: Vec<usize>)
    ensures
        found@ == center_order(sections@, sections@.len()),
{
    let mut found: Vec<usize> = Vec::new();
    for index in 0..sections.len()
        invariant
            found@ == center_order(sections@, index as nat),
    {
        proof {
            center_boxes_sit_in_order(sections@, index as nat);
        }
        if sections[index].count > 0 {
            if let Some(at) = sections[index].center {
                let mut k: usize = found.len();
                assert(found@.take(k as int) =~= found@);
                while k > 0 && seat_of(&sections[found[k - 1]]) > at
                    invariant
                        k <= found.len(),
                        forall|i: int|
                            0 <= i < found@.len() ==> #[trigger] found@[i] < sections@.len(),
                        rank(sections@, found@, at) == rank(
                            sections@,
                            found@.take(k as int),
                            at,
                        ),
                    ensures
                        k <= found.len(),
                        k == rank(sections@, found@, at),
                    decreases k,
                {
                    assert(found@.take(k as int).drop_last() =~= found@.take(k - 1));
                    k -= 1;
                }
                found.insert(k, index);
            }
        }
    }
    found
}

fn seat_of(section: &SectionShape) -> (at: usize)
    ensures
        at == seat(*section),
{
    match section.center {
        Some(at) => at,
        None => 0,
    }
}

/// A run of widths added up.
pub open spec fn sum(widths: Seq<usize>) -> nat
    decreases widths.len(),
{
    if widths.len() == 0 {
        0
    } else {
        sum(widths.drop_last()) + widths.last() as nat
    }
}

/// A run of widths added up.
pub fn total_of(widths: &Vec<usize>) -> (total: usize)
    requires
        sum(widths@) <= usize::MAX,
    ensures
        total == sum(widths@),
{
    let mut total: usize = 0;
    for i in 0..widths.len()
        invariant
            total == sum(widths@.take(i as int)),
            sum(widths@) <= usize::MAX,
    {
        proof {
            lemma_sum_take(widths@, i + 1);
            assert(widths@.take(i + 1).drop_last() =~= widths@.take(i as int));
        }
        total += widths[i];
    }
    assert(widths@.take(widths@.len() as int) =~= widths@);
    total
}

/// The widest of a run of widths, and the last of them where several are.
pub open spec fn widest(widths: Seq<usize>) -> int
    decreases widths.len(),
{
    if widths.len() <= 1 {
        0
    } else {
        let before = widest(widths.drop_last());
        if widths[before] > widths.last() {
            before
        } else {
            widths.len() - 1
        }
    }
}

pub proof fn lemma_widest(widths: Seq<usize>)
    requires
        widths.len() > 0,
    ensures
        0 <= widest(widths) < widths.len(),
        forall|i: int| 0 <= i < widths.len() ==> #[trigger] widths[i] <= widths[widest(widths)],
        forall|i: int|
            widest(widths) < i < widths.len() ==> #[trigger] widths[i] < widths[widest(widths)],
    decreases widths.len(),
{
    if widths.len() > 1 {
        let shorter = widths.drop_last();
        lemma_widest(shorter);
        assert forall|i: int| 0 <= i < widths.len() - 1 implies #[trigger] widths[i]
            == shorter[i] by {}
    }
}

pub proof fn lemma_sum_update(widths: Seq<usize>, i: int, w: usize)
    requires
        0 <= i < widths.len(),
    ensures
        sum(widths.update(i, w)) == sum(widths) - widths[i] + w,
    decreases widths.len(),
{
    let changed = widths.update(i, w);
    if i == widths.len() - 1 {
        assert(changed.drop_last() =~= widths.drop_last());
    } else {
        assert(changed.drop_last() =~= widths.drop_last().update(i, w));
        lemma_sum_update(widths.drop_last(), i, w);
    }
}

pub proof fn lemma_sum_bounds(widths: Seq<usize>, i: int)
    requires
        0 <= i < widths.len(),
    ensures
        widths[i] <= sum(widths),
    decreases widths.len(),
{
    if i < widths.len() - 1 {
        lemma_sum_bounds(widths.drop_last(), i);
    }
}

pub proof fn lemma_sum_at_least(widths: Seq<usize>)
    requires
        forall|i: int| 0 <= i < widths.len() ==> #[trigger] widths[i] >= 1,
    ensures
        sum(widths) >= widths.len(),
        (forall|i: int| 0 <= i < widths.len() ==> #[trigger] widths[i] == 1) ==> sum(widths)
            == widths.len(),
    decreases widths.len(),
{
    if widths.len() > 0 {
        let shorter = widths.drop_last();
        assert forall|i: int| 0 <= i < shorter.len() implies #[trigger] shorter[i] >= 1 by {
            assert(shorter[i] == widths[i]);
        }
        lemma_sum_at_least(shorter);
        assert(widths.last() == widths[widths.len() - 1]);
        if forall|i: int| 0 <= i < widths.len() ==> #[trigger] widths[i] == 1 {
            assert forall|i: int| 0 <= i < shorter.len() implies #[trigger] shorter[i] == 1 by {
                assert(shorter[i] == widths[i]);
            }
        }
    }
}

/// What is left of a run of widths once they fit a budget: a column at a time
/// off the widest, and never the last column of any.
pub open spec fn narrowed(widths: Seq<usize>, budget: nat) -> Seq<usize>
    decreases sum(widths),
{
    if sum(widths) > budget && exists|i: int|
        0 <= i < widths.len() && #[trigger] widths[i] > 1 {
        proof {
            lemma_widest(widths);
            lemma_sum_update(
                widths,
                widest(widths),
                (widths[widest(widths)] - 1) as usize,
            );
            lemma_sum_bounds(widths, widest(widths));
        }
        narrowed(widths.update(widest(widths), (widths[widest(widths)] - 1) as usize), budget)
    } else {
        widths
    }
}

/// The columns each centre box asks for.
pub open spec fn asked(sections: Seq<SectionShape>, order: Seq<usize>) -> Seq<usize> {
    order.map_values(|index: usize|
        if sections[index as int].columns > 1 {
            sections[index as int].columns
        } else {
            1usize
        })
}

/// How many columns each half of the centre gets, given what the panel has.
///
/// Normally each half gets what it asked for. The budget only bites on a panel
/// too narrow to hold the block, and there the halves give up a column each
/// from the widest rather than one of them disappearing.
pub fn center_widths(sections: &[SectionShape], order: &Vec<usize>, budget: usize) -> (widths: Vec<
    usize,
>)
    requires
        forall|i: int| 0 <= i < order.len() ==> #[trigger] order@[i] < sections@.len(),
        sum(asked(sections@, order@)) <= usize::MAX,
    ensures
        widths@ == narrowed(asked(sections@, order@), budget as nat),
{
    let mut want: Vec<usize> = Vec::new();
    let mut total: usize = 0;
    let ghost goal = asked(sections@, order@);
    for i in 0..order.len()
        invariant
            forall|i: int| 0 <= i < order.len() ==> #[trigger] order@[i] < sections@.len(),
            goal == asked(sections@, order@),
            want@ == goal.take(i as int),
            total == sum(want@),
            sum(goal) <= usize::MAX,
    {
        proof {
            lemma_sum_take(goal, i + 1);
            assert(goal.take(i + 1).drop_last() =~= goal.take(i as int));
        }
        let columns = sections[order[i]].columns;
        let w: usize = if columns > 1 {
            columns
        } else {
            1
        };
        want.push(w);
        assert(want@ =~= goal.take(i + 1));
        total += w;
    }
    assert(want@ =~= goal);
    loop
        invariant
            total == sum(want@),
            narrowed(want@, budget as nat) == narrowed(goal, budget as nat),
        ensures
            want@ == narrowed(goal, budget as nat),
        decreases total,
    {
        if total <= budget {
            break;
        }
        let mut k: usize = 0;
        for i in 0..want.len()
            invariant
                i > 0 ==> k < i && k == widest(want@.take(i as int)),
                i == 0 ==> k == 0,
        {
            proof {
                let longer = want@.take(i + 1);
                assert(longer.drop_last() =~= want@.take(i as int));
                assert(longer.last() == want@[i as int]);
                if i > 0 {
                    assert(longer[k as int] == want@[k as int]);
                }
            }
            if want[i] >= want[k] {
                k = i;
            }
        }
        assert(want@.take(want@.len() as int) =~= want@);
        if want.len() == 0 {
            break;
        }
        proof {
            lemma_widest(want@);
        }
        if want[k] <= 1 {
            break;
        }
        proof {
            assert(want@[k as int] > 1);
            lemma_sum_update(want@, k as int, (want@[k as int] - 1) as usize);
            lemma_sum_bounds(want@, k as int);
        }
        let w: usize = want[k];
        want.set(k, w - 1);
        total -= 1;
    }
    want
}

pub proof fn lemma_sum_take(widths: Seq<usize>, n: int)
    requires
        0 <= n <= widths.len(),
    ensures
        sum(widths.take(n)) <= sum(widths),
    decreases widths.len(),
{
    if n < widths.len() {
        assert(widths.take(n) =~= widths.drop_last().take(n));
        lemma_sum_take(widths.drop_last(), n);
    } else {
        assert(widths.take(n) =~= widths);
    }
}

/// Every half of the block keeps a column, no half is widened, and together
/// they take all they asked for where the budget holds it and exactly the
/// budget otherwise, short only of a column a half.
pub proof fn center_widths_fit_the_budget(widths: Seq<usize>, budget: nat)
    requires
        forall|i: int| 0 <= i < widths.len() ==> #[trigger] widths[i] >= 1,
    ensures
        ({
            let got = narrowed(widths, budget);
            &&& got.len() == widths.len()
            &&& forall|i: int| 0 <= i < got.len() ==> 1 <= #[trigger] got[i] <= widths[i]
            &&& sum(widths) <= budget ==> got == widths
            &&& sum(got) == num::smaller(
                sum(widths) as int,
                num::larger(budget as int, widths.len() as int),
            )
        }),
    decreases sum(widths),
{
    lemma_sum_at_least(widths);
    if sum(widths) > budget {
        if exists|i: int| 0 <= i < widths.len() && #[trigger] widths[i] > 1 {
            lemma_widest(widths);
            let k = widest(widths);
            let w = (widths[k] - 1) as usize;
            lemma_sum_update(widths, k, w);
            lemma_sum_bounds(widths, k);
            lemma_sum_at_least(widths.update(k, w));
            center_widths_fit_the_budget(widths.update(k, w), budget);
            let got = narrowed(widths, budget);
            assert forall|i: int| 0 <= i < got.len() implies 1 <= #[trigger] got[i]
                <= widths[i] by {
                assert(got[i] <= widths.update(k, w)[i]);
            }
        } else {
            assert forall|i: int| 0 <= i < widths.len() implies #[trigger] widths[i] == 1 by {}
        }
    }
}

/// The rows the tallest of a run of centre boxes takes.
pub open spec fn tallest(
    sections: Seq<SectionShape>,
    order: Seq<usize>,
    widths: Seq<usize>,
) -> nat
    decreases order.len(),
{
    if order.len() == 0 {
        0
    } else {
        let last = order.len() - 1;
        num::larger(
            tallest(sections, order.drop_last(), widths) as int,
            over_width(sections[order[last] as int].count, widths[last]) as int,
        ) as nat
    }
}

pub open spec fn over_width(count: usize, width: usize) -> nat {
    num::over(count as nat, num::larger(width as int, 1) as nat)
}

/// How many rows tall the block is: the tallest of its halves, so a half with
/// fewer slots leaves its bottom row empty rather than shortening the block.
pub fn center_rows(sections: &[SectionShape], order: &Vec<usize>, widths: &Vec<usize>) -> (rows:
    usize)
    requires
        forall|i: int| 0 <= i < order.len() ==> #[trigger] order@[i] < sections@.len(),
        widths.len() == order.len(),
    ensures
        rows == tallest(sections@, order@, widths@),
{
    let mut rows: usize = 0;
    for i in 0..order.len()
        invariant
            forall|i: int| 0 <= i < order.len() ==> #[trigger] order@[i] < sections@.len(),
            widths.len() == order.len(),
            rows == tallest(sections@, order@.take(i as int), widths@),
    {
        assert(order@.take(i + 1).drop_last() =~= order@.take(i as int));
        let across: usize = if widths[i] < 1 {
            1
        } else {
            widths[i]
        };
        let down: usize = div_up(sections[order[i]].count, across);
        if down > rows {
            rows = down;
        }
    }
    assert(order@.take(order@.len() as int) =~= order@);
    rows
}

} // verus!
