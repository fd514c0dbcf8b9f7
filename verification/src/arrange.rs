//! The whole lattice settled: the tree around the centre block and the corner.

use vstd::prelude::*;
use crate::cells;
use crate::cells::{Block, Plot, PlotView};
use crate::center;
use crate::num;
use crate::place;
use crate::place::{Ground, GroundView};
use crate::section::SectionShape;
use crate::tree;
use crate::tree::Node;

verus! {

/// The most rows, columns and tiles a layout is asked to hold, all its sections
/// together.
pub const ROOM: usize = 0x0200_0000;

/// As much of the lattice as one section can take up, in rows or in columns.
pub open spec fn weight(section: SectionShape, clear: nat) -> nat {
    (section.columns + 4 * section.count + 130 + clear) as nat
}

/// As much of the lattice as the first `n` sections can take up.
pub open spec fn heft(sections: Seq<SectionShape>, clear: nat, n: nat) -> nat
    decreases n,
{
    if n == 0 {
        0
    } else {
        heft(sections, clear, (n - 1) as nat) + weight(sections[n - 1], clear)
    }
}

/// Whether a list of sections is short enough to count on this machine.
pub open spec fn fits_in_room(sections: Seq<SectionShape>, clear: nat) -> bool {
    heft(sections, clear, sections.len()) <= ROOM
}

pub proof fn lemma_heft_bounds(sections: Seq<SectionShape>, clear: nat, i: int, n: nat)
    requires
        0 <= i < n <= sections.len(),
    ensures
        heft(sections, clear, i as nat) + weight(sections[i], clear) <= heft(sections, clear, n),
    decreases n,
{
    if i < n - 1 {
        lemma_heft_bounds(sections, clear, i, (n - 1) as nat);
    }
}

pub proof fn lemma_heft_count(sections: Seq<SectionShape>, clear: nat, n: nat)
    ensures
        n <= heft(sections, clear, n),
    decreases n,
{
    if n > 0 {
        lemma_heft_count(sections, clear, (n - 1) as nat);
    }
}

proof fn lemma_tree_sum_heft(
    sections: Seq<SectionShape>,
    f: spec_fn(usize) -> nat,
    clear: nat,
    n: nat,
)
    requires
        n <= sections.len() <= usize::MAX,
        forall|i: usize|
            i < sections.len() ==> #[trigger] f(i) <= weight(sections[i as int], clear),
    ensures
        tree::tree_sum(sections, f, n) <= heft(sections, clear, n),
    decreases n,
{
    if n > 0 {
        lemma_tree_sum_heft(sections, f, clear, (n - 1) as nat);
        assert(f((n - 1) as usize) <= weight(sections[n - 1], clear));
    }
}

/// The sections that take a place in the tree.
pub open spec fn treed(sections: Seq<SectionShape>) -> spec_fn(usize) -> bool {
    |i: usize| i < sections.len() && sections[i as int].in_tree()
}

proof fn lemma_every(node: Node, p: spec_fn(usize) -> bool)
    requires
        forall|i: usize| tree::boxes_of(node, i) > 0 ==> #[trigger] p(i),
    ensures
        place::every(node, p),
    decreases node,
{
    match node {
        Node::Cut { near, far, .. } => {
            assert forall|i: usize| tree::boxes_of(*near, i) > 0 implies #[trigger] p(i) by {
                assert(tree::boxes_of(node, i) == tree::boxes_of(*near, i) + tree::boxes_of(
                    *far,
                    i,
                ));
            }
            assert forall|i: usize| tree::boxes_of(*far, i) > 0 implies #[trigger] p(i) by {
                assert(tree::boxes_of(node, i) == tree::boxes_of(*near, i) + tree::boxes_of(
                    *far,
                    i,
                ));
            }
            lemma_every(*near, p);
            lemma_every(*far, p);
        },
        Node::Leaf(index) => {
            assert(tree::boxes_of(node, index) == 1);
            assert(p(index));
        },
        Node::Empty => {},
    }
}

pub open spec fn one() -> spec_fn(usize) -> nat {
    |i: usize| 1nat
}

proof fn lemma_cut_count(node: Node)
    requires
        !tree::has_hole(node),
    ensures
        place::cut_count(node) + 1 == tree::total(node, one()),
    decreases node,
{
    if let Node::Cut { near, far, .. } = node {
        lemma_cut_count(*near);
        lemma_cut_count(*far);
    }
}

pub proof fn lemma_leaves_counted(node: Node)
    requires
        !tree::has_hole(node),
    ensures
        tree::leaves(node).len() == place::cut_count(node) + 1,
    decreases node,
{
    if let Node::Cut { near, far, .. } = node {
        lemma_leaves_counted(*near);
        lemma_leaves_counted(*far);
    }
}

proof fn lemma_every_weaker(
    node: Node,
    p: spec_fn(usize) -> bool,
    q: spec_fn(usize) -> bool,
)
    requires
        place::every(node, p),
        forall|i: usize| #[trigger] p(i) ==> q(i),
    ensures
        place::every(node, q),
    decreases node,
{
    if let Node::Cut { near, far, .. } = node {
        lemma_every_weaker(*near, p, q);
        lemma_every_weaker(*far, p, q);
    }
}

/// What holds of every tree a list of sections plans.
pub proof fn lemma_planned(sections: Seq<SectionShape>, clear: nat)
    requires
        fits_in_room(sections, clear),
    ensures
        sections.len() <= ROOM,
        forall|i: usize|
            i < sections.len() ==> #[trigger] cells::ceiling(sections[i as int].count as nat)
                <= ROOM,
        match tree::planned(sections) {
            None => true,
            Some(node) => {
                &&& !tree::has_hole(node)
                &&& place::every(node, treed(sections))
                &&& place::every(node, place::below(sections.len()))
                &&& tree::total(node, place::appetite(sections)) <= ROOM
                &&& tree::total(node, place::reach(sections, clear)) <= ROOM
                &&& place::cut_count(node) < ROOM
            },
        },
{
    lemma_heft_count(sections, clear, sections.len());
    assert forall|i: usize| i < sections.len() implies #[trigger] cells::ceiling(
        sections[i as int].count as nat,
    ) <= ROOM by {
        lemma_heft_bounds(sections, clear, i as int, sections.len());
    }
    if let Some(node) = tree::planned(sections) {
        let whole = tree::joined(
            tree::cuts_of(sections, sections.len()),
            tree::stack_of(sections, sections.len()),
        );
        tree::pruning_keeps_the_boxes(whole);
        assert forall|i: usize| tree::boxes_of(node, i) > 0 implies #[trigger] treed(
            sections,
        )(i) by {
            tree::plan_gives_every_section_one_box(sections, i);
        }
        lemma_every(node, treed(sections));
        lemma_every_weaker(node, treed(sections), place::below(sections.len()));
        tree::plan_counts_every_section_once(sections, place::appetite(sections));
        lemma_tree_sum_heft(sections, place::appetite(sections), clear, sections.len());
        tree::plan_counts_every_section_once(sections, place::reach(sections, clear));
        lemma_tree_sum_heft(sections, place::reach(sections, clear), clear, sections.len());
        tree::plan_counts_every_section_once(sections, one());
        lemma_tree_sum_heft(sections, one(), clear, sections.len());
        lemma_cut_count(node);
    }
}

proof fn lemma_sum_insert(widths: Seq<usize>, k: int, w: usize)
    requires
        0 <= k <= widths.len(),
    ensures
        center::sum(widths.insert(k, w)) == center::sum(widths) + w,
    decreases widths.len(),
{
    let longer = widths.insert(k, w);
    if k == widths.len() {
        assert(longer.drop_last() =~= widths);
    } else {
        assert(longer.drop_last() =~= widths.drop_last().insert(k, w));
        assert(longer.last() == widths.last());
        lemma_sum_insert(widths.drop_last(), k, w);
    }
}

/// The centre never asks for more columns than its sections name.
pub proof fn lemma_asked_bounded(sections: Seq<SectionShape>, clear: nat, n: nat)
    requires
        n <= sections.len() <= usize::MAX,
    ensures
        center::sum(center::asked(sections, center::center_order(sections, n))) <= heft(
            sections,
            clear,
            n,
        ),
    decreases n,
{
    if n > 0 {
        lemma_asked_bounded(sections, clear, (n - 1) as nat);
        let before = center::center_order(sections, (n - 1) as nat);
        let section = sections[n - 1];
        if center::centred(section) {
            center::center_boxes_sit_in_order(sections, (n - 1) as nat);
            center::lemma_rank(sections, before, center::seat(section));
            let k = center::rank(sections, before, center::seat(section)) as int;
            let w = if section.columns > 1 {
                section.columns
            } else {
                1
            };
            assert(center::asked(sections, before.insert(k, (n - 1) as usize))
                =~= center::asked(sections, before).insert(k, w));
            lemma_sum_insert(center::asked(sections, before), k, w);
        }
    }
}

/// What the lattice is settled against.
#[derive(Debug, Clone, Copy, PartialEq, Eq, Structural)]
pub struct Frame {
    /// The most columns a box of no set width asks for.
    pub capped: usize,
    /// Clear rows between one box and the box stacked under it.
    pub clear: usize,
    /// Columns of the panel.
    pub cols: usize,
    /// Rows of the panel that are on screen before anything scrolls.
    pub down: usize,
    /// Whether the corner holds the app's own button even on a single row.
    pub corner: bool,
    /// The size of the centre block. No columns or no rows is no block.
    pub across: usize,
    pub rows: usize,
}

/// The cells taken out of the grid: the centre block, and the corner.
#[derive(Debug, Clone, Copy, PartialEq, Eq, Structural)]
pub struct Holes {
    pub reserve: Option<Block>,
    pub home: Option<Block>,
}

impl Holes {
    pub open spec fn blocks(self) -> Seq<Block> {
        (match self.reserve {
            Some(block) => seq![block],
            None => Seq::empty(),
        }) + (match self.home {
            Some(block) => seq![block],
            None => Seq::empty(),
        })
    }

    fn list(&self) -> (blocks: Vec<Block>)
        ensures
            blocks@ == self.blocks(),
    {
        let mut blocks: Vec<Block> = Vec::new();
        if let Some(block) = self.reserve {
            blocks.push(block);
        }
        if let Some(block) = self.home {
            blocks.push(block);
        }
        assert(blocks@ =~= self.blocks());
        blocks
    }
}

/// One pass over the tree: its boxes, and the line it reaches, which is not the
/// bottom of the panel when the centre hangs lower.
pub open spec fn pass(
    sections: Seq<SectionShape>,
    frame: Frame,
    holes: Holes,
) -> (Seq<PlotView>, int) {
    match tree::planned(sections) {
        None => (Seq::empty(), 0),
        Some(node) => place::placed(
            node,
            GroundView {
                sections,
                capped: frame.capped as nat,
                clear: frame.clear as nat,
                holes: holes.blocks(),
            },
            0,
            0,
            frame.cols as int,
        ),
    }
}

/// How far down the content actually goes. The centre hangs below a short
/// bento, and the panel still has to be tall enough to hold it.
pub open spec fn reaching(line: int, reserve: Option<Block>) -> int {
    match reserve {
        None => line,
        Some(block) => num::larger(line, 2 * (block.row + block.rows) - 1),
    }
}

/// Where the centre block sits: the middle of what is on screen, to the nearest
/// whole row, and the middle of the columns. An odd column to spare goes to the
/// right of it.
pub open spec fn center_reserve(frame: Frame, line: int) -> Option<Block> {
    if frame.across == 0 || frame.rows == 0 {
        None
    } else {
        let seen = num::smaller((line + 1) / 2, frame.down as int);
        Some(
            Block {
                row: num::larger((seen + 1 - frame.rows) / 2, 0) as usize,
                col: (num::larger(frame.cols - frame.across, 0) / 2) as usize,
                rows: frame.rows,
                cols: frame.across,
            },
        )
    }
}

/// The cell the app's own button holds: the last column of the last row.
pub open spec fn home_reserve(frame: Frame, line: int) -> Option<Block> {
    if frame.cols > 0 && (line >= 2 || line == 1 && frame.corner) {
        Some(
            Block {
                row: ((line - 1) / 2) as usize,
                col: (frame.cols - 1) as usize,
                rows: 1,
                cols: 1,
            },
        )
    } else {
        None
    }
}

/// What a pass around some holes says the holes should have been.
pub open spec fn moved(sections: Seq<SectionShape>, frame: Frame, holes: Holes) -> Holes {
    let line = reaching(pass(sections, frame, holes).1, holes.reserve);
    Holes { reserve: center_reserve(frame, line), home: home_reserve(frame, line) }
}

/// How often the holes may be moved before the panel is drawn around them.
pub const PASSES: usize = 4;

/// The holes once they stop moving, or once they have been moved as often as
/// they may be.
///
/// Where the centre sits depends on how tall the panel is, and how tall the
/// panel is depends on what the centre pushed out of its way. The two can trade
/// places forever, so this is bounded rather than settled.
pub open spec fn settled(
    sections: Seq<SectionShape>,
    frame: Frame,
    holes: Holes,
    passes: nat,
) -> Holes
    decreases passes,
{
    if passes == 0 {
        holes
    } else {
        let next = moved(sections, frame, holes);
        if next == holes {
            next
        } else {
            settled(sections, frame, next, (passes - 1) as nat)
        }
    }
}

/// The holes a panel settles on.
pub open spec fn last_holes(sections: Seq<SectionShape>, frame: Frame) -> Holes {
    settled(sections, frame, Holes { reserve: None, home: None }, PASSES as nat)
}

/// The cell the app's own button is drawn on: the last column of the row the
/// content ends with. Nothing when there is no content.
pub open spec fn corner_of(frame: Frame, line: int) -> Option<Block> {
    if frame.cols > 0 && line >= 1 {
        Some(
            Block {
                row: ((line - 1) / 2) as usize,
                col: (frame.cols - 1) as usize,
                rows: 1,
                cols: 1,
            },
        )
    } else {
        None
    }
}

/// Whether some holes keep the button's cell clear: the boxes were laid out
/// around it, and the centre block does not stand on it.
pub open spec fn keeps_corner(frame: Frame, holes: Holes, line: int) -> bool {
    match corner_of(frame, line) {
        None => true,
        Some(corner) => {
            &&& holes.home == Some(corner)
            &&& holes.reserve matches Some(block) ==> !block.stands_on(
                corner.row as int,
                corner.col as int,
            )
        },
    }
}

/// Whether the holes a panel settles on keep the button's cell clear.
pub open spec fn corner_kept(sections: Seq<SectionShape>, frame: Frame) -> bool {
    let holes = last_holes(sections, frame);
    keeps_corner(frame, holes, reaching(pass(sections, frame, holes).1, holes.reserve))
}

/// Where the holes of a panel are. A corner that was not kept is given up: the
/// button gets a row of its own instead.
pub open spec fn holes_of(sections: Seq<SectionShape>, frame: Frame) -> Holes {
    let holes = last_holes(sections, frame);
    if corner_kept(sections, frame) {
        holes
    } else {
        Holes { home: None, ..holes }
    }
}

/// The line under one row more than ends at a line.
pub open spec fn one_row_on(line: int) -> int {
    2 * ((line + 1) / 2) + 1
}

/// The line the content of a panel reaches down to, with the row the button was
/// given where no cell was kept for it.
pub open spec fn line_of(sections: Seq<SectionShape>, frame: Frame) -> int {
    let holes = holes_of(sections, frame);
    let line = reaching(pass(sections, frame, holes).1, holes.reserve);
    if corner_kept(sections, frame) {
        line
    } else {
        one_row_on(line)
    }
}

/// Every box of the tree on the lattice, and the holes they flow around.
pub struct Arrangement {
    pub plots: Vec<Plot>,
    pub holes: Holes,
    /// The line the content reaches down to.
    pub line: usize,
}

/// Whether a frame is small enough to count on this machine.
pub open spec fn frame_fits(frame: Frame) -> bool {
    &&& frame.cols <= 2 * ROOM
    &&& frame.across <= ROOM
    &&& frame.rows <= ROOM
}

/// Whether holes lie where a panel of some frame can have put them.
pub open spec fn holes_fit(frame: Frame, holes: Holes) -> bool {
    &&& holes.reserve matches Some(block) ==> {
        &&& block.row <= 2 * ROOM
        &&& block.rows == frame.rows
        &&& frame.rows > 0
        &&& block.cols == frame.across
        &&& frame.across > 0
        &&& block.col <= frame.cols
    }
}

pub proof fn lemma_pass_bounded(sections: Seq<SectionShape>, frame: Frame, holes: Holes)
    requires
        fits_in_room(sections, frame.clear as nat),
        frame_fits(frame),
    ensures
        0 <= pass(sections, frame, holes).1 <= 2 * ROOM,
{
    lemma_planned(sections, frame.clear as nat);
    if let Some(node) = tree::planned(sections) {
        place::lemma_placed_bounded(
            node,
            GroundView {
                sections,
                capped: frame.capped as nat,
                clear: frame.clear as nat,
                holes: holes.blocks(),
            },
            0,
            0,
            frame.cols as int,
        );
    }
}

fn run_pass(
    sections: &[SectionShape],
    node: &Option<Node>,
    frame: &Frame,
    holes: &Holes,
) -> (got: (Vec<Plot>, usize))
    requires
        fits_in_room(sections@, frame.clear as nat),
        frame_fits(*frame),
        *node == tree::planned(sections@),
    ensures
        place::views(got.0@) == pass(sections@, *frame, *holes).0,
        got.1 == pass(sections@, *frame, *holes).1,
        got.1 <= 2 * ROOM,
{
    let mut out: Vec<Plot> = Vec::new();
    proof {
        lemma_planned(sections@, frame.clear as nat);
        lemma_pass_bounded(sections@, *frame, *holes);
        assert(place::views(out@) =~= Seq::empty());
    }
    match node {
        None => (out, 0),
        Some(node) => {
            let blocks = holes.list();
            let ground = Ground {
                sections,
                capped: frame.capped,
                clear: frame.clear,
                holes: &blocks,
            };
            let line = node.place(&ground, 0, 0, frame.cols, &mut out);
            let ghost want = pass(sections@, *frame, *holes).0;
            assert(Seq::<PlotView>::empty() + want =~= want);
            (out, line)
        },
    }
}

fn move_holes(
    sections: &[SectionShape],
    node: &Option<Node>,
    frame: &Frame,
    holes: &Holes,
) -> (next: Holes)
    requires
        fits_in_room(sections@, frame.clear as nat),
        frame_fits(*frame),
        holes_fit(*frame, *holes),
        *node == tree::planned(sections@),
    ensures
        next == moved(sections@, *frame, *holes),
        holes_fit(*frame, next),
{
    let (_, bottom) = run_pass(sections, node, frame, holes);
    let line = reached(bottom, &holes.reserve);
    let seen: usize = if (line + 1) / 2 < frame.down {
        (line + 1) / 2
    } else {
        frame.down
    };
    let reserve = if frame.across == 0 || frame.rows == 0 {
        None
    } else {
        Some(
            Block {
                row: if seen + 1 < frame.rows {
                    0
                } else {
                    (seen + 1 - frame.rows) / 2
                },
                col: frame.cols.saturating_sub(frame.across) / 2,
                rows: frame.rows,
                cols: frame.across,
            },
        )
    };
    let home = if frame.cols > 0 && (line >= 2 || line == 1 && frame.corner) {
        Some(Block { row: (line - 1) / 2, col: frame.cols - 1, rows: 1, cols: 1 })
    } else {
        None
    };
    Holes { reserve, home }
}

fn reached(bottom: usize, reserve: &Option<Block>) -> (line: usize)
    requires
        reserve matches Some(block) ==> block.rows > 0 && block.row <= 2 * ROOM && block.rows
            <= ROOM,
    ensures
        line == reaching(bottom as int, *reserve),
{
    match reserve {
        None => bottom,
        Some(block) => {
            let low: usize = 2 * (block.row + block.rows) - 1;
            if bottom >= low {
                bottom
            } else {
                low
            }
        },
    }
}

fn same_block(a: &Option<Block>, b: &Block) -> (yes: bool)
    ensures
        yes == (*a == Some(*b)),
{
    match a {
        Some(a) => *a == *b,
        None => false,
    }
}

fn check_corner(frame: &Frame, holes: &Holes, line: usize) -> (kept: bool)
    requires
        frame_fits(*frame),
        holes_fit(*frame, *holes),
        line <= 6 * ROOM,
    ensures
        kept == keeps_corner(*frame, *holes, line as int),
{
    if frame.cols == 0 || line == 0 {
        return true;
    }
    let corner = Block { row: (line - 1) / 2, col: frame.cols - 1, rows: 1, cols: 1 };
    if !same_block(&holes.home, &corner) {
        return false;
    }
    match &holes.reserve {
        None => true,
        Some(block) => !block.covers(corner.row, corner.col),
    }
}

/// Settle the lattice: the tree laid out around the centre block and the
/// corner, with both where the laid-out tree puts them. Where that leaves
/// something in the corner, the corner moves to a row of its own under
/// everything.
pub fn arrange(sections: &[SectionShape], node: &Option<Node>, frame: &Frame) -> (got: Arrangement)
    requires
        fits_in_room(sections@, frame.clear as nat),
        frame_fits(*frame),
        *node == tree::planned(sections@),
    ensures
        got.holes == holes_of(sections@, *frame),
        place::views(got.plots@) == pass(sections@, *frame, got.holes).0,
        got.line == line_of(sections@, *frame),
        holes_fit(*frame, got.holes),
        got.line <= 6 * ROOM + 2,
{
    let mut holes = Holes { reserve: None, home: None };
    let mut left: usize = PASSES;
    while left > 0
        invariant
            fits_in_room(sections@, frame.clear as nat),
            frame_fits(*frame),
            holes_fit(*frame, holes),
            *node == tree::planned(sections@),
            settled(sections@, *frame, holes, left as nat) == last_holes(sections@, *frame),
        ensures
            holes_fit(*frame, holes),
            holes == last_holes(sections@, *frame),
        decreases left,
    {
        let next = move_holes(sections, node, frame, &holes);
        let done = next == holes;
        holes = next;
        left -= 1;
        if done {
            break;
        }
    }
    let (plots, bottom) = run_pass(sections, node, frame, &holes);
    let line = reached(bottom, &holes.reserve);
    if check_corner(frame, &holes, line) {
        return Arrangement { plots, holes, line };
    }
    let open = Holes { reserve: holes.reserve, home: None };
    let (plots, bottom) = run_pass(sections, node, frame, &open);
    let line = reached(bottom, &open.reserve);
    Arrangement { plots, holes: open, line: 2 * ((line + 1) / 2) + 1 }
}

} // verus!
