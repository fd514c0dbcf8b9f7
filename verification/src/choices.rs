//! What the squares offer, and what each writes.

use vstd::prelude::*;
use crate::at::WHOLE;
use crate::center;
use crate::config;
use crate::config::{Center, Change, Config, Contents};
use crate::control::{BoxState, Control};
use crate::geometry::PX;
use crate::num;
use crate::section::SectionShape;
use crate::settings;
use crate::settings::Setting;
use crate::side::{Axis, Side};

verus! {

/// A square that switches something writes the other way it can be, and one that
/// steps through a list writes the next on it, coming round at the end. A cap
/// that is not on the list starts it anew.
pub proof fn a_square_writes_its_next_value(config: Config)
    ensures
        Setting::Labels.writes(config) == Some(Change::ShowDetail(!config.grid.show_detail)),
        Setting::Browser.writes(config) == Some(Change::Browser(!config.browser.enabled)),
        Setting::Columns.writes(config) == Some(
            Change::MaxColumns(
                if config.grid.max_columns == 5 {
                    7
                } else if config.grid.max_columns == 7 {
                    9
                } else if config.grid.max_columns == 9 {
                    12
                } else if config.grid.max_columns == 12 {
                    0
                } else {
                    5
                },
            ),
        ),
        Setting::CenterHolds.writes(config) == Some(
            Change::CenterContents(
                match config.center.contents {
                    Contents::Split => Contents::One,
                    Contents::One => Contents::Apps,
                    Contents::Apps => Contents::Sites,
                    Contents::Sites => Contents::Split,
                },
            ),
        ),
        Setting::OpenFile.writes(config) is None,
        Setting::Reset.writes(config) is None,
        Setting::ResetYes.writes(config) is None,
        Setting::ResetNo.writes(config) is None,
        Setting::Done.writes(config) is None,
{
}

/// The tile sizes go up in width, in height and in the strip the label gets.
pub proof fn the_tile_sizes_go_up(i: int)
    requires
        0 <= i < 3,
    ensures
        ({
            let (here, next) = (settings::size_of_step(i), settings::size_of_step(i + 1));
            here.0 < next.0 && here.1 < next.1 && here.2 < next.2
        }),
        settings::size_of_step(0).0 == 100 * PX,
        settings::size_of_step(1).0 == config::stock_grid().tile_width,
        settings::size_of_step(1).1 == config::stock_grid().tile_height,
        settings::size_of_step(1).2 == config::stock_grid().label_height,
        settings::size_of_step(3).0 == 220 * PX,
{
}

/// The tiles square writes the size after the one the tiles are nearest to, all
/// three lengths of it, and the smallest after the largest.
pub proof fn the_tiles_square_writes_the_next_size(config: Config)
    ensures
        ({
            let now = settings::nearest_size(config.grid.tile_width as int, 4);
            let next = settings::size_of_step(if now == 3 {
                0
            } else {
                now + 1
            });
            &&& 0 <= now < 4
            &&& Setting::Tiles.writes(config) == Some(
                Change::Tiles {
                    width: next.0 as i64,
                    height: next.1 as i64,
                    label: next.2 as i64,
                },
            )
        }),
{
    reveal_with_fuel(settings::nearest_size, 5);
}

/// A settings square says the value it is on.
pub proof fn a_square_says_the_value_it_is_on(config: Config)
    ensures
        Setting::Labels.words(config) == if config.grid.show_detail {
            "Labels \u{00B7} name + detail"@
        } else {
            "Labels \u{00B7} name only"@
        },
        Setting::Browser.words(config) == if config.browser.enabled {
            "Browser \u{00B7} on"@
        } else {
            "Browser \u{00B7} off"@
        },
        config.grid.max_columns == 0 ==> Setting::Columns.words(config)
            == "Columns \u{00B7} as many as fit"@,
        config.grid.max_columns == 9 ==> Setting::Columns.words(config) == "Columns \u{00B7} 9"@,
        config.grid.max_columns == 8 ==> Setting::Columns.words(config)
            == "Columns \u{00B7} as set"@,
        Setting::CenterHolds.words(config) == match config.center.contents {
            Contents::Split => "Center holds \u{00B7} apps + sites"@,
            Contents::One => "Center holds \u{00B7} one block"@,
            Contents::Apps => "Center holds \u{00B7} apps only"@,
            Contents::Sites => "Center holds \u{00B7} sites only"@,
        },
{
}

/// A settings square applies wherever it would change something: what the block
/// holds while there is a block, a reset while the layout is not the stock one,
/// and every other square always.
pub proof fn a_square_applies_where_it_would_change_something(config: Config, setting: Setting)
    ensures
        setting == Setting::CenterHolds ==> (setting.applies_to(config) <==> config.center.rows > 0
            && config.center.columns > 0),
        setting == Setting::Reset ==> (setting.applies_to(config) <==> !settings::is_stock(config)),
        setting != Setting::CenterHolds && setting != Setting::Reset ==> setting.applies_to(config),
{
}

/// The layout nobody has changed is the stock one, whatever boxes were added
/// after the stock ones under titles of their own. Anything else a reset would
/// put back is not: another grid, another block, a stock box changed, missing or
/// named again.
pub proof fn the_stock_layout_is_what_a_reset_writes(config: Config)
    ensures
        ({
            let boxes = config::box_views(config.sections@);
            let stock = config::stock_boxes();
            let own_titles = forall|i: int, j: int|
                4 <= i < boxes.len() && 0 <= j < 4 ==> (#[trigger] boxes[i]).title != (
                #[trigger] stock[j]).title;
            let same_boxes = boxes.len() >= 4 && boxes[0] == stock[0] && boxes[1] == stock[1]
                && boxes[2] == stock[2] && boxes[3] == stock[3];
            settings::is_stock(config) <==> {
                &&& config.grid == config::stock_grid()
                &&& config.center.rows == 3
                &&& config.center.columns == 3
                &&& config.center.contents == Contents::Split
                &&& same_boxes
                &&& own_titles
            }
        }),
{
    let boxes = config::box_views(config.sections@);
    let stock = config::stock_boxes();
    assert(stock.len() == 4);
    if boxes.len() >= 4 && boxes[0] == stock[0] && boxes[1] == stock[1] && boxes[2] == stock[2]
        && boxes[3] == stock[3] {
        assert(boxes.take(4) =~= stock);
    }
    if boxes.len() >= 4 && boxes.take(4) == stock {
        assert(boxes.take(4)[0] == boxes[0] && boxes.take(4)[1] == boxes[1] && boxes.take(4)[2]
            == boxes[2] && boxes.take(4)[3] == boxes[3]);
    }
}

/// A block is resized one tile at a time, either way, and never past four nor
/// under one. Where that is where it is, or the block has no such size, nothing
/// is written.
pub proof fn a_block_is_resized_one_tile_at_a_time(config: Config)
    requires
        1 <= config.center.columns <= 4,
        1 <= config.center.rows <= 4,
    ensures
        ({
            let (columns, rows) = (config.center.columns, config.center.rows);
            let wider = settings::resized(config, 1, 0);
            let narrower = settings::resized(config, (-1) as isize, 0);
            let taller = settings::resized(config, 0, 1);
            let shorter = settings::resized(config, 0, (-1) as isize);
            &&& wider == if columns < 4 {
                Some(Change::CenterSize { columns: (columns + 1) as usize, rows })
            } else {
                None
            }
            &&& narrower == if columns > 1 {
                Some(Change::CenterSize { columns: (columns - 1) as usize, rows })
            } else {
                None
            }
            &&& taller == if rows < 4 {
                Some(Change::CenterSize { columns, rows: (rows + 1) as usize })
            } else {
                None
            }
            &&& shorter == if rows > 1 {
                Some(Change::CenterSize { columns, rows: (rows - 1) as usize })
            } else {
                None
            }
            &&& settings::resized(config, 0, 0) is None
        }),
{
}

/// A block is switched off by taking its rows and keeping its columns, and
/// switched on with the rows it had, three where nobody knows, and a shape a
/// block may have.
pub proof fn a_block_is_switched_by_its_rows(config: Config)
    ensures
        ({
            let now = config.center;
            let on = now.rows > 0 && now.columns > 0;
            match settings::toggled(config) {
                Change::CenterSize { columns, rows } => {
                    &&& on ==> rows == 0 && columns == now.columns
                    &&& !on ==> 1 <= columns <= 4 && 1 <= rows <= 4
                    &&& !on && 1 <= now.columns <= 4 ==> columns == now.columns
                    &&& !on && now.kept_rows == 0 ==> rows == 3
                    &&& !on && 1 <= now.kept_rows <= 4 ==> rows == now.kept_rows
                },
                _ => false,
            }
        }),
{
}

/// A block that loses its rows keeps them in mind, and keeps what it had in mind
/// otherwise.
pub proof fn a_block_keeps_its_rows_in_mind(block: Center, columns: usize, rows: usize)
    ensures
        ({
            let after = block.sized(columns, rows);
            &&& after.columns == columns && after.rows == rows
            &&& after.contents == block.contents
            &&& rows == 0 && block.rows > 0 ==> after.kept_rows == block.rows
            &&& rows > 0 || block.rows == 0 ==> after.kept_rows == block.kept_rows
        }),
{
}

/// An option is offered where it would change something. A box alone on the
/// panel has only the way out; a side can be claimed by any other; an unplaced
/// box moves within its stack; a placed one grows and shrinks as far as its cut
/// lets it; and it shows fewer tiles down to one and more up to all there are.
pub proof fn an_option_is_offered_where_it_would_change_something(state: BoxState)
    ensures
        Control::Done.applies(state),
        state.boxes < 2 ==> forall|control: Control|
            control != Control::Done ==> !#[trigger] control.applies(state),
        state.boxes >= 2 ==> {
            &&& Control::ClaimLeft.applies(state) && Control::ClaimRight.applies(state)
            &&& Control::ClaimTop.applies(state) && Control::ClaimBottom.applies(state)
            &&& Control::MoveUp.applies(state) <==> state.at is None && state.at_stack > 0
            &&& Control::MoveDown.applies(state) <==> state.at is None && state.at_stack + 1
                < state.stack
            &&& Control::Fewer.applies(state) <==> state.shown > 1
            &&& Control::More.applies(state) <==> state.shown < state.total
            &&& state.at is None ==> !Control::Grow.applies(state) && !Control::Shrink.applies(
                state,
            )
            &&& state.at matches Some(at) ==> {
                let across = at.cuts@.len() > 0 && (at.cuts@.last() == Side::Left || at.cuts@.last()
                    == Side::Right);
                &&& across ==> (Control::Grow.applies(state) <==> state.cols + 1
                    < state.panel_cols)
                &&& across ==> (Control::Shrink.applies(state) <==> state.cols > 1)
                &&& !across ==> (Control::Grow.applies(state) <==> state.share_now < 900_000)
                &&& !across ==> (Control::Shrink.applies(state) <==> state.share_now > 100_000)
            }
        },
{
}

/// Growing a box across the panel comes to the share of one column more and
/// shrinking to that of one fewer; down the panel either moves by the same
/// share, kept to a tenth and nine tenths.
pub proof fn resizing_moves_a_column_or_a_nudge(state: BoxState)
    requires
        state.at is Some,
        0 < state.cols < state.panel_cols <= 1000,
    ensures
        state.across() && state.cols + 1 < state.panel_cols ==> Control::Grow.next_share(state)
            == Some(
            num::nearest(
                ((state.cols + 1) * WHOLE) as nat,
                state.panel_cols as nat,
            ) as u32,
        ),
        state.across() && state.cols > 1 ==> Control::Shrink.next_share(state) == Some(
            num::nearest(
                ((state.cols - 1) * WHOLE) as nat,
                state.panel_cols as nat,
            ) as u32,
        ),
        !state.across() && 100_000 <= state.share_now <= 820_000 ==> Control::Grow.next_share(state)
            == Some((state.share_now + 80_000) as u32),
        !state.across() && 180_000 <= state.share_now <= 900_000 ==> Control::Shrink.next_share(
            state,
        ) == Some((state.share_now - 80_000) as u32),
        Control::Done.next_share(state) is None,
        Control::MoveUp.next_share(state) is None,
{
}

/// Each claim is of its own side, and a box that has just that side is offered
/// to leave it.
pub proof fn each_claim_is_of_its_own_side(control: Control, state: BoxState)
    ensures
        Control::ClaimLeft.claimed() == Some(Side::Left),
        Control::ClaimRight.claimed() == Some(Side::Right),
        Control::ClaimTop.claimed() == Some(Side::Top),
        Control::ClaimBottom.claimed() == Some(Side::Bottom),
        control != Control::ClaimLeft && control != Control::ClaimRight && control
            != Control::ClaimTop && control != Control::ClaimBottom ==> control.claimed() is None,
        control.is_held(state) <==> (control.claimed() matches Some(side)
            && state.at matches Some(at) && at.cuts@.len() == 1 && at.cuts@[0] == side),
        control.is_held(state) && control == Control::ClaimLeft ==> control.worded(state).1
            == "Leave left"@,
        control.is_held(state) && control == Control::ClaimRight ==> control.worded(state).1
            == "Leave right"@,
        control.is_held(state) && control == Control::ClaimTop ==> control.worded(state).1
            == "Leave top"@,
        control.is_held(state) && control == Control::ClaimBottom ==> control.worded(state).1
            == "Leave bottom"@,
        control == Control::Grow ==> control.worded(state).1 == if state.across() {
            "Wider"@
        } else {
            "Taller"@
        },
        control == Control::Shrink ==> control.worded(state).1 == if state.across() {
            "Narrower"@
        } else {
            "Shorter"@
        },
{
    if let Some(side) = control.claimed() {
        if let Some(at) = state.at {
            if at.cuts@.len() == 1 && at.cuts@[0] == side {
                assert(at.cuts@ =~= seq![side]);
            }
        }
    }
}

/// A side's cut runs its way, and the left and the top come first.
pub proof fn a_sides_cut_runs_its_way(side: Side)
    ensures
        side.spec_axis() == Axis::Across <==> side == Side::Left || side == Side::Right,
        side.spec_first() <==> side == Side::Left || side == Side::Top,
{
}

/// A half of the block asks for the columns it names, and for one where it names
/// none.
pub proof fn a_half_asks_for_the_columns_it_names(
    sections: Seq<SectionShape>,
    order: Seq<usize>,
    i: int,
)
    requires
        0 <= i < order.len(),
    ensures
        center::asked(sections, order).len() == order.len(),
        sections[order[i] as int].columns > 0 ==> center::asked(sections, order)[i]
            == sections[order[i] as int].columns,
        sections[order[i] as int].columns == 0 ==> center::asked(sections, order)[i] == 1,
{
}

/// A half takes the rows its tiles fill at its width: they hold every tile, and
/// one row fewer would not.
pub proof fn a_half_takes_the_rows_its_tiles_fill(count: usize, width: usize)
    requires
        width > 0,
    ensures
        ({
            let rows = center::over_width(count, width) as int;
            &&& count <= rows * width
            &&& (rows - 1) * width < count
        }),
{
    let rows = center::over_width(count, width) as int;
    let (n, d) = (count as int, width as int);
    assert(n <= rows * d && (rows - 1) * d < n) by (nonlinear_arith)
        requires
            rows == (n + d - 1) / d,
            d >= 1,
            n >= 0,
    ;
}

/// The block is as tall as the tallest of its halves.
pub proof fn the_block_is_as_tall_as_its_tallest_half(
    sections: Seq<SectionShape>,
    order: Seq<usize>,
    widths: Seq<usize>,
)
    requires
        order.len() == widths.len(),
    ensures
        ({
            let tallest = center::tallest(sections, order, widths);
            &&& forall|i: int|
                0 <= i < order.len() ==> center::over_width(
                    sections[#[trigger] order[i] as int].count,
                    widths[i],
                ) <= tallest
            &&& order.len() > 0 ==> exists|i: int|
                0 <= i < order.len() && center::over_width(
                    sections[#[trigger] order[i] as int].count,
                    widths[i],
                ) == tallest
            &&& order.len() == 0 ==> tallest == 0
        }),
    decreases order.len(),
{
    if order.len() > 0 {
        let rest = order.drop_last();
        lemma_tallest(sections, rest, widths, (order.len() - 1) as nat);
        let last = order.len() - 1;
        assert(order[last] == order.last());
        assert forall|i: int| 0 <= i < order.len() implies center::over_width(
            sections[#[trigger] order[i] as int].count,
            widths[i],
        ) <= center::tallest(sections, order, widths) by {
            if i < last {
                assert(rest[i] == order[i]);
            }
        }
        let top = center::tallest(sections, rest, widths);
        if center::over_width(sections[order[last] as int].count, widths[last]) < top {
            let i = choose|i: int|
                0 <= i < rest.len() && center::over_width(
                    sections[#[trigger] rest[i] as int].count,
                    widths[i],
                ) == top;
            assert(order[i] == rest[i]);
        }
    }
}

proof fn lemma_tallest(
    sections: Seq<SectionShape>,
    order: Seq<usize>,
    widths: Seq<usize>,
    n: nat,
)
    requires
        order.len() == n,
        n <= widths.len(),
    ensures
        ({
            let tallest = center::tallest(sections, order, widths);
            &&& forall|i: int|
                0 <= i < order.len() ==> center::over_width(
                    sections[#[trigger] order[i] as int].count,
                    widths[i],
                ) <= tallest
            &&& tallest > 0 ==> exists|i: int|
                0 <= i < order.len() && center::over_width(
                    sections[#[trigger] order[i] as int].count,
                    widths[i],
                ) == tallest
        }),
    decreases n,
{
    if n > 0 {
        let rest = order.drop_last();
        lemma_tallest(sections, rest, widths, (n - 1) as nat);
        let last = order.len() - 1;
        assert(order[last] == order.last());
        assert forall|i: int| 0 <= i < order.len() implies center::over_width(
            sections[#[trigger] order[i] as int].count,
            widths[i],
        ) <= center::tallest(sections, order, widths) by {
            if i < last {
                assert(rest[i] == order[i]);
            }
        }
        let top = center::tallest(sections, rest, widths);
        if center::over_width(sections[order[last] as int].count, widths[last]) < top {
            let i = choose|i: int|
                0 <= i < rest.len() && center::over_width(
                    sections[#[trigger] rest[i] as int].count,
                    widths[i],
                ) == top;
            assert(order[i] == rest[i]);
        }
    }
}

/// A block that has to be narrowed gives up columns from its widest half first:
/// no half that gave any up ends more than a column narrower than another.
pub proof fn the_widest_half_gives_way_first(widths: Seq<usize>, budget: nat)
    ensures
        ({
            let kept = center::narrowed(widths, budget);
            &&& kept.len() == widths.len()
            &&& forall|i: int, j: int|
                #![trigger kept[i], kept[j]]
                0 <= i < kept.len() && 0 <= j < kept.len() && kept[i] < widths[i] ==> kept[j]
                    <= kept[i] + 1
            &&& forall|i: int| 0 <= i < kept.len() ==> #[trigger] kept[i] <= widths[i]
        }),
    decreases center::sum(widths),
{
    if center::sum(widths) > budget && exists|i: int|
        0 <= i < widths.len() && #[trigger] widths[i] > 1 {
        let k = center::widest(widths);
        center::lemma_widest(widths);
        center::lemma_sum_update(widths, k, (widths[k] - 1) as usize);
        center::lemma_sum_bounds(widths, k);
        let less = widths.update(k, (widths[k] - 1) as usize);
        the_widest_half_gives_way_first(less, budget);
        let kept = center::narrowed(widths, budget);
        assert(kept == center::narrowed(less, budget));
        assert forall|i: int, j: int|
            #![trigger kept[i], kept[j]]
            0 <= i < kept.len() && 0 <= j < kept.len() && kept[i] < widths[i] implies kept[j]
            <= kept[i] + 1 by {
            if kept[i] >= less[i] {
                assert(i == k);
                assert(kept[j] <= less[j]);
                assert(widths[j] <= widths[k]);
            }
        }
        assert forall|i: int| 0 <= i < kept.len() implies #[trigger] kept[i] <= widths[i] by {
            assert(kept[i] <= less[i]);
        }
    }
}

} // verus!
