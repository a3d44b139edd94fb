//! What the ledger's figures mean: profit, cost, excursion and time.

use vstd::prelude::*;

use crate::exact::{reads_exactly};
use crate::ledger::{
    adverse_excursion, closed_record, gross_profit_at, marked, open_record, unrealized_return, ExecutedFill,
    LedgerState, OpenPosition, PositionSide,
};
use crate::number::{Fixed, Number};
use crate::signals::Direction;

verus! {

/// The profit of a closed trade and its commission make the quantity times
/// what the price moved in favour of the position: up for a long one, down
/// for a short one. Its commission is that of the entry and of the exit.
pub proof fn law_closed_trade_earns_the_move_in_its_favour<N: Number>(
    value: spec_fn(N) -> real,
    position: OpenPosition<N>,
    fill: ExecutedFill<N>,
)
    requires
        reads_exactly(value),
    ensures
        ({
            let record = closed_record(position, fill);
            let moved = value(fill.fill_price) - value(position.entry_fill_price);
            let gross = value(record.pnl->0) + value(record.commission);
            &&& record.pnl is Some
            &&& position.side == PositionSide::Long ==> gross == moved * value(position.quantity)
            &&& position.side == PositionSide::Short ==> gross == -moved * value(position.quantity)
            &&& value(record.commission) == value(position.entry_commission) + value(fill.commission)
        }),
{
}

/// A long position gains where it is sold above its entry and a short one
/// where it is covered below it, and each loses on the other side.
pub proof fn law_longs_gain_above_their_entry_and_shorts_below<N: Number>(
    value: spec_fn(N) -> real,
    position: OpenPosition<N>,
    fill: ExecutedFill<N>,
)
    requires
        reads_exactly(value),
        value(position.quantity) > 0real,
        value(position.entry_commission) == 0real,
        value(fill.commission) == 0real,
    ensures
        ({
            let pnl = value(closed_record(position, fill).pnl->0);
            let rose = value(position.entry_fill_price) < value(fill.fill_price);
            let fell = value(fill.fill_price) < value(position.entry_fill_price);
            &&& position.side == PositionSide::Long ==> (pnl > 0real <==> rose) && (pnl < 0real <==> fell)
            &&& position.side == PositionSide::Short ==> (pnl > 0real <==> fell) && (pnl < 0real <==> rose)
        }),
{
    law_closed_trade_earns_the_move_in_its_favour(value, position, fill);
    let q = value(position.quantity);
    let m = value(fill.fill_price) - value(position.entry_fill_price);
    assert((m * q > 0real <==> m > 0real) && (m * q < 0real <==> m < 0real)) by (nonlinear_arith)
        requires
            q > 0real,
    ;
    assert(-m * q == -(m * q)) by (nonlinear_arith);
}

/// A short position earns what a long one earns with entry and exit
/// exchanged.
pub proof fn law_short_mirrors_long<N: Number>(long: OpenPosition<N>, short: OpenPosition<N>, price: N)
    requires
        long.side == PositionSide::Long,
        short.side == PositionSide::Short,
        long.quantity == short.quantity,
        long.entry_fill_price == price,
    ensures
        gross_profit_at(short, price) == gross_profit_at(long, short.entry_fill_price),
{
}

/// In fixed-point arithmetic too, a short position that is covered no higher
/// than its entry without cost does not lose, and neither does a long one
/// that is sold no lower.
pub proof fn law_fixed_trades_in_their_favour_do_not_lose(position: OpenPosition<Fixed>, fill: ExecutedFill<Fixed>)
    requires
        position.quantity.units >= 0,
        position.entry_commission.units == 0,
        fill.commission.units == 0,
        position.side == PositionSide::Short ==> fill.fill_price.units <= position.entry_fill_price.units,
        position.side == PositionSide::Long ==> position.entry_fill_price.units <= fill.fill_price.units,
    ensures
        closed_record(position, fill).pnl->0.units >= 0,
{
    let gross = gross_profit_at(position, fill.fill_price);
    let moved = match position.side {
        PositionSide::Long => fill.fill_price.difference(position.entry_fill_price),
        PositionSide::Short => position.entry_fill_price.difference(fill.fill_price),
    };
    assert(moved.units >= 0);
    let m = moved.units as int;
    let q = position.quantity.units as int;
    assert(m * q >= 0) by (nonlinear_arith)
        requires
            m >= 0,
            q >= 0,
    ;
    assert((m * q) / 1_000_000 >= 0);
    assert(gross.units >= 0);
}

/// Closing a position at a price earns, before the cost of the exit, what the
/// record of the position left open at that price says.
pub proof fn law_closing_earns_what_the_open_position_was_worth<N: Number>(
    value: spec_fn(N) -> real,
    position: OpenPosition<N>,
    fill: ExecutedFill<N>,
)
    requires
        reads_exactly(value),
    ensures
        ({
            let open = open_record(position, fill.fill_price);
            let closed = closed_record(position, fill);
            &&& value(closed.pnl->0) + value(fill.commission) == value(open.pnl->0)
            &&& open.exit_time is None && open.exit_fill_price is None && open.duration_secs is None
            &&& closed.exit_time == Some(fill.exit_time) && closed.exit_fill_price == Some(fill.fill_price)
            &&& closed.entry_time == position.entry_time && open.entry_time == position.entry_time
        }),
{
}

/// The relative profit times what the position cost is the profit.
pub proof fn law_relative_profit_is_on_the_cost_of_entry<N: Number>(
    value: spec_fn(N) -> real,
    position: OpenPosition<N>,
    fill: ExecutedFill<N>,
)
    requires
        reads_exactly(value),
        value(position.entry_fill_price) * value(position.quantity) != 0real,
    ensures
        ({
            let record = closed_record(position, fill);
            let cost = value(position.entry_fill_price) * value(position.quantity);
            &&& value(record.pnl_pct->0) * cost == value(record.pnl->0)
            &&& value(open_record(position, fill.fill_price).pnl_pct->0) * cost == value(
                open_record(position, fill.fill_price).pnl->0,
            )
        }),
{
}

/// The slippage of a closed trade is that of its entry and of its exit, and
/// its duration the whole seconds between the two.
pub proof fn law_slippage_and_duration_span_the_trade<N: Number>(
    value: spec_fn(N) -> real,
    position: OpenPosition<N>,
    fill: ExecutedFill<N>,
)
    requires
        reads_exactly(value),
        position.entry_time <= fill.exit_time,
        fill.exit_time - position.entry_time <= i64::MAX,
    ensures
        ({
            let record = closed_record(position, fill);
            let seconds = record.duration_secs->0;
            &&& fill.exit_slippage matches Some(cost) ==> value(record.slippage_cost) == value(
                position.entry_slippage,
            ) + value(cost)
            &&& fill.exit_slippage is None ==> record.slippage_cost == position.entry_slippage
            &&& seconds * 1000 <= fill.exit_time - position.entry_time < (seconds + 1) * 1000
        }),
{
}

/// The unrealized return on the entry price takes the entry to the current
/// price, upwards for a long position and downwards for a short one.
pub proof fn law_unrealized_return_is_on_the_entry_price<N: Number>(
    value: spec_fn(N) -> real,
    position: OpenPosition<N>,
    price: N,
)
    requires
        reads_exactly(value),
        value(position.entry_fill_price) > 0real,
    ensures
        ({
            let entry = value(position.entry_fill_price);
            let change = value(unrealized_return(position, price)) * entry;
            &&& position.side == PositionSide::Long ==> entry + change == value(price)
            &&& position.side == PositionSide::Short ==> entry - change == value(price)
        }),
{
}

/// The excursions of a position enclose every return that it was marked at:
/// marking widens them just enough, and changes nothing else.
pub proof fn law_excursions_enclose_every_mark<N: Number>(
    value: spec_fn(N) -> real,
    position: OpenPosition<N>,
    price: N,
)
    requires
        reads_exactly(value),
        value(position.worst_unrealized) <= value(position.best_unrealized),
    ensures
        ({
            let after = marked(position, price);
            let now = value(unrealized_return(position, price));
            &&& value(after.worst_unrealized) <= now <= value(after.best_unrealized)
            &&& value(after.worst_unrealized) <= value(position.worst_unrealized)
            &&& value(position.best_unrealized) <= value(after.best_unrealized)
            &&& value(position.worst_unrealized) <= now ==> after.worst_unrealized == position.worst_unrealized
            &&& now <= value(position.best_unrealized) ==> after.best_unrealized == position.best_unrealized
            &&& after.side == position.side && after.entry_fill_price == position.entry_fill_price
            &&& after.quantity == position.quantity && after.trade_id == position.trade_id
        }),
{
}

/// The adverse excursion in currency is the size of the worst return on what
/// the position cost.
pub proof fn law_adverse_excursion_is_on_the_cost_of_entry<N: Number>(
    value: spec_fn(N) -> real,
    position: OpenPosition<N>,
)
    requires
        reads_exactly(value),
        value(position.worst_unrealized) <= 0real,
    ensures
        value(adverse_excursion(position)) == -value(position.worst_unrealized) * value(position.entry_fill_price)
            * value(position.quantity),
{
}

/// A purchase from flat opens a long position and a sale a short one, at the
/// price, the size and the cost of the fill; the next fill the other way
/// closes it and leaves the book as it was.
pub proof fn law_opening_and_closing_leave_the_book_as_it_was<N: Number>(
    ledger: LedgerState<N>,
    entry: ExecutedFill<N>,
    exit: ExecutedFill<N>,
)
    requires
        ledger.open_positions.len() == 0,
        entry.direction != exit.direction,
        entry.numbered,
        ledger.log_has_room(),
        ledger.next_trade_id < usize::MAX,
    ensures
        ({
            let held = ledger.after_fill(entry);
            let flat = held.after_fill(exit);
            let position = held.open_positions[0];
            let record = flat.trade_log.last();
            &&& held.open_positions.len() == 1
            &&& position.side == if entry.direction == Direction::Buy {
                PositionSide::Long
            } else {
                PositionSide::Short
            }
            &&& position.entry_fill_price == entry.fill_price && position.quantity == entry.quantity
            &&& position.entry_commission == entry.commission && position.entry_time == entry.entry_time
            &&& position.worst_unrealized == N::whole(0) && position.best_unrealized == N::whole(0)
            &&& flat.open_positions.len() == 0
            &&& flat.num_trades == ledger.num_trades + 2
            &&& flat.trade_log.len() == ledger.trade_log.len() + 1
            &&& record.trade_id == ledger.next_trade_id
            &&& record.entry_fill_price == entry.fill_price
            &&& record.exit_fill_price == Some(exit.fill_price)
            &&& record.quantity == entry.quantity
            &&& flat.total_commission == ledger.total_commission.sum(entry.commission).sum(exit.commission)
        }),
{
}

/// Fills in the direction of the open position add to it; the one that goes
/// the other way closes the position that was opened last.
pub proof fn law_last_opened_is_first_closed<N: Number>(ledger: LedgerState<N>, fill: ExecutedFill<N>)
    requires
        ledger.open_positions.len() > 0,
        ledger.log_has_room(),
    ensures
        ({
            let last = ledger.open_positions.last();
            let is_against = (last.side == PositionSide::Long && fill.direction == Direction::Sell) || (last.side
                == PositionSide::Short && fill.direction == Direction::Buy);
            let after = ledger.after_fill(fill);
            &&& is_against ==> after.open_positions == ledger.open_positions.drop_last() && after.trade_log.last()
                == closed_record(last, fill)
            &&& !is_against ==> after.open_positions.len() == ledger.open_positions.len() + 1
                && after.open_positions.last().side == last.side
        }),
{
}

} // verus!
