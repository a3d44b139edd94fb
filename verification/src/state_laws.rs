//! How books of positions and orders, and sums over windows, move by one entry.

use vstd::prelude::*;

use crate::combine::{combined_pnl, parts_of};
use crate::data_laws::law_cutting_off_rounds_towards_zero;
use crate::evaluation_key::comes_first;
use crate::exact::reads_exactly;
use crate::ledger::{action_for, opened_position, ExecutedFill, OpenPosition, PositionSide, RoundTripAction};
use crate::number::{cut_off, is_root, root_of, Fixed, Number};
use crate::regime::{bars_in, VolatilityRegime};
use crate::simulation::SimulationState;
use crate::synthetic_book::{BookSide, SyntheticOrderBook};
use crate::tick_flow::{DirectionalFlow, DirectionalStep};
use crate::types::BacktestResult;

verus! {

/// A fill against the position opened last closes it; any other opens one in
/// its own direction.
pub proof fn law_fills_close_only_what_they_oppose<N>(is_buy: bool, open: Seq<OpenPosition<N>>)
    ensures
        open.len() == 0 ==> action_for(is_buy, open) == if is_buy {
            RoundTripAction::OpenLong
        } else {
            RoundTripAction::OpenShort
        },
        open.len() > 0 && is_buy && open.last().side is Short ==> action_for(is_buy, open) is Close,
        open.len() > 0 && !is_buy && open.last().side is Long ==> action_for(is_buy, open) is Close,
        open.len() > 0 && is_buy && open.last().side is Long ==> action_for(is_buy, open) is OpenLong,
        open.len() > 0 && !is_buy && open.last().side is Short ==> action_for(is_buy, open) is OpenShort,
{
}

/// A position opens with the fill's own price, quantity and commission, and
/// with nothing gained or lost yet.
pub proof fn law_positions_open_at_their_fill<N: Number>(
    value: spec_fn(N) -> real,
    fill: ExecutedFill<N>,
    side: PositionSide,
    trade_id: usize,
)
    requires
        reads_exactly(value),
    ensures
        ({
            let position = opened_position(fill, side, trade_id);
            &&& position.side == side
            &&& position.trade_id == trade_id
            &&& position.entry_fill_price == fill.fill_price
            &&& position.entry_signal_price == fill.signal_price
            &&& position.quantity == fill.quantity
            &&& position.entry_commission == fill.commission
            &&& position.entry_time == fill.entry_time
            &&& value(position.worst_unrealized) == 0real
            &&& value(position.best_unrealized) == 0real
        }),
{
    assert(value(N::whole(0)) == 0real);
}

/// One more window adds its profit, its gross profit and loss, its commission
/// and its counts to those of all windows; a figure that it lacks adds nothing.
pub proof fn law_windows_add_their_figures<N: Number>(
    value: spec_fn(N) -> real,
    earlier: Seq<BacktestResult<N>>,
    last: BacktestResult<N>,
    capital: N,
)
    requires
        reads_exactly(value),
    ensures
        ({
            let before = parts_of(earlier, capital);
            let after = parts_of(earlier.push(last), capital);
            &&& value(after.additive_pnl) == value(before.additive_pnl) + value(last.total_pnl)
            &&& value(after.gross_profit) == value(before.gross_profit) + match last.gross_profit {
                Some(profit) => value(profit),
                None => 0real,
            }
            &&& value(after.gross_loss) == value(before.gross_loss) + match last.gross_loss {
                Some(loss) => value(loss),
                None => 0real,
            }
            &&& value(after.commission) == value(before.commission) + match last.transaction_costs {
                Some(costs) => value(costs.total_commission),
                None => 0real,
            }
            &&& after.durations == match last.avg_trade_duration {
                Some(duration) => before.durations.push(duration),
                None => before.durations,
            }
        }),
        ({
            let none = parts_of(Seq::<BacktestResult<N>>::empty(), capital);
            &&& value(none.additive_pnl) == 0real && value(none.gross_profit) == 0real
            &&& value(none.gross_loss) == 0real && value(none.commission) == 0real
            &&& none.durations.len() == 0 && none.num_trades == 0
        }),
{
    assert(value(N::whole(0)) == 0real);
    let all = earlier.push(last);
    assert(all.map_values(|r: BacktestResult<N>| r.total_pnl).drop_last() =~= earlier.map_values(
        |r: BacktestResult<N>| r.total_pnl,
    ));
    assert(all.map_values(|r: BacktestResult<N>| crate::combine::or_zero(r.gross_profit)).drop_last()
        =~= earlier.map_values(|r: BacktestResult<N>| crate::combine::or_zero(r.gross_profit)));
    assert(all.map_values(|r: BacktestResult<N>| crate::combine::or_zero(r.gross_loss)).drop_last()
        =~= earlier.map_values(|r: BacktestResult<N>| crate::combine::or_zero(r.gross_loss)));
    assert(all.map_values(|r: BacktestResult<N>| crate::combine::commission_in(r)).drop_last() =~= earlier.map_values(
        |r: BacktestResult<N>| crate::combine::commission_in(r),
    ));
    assert(all.map_values(|r: BacktestResult<N>| r.avg_trade_duration).drop_last() =~= earlier.map_values(
        |r: BacktestResult<N>| r.avg_trade_duration,
    ));
}

/// The combined profit is what the curve gained on the capital, or without a
/// curve the profits of the windows together.
pub proof fn law_combined_profit_is_the_gain_of_the_curve<N: Number>(
    value: spec_fn(N) -> real,
    results: Seq<BacktestResult<N>>,
    capital: N,
)
    requires
        reads_exactly(value),
    ensures
        ({
            let parts = parts_of(results, capital);
            &&& parts.equity.len() > 0 ==> value(combined_pnl(parts, capital)) + value(capital) == value(
                parts.equity.last(),
            )
            &&& parts.equity.len() == 0 ==> combined_pnl(parts, capital) == parts.additive_pnl
        }),
{
}

/// An order's first fill counts once, on its own side; further fills and fills
/// of unknown orders count nothing.
pub proof fn law_first_fills_count_on_their_side<N: Number>(state: SimulationState<N>, id: Seq<char>, time: i64)
    ensures
        ({
            let after = state.with_fill(id, time);
            let is_first = state.trackers.contains_key(id) && !state.trackers[id].filled;
            &&& after.orders_filled == state.orders_filled + if is_first { 1int } else { 0 }
            &&& after.bids_filled == state.bids_filled + if is_first && state.trackers[id].side is Bid { 1int } else { 0 }
            &&& after.asks_filled == state.asks_filled + if is_first && state.trackers[id].side is Ask { 1int } else { 0 }
            &&& state.trackers.contains_key(id) ==> after.trackers[id].filled && after.trackers[id].side
                == state.trackers[id].side && after.trackers[id].price == state.trackers[id].price
            &&& after.active == state.active
        }),
{
}

/// What buys takes the asks, and what sells takes the bids.
pub proof fn law_orders_take_the_other_side<N: Number>(book: SyntheticOrderBook<N>)
    ensures
        book.taken_side(BookSide::Bid) == book.ask_levels@,
        book.taken_side(BookSide::Ask) == book.bid_levels@,
{
}

/// On a tick that is not halted the strategy is asked after pending orders
/// have filled, its signals are taken after the risk and the margin have been
/// checked, contracts are closed after that, and the equity is taken last.
pub proof fn law_ticks_check_before_they_trade(flow: DirectionalFlow)
    ensures
        ({
            let path = flow.path(DirectionalStep::FillPending, false, 8);
            let fixed = seq![DirectionalStep::FillPending, DirectionalStep::AskStrategy];
            let risk = if flow.has_risk_manager { seq![DirectionalStep::CheckRisk] } else { Seq::empty() };
            let margin = if flow.is_leveraged { seq![DirectionalStep::CheckMargin] } else { Seq::empty() };
            let rest = seq![DirectionalStep::HandleSignals, DirectionalStep::CloseExpired, DirectionalStep::Sample];
            path =~= fixed + risk + margin + rest
        }),
        flow.first(true) == DirectionalStep::FillPending,
        flow.first(false) == DirectionalStep::Done,
{
    reveal_with_fuel(DirectionalFlow::path, 9);
}

/// A bar adds one to the count of its own regime and to no other.
pub proof fn law_bars_count_in_their_own_regime(
    bars: Seq<Option<VolatilityRegime>>,
    next: Option<VolatilityRegime>,
    label: VolatilityRegime,
)
    ensures
        bars_in(Seq::empty(), label) == 0,
        bars_in(bars.push(next), label) == bars_in(bars, label) + if next == Some(label) { 1int } else { 0 },
{
    assert(bars.push(next).drop_last() =~= bars);
}

/// Texts come in one order: of two, one comes first, and both only where they
/// are the same. A text comes before what it begins.
pub proof fn law_texts_come_in_one_order(a: Seq<char>, b: Seq<char>)
    ensures
        comes_first(a, b) || comes_first(b, a),
        comes_first(a, b) && comes_first(b, a) ==> a == b,
        comes_first(a, a + b),
        a.len() > 0 && b.len() > 0 && (a[0] as int) < (b[0] as int) ==> comes_first(a, b) && !comes_first(b, a),
    decreases a.len(),
{
    if a.len() == 0 {
        if b.len() == 0 {
            assert(a =~= b);
        }
    } else {
        let whole = a + b;
        law_texts_come_in_one_order(a.skip(1), b);
        assert(whole.skip(1) =~= a.skip(1) + b);
        assert(whole[0] == a[0]);
        if b.len() > 0 && a[0] == b[0] {
            law_texts_come_in_one_order(a.skip(1), b.skip(1));
            if a.skip(1) == b.skip(1) {
                assert(a =~= seq![a[0]] + a.skip(1));
                assert(b =~= seq![b[0]] + b.skip(1));
            }
        }
    }
}

/// The count is within the range of a fixed-point number.
pub open spec fn fits_fixed(units: int) -> bool {
    i64::MIN <= units <= i64::MAX
}

/// Fixed-point sums and differences are exact, and a product or a quotient is
/// off by less than one unit, as long as they fit.
pub proof fn law_fixed_arithmetic_is_exact_to_a_unit(a: Fixed, b: Fixed)
    ensures
        fits_fixed(a.units + b.units) ==> a.sum(b).units == a.units + b.units,
        fits_fixed(a.units - b.units) ==> a.difference(b).units == a.units - b.units,
        a.units >= 0 && b.units >= 0 && fits_fixed(a.units * b.units / 1_000_000) ==> a.product(b).units * 1_000_000
            <= a.units * b.units < (a.product(b).units + 1) * 1_000_000,
        a.units >= 0 && b.units > 0 && fits_fixed(a.units * 1_000_000 / b.units as int) ==> a.quotient(b).units * b.units
            <= a.units * 1_000_000 < (a.quotient(b).units + 1) * b.units,
        a.units > i64::MIN ==> a.magnitude().units == if a.units < 0 { -a.units } else { a.units as int },
        a.larger(b).units == if a.units < b.units { b.units } else { a.units },
        a.smaller(b).units == if a.units < b.units { a.units } else { b.units },
        a.below(b) <==> a.units < b.units,
        a.at_most(b) <==> a.units <= b.units,
{
    if a.units >= 0 && b.units >= 0 {
        let p = a.units * b.units;
        assert(p >= 0) by (nonlinear_arith)
            requires
                p == a.units * b.units,
                a.units >= 0,
                b.units >= 0,
        ;
        law_cutting_off_rounds_towards_zero(p, 1_000_000);
    }
    if a.units >= 0 && b.units > 0 {
        law_cutting_off_rounds_towards_zero(a.units * 1_000_000, b.units as int);
    }
}

/// A whole number is a million units, and one and the number itself are its
/// first powers.
pub proof fn law_fixed_numbers_have_six_decimals(n: i64, a: Fixed)
    requires
        -1_000_000_000_000 <= n <= 1_000_000_000_000,
    ensures
        Fixed::whole(n).units == n * 1_000_000,
        a.raised(0).units == 1_000_000,
        a.raised(1) == a,
        a.raised(2) == a.product(a),
{
    reveal_with_fuel(crate::number::fixed_power, 3);
    let u = a.units as int;
    assert(cut_off(1_000_000 * u, 1_000_000) == u) by {
        if u >= 0 {
            law_cutting_off_rounds_towards_zero(1_000_000 * u, 1_000_000);
        } else {
            law_cutting_off_rounds_towards_zero(1_000_000 * u, 1_000_000);
        }
    }
}

proof fn lemma_root_exists(n: nat) -> (r: nat)
    ensures
        is_root(n, r),
    decreases n,
{
    if n == 0 {
        assert(0 * 0 == 0 && (0 + 1) * (0 + 1) == 1) by (nonlinear_arith);
        assert(is_root(n, 0));
        0
    } else {
        let r = lemma_root_exists((n - 1) as nat);
        let s = r + 1;
        if n < s * s {
            assert(is_root(n, r));
            r
        } else {
            assert((s + 1) * (s + 1) == s * s + 2 * s + 1) by (nonlinear_arith);
            assert(is_root(n, s));
            s
        }
    }
}

/// The root of a fixed-point number, squared, is the number to within the
/// next unit.
pub proof fn law_fixed_root_squares_to_the_number(a: Fixed)
    requires
        a.units > 0,
    ensures
        ({
            let r = a.root().units as int;
            r >= 0 && r * r <= a.units * 1_000_000 < (r + 1) * (r + 1)
        }),
{
    let n = (a.units * 1_000_000) as nat;
    let found = lemma_root_exists(n);
    assert(is_root(n, root_of(n)));
    let r = root_of(n) as int;
    assert(r <= i64::MAX) by {
        if r > i64::MAX {
            assert(r * r > 0x7fff_ffff_ffff_ffff * 1_000_000) by (nonlinear_arith)
                requires
                    r > 0x7fff_ffff_ffff_ffff,
            ;
        }
    }
}

} // verus!
