//! What a quoting simulation charges, counts and remembers.

use vstd::prelude::*;

use crate::exact::{lemma_total_reads, readings, reads_exactly, real_sum};
use crate::number::{total, Number};
use crate::signals::{Signal, SignalType};
use crate::simulation::{after_fill, round_trip_rate, trimmed, Collector, FillScreen, OrderTracker, SimulationState};
use crate::simulation_costs::{
    basis_points_of, cost_of, fee_source_of, fill_values, impact_share, is_complete, quoted_price, side_placed,
    side_quoted, spread_bps, wanted_size, with_quote, CostModel, FeeSource, QuotePair,
};
use crate::simulation_run::{
    capture_rate, closed_of, day_of, gain_count, held_seconds, open_of, pair_profit, pair_profits, reported_win_rate, PositionOutcome, SimulationRun,
};
use crate::synthetic_book::BookSide;

verus! {

/// The spread in basis points times the middle price is ten thousand times
/// the distance from the bid to the ask: it grows with the ask.
pub proof fn law_spread_is_relative_to_the_middle<N: Number>(value: spec_fn(N) -> real, bid: N, ask: N)
    requires
        reads_exactly(value),
        value(bid) > 0real,
        value(ask) > 0real,
    ensures
        value(spread_bps(bid, ask)) * (value(bid) + value(ask)) == 20000real * (value(ask) - value(bid)),
        value(ask) > value(bid) ==> value(spread_bps(bid, ask)) > 0real,
        value(ask) < value(bid) ==> value(spread_bps(bid, ask)) < 0real,
{
    assert(value(N::whole(2)) == 2real && value(N::whole(10_000)) == 10000real);
    let both = bid.sum(ask);
    let middle = both.quotient(N::whole(2));
    let m = value(middle);
    let b = value(bid);
    let a = value(ask);
    assert(m * 2real == b + a);
    let q = value(ask.difference(bid).quotient(middle));
    assert(q * m == a - b);
    let s = value(spread_bps(bid, ask));
    assert(s == q * 10000real);
    assert(s * (b + a) == 20000real * (a - b)) by (nonlinear_arith)
        requires
            m * 2real == b + a,
            q * m == a - b,
            s == q * 10000real,
    ;
    assert((a > b ==> s > 0real) && (a < b ==> s < 0real)) by (nonlinear_arith)
        requires
            s * (b + a) == 20000real * (a - b),
            b > 0real,
            a > 0real,
    ;
}

/// A quote replaces the one on its own side and leaves the other; a pair is
/// complete once both are in and positive.
pub proof fn law_quotes_pair_by_side<N: Number>(value: spec_fn(N) -> real, pair: QuotePair<N>, price: N)
    requires
        reads_exactly(value),
    ensures
        with_quote(pair, Some(BookSide::Bid), price) == (QuotePair { bid: Some(price), ask: pair.ask }),
        with_quote(pair, Some(BookSide::Ask), price) == (QuotePair { bid: pair.bid, ask: Some(price) }),
        with_quote(pair, None, price) == pair,
        is_complete(pair) <==> pair.bid is Some && pair.ask is Some && value(pair.bid->0) > 0real && value(pair.ask->0)
            > 0real,
{
    assert(value(N::whole(0)) == 0real);
}

/// Purchases are quoted and placed as bids, sales as asks.
pub proof fn law_purchases_are_quoted_as_bids<N>(signal: SignalType<N>)
    ensures
        signal is Buy || signal is ScaleIn <==> side_quoted(signal) == Some(BookSide::Bid),
        signal is Sell || signal is ScaleOut <==> side_quoted(signal) == Some(BookSide::Ask),
        signal is Buy || signal is ScaleIn <==> side_placed(signal) == BookSide::Bid,
        side_quoted(signal) matches Some(side) ==> side_placed(signal) == side,
{
}

/// A signal is quoted at its own price and for its own quantity.
pub proof fn law_signals_are_quoted_as_they_ask<N: Number>(signal: Signal<N>)
    ensures
        signal.price matches Some(price) ==> quoted_price(signal) == price,
        signal.price is None ==> quoted_price(signal) == N::whole(0),
        signal.quantity matches Some(quantity) ==> wanted_size(signal) == quantity,
        signal.quantity is None ==> wanted_size(signal) == N::whole(0),
{
}

/// Basis points are ten-thousandths.
pub proof fn law_basis_points_are_ten_thousandths<N: Number>(value: spec_fn(N) -> real, amount: N, bps: N)
    requires
        reads_exactly(value),
    ensures
        value(basis_points_of(amount, bps)) * 10000real == value(amount) * value(bps),
{
    assert(value(N::whole(10_000)) == 10000real);
    let q = value(bps.quotient(N::whole(10_000)));
    let a = value(amount);
    let b = value(bps);
    assert(a * q * 10000real == a * b) by (nonlinear_arith)
        requires
            q * 10000real == b,
    ;
}

/// The impact of an order is shared out over its fills in proportion to their
/// value, and the shares make the whole of it.
pub proof fn law_impact_is_shared_by_value<N: Number>(
    value: spec_fn(N) -> real,
    impact: N,
    part: N,
    rest: N,
    whole: N,
)
    requires
        reads_exactly(value),
        value(whole) > 0real,
        value(part) + value(rest) == value(whole),
    ensures
        value(impact_share(impact, part, whole)) * value(whole) == value(impact) * value(part),
        value(impact_share(impact, part, whole)) + value(impact_share(impact, rest, whole)) == value(impact),
{
    assert(value(N::whole(0)) == 0real);
    let w = value(whole);
    let p = value(part);
    let r = value(rest);
    let i = value(impact);
    let a = value(part.quotient(whole));
    let b = value(rest.quotient(whole));
    assert(a * w == p && b * w == r);
    assert(i * a * w == i * p && i * a + i * b == i) by (nonlinear_arith)
        requires
            a * w == p,
            b * w == r,
            p + r == w,
            w > 0real,
    ;
}

/// What a fill is charged: the commission and the impact on an exchange,
/// where slippage is in the price already; gas, impact and slippage on a
/// decentralised one.
pub proof fn law_slippage_is_charged_on_chain_only<N: Number>(
    value: spec_fn(N) -> real,
    traded: N,
    model: CostModel<N>,
    impact: N,
)
    requires
        reads_exactly(value),
    ensures
        ({
            let cost = cost_of(traded, model, impact);
            match model {
                CostModel::Dex { slippage_bps, gas } => {
                    &&& value(cost.commission) == value(gas)
                    &&& value(cost.slippage) * 10000real == value(traded) * value(slippage_bps)
                    &&& value(cost.fee_amount) == value(gas) + value(impact) + value(cost.slippage)
                },
                CostModel::Exchange { fee_rate, slippage_bps } => {
                    &&& value(cost.commission) == value(traded) * value(fee_rate)
                    &&& value(cost.fee_amount) == value(cost.commission) + value(impact)
                    &&& slippage_bps matches Some(bps) ==> value(cost.slippage) * 10000real == value(traded) * value(
                        bps,
                    )
                    &&& slippage_bps is None ==> value(cost.slippage) == 0real
                },
            }
        }),
{
    assert(value(N::whole(0)) == 0real);
    match model {
        CostModel::Dex { slippage_bps, gas } => {
            law_basis_points_are_ten_thousandths(value, traded, slippage_bps);
        },
        CostModel::Exchange { fee_rate, slippage_bps } => {
            if slippage_bps is Some {
                law_basis_points_are_ten_thousandths(value, traded, slippage_bps->0);
            }
        },
    }
}

/// Fills are worth price times quantity, each and together.
pub proof fn law_fills_are_worth_price_times_quantity<N: Number>(
    value: spec_fn(N) -> real,
    fills: Seq<(N, N)>,
    fill: (N, N),
)
    requires
        reads_exactly(value),
    ensures
        value(total(fill_values(fills.push(fill)))) == value(total(fill_values(fills))) + value(fill.0) * value(
            fill.1,
        ),
{
    assert(fill_values(fills.push(fill)).drop_last() =~= fill_values(fills));
}

/// The configured schedule counts for its own exchange, every other exchange
/// has its own, and without a schedule the rate is flat.
pub proof fn law_fee_schedule_counts_for_its_own_exchange<N: Number>(
    name: Seq<char>,
    exchange: Seq<char>,
    volume: N,
)
    ensures
        fee_source_of(None, exchange, volume) == FeeSource::<N>::Flat,
        name == exchange ==> fee_source_of(Some(name), exchange, volume) == FeeSource::Configured(volume),
        name != exchange ==> fee_source_of(Some(name), exchange, volume) == FeeSource::OfExchange(volume),
{
}

/// A round trip earns what the sale brings above the purchase, less the fee
/// on both: selling higher earns more and buying higher less.
pub proof fn law_round_trip_earns_the_spread_less_the_fees<N: Number>(
    value: spec_fn(N) -> real,
    buy: N,
    sell: N,
    fee_rate: N,
)
    requires
        reads_exactly(value),
    ensures
        value(pair_profit(buy, sell, fee_rate)) == value(sell) - value(buy) - value(fee_rate) * (value(buy) + value(
            sell,
        )),
        value(fee_rate) == 0real ==> (value(pair_profit(buy, sell, fee_rate)) > 0real <==> value(buy) < value(sell)),
{
    assert(value(fee_rate) == 0real ==> value(fee_rate) * (value(buy) + value(sell)) == 0real) by (nonlinear_arith);
}

/// The first purchase goes with the first sale, and so on as far as both
/// reach.
pub proof fn law_round_trips_pair_in_order<N: Number>(buys: Seq<N>, sells: Seq<N>, fee_rate: N)
    ensures
        ({
            let profits = pair_profits(buys, sells, fee_rate);
            &&& profits.len() <= buys.len() && profits.len() <= sells.len()
            &&& profits.len() == buys.len() || profits.len() == sells.len()
            &&& forall|i: int|
                0 <= i < profits.len() ==> #[trigger] profits[i] == pair_profit(buys[i], sells[i], fee_rate)
        }),
{
}

/// The gains among some profits are those above zero.
pub proof fn law_gains_are_profits_above_zero<N: Number>(value: spec_fn(N) -> real, profits: Seq<N>, profit: N)
    requires
        reads_exactly(value),
    ensures
        gain_count(profits.push(profit)) == gain_count(profits) + if value(profit) > 0real { 1nat } else { 0 },
        gain_count(Seq::<N>::empty()) == 0,
{
    reveal(Seq::filter);
    assert(value(N::whole(0)) == 0real);
    assert(profits.push(profit).drop_last() =~= profits);
}

/// The captured share of the spread times the spread is the average profit in
/// basis points of the average price, as long as it lies between none and
/// twice the spread.
pub proof fn law_capture_rate_compares_profit_with_the_spread<N: Number>(
    value: spec_fn(N) -> real,
    avg_pnl: N,
    buys: Seq<N>,
    sells: Seq<N>,
    avg_spread_bps: N,
    price: real,
)
    requires
        reads_exactly(value),
        0 < buys.len() + sells.len() <= usize::MAX,
        value(avg_spread_bps) > 0real,
        price > 0real,
        price * ((buys.len() + sells.len()) as int as real) == real_sum(readings(value, buys)) + real_sum(
            readings(value, sells),
        ),
    ensures
        ({
            let rate = value(capture_rate(avg_pnl, buys, sells, avg_spread_bps));
            &&& 0real <= rate <= 2real
            &&& 0real < rate < 2real ==> rate * value(avg_spread_bps) * price == value(avg_pnl) * 10000real
            &&& value(avg_pnl) <= 0real ==> rate == 0real
        }),
{
    assert(value(N::whole(0)) == 0real && value(N::whole(2)) == 2real && value(N::whole(10_000)) == 10000real);
    lemma_total_reads(value, buys);
    lemma_total_reads(value, sells);
    let count = N::counted((buys.len() + sells.len()) as usize);
    let n = (buys.len() + sells.len()) as int as real;
    assert(value(count) == n);
    let sum = total(buys).sum(total(sells));
    let avg_price = sum.quotient(count);
    let p = value(avg_price);
    assert(p == price) by (nonlinear_arith)
        requires
            p * n == price * n,
            n > 0real,
    ;
    let q = value(avg_pnl.quotient(avg_price));
    let g = value(avg_pnl);
    assert(q * p == g);
    let captured = avg_pnl.quotient(avg_price).product(N::whole(10_000));
    let c = value(captured);
    let s = value(avg_spread_bps);
    let r = value(captured.quotient(avg_spread_bps));
    assert(r * s == c);
    assert(r * s * price == g * 10000real && (g <= 0real ==> r <= 0real)) by (nonlinear_arith)
        requires
            r * s == c,
            c == q * 10000real,
            q * p == g,
            p == price,
            price > 0real,
            s > 0real,
    ;
}

/// A run is given up where it has lost half of its capital, or three tenths
/// where it only scores a candidate; it is looked at every ten or every five
/// thousand ticks.
pub proof fn law_losing_runs_are_given_up<N: Number>(value: spec_fn(N) -> real, run: SimulationRun<N>)
    requires
        reads_exactly(value),
        run.wf(),
    ensures
        ({
            let equity = value(run.equity_curve@.last());
            let capital = value(run.initial_capital);
            &&& run.scoring_only ==> (run.is_given_up() <==> run.processed as int % 5_000 == 0 && equity * 10real
                < capital * 7real)
            &&& !run.scoring_only ==> (run.is_given_up() <==> run.processed as int % 10_000 == 0 && equity * 2real
                < capital)
        }),
{
    crate::exact::lemma_ratio_reads::<N>(value, 7, 10);
    crate::exact::lemma_ratio_reads::<N>(value, 1, 2);
    let c = value(run.initial_capital);
    let e = value(run.equity_curve@.last());
    let a = value(crate::number::ratio_of::<N>(7, 10));
    let b = value(crate::number::ratio_of::<N>(1, 2));
    assert((e < c * a <==> e * 10real < c * 7real) && (e < c * b <==> e * 2real < c)) by (nonlinear_arith)
        requires
            a == 7real / 10real,
            b == 1real / 2real,
    ;
}

/// Days begin every 86400000 milliseconds, from the epoch on.
pub proof fn law_days_begin_at_midnight(timestamp: i64)
    ensures
        day_of(timestamp) * 86_400_000 <= timestamp < (day_of(timestamp) + 1) * 86_400_000,
{
}

/// Closed positions are those with a closing time, and count for the whole
/// seconds from opening to closing.
pub proof fn law_closed_positions_have_a_closing_time<N>(
    positions: Seq<PositionOutcome<N>>,
    position: PositionOutcome<N>,
)
    ensures
        position.closed_at is Some ==> closed_of(positions.push(position)) == closed_of(positions).push(position)
            && open_of(positions.push(position)) == open_of(positions),
        position.closed_at is None ==> open_of(positions.push(position)) == open_of(positions).push(position)
            && closed_of(positions.push(position)) == closed_of(positions),
        position.closed_at matches Some(closed) ==> closed >= position.opened_at ==> held_seconds(position) * 1000
            <= closed - position.opened_at < (held_seconds(position) + 1) * 1000,
{
    reveal(Seq::filter);
    assert(positions.push(position).drop_last() =~= positions);
}

/// A window keeps the trades no older than its span and the volume of those
/// it keeps.
pub proof fn law_trimming_takes_off_what_it_drops<N: Number>(
    value: spec_fn(N) -> real,
    window: Seq<(i64, N)>,
    volume: N,
    newest: i64,
    span: int,
)
    requires
        reads_exactly(value),
    ensures
        ({
            let (kept, left) = trimmed(window, volume, newest, span);
            &&& kept.len() <= window.len()
            &&& kept == window.skip(window.len() - kept.len())
            &&& kept.len() > 0 ==> newest - kept[0].0 <= span
            &&& value(volume) - value(left) == real_sum(
                window.take(window.len() - kept.len()).map_values(|t: (i64, N)| value(t.1)),
            )
        }),
    decreases window.len(),
{
    let (kept, left) = trimmed(window, volume, newest, span);
    if window.len() == 0 || newest - window[0].0 <= span {
        assert(kept =~= window.skip(0));
        assert(window.take(0).map_values(|t: (i64, N)| value(t.1)) =~= Seq::empty());
    } else {
        let rest = window.subrange(1, window.len() as int);
        law_trimming_takes_off_what_it_drops(value, rest, volume.difference(window[0].1), newest, span);
        let dropped = window.len() - kept.len();
        assert(rest.skip(rest.len() - kept.len()) =~= window.skip(dropped));
        let all = window.take(dropped).map_values(|t: (i64, N)| value(t.1));
        let others = rest.take(dropped - 1).map_values(|t: (i64, N)| value(t.1));
        assert(all =~= seq![value(window[0].1)] + others);
        lemma_sum_of_first(value(window[0].1), others);
    }
}

proof fn lemma_sum_of_first(first: real, rest: Seq<real>)
    ensures
        real_sum(seq![first] + rest) == first + real_sum(rest),
    decreases rest.len(),
{
    let all = seq![first] + rest;
    if rest.len() == 0 {
        assert(all.drop_last() =~= Seq::empty());
        assert(all.last() == first);
        assert(real_sum(all.drop_last()) == 0real);
    } else {
        assert(all.drop_last() =~= seq![first] + rest.drop_last());
        lemma_sum_of_first(first, rest.drop_last());
    }
}

/// The average volume is that of a minute of the last hour's market trades.
pub proof fn law_average_volume_is_per_minute<N: Number>(
    value: spec_fn(N) -> real,
    state: SimulationState<N>,
    timestamp: i64,
    traded: N,
)
    requires
        reads_exactly(value),
        state.market_trades.len() == 0,
        value(state.market_volume_sum) == 0real,
        value(traded) >= 0real,
    ensures
        ({
            let after = state.with_market_trade(timestamp, traded);
            &&& after.market_trades == seq![(timestamp, traded)]
            &&& value(after.average_volume) * 60real == value(traded)
        }),
{
    assert(value(N::whole(0)) == 0real && value(N::whole(60)) == 60real);
    assert(state.market_trades.push((timestamp, traded)) =~= seq![(timestamp, traded)]);
}

/// A fill of one of the run's orders counts where the order was placed at
/// least the latency before the trade; an earlier one is rejected on the side
/// of its order, and a fill of any other order is foreign.
pub proof fn law_young_orders_cannot_be_filled<N: Number>(
    state: SimulationState<N>,
    id: Seq<char>,
    trade_time: i64,
    latency_ms: u64,
)
    ensures
        ({
            let known = state.active.contains_key(id) && state.trackers.contains_key(id);
            let age = trade_time - state.trackers[id].placed_at;
            let screen = state.screened(id, trade_time, latency_ms);
            &&& !known <==> screen == FillScreen::Foreign
            &&& known && age >= latency_ms <==> screen == FillScreen::Ours
            &&& known && age < latency_ms ==> screen == FillScreen::TooEarly(state.trackers[id].side)
        }),
{
}

/// A fill counts an order once, on its own side, and remembers when it came
/// first.
pub proof fn law_first_fill_is_remembered<N: Number>(tracker: OrderTracker<N>, first: i64, second: i64)
    requires
        !tracker.filled,
        tracker.fill_count < usize::MAX - 1,
    ensures
        ({
            let once = after_fill(tracker, first);
            let twice = after_fill(once, second);
            &&& once.filled && twice.filled
            &&& once.first_fill_at == Some(first) && twice.first_fill_at == Some(first)
            &&& once.fill_count == tracker.fill_count + 1 && twice.fill_count == tracker.fill_count + 2
            &&& twice.side == tracker.side && twice.price == tracker.price && twice.placed_at == tracker.placed_at
        }),
{
}

/// Round trips are charged at the rate of their recorder, and at the flat
/// rate where there is none.
pub proof fn law_round_trips_are_charged_as_recorded<N>(others: Seq<Collector<N>>, rate: N, flat_rate: N)
    requires
        forall|i: int| 0 <= i < others.len() ==> !(#[trigger] others[i] is RoundTrips),
    ensures
        round_trip_rate(others, flat_rate) == flat_rate,
        round_trip_rate(others.push(Collector::RoundTrips(rate)), flat_rate) == rate,
    decreases others.len(),
{
    let all = others.push(Collector::RoundTrips(rate));
    if others.len() > 0 {
        assert(!(others[0] is RoundTrips));
        assert(all[0] == others[0]);
        let rest = others.skip(1);
        assert forall|i: int| 0 <= i < rest.len() implies !(#[trigger] rest[i] is RoundTrips) by {
            assert(!(others[i + 1] is RoundTrips));
        }
        law_round_trips_are_charged_as_recorded(rest, rate, flat_rate);
        assert(all.skip(1) =~= rest.push(Collector::RoundTrips(rate)));
    } else {
        assert(all[0] == Collector::RoundTrips(rate));
    }
}

/// A complete pair adds its spread to the record, and the last spread is that
/// of the latest complete pair.
pub proof fn law_complete_pairs_are_recorded<N: Number>(state: SimulationState<N>, quoted: QuotePair<N>)
    ensures
        is_complete(quoted) ==> state.with_quoted(quoted).spreads == state.spreads.push(
            spread_bps(quoted.bid->0, quoted.ask->0),
        ) && state.with_quoted(quoted).last_spread() == spread_bps(quoted.bid->0, quoted.ask->0),
        !is_complete(quoted) ==> state.with_quoted(quoted) == state,
        state.spreads.len() == 0 ==> state.last_spread() == N::whole(0),
{
}

/// The win rate is that of the closed trades where there are any, else that
/// of the round trips of a run that only counts fills.
pub proof fn law_win_rate_is_of_closed_trades_first<N>(closed: nat, of_trades: Option<N>, of_round_trips: Option<N>)
    ensures
        closed > 0 ==> reported_win_rate(true, closed, of_trades, of_round_trips) == of_trades && reported_win_rate(
            false,
            closed,
            of_trades,
            of_round_trips,
        ) == of_trades,
        reported_win_rate(true, 0, of_trades, of_round_trips) == of_round_trips,
        reported_win_rate(false, 0, of_trades, of_round_trips) is None,
{
}

} // verus!
