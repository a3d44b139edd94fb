//! Measures of a price series, an equity curve and a set of returns.

use vstd::prelude::*;

use crate::exact::reads_exactly;
use crate::judgement_laws::law_divergence_is_in_percent_of_the_base;
use crate::clock::seconds_between;
use crate::market_data::{market_data_close_price, market_data_timestamp, MarketData};
use crate::number::{add_up, cut_off, ratio, ratio_of, total, Number};

verus! {

/// Changes from each price to the next, relative to the former.
pub open spec fn returns_of<N: Number>(prices: Seq<N>) -> Seq<N> {
    Seq::new(
        (if prices.len() == 0 { 0 } else { prices.len() - 1 }) as nat,
        |i: int| prices[i + 1].difference(prices[i]).quotient(prices[i]),
    )
}

/// Simple returns of a price series.
pub fn simple_returns<N: Number>(prices: &[N]) -> (changes: Vec<N>)
    ensures
        changes@ == returns_of(prices@),
{
    let mut changes: Vec<N> = Vec::new();
    if prices.len() == 0 {
        return changes;
    }
    let mut i: usize = 1;
    while i < prices.len()
        invariant
            1 <= i <= prices@.len(),
            changes@ =~= returns_of(prices@).take(i as int - 1),
        decreases prices@.len() - i,
    {
        changes.push(prices[i].minus(prices[i - 1]).over(prices[i - 1]));
        i = i + 1;
    }
    changes
}

/// Returns from each value to the next, leaving out those from a value that
/// is not positive.
pub open spec fn positive_base_returns<N: Number>(values: Seq<N>) -> Seq<N>
    decreases values.len(),
{
    if values.len() < 2 {
        Seq::empty()
    } else {
        let before = positive_base_returns(values.drop_last());
        let from = values[values.len() - 2];
        if N::whole(0).below(from) {
            before.push(values.last().difference(from).quotient(from))
        } else {
            before
        }
    }
}

/// Returns from each value to the next, leaving out those from a value that
/// is not positive.
pub fn equity_returns<N: Number>(values: &[N]) -> (changes: Vec<N>)
    ensures
        changes@ == positive_base_returns(values@),
{
    let mut changes: Vec<N> = Vec::new();
    if values.len() == 0 {
        return changes;
    }
    let mut i: usize = 1;
    assert(values@.take(1).len() == 1);
    while i < values.len()
        invariant
            1 <= i <= values@.len(),
            changes@ == positive_base_returns(values@.take(i as int)),
        decreases values@.len() - i,
    {
        assert(values@.take(i as int + 1).drop_last() =~= values@.take(i as int));
        let from: N = values[i - 1];
        if N::of(0).lt(from) {
            changes.push(values[i].minus(from).over(from));
        }
        i = i + 1;
    }
    assert(values@.take(i as int) =~= values@);
    changes
}

/// Highest value so far; below every value before the first.
pub open spec fn running_peak<N: Number>(values: Seq<N>) -> N
    decreases values.len(),
{
    if values.len() == 0 {
        N::whole(0).difference(N::unbounded())
    } else {
        let before = running_peak(values.drop_last());
        if before.below(values.last()) {
            values.last()
        } else {
            before
        }
    }
}

/// Largest fall from a peak, relative to the peak.
pub open spec fn max_drawdown<N: Number>(values: Seq<N>) -> N
    decreases values.len(),
{
    if values.len() == 0 {
        N::whole(0)
    } else {
        let before = max_drawdown(values.drop_last());
        let peak = running_peak(values);
        let fall = peak.difference(values.last()).quotient(peak);
        if before.below(fall) {
            fall
        } else {
            before
        }
    }
}

/// Largest fall of an equity curve from a peak, as a fraction of the peak.
pub fn compute_max_drawdown<N: Number>(equity: &[N]) -> (drawdown: N)
    ensures
        drawdown == max_drawdown(equity@),
{
    let mut peak: N = N::of(0).minus(N::infinity());
    let mut worst: N = N::of(0);
    let mut i: usize = 0;
    assert(equity@.take(0) =~= Seq::empty());
    while i < equity.len()
        invariant
            i <= equity@.len(),
            peak == running_peak(equity@.take(i as int)),
            worst == max_drawdown(equity@.take(i as int)),
        decreases equity@.len() - i,
    {
        assert(equity@.take(i as int + 1).drop_last() =~= equity@.take(i as int));
        let value: N = equity[i];
        if peak.lt(value) {
            peak = value;
        }
        let fall: N = peak.minus(value).over(peak);
        if worst.lt(fall) {
            worst = fall;
        }
        i = i + 1;
    }
    assert(equity@.take(i as int) =~= equity@);
    worst
}

/// Number of positive values.
pub open spec fn positives<N: Number>(values: Seq<N>) -> nat
    decreases values.len(),
{
    if values.len() == 0 {
        0
    } else {
        positives(values.drop_last()) + if N::whole(0).below(values.last()) { 1nat } else { 0 }
    }
}

/// Number of positive values.
pub fn count_positive<N: Number>(values: &[N]) -> (count: usize)
    ensures
        count == positives(values@),
        count <= values@.len(),
{
    let mut count: usize = 0;
    let mut i: usize = 0;
    assert(values@.take(0) =~= Seq::empty());
    while i < values.len()
        invariant
            i <= values@.len(),
            count <= i,
            count == positives(values@.take(i as int)),
        decreases values@.len() - i,
    {
        assert(values@.take(i as int + 1).drop_last() =~= values@.take(i as int));
        if N::of(0).lt(values[i]) {
            count = count + 1;
        }
        i = i + 1;
    }
    assert(values@.take(i as int) =~= values@);
    count
}

/// Share of positive values.
pub open spec fn win_share<N: Number>(values: Seq<N>) -> N {
    N::counted(positives(values) as usize).quotient(N::counted(values.len() as usize))
}

/// Share of winning round trips; where none was closed, share of rising
/// steps of the equity curve; nothing where there is neither.
pub fn win_rate_with_fallback<N: Number>(primary_returns: &[N], fallback_returns: &[N]) -> (rate: Option<N>)
    ensures
        rate == if primary_returns@.len() > 0 {
            Some(win_share(primary_returns@))
        } else if fallback_returns@.len() > 0 {
            Some(win_share(fallback_returns@))
        } else {
            None
        },
{
    let source: &[N] = if primary_returns.len() > 0 { primary_returns } else { fallback_returns };
    if source.len() == 0 {
        None
    } else {
        Some(N::count(count_positive(source)).over(N::count(source.len())))
    }
}

/// Values above zero, or below it, added up in order.
pub open spec fn one_sided_total<N: Number>(values: Seq<N>, gains: bool) -> N
    decreases values.len(),
{
    if values.len() == 0 {
        N::whole(0)
    } else {
        let before = one_sided_total(values.drop_last(), gains);
        let counts = if gains { N::whole(0).below(values.last()) } else { values.last().below(N::whole(0)) };
        if counts {
            before.sum(values.last())
        } else {
            before
        }
    }
}

/// Gains added up, and the size of the losses added up.
pub fn gains_and_losses<N: Number>(values: &[N]) -> (sums: (N, N))
    ensures
        sums.0 == one_sided_total(values@, true),
        sums.1 == one_sided_total(values@, false).magnitude(),
{
    let mut gains: N = N::of(0);
    let mut losses: N = N::of(0);
    let mut i: usize = 0;
    assert(values@.take(0) =~= Seq::empty());
    while i < values.len()
        invariant
            i <= values@.len(),
            gains == one_sided_total(values@.take(i as int), true),
            losses == one_sided_total(values@.take(i as int), false),
        decreases values@.len() - i,
    {
        assert(values@.take(i as int + 1).drop_last() =~= values@.take(i as int));
        if N::of(0).lt(values[i]) {
            gains = gains.plus(values[i]);
        }
        if values[i].lt(N::of(0)) {
            losses = losses.plus(values[i]);
        }
        i = i + 1;
    }
    assert(values@.take(i as int) =~= values@);
    (gains, losses.abs())
}

/// Differences from each value to the next.
pub open spec fn steps_of<N: Number>(values: Seq<N>) -> Seq<N> {
    Seq::new(
        (if values.len() == 0 { 0 } else { values.len() - 1 }) as nat,
        |i: int| values[i + 1].difference(values[i]),
    )
}

/// Differences from each value to the next.
pub fn steps<N: Number>(values: &[N]) -> (deltas: Vec<N>)
    ensures
        deltas@ == steps_of(values@),
{
    let mut deltas: Vec<N> = Vec::new();
    if values.len() == 0 {
        return deltas;
    }
    let mut i: usize = 1;
    while i < values.len()
        invariant
            1 <= i <= values@.len(),
            deltas@ =~= steps_of(values@).take(i as int - 1),
        decreases values@.len() - i,
    {
        deltas.push(values[i].minus(values[i - 1]));
        i = i + 1;
    }
    deltas
}

/// The average.
pub open spec fn mean_of<N: Number>(values: Seq<N>) -> N {
    total(values).quotient(N::counted(values.len() as usize))
}

/// The average of at least one value.
pub fn mean<N: Number>(values: &[N]) -> (r: N)
    ensures
        r == mean_of(values@),
{
    add_up(values).over(N::count(values.len()))
}

/// Squared distances from a centre, added up in order.
pub open spec fn square_sum<N: Number>(values: Seq<N>, centre: N) -> N
    decreases values.len(),
{
    if values.len() == 0 {
        N::whole(0)
    } else {
        square_sum(values.drop_last(), centre).sum(values.last().difference(centre).raised(2))
    }
}

/// Adds up the squared distances from a centre.
pub fn add_squares<N: Number>(values: &[N], centre: N) -> (r: N)
    ensures
        r == square_sum(values@, centre),
{
    let mut r: N = N::of(0);
    let mut i: usize = 0;
    assert(values@.take(0) =~= Seq::empty());
    while i < values.len()
        invariant
            i <= values@.len(),
            r == square_sum(values@.take(i as int), centre),
        decreases values@.len() - i,
    {
        assert(values@.take(i as int + 1).drop_last() =~= values@.take(i as int));
        r = r.plus(values[i].minus(centre).power(2));
        i = i + 1;
    }
    assert(values@.take(i as int) =~= values@);
    r
}

/// Squares of the negative values, added up in order.
pub open spec fn downside_sum<N: Number>(values: Seq<N>) -> N
    decreases values.len(),
{
    if values.len() == 0 {
        N::whole(0)
    } else {
        let before = downside_sum(values.drop_last());
        if values.last().below(N::whole(0)) {
            before.sum(values.last().raised(2))
        } else {
            before
        }
    }
}

/// Adds up the squares of the negative values.
pub fn add_downside<N: Number>(values: &[N]) -> (r: N)
    ensures
        r == downside_sum(values@),
{
    let mut r: N = N::of(0);
    let mut i: usize = 0;
    assert(values@.take(0) =~= Seq::empty());
    while i < values.len()
        invariant
            i <= values@.len(),
            r == downside_sum(values@.take(i as int)),
        decreases values@.len() - i,
    {
        assert(values@.take(i as int + 1).drop_last() =~= values@.take(i as int));
        if values[i].lt(N::of(0)) {
            r = r.plus(values[i].power(2));
        }
        i = i + 1;
    }
    assert(values@.take(i as int) =~= values@);
    r
}

/// A value put into a sorted list, behind those that it is not below.
pub open spec fn inserted_in_order<N: Number>(sorted: Seq<N>, value: N) -> Seq<N>
    decreases sorted.len(),
{
    if sorted.len() == 0 || !value.below(sorted.last()) {
        sorted.push(value)
    } else {
        inserted_in_order(sorted.drop_last(), value).push(sorted.last())
    }
}

/// The values in ascending order; values of which neither is below the other
/// keep their order.
pub open spec fn in_order<N: Number>(values: Seq<N>) -> Seq<N>
    decreases values.len(),
{
    if values.len() == 0 {
        Seq::empty()
    } else {
        inserted_in_order(in_order(values.drop_last()), values.last())
    }
}

fn insert_in_order<N: Number>(sorted: &mut Vec<N>, value: N)
    ensures
        final(sorted)@ == inserted_in_order(old(sorted)@, value),
        final(sorted)@.len() == old(sorted)@.len() + 1,
{
    let ghost whole = sorted@;
    let mut at: usize = sorted.len();
    assert(whole.take(at as int) =~= whole);
    assert(inserted_in_order(whole, value) =~= inserted_in_order(whole, value) + whole.skip(at as int));
    while at > 0 && value.lt(sorted[at - 1])
        invariant
            at <= sorted@.len(),
            sorted@ == whole,
            inserted_in_order(whole, value) == inserted_in_order(whole.take(at as int), value) + whole.skip(
                at as int,
            ),
        decreases at,
    {
        proof {
            let head = whole.take(at as int);
            assert(head.drop_last() =~= whole.take(at as int - 1));
            assert(head.last() == whole[at as int - 1]);
            assert(inserted_in_order(whole.take(at as int - 1), value).push(head.last()) + whole.skip(at as int)
                =~= inserted_in_order(whole.take(at as int - 1), value) + whole.skip(at as int - 1));
        }
        at = at - 1;
    }
    proof {
        let head = whole.take(at as int);
        if at > 0 {
            assert(head.last() == whole[at as int - 1]);
        }
        assert(inserted_in_order(head, value) == head.push(value));
        assert(whole.insert(at as int, value) =~= head.push(value) + whole.skip(at as int));
    }
    sorted.insert(at, value);
}

/// The values in ascending order.
pub fn sort_values<N: Number>(values: &[N]) -> (sorted: Vec<N>)
    ensures
        sorted@ == in_order(values@),
        sorted@.len() == values@.len(),
{
    let mut sorted: Vec<N> = Vec::new();
    let mut i: usize = 0;
    assert(values@.take(0) =~= Seq::empty());
    while i < values.len()
        invariant
            i <= values@.len(),
            sorted@ == in_order(values@.take(i as int)),
            sorted@.len() == i,
        decreases values@.len() - i,
    {
        assert(values@.take(i as int + 1).drop_last() =~= values@.take(i as int));
        insert_in_order(&mut sorted, values[i]);
        i = i + 1;
    }
    assert(values@.take(i as int) =~= values@);
    sorted
}

/// The value held between two bounds.
pub open spec fn clamped<N: Number>(value: N, low: N, high: N) -> N {
    if value.below(low) {
        low
    } else if high.below(value) {
        high
    } else {
        value
    }
}

/// Holds a value between two bounds.
pub fn clamp<N: Number>(value: N, low: N, high: N) -> (r: N)
    ensures
        r == clamped(value, low, high),
{
    if value.lt(low) {
        low
    } else if high.lt(value) {
        high
    } else {
        value
    }
}

/// How many times over the average move must cover the cost: more for
/// shorter bars.
pub open spec fn cost_multiple<N: Number>(avg_bar_minutes: N) -> N {
    if avg_bar_minutes.at_most(N::whole(15)) {
        N::whole(4)
    } else if avg_bar_minutes.at_most(N::whole(240)) {
        N::whole(3)
    } else {
        ratio_of::<N>(5, 2)
    }
}

/// How many times over the average move must cover the cost.
pub fn required_cost_multiple<N: Number>(avg_bar_minutes: N) -> (multiple: N)
    ensures
        multiple == cost_multiple(avg_bar_minutes),
{
    if avg_bar_minutes.le(N::of(15)) {
        N::of(4)
    } else if avg_bar_minutes.le(N::of(240)) {
        N::of(3)
    } else {
        ratio(5, 2)
    }
}

/// Outcome of the cost hurdle.
#[derive(Debug, Clone, Copy, PartialEq)]
pub struct CostHurdleResult<N> {
    pub passed: bool,
    /// Average size of a move from bar to bar, in basis points.
    pub avg_move_bps: N,
    /// Cost of a round trip, in basis points.
    pub cost_bps: N,
    pub required_multiple: N,
    /// How many times over the average move covers the cost.
    pub margin: N,
}

/// Sizes of the moves, leaving out those from a price that is not positive.
pub open spec fn move_sizes<N: Number>(prices: Seq<N>) -> Seq<N> {
    positive_base_returns(prices).map_values(|r: N| r.magnitude())
}

/// The cost hurdle of a price series; none where it has no usable move.
pub open spec fn hurdle_of<N: Number>(
    prices: Seq<N>,
    avg_bar_minutes: N,
    taker_fee: N,
    slippage_bps: N,
) -> Option<CostHurdleResult<N>> {
    let moves = move_sizes(prices);
    if prices.len() < 2 || moves.len() == 0 {
        None
    } else {
        let avg_move_bps = mean_of(moves).product(N::whole(10_000));
        let cost_bps = N::whole(2).product(taker_fee).product(N::whole(10_000)).sum(slippage_bps);
        let required_multiple = cost_multiple(avg_bar_minutes);
        let margin = if N::whole(0).below(cost_bps) { avg_move_bps.quotient(cost_bps) } else { N::unbounded() };
        Some(
            CostHurdleResult {
                passed: required_multiple.at_most(margin),
                avg_move_bps,
                cost_bps,
                required_multiple,
                margin,
            },
        )
    }
}

/// Whether the average move of a price series covers the cost of a round
/// trip often enough. Without cost any move does.
pub fn compute_cost_hurdle<N: Number>(
    prices: &[N],
    avg_bar_minutes: N,
    taker_fee: N,
    slippage_bps: N,
) -> (result: Option<CostHurdleResult<N>>)
    ensures
        result == hurdle_of(prices@, avg_bar_minutes, taker_fee, slippage_bps),
{
    if prices.len() < 2 {
        return None;
    }
    let changes = equity_returns(prices);
    let mut moves: Vec<N> = Vec::new();
    let mut i: usize = 0;
    while i < changes.len()
        invariant
            i <= changes@.len(),
            changes@ == positive_base_returns(prices@),
            moves@ =~= move_sizes(prices@).take(i as int),
        decreases changes@.len() - i,
    {
        moves.push(changes[i].abs());
        i = i + 1;
    }
    assert(moves@ =~= move_sizes(prices@));
    if moves.len() == 0 {
        return None;
    }
    let avg_move_bps: N = mean(moves.as_slice()).times(N::of(10_000));
    let cost_bps: N = N::of(2).times(taker_fee).times(N::of(10_000)).plus(slippage_bps);
    let required_multiple: N = required_cost_multiple(avg_bar_minutes);
    let margin: N = if N::of(0).lt(cost_bps) { avg_move_bps.over(cost_bps) } else { N::infinity() };
    Some(
        CostHurdleResult {
            passed: required_multiple.le(margin),
            avg_move_bps,
            cost_bps,
            required_multiple,
            margin,
        },
    )
}

/// Average spacing of `n` bars over a span, in minutes and at least zero.
pub open spec fn average_bar_minutes<N: Number>(span_seconds: int, n: nat) -> N {
    N::whole(span_seconds as i64).quotient(N::whole(60)).quotient(N::counted((n - 1) as usize)).larger(N::whole(0))
}

/// Closing prices of a series.
pub open spec fn closes_of<N: Number>(data: Seq<MarketData<N>>) -> Seq<N> {
    data.map_values(|d: MarketData<N>| d.reference_price())
}

/// The cost hurdle of a market data series. Without a fee the taker fee is a
/// tenth of a percent. The bar spacing is that between the first and the last
/// data point; one without a date counts as happening now.
pub fn check_cost_hurdle<N: Number>(
    market_data: &[MarketData<N>],
    taker_fee: Option<N>,
    slippage_bps: N,
) -> (result: Option<CostHurdleResult<N>>)
    ensures
        market_data@.len() < 2 ==> result is None,
        market_data@.len() >= 2 ==> exists|first: i64, last: i64|
            #![trigger market_data@[0].may_happen_at(first), market_data@.last().may_happen_at(last)]
            {
                &&& market_data@[0].may_happen_at(first)
                &&& market_data@.last().may_happen_at(last)
                &&& result == hurdle_of(
                    closes_of(market_data@),
                    average_bar_minutes(cut_off(last - first, 1000), market_data@.len()),
                    match taker_fee {
                        Some(fee) => fee,
                        None => ratio_of::<N>(1, 1000),
                    },
                    slippage_bps,
                )
            },
{
    if market_data.len() < 2 {
        return None;
    }
    let mut prices: Vec<N> = Vec::new();
    let mut i: usize = 0;
    while i < market_data.len()
        invariant
            i <= market_data@.len(),
            prices@ =~= closes_of(market_data@).take(i as int),
        decreases market_data@.len() - i,
    {
        prices.push(market_data_close_price(&market_data[i]));
        i = i + 1;
    }
    assert(prices@ =~= closes_of(market_data@));
    let first: i64 = market_data_timestamp(&market_data[0]);
    let last: i64 = market_data_timestamp(&market_data[market_data.len() - 1]);
    let minutes: N = N::of(seconds_between(first, last)).over(N::of(60));
    let spacing: N = minutes.over(N::count(market_data.len() - 1)).max(N::of(0));
    let fee: N = match taker_fee {
        Some(fee) => fee,
        None => ratio(1, 1000),
    };
    let result = compute_cost_hurdle(prices.as_slice(), spacing, fee, slippage_bps);
    assert(market_data@[0].may_happen_at(first) && market_data@.last().may_happen_at(last));
    result
}

/// Comparison of a candle simulation with a tick simulation.
#[derive(Debug, Clone, Copy, PartialEq)]
pub struct TickValidationResult<N> {
    pub candle_sharpe: N,
    pub tick_sharpe: N,
    pub sharpe_divergence_pct: N,
    pub candle_pnl: N,
    pub tick_pnl: N,
    pub pnl_divergence_pct: N,
    pub flagged: bool,
}

/// Distance of a value from a base, in percent of the base; nothing for a
/// base within 1e-10 of zero.
pub open spec fn divergence_of<N: Number>(base: N, value: N) -> N {
    if ratio_of::<N>(1, 10_000_000_000).below(base.magnitude()) {
        base.difference(value).quotient(base).product(N::whole(100)).magnitude()
    } else {
        N::whole(0)
    }
}

fn divergence<N: Number>(base: N, value: N) -> (r: N)
    ensures
        r == divergence_of(base, value),
{
    if ratio::<N>(1, 10_000_000_000).lt(base.abs()) {
        base.minus(value).over(base).times(N::of(100)).abs()
    } else {
        N::of(0)
    }
}

/// Compares a candle simulation with a tick simulation; it is flagged where
/// the Sharpe ratios differ by more than thirty percent.
pub fn compute_tick_divergence<N: Number>(
    candle_sharpe: N,
    candle_pnl: N,
    tick_sharpe: N,
    tick_pnl: N,
) -> (result: TickValidationResult<N>)
    ensures
        result == (TickValidationResult {
            candle_sharpe,
            tick_sharpe,
            sharpe_divergence_pct: divergence_of(candle_sharpe, tick_sharpe),
            candle_pnl,
            tick_pnl,
            pnl_divergence_pct: divergence_of(candle_pnl, tick_pnl),
            flagged: N::whole(30).below(divergence_of(candle_sharpe, tick_sharpe)),
        }),
        forall|value: spec_fn(N) -> real| #[trigger]
            reads_exactly(value) && value(candle_sharpe) > 1real / 10000000000real ==> (result.flagged <==> 10real * value(
                tick_sharpe,
            ) < 7real * value(candle_sharpe) || 10real * value(tick_sharpe) > 13real * value(candle_sharpe)),
{
    proof {
        assert forall|value: spec_fn(N) -> real| #[trigger]
            reads_exactly(value) && value(candle_sharpe) > 1real / 10000000000real implies (N::whole(30).below(
            divergence_of(candle_sharpe, tick_sharpe),
        ) <==> 10real * value(tick_sharpe) < 7real * value(candle_sharpe) || 10real * value(tick_sharpe) > 13real * value(
            candle_sharpe,
        )) by {
            assert(value(N::whole(30)) == 30real);
            law_divergence_is_in_percent_of_the_base(value, candle_sharpe, tick_sharpe);
            let size = value(candle_sharpe);
            let found = value(divergence_of(candle_sharpe, tick_sharpe));
            assert(found > 30real <==> found * size > 30real * size) by (nonlinear_arith)
                requires
                    size > 0real,
            ;
        }
    }
    let sharpe_divergence_pct: N = divergence(candle_sharpe, tick_sharpe);
    TickValidationResult {
        candle_sharpe,
        tick_sharpe,
        sharpe_divergence_pct,
        candle_pnl,
        tick_pnl,
        pnl_divergence_pct: divergence(candle_pnl, tick_pnl),
        flagged: N::of(30).lt(sharpe_divergence_pct),
    }
}

/// Steps of a fan chart whose lowest band is below the threshold.
pub open spec fn ruined_steps<N: Number>(chart: Seq<[N; 5]>, threshold: N) -> nat
    decreases chart.len(),
{
    if chart.len() == 0 {
        0
    } else {
        ruined_steps(chart.drop_last(), threshold) + if chart.last()[0].below(threshold) { 1nat } else { 0 }
    }
}

/// Probability of ruin estimated from a fan chart. Each step has the bands
/// for 5, 25, 50, 75 and 95 percent; ruin is to fall below half of the first
/// step's middle band.
pub open spec fn ruin_estimate<N: Number>(chart: Seq<[N; 5]>) -> N {
    if chart.len() == 0 {
        N::whole(0)
    } else {
        let threshold = chart[0][2].product(ratio_of::<N>(1, 2));
        let ruined = ruined_steps(chart, threshold);
        let share = N::counted(ruined as usize).quotient(N::counted(chart.len() as usize));
        if ruined == 0 {
            N::whole(0)
        } else if chart.last()[0].below(threshold) {
            ratio_of::<N>(5, 100).larger(share.product(ratio_of::<N>(1, 2)))
        } else {
            share.product(ratio_of::<N>(5, 100))
        }
    }
}

/// Estimates the probability of ruin from a fan chart.
pub fn estimate_ruin_probability<N: Number>(fan_chart: &[[N; 5]]) -> (probability: N)
    ensures
        probability == ruin_estimate(fan_chart@),
{
    if fan_chart.len() == 0 {
        return N::of(0);
    }
    let threshold: N = fan_chart[0][2].times(ratio(1, 2));
    let mut ruined: usize = 0;
    let mut i: usize = 0;
    assert(fan_chart@.take(0) =~= Seq::empty());
    while i < fan_chart.len()
        invariant
            i <= fan_chart@.len(),
            ruined <= i,
            ruined == ruined_steps(fan_chart@.take(i as int), threshold),
        decreases fan_chart@.len() - i,
    {
        assert(fan_chart@.take(i as int + 1).drop_last() =~= fan_chart@.take(i as int));
        if fan_chart[i][0].lt(threshold) {
            ruined = ruined + 1;
        }
        i = i + 1;
    }
    assert(fan_chart@.take(i as int) =~= fan_chart@);
    if ruined == 0 {
        return N::of(0);
    }
    let share: N = N::count(ruined).over(N::count(fan_chart.len()));
    if fan_chart[fan_chart.len() - 1][0].lt(threshold) {
        ratio::<N>(5, 100).max(share.times(ratio(1, 2)))
    } else {
        share.times(ratio(5, 100))
    }
}

} // verus!
