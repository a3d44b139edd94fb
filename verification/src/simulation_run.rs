//! Course of a quoting simulation: when it stops, what it samples and what
//! its figures are.

use vstd::prelude::*;

use crate::exact::{is_mean, readings, reads_exactly};
use crate::measure_laws::{law_average_times_count_is_the_sum, lemma_mean_is_unique};
use crate::clock::seconds_between;
use crate::directional::{equity_sample_interval, sample_interval_for};
use crate::double::{floor_of, nearest, nearest_to, quotient, Double};
use crate::measures::{clamp, clamped, mean, mean_of};
use crate::number::{add_up, cut_off, ratio, ratio_of, total, Number};
use crate::types::BacktestResult;

verus! {

/// Ticks between two progress reports.
pub fn progress_interval(total_items: usize) -> (interval: usize)
    ensures
        interval == if total_items > 1_000_000 {
            total_items / 20
        } else if total_items > 100_000 {
            total_items / 10
        } else if total_items / 10 > 1000 {
            total_items / 10
        } else {
            1000
        },
        interval > 0,
{
    if total_items > 1_000_000 {
        total_items / 20
    } else if total_items > 100_000 {
        total_items / 10
    } else if total_items / 10 > 1000 {
        total_items / 10
    } else {
        1000
    }
}

/// A run in progress.
pub struct SimulationRun<N> {
    pub total_items: usize,
    /// Ticks taken in so far.
    pub processed: usize,
    pub sample_interval: usize,
    /// The run only scores a candidate of an optimisation.
    pub scoring_only: bool,
    pub initial_capital: N,
    pub equity_curve: Vec<N>,
    pub equity_curve_timestamps: Vec<i64>,
    pub halt_reason: Option<String>,
    /// Day of the last tick, counted from the epoch.
    pub current_day: Option<i64>,
    pub day_start_equity: N,
}

/// Ticks between two looks at the losses.
pub open spec fn stop_interval(scoring_only: bool) -> int {
    if scoring_only {
        5_000
    } else {
        10_000
    }
}

/// Equity below which a run is given up.
pub open spec fn stop_threshold<N: Number>(scoring_only: bool, initial_capital: N) -> N {
    if scoring_only {
        initial_capital.product(ratio_of::<N>(7, 10))
    } else {
        initial_capital.product(ratio_of::<N>(1, 2))
    }
}

/// Day of a point in time, counted from the epoch.
pub open spec fn day_of(timestamp: i64) -> int {
    timestamp as int / 86_400_000
}

/// Day of a point in time, counted from the epoch; earlier days are negative.
pub fn day_number(timestamp: i64) -> (day: i64)
    ensures
        day == day_of(timestamp),
{
    let shifted: i128 = timestamp as i128 + 9_223_372_036_915_200_000;
    proof {
        assert(shifted as int / 86_400_000 == timestamp as int / 86_400_000 + 106_751_991_168);
    }
    let days: u128 = shifted as u128 / 86_400_000;
    (days as i128 - 106_751_991_168) as i64
}

impl<N: Number> SimulationRun<N> {
    /// The curve starts with the initial capital, and every sample after it
    /// has its time.
    pub open spec fn wf(&self) -> bool {
        &&& self.processed <= self.total_items
        &&& self.sample_interval == sample_interval_for(self.total_items as nat)
        &&& self.equity_curve@.len() == self.equity_curve_timestamps@.len() + 1
        &&& self.equity_curve@[0] == self.initial_capital
    }

    /// Equity is sampled at this tick: at every so many ticks and at the last.
    pub open spec fn is_sampled(&self) -> bool {
        self.processed as int % sample_interval_for(self.total_items as nat) == 0 || self.processed
            == self.total_items
    }

    /// The run is given up at this tick.
    pub open spec fn is_given_up(&self) -> bool {
        &&& self.processed as int % stop_interval(self.scoring_only) == 0
        &&& self.equity_curve@.last().below(stop_threshold(self.scoring_only, self.initial_capital))
    }

    /// Starts a run.
    pub fn new(total_items: usize, initial_capital: N, scoring_only: bool) -> (run: Self)
        ensures
            run.wf(),
            run.total_items == total_items,
            run.processed == 0,
            run.scoring_only == scoring_only,
            run.initial_capital == initial_capital,
            run.equity_curve@ == seq![initial_capital],
            run.halt_reason is None,
            run.current_day is None,
            run.day_start_equity == initial_capital,
    {
        let mut equity_curve: Vec<N> = Vec::new();
        equity_curve.push(initial_capital);
        assert(equity_curve@ =~= seq![initial_capital]);
        SimulationRun {
            total_items,
            processed: 0,
            sample_interval: equity_sample_interval(total_items),
            scoring_only,
            initial_capital,
            equity_curve,
            equity_curve_timestamps: Vec::new(),
            halt_reason: None,
            current_day: None,
            day_start_equity: initial_capital,
        }
    }

    /// Takes in the next tick, and says whether the run goes on with it: a
    /// run that has lost too much is given up.
    pub fn begin_tick(&mut self) -> (goes_on: bool)
        requires
            old(self).wf(),
            old(self).processed < old(self).total_items,
        ensures
            final(self).wf(),
            *final(self) == (SimulationRun { processed: (old(self).processed + 1) as usize, ..*old(self) }),
            goes_on == !final(self).is_given_up(),
    {
        self.processed = self.processed + 1;
        let every: usize = if self.scoring_only { 5_000 } else { 10_000 };
        if self.processed % every == 0 {
            let share: N = if self.scoring_only { ratio(7, 10) } else { ratio(1, 2) };
            let equity: N = self.equity_curve[self.equity_curve.len() - 1];
            !equity.lt(self.initial_capital.times(share))
        } else {
            true
        }
    }

    /// Samples the equity of the tick where it is due.
    pub fn record_equity(&mut self, value: N, timestamp: i64)
        requires
            old(self).wf(),
        ensures
            final(self).wf(),
            final(self).equity_curve@ == if old(self).is_sampled() {
                old(self).equity_curve@.push(value)
            } else {
                old(self).equity_curve@
            },
            final(self).equity_curve_timestamps@ == if old(self).is_sampled() {
                old(self).equity_curve_timestamps@.push(timestamp)
            } else {
                old(self).equity_curve_timestamps@
            },
            *final(self) == (SimulationRun {
                equity_curve: final(self).equity_curve,
                equity_curve_timestamps: final(self).equity_curve_timestamps,
                ..*old(self)
            }),
    {
        if self.processed % self.sample_interval == 0 || self.processed == self.total_items {
            self.equity_curve.push(value);
            self.equity_curve_timestamps.push(timestamp);
        }
    }

    /// Takes in the equity of the tick, and returns the profit of the day so
    /// far. The first tick of a day starts it.
    pub fn roll_day(&mut self, timestamp: i64, equity: N) -> (daily_pnl: N)
        requires
            old(self).wf(),
        ensures
            final(self).wf(),
            final(self).day_start_equity == if old(self).current_day is Some && old(self).current_day->0 == day_of(
                timestamp,
            ) {
                old(self).day_start_equity
            } else {
                equity
            },
            final(self).current_day == Some(day_of(timestamp) as i64),
            daily_pnl == equity.difference(final(self).day_start_equity),
            *final(self) == (SimulationRun {
                current_day: final(self).current_day,
                day_start_equity: final(self).day_start_equity,
                ..*old(self)
            }),
    {
        let day: i64 = day_number(timestamp);
        let same_day: bool = match self.current_day {
            Some(current) => current == day,
            None => false,
        };
        if !same_day {
            self.current_day = Some(day);
            self.day_start_equity = equity;
        }
        equity.minus(self.day_start_equity)
    }

    /// Halts trading for the rest of the run.
    pub fn halt(&mut self, reason: String)
        requires
            old(self).wf(),
        ensures
            final(self).wf(),
            *final(self) == (SimulationRun { halt_reason: Some(reason), ..*old(self) }),
    {
        self.halt_reason = Some(reason);
    }

    /// The sampled times as they go with the curve: its first point gets the
    /// time of the first sample. Without any sample there are none.
    pub open spec fn curve_times(&self) -> Seq<i64> {
        if self.equity_curve_timestamps@.len() == 0 {
            Seq::empty()
        } else {
            seq![self.equity_curve_timestamps@[0]] + self.equity_curve_timestamps@
        }
    }

    /// The sampled times as they go with the curve.
    pub fn times_of_curve(&self) -> (times: Vec<i64>)
        requires
            self.wf(),
        ensures
            times@ == self.curve_times(),
            times@.len() > 0 ==> times@.len() == self.equity_curve@.len(),
    {
        let mut times: Vec<i64> = Vec::new();
        if self.equity_curve_timestamps.len() > 0 {
            times.push(self.equity_curve_timestamps[0]);
            let mut i: usize = 0;
            while i < self.equity_curve_timestamps.len()
                invariant
                    i <= self.equity_curve_timestamps@.len(),
                    self.equity_curve_timestamps@.len() > 0,
                    times@ =~= seq![self.equity_curve_timestamps@[0]] + self.equity_curve_timestamps@.take(i as int),
                decreases self.equity_curve_timestamps@.len() - i,
            {
                times.push(self.equity_curve_timestamps[i]);
                i = i + 1;
            }
            assert(self.equity_curve_timestamps@.take(i as int) =~= self.equity_curve_timestamps@);
        }
        assert(times@ =~= self.curve_times());
        times
    }
}

/// A position of the portfolio at the end of a run.
#[derive(Debug, Clone, Copy, PartialEq)]
pub struct PositionOutcome<N> {
    pub opened_at: i64,
    pub closed_at: Option<i64>,
    pub realized_pnl: N,
    pub unrealized_pnl: N,
}

/// The closed positions, in order.
pub open spec fn closed_of<N>(positions: Seq<PositionOutcome<N>>) -> Seq<PositionOutcome<N>> {
    positions.filter(|p: PositionOutcome<N>| p.closed_at is Some)
}

/// The open positions, in order.
pub open spec fn open_of<N>(positions: Seq<PositionOutcome<N>>) -> Seq<PositionOutcome<N>> {
    positions.filter(|p: PositionOutcome<N>| p.closed_at is None)
}

/// Whole seconds for which a closed position was held.
pub open spec fn held_seconds<N>(position: PositionOutcome<N>) -> int {
    cut_off(position.closed_at->0 - position.opened_at, 1000)
}

/// The positions of a portfolio, taken together.
pub struct PositionTally<N> {
    pub open_count: usize,
    pub unrealized_pnl: N,
    /// Profit of each closed position.
    pub trade_returns: Vec<N>,
    /// Seconds for which each closed position was held.
    pub trade_durations: Vec<N>,
}

/// Takes the positions of a portfolio together.
pub fn tally_positions<N: Number>(positions: &[PositionOutcome<N>]) -> (tally: PositionTally<N>)
    ensures
        tally.open_count == open_of(positions@).len(),
        tally.unrealized_pnl == total(
            open_of(positions@).map_values(|p: PositionOutcome<N>| p.unrealized_pnl),
        ),
        tally.trade_returns@ == closed_of(positions@).map_values(|p: PositionOutcome<N>| p.realized_pnl),
        tally.trade_durations@ == closed_of(positions@).map_values(
            |p: PositionOutcome<N>| N::whole(held_seconds(p) as i64),
        ),
{
    let mut open_count: usize = 0;
    let mut unrealized: N = N::of(0);
    let mut gains: Vec<N> = Vec::new();
    let mut durations: Vec<N> = Vec::new();
    let mut i: usize = 0;
    let ghost open_gain = |p: PositionOutcome<N>| p.unrealized_pnl;
    let ghost gain = |p: PositionOutcome<N>| p.realized_pnl;
    let ghost held = |p: PositionOutcome<N>| N::whole(held_seconds(p) as i64);
    proof {
        reveal(Seq::filter);
        assert(positions@.take(0) =~= Seq::empty());
        assert(open_of(positions@.take(0)).map_values(open_gain) =~= Seq::empty());
        assert(closed_of(positions@.take(0)).map_values(gain) =~= Seq::empty());
        assert(closed_of(positions@.take(0)).map_values(held) =~= Seq::empty());
    }
    while i < positions.len()
        invariant
            i <= positions@.len(),
            open_gain == (|p: PositionOutcome<N>| p.unrealized_pnl),
            gain == (|p: PositionOutcome<N>| p.realized_pnl),
            held == (|p: PositionOutcome<N>| N::whole(held_seconds(p) as i64)),
            open_count <= i,
            open_count == open_of(positions@.take(i as int)).len(),
            unrealized == total(open_of(positions@.take(i as int)).map_values(open_gain)),
            gains@ == closed_of(positions@.take(i as int)).map_values(gain),
            durations@ == closed_of(positions@.take(i as int)).map_values(held),
        decreases positions@.len() - i,
    {
        let position = &positions[i];
        let ghost before = positions@.take(i as int);
        let ghost after = positions@.take(i as int + 1);
        proof {
            reveal(Seq::filter);
            assert(after.drop_last() =~= before);
            assert(after.last() == *position);
        }
        match position.closed_at {
            Some(closed_at) => {
                proof {
                    assert(closed_of(after) == closed_of(before).push(*position));
                    assert(open_of(after) == open_of(before));
                    assert(closed_of(after).map_values(gain) =~= closed_of(before).map_values(gain).push(
                        gain(*position),
                    ));
                    assert(closed_of(after).map_values(held) =~= closed_of(before).map_values(held).push(
                        held(*position),
                    ));
                }
                gains.push(position.realized_pnl);
                let seconds: i64 = seconds_between(position.opened_at, closed_at);
                durations.push(N::of(seconds));
            },
            None => {
                proof {
                    assert(closed_of(after) == closed_of(before));
                    assert(open_of(after) == open_of(before).push(*position));
                    assert(open_of(after).map_values(open_gain) =~= open_of(before).map_values(open_gain).push(
                        open_gain(*position),
                    ));
                    assert(open_of(after).map_values(open_gain).drop_last() =~= open_of(before).map_values(open_gain));
                }
                open_count = open_count + 1;
                unrealized = unrealized.plus(position.unrealized_pnl);
            },
        }
        i = i + 1;
    }
    assert(positions@.take(i as int) =~= positions@);
    PositionTally { open_count, unrealized_pnl: unrealized, trade_returns: gains, trade_durations: durations }
}

/// Samples per day of a run, with the span of its trades in double precision;
/// at least one.
pub open spec fn samples_per_day(samples: nat, seconds: nat) -> nat {
    let per_day = quotient(nearest(samples, 1), quotient(nearest(seconds, 1), nearest(86_400, 1)));
    let whole = if floor_of(per_day) <= usize::MAX { floor_of(per_day) } else { usize::MAX as nat };
    if whole >= 1 {
        whole
    } else {
        1
    }
}

/// Samples of the equity curve per day, from the times of the first and the
/// last trade. Where they are not known the curve stands for one day.
pub fn periods_per_day(samples: usize, first_trade: Option<i64>, last_trade: Option<i64>) -> (periods: usize)
    ensures
        periods == match (first_trade, last_trade) {
            (Some(first), Some(last)) => if samples > 1 {
                let seconds = cut_off(last - first, 1000);
                samples_per_day(samples as nat, if seconds >= 1 { seconds as nat } else { 1 })
            } else {
                1
            },
            _ => if samples >= 1 {
                samples as nat
            } else {
                1
            },
        },
{
    match (first_trade, last_trade) {
        (Some(first), Some(last)) => if samples > 1 {
            let seconds: i64 = seconds_between(first, last);
            let seconds: i64 = if seconds >= 1 { seconds } else { 1 };
            let span: Double = nearest_to(seconds as u128, 1);
            let day: Double = nearest_to(86_400, 1);
            let days: Double = span.over(&day);
            let per_day: Double = nearest_to(samples as u128, 1).over(&days);
            let whole: usize = per_day.whole_part();
            if whole >= 1 {
                whole
            } else {
                1
            }
        } else {
            1
        },
        _ => if samples >= 1 {
            samples
        } else {
            1
        },
    }
}

/// How the trades of a run are counted.
#[derive(Debug, Clone, Copy, PartialEq, Eq, Structural)]
pub struct TradeBasis {
    /// No position was ever closed, so that fills count as trades.
    pub fills_only: bool,
    pub num_trades: usize,
    /// So few trades are closed that the equity curve says more about risk.
    pub use_equity_returns: bool,
}

/// How the trades of a run are counted: by closed positions, or by pairs of
/// fills where no position was closed but something was filled.
pub fn trade_basis(closed: usize, open: usize, buy_fills: usize, sell_fills: usize) -> (basis: TradeBasis)
    ensures
        basis.fills_only == (closed == 0 && buy_fills + sell_fills > 0),
        basis.num_trades == if basis.fills_only {
            if buy_fills <= sell_fills {
                buy_fills
            } else {
                sell_fills
            }
        } else {
            closed
        },
        basis.use_equity_returns == (closed < 10 && open > 0),
{
    let fills_only: bool = closed == 0 && (buy_fills > 0 || sell_fills > 0);
    let round_trips: usize = if buy_fills <= sell_fills { buy_fills } else { sell_fills };
    TradeBasis {
        fills_only,
        num_trades: if fills_only { round_trips } else { closed },
        use_equity_returns: closed < 10 && open > 0,
    }
}

/// Profit figures of a run that is counted by its fills.
#[derive(Debug, Clone, Copy, PartialEq)]
pub struct FillsOnlyFigures<N> {
    pub gross_profit: N,
    pub gross_loss: N,
    pub net_profit: N,
    pub avg_trade_return: Option<N>,
    pub profit_factor: Option<N>,
}

/// Profit figures of a run that is counted by its fills: before commission it
/// captured the spread, and the commission is the loss. Where it lost before
/// commission too, all of it is loss.
pub fn fills_only_figures<N: Number>(total_pnl: N, total_commission: N, round_trips: usize) -> (figures:
    FillsOnlyFigures<N>)
    ensures
        ({
            let gross = total_pnl.sum(total_commission);
            let gained = N::whole(0).below(gross);
            &&& figures.gross_profit == if gained { gross } else { N::whole(0) }
            &&& figures.gross_loss == if gained {
                total_commission
            } else {
                N::whole(-1i64).product(total_pnl)
            }
            &&& figures.net_profit == total_pnl
            &&& figures.avg_trade_return == if round_trips > 0 {
                Some(total_pnl.quotient(N::counted(round_trips)))
            } else {
                None
            }
            &&& figures.profit_factor == if N::whole(0).below(total_commission) && gained {
                Some(gross.quotient(total_commission))
            } else {
                None
            }
        }),
        forall|value: spec_fn(N) -> real| #[trigger]
            reads_exactly(value) ==> {
                &&& value(figures.gross_profit) - value(figures.gross_loss) == value(total_pnl)
                &&& value(figures.gross_profit) >= 0real
                &&& figures.avg_trade_return matches Some(average) ==> value(average) * (round_trips as int as real)
                    == value(total_pnl)
                &&& figures.profit_factor matches Some(factor) ==> value(factor) * value(total_commission) == value(
                    figures.gross_profit,
                )
            },
{
    proof {
        assert forall|value: spec_fn(N) -> real| #[trigger] reads_exactly(value) implies value(N::whole(0)) == 0real
            && value(N::whole(-1i64).product(total_pnl)) == -value(total_pnl) && value(N::counted(round_trips))
            == round_trips as int as real by {
            assert(value(N::whole(-1i64)) == -1real);
        }
    }
    let gross: N = total_pnl.plus(total_commission);
    let gained: bool = N::of(0).lt(gross);
    FillsOnlyFigures {
        gross_profit: if gained { gross } else { N::of(0) },
        gross_loss: if gained { total_commission } else { N::of(-1).times(total_pnl) },
        net_profit: total_pnl,
        avg_trade_return: if round_trips > 0 { Some(total_pnl.over(N::count(round_trips))) } else { None },
        profit_factor: if N::of(0).lt(total_commission) && gained {
            Some(gross.over(total_commission))
        } else {
            None
        },
    }
}

/// Net profit of each pair of a purchase and a sale, the fee taken on both.
pub open spec fn pair_profits<N: Number>(buys: Seq<N>, sells: Seq<N>, fee_rate: N) -> Seq<N> {
    Seq::new(
        if buys.len() <= sells.len() { buys.len() } else { sells.len() },
        |i: int| pair_profit(buys[i], sells[i], fee_rate),
    )
}

/// Net profit of a purchase and a sale, the fee taken on both.
pub open spec fn pair_profit<N: Number>(buy: N, sell: N, fee_rate: N) -> N {
    sell.difference(buy).difference(fee_rate.product(buy.sum(sell)))
}

/// How many of some profits are gains.
pub open spec fn gain_count<N: Number>(profits: Seq<N>) -> nat {
    profits.filter(|profit: N| N::whole(0).below(profit)).len()
}

/// What the round trips of a run came to.
#[derive(Debug, Clone, Copy, PartialEq)]
pub struct RoundTripStats<N> {
    pub total: usize,
    pub profitable: usize,
    pub total_pnl: N,
    pub win_rate: Option<N>,
    pub avg_pnl: Option<N>,
    pub adverse_selection_rate: Option<N>,
    /// Share of the quoted spread that the round trips earned.
    pub spread_capture_rate: Option<N>,
}

/// Share of the quoted spread that was earned, between zero and two.
pub open spec fn capture_rate<N: Number>(avg_pnl: N, buys: Seq<N>, sells: Seq<N>, avg_spread_bps: N) -> N {
    let avg_price = total(buys).sum(total(sells)).quotient(N::counted((buys.len() + sells.len()) as usize));
    let captured = if N::whole(0).below(avg_price) {
        avg_pnl.quotient(avg_price).product(N::whole(10_000))
    } else {
        N::whole(0)
    };
    clamped(captured.quotient(avg_spread_bps), N::whole(0), N::whole(2))
}

/// Takes the round trips of a run together: the first purchase goes with the
/// first sale, and so on.
pub fn round_trip_stats<N: Number>(buys: &[N], sells: &[N], fee_rate: N, avg_spread_bps: N) -> (stats: RoundTripStats<
    N,
>)
    requires
        buys@.len() + sells@.len() <= usize::MAX,
    ensures
        ({
            let profits = pair_profits(buys@, sells@, fee_rate);
            let n = N::counted(profits.len() as usize);
            let some = profits.len() > 0;
            let avg_pnl = total(profits).quotient(n);
            &&& stats.total == profits.len()
            &&& stats.profitable == gain_count(profits)
            &&& stats.total_pnl == total(profits)
            &&& stats.win_rate == if some {
                Some(N::counted(gain_count(profits) as usize).quotient(n))
            } else {
                None
            }
            &&& stats.avg_pnl == if some { Some(avg_pnl) } else { None }
            &&& stats.adverse_selection_rate == if some {
                Some(N::counted((profits.len() - gain_count(profits)) as usize).quotient(n))
            } else {
                None
            }
            &&& stats.spread_capture_rate == if some && N::whole(0).below(avg_spread_bps) {
                Some(capture_rate(avg_pnl, buys@, sells@, avg_spread_bps))
            } else {
                None
            }
        }),
        forall|value: spec_fn(N) -> real| #[trigger]
            reads_exactly(value) && stats.total > 0 ==> {
                let pairs = stats.total as int as real;
                &&& stats.win_rate matches Some(rate) && value(rate) * pairs == stats.profitable as int as real
                &&& stats.adverse_selection_rate matches Some(rate) && value(rate) * pairs == (stats.total
                    - stats.profitable) as real
                &&& stats.avg_pnl matches Some(average) && value(average) * pairs == value(stats.total_pnl)
            },
{
    let pairs: usize = if buys.len() <= sells.len() { buys.len() } else { sells.len() };
    let ghost profits = pair_profits(buys@, sells@, fee_rate);
    let mut profitable: usize = 0;
    let mut total_pnl: N = N::of(0);
    let mut i: usize = 0;
    proof {
        reveal(Seq::filter);
        assert(profits.take(0) =~= Seq::empty());
    }
    while i < pairs
        invariant
            i <= pairs,
            pairs == profits.len(),
            pairs <= buys@.len(),
            pairs <= sells@.len(),
            profits == pair_profits(buys@, sells@, fee_rate),
            profitable <= i,
            profitable == gain_count(profits.take(i as int)),
            total_pnl == total(profits.take(i as int)),
        decreases pairs - i,
    {
        proof {
            reveal(Seq::filter);
            assert(profits.take(i as int + 1).drop_last() =~= profits.take(i as int));
        }
        let profit: N = sells[i].minus(buys[i]).minus(fee_rate.times(buys[i].plus(sells[i])));
        total_pnl = total_pnl.plus(profit);
        if N::of(0).lt(profit) {
            profitable = profitable + 1;
        }
        i = i + 1;
    }
    assert(profits.take(i as int) =~= profits);
    if pairs == 0 {
        RoundTripStats {
            total: 0,
            profitable,
            total_pnl,
            win_rate: None,
            avg_pnl: None,
            adverse_selection_rate: None,
            spread_capture_rate: None,
        }
    } else {
        let n: N = N::count(pairs);
        let avg_pnl: N = total_pnl.over(n);
        proof {
            assert forall|value: spec_fn(N) -> real| #[trigger] reads_exactly(value) implies value(N::counted(pairs))
                == pairs as int as real && value(N::counted(profitable)) == profitable as int as real && value(
                N::counted((pairs - profitable) as usize),
            ) == (pairs - profitable) as real by {}
        }
        let spread_capture_rate: Option<N> = if N::of(0).lt(avg_spread_bps) {
            let prices: usize = buys.len() + sells.len();
            let avg_price: N = add_up(buys).plus(add_up(sells)).over(N::count(prices));
            let captured: N = if N::of(0).lt(avg_price) {
                avg_pnl.over(avg_price).times(N::of(10_000))
            } else {
                N::of(0)
            };
            Some(clamp(captured.over(avg_spread_bps), N::of(0), N::of(2)))
        } else {
            None
        };
        RoundTripStats {
            total: pairs,
            profitable,
            total_pnl,
            win_rate: Some(N::count(profitable).over(n)),
            avg_pnl: Some(avg_pnl),
            adverse_selection_rate: Some(N::count(pairs - profitable).over(n)),
            spread_capture_rate,
        }
    }
}

/// The average, zero where there is nothing.
pub fn mean_or_zero<N: Number>(values: &[N]) -> (r: N)
    ensures
        r == if values@.len() > 0 { mean_of(values@) } else { N::whole(0) },
{
    if values.len() > 0 {
        mean(values)
    } else {
        N::of(0)
    }
}

/// Return per year of an equity curve, from the average return of a sample;
/// nothing where there is no return or no drawdown to hold it against.
pub fn annualized_return<N: Number>(changes: &[N], periods_per_day: usize, max_drawdown: N) -> (annual: Option<N>)
    ensures
        annual == if changes@.len() > 0 && N::whole(0).below(max_drawdown) {
            Some(mean_of(changes@).product(N::counted(periods_per_day)).product(N::whole(365)))
        } else {
            None
        },
        forall|value: spec_fn(N) -> real, average: real|
            #![trigger reads_exactly(value), is_mean(readings(value, changes@), average)]
            reads_exactly(value) && is_mean(readings(value, changes@), average) ==> (annual matches Some(yearly) ==> value(
                yearly,
            ) == average * (periods_per_day as int as real) * 365real),
{
    let count: usize = changes.len();
    proof {
        assert(changes@.len() == count);
        assert forall|value: spec_fn(N) -> real, average: real|
            #![trigger reads_exactly(value), is_mean(readings(value, changes@), average)]
            reads_exactly(value) && is_mean(readings(value, changes@), average) implies value(mean_of(changes@)) == average
            && value(N::counted(periods_per_day)) == periods_per_day as int as real && value(N::whole(365)) == 365real by {
            assert(readings(value, changes@).len() == changes@.len());
            law_average_times_count_is_the_sum(value, changes@);
            lemma_mean_is_unique(readings(value, changes@), average, value(mean_of(changes@)));
        }
    }
    if count > 0 && N::of(0).lt(max_drawdown) {
        Some(mean(changes).times(N::count(periods_per_day)).times(N::of(365)))
    } else {
        None
    }
}

/// Figures that are measured on the closed trades and on the equity curve.
pub struct SimulationMetrics<N> {
    pub gross_profit: N,
    pub gross_loss: N,
    pub net_profit: N,
    pub avg_trade_return: Option<N>,
    pub median_trade_return: Option<N>,
    pub sharpe_ratio: Option<N>,
    pub sortino_ratio: Option<N>,
    pub calmar_ratio: Option<N>,
    /// Of the gross figures, zero where fills are counted.
    pub profit_factor: Option<N>,
    /// Share of the closed trades that gained.
    pub win_rate: Option<N>,
    pub avg_trade_duration: Option<N>,
    pub volatility: Option<N>,
    pub max_drawdown: Option<N>,
    pub total_commission: N,
}

/// Share of winning trades that a run reports: that of its closed trades, or
/// that of its round trips where fills are counted.
pub open spec fn reported_win_rate<N>(
    fills_only: bool,
    closed: nat,
    of_trades: Option<N>,
    of_round_trips: Option<N>,
) -> Option<N> {
    if closed > 0 {
        of_trades
    } else if fills_only {
        of_round_trips
    } else {
        None
    }
}

/// Puts the result of a run together. What was recorded of single trades and
/// orders is left for the recorder to fill in.
pub fn build_simulation_result<N: Number>(
    run: SimulationRun<N>,
    tally: PositionTally<N>,
    buy_fills: usize,
    sell_fills: usize,
    metrics: SimulationMetrics<N>,
    final_value: N,
    round_trip_win_rate: Option<N>,
) -> (result: BacktestResult<N>)
    requires
        run.wf(),
    ensures
        ({
            let closed = tally.trade_returns@.len();
            let fills_only = closed == 0 && buy_fills + sell_fills > 0;
            let round_trips = if buy_fills <= sell_fills { buy_fills } else { sell_fills };
            let pnl = final_value.difference(run.initial_capital);
            let gross = pnl.sum(metrics.total_commission);
            let gained = N::whole(0).below(gross);
            &&& result.total_pnl == pnl
            &&& result.initial_capital == run.initial_capital
            &&& result.closed_trades == closed
            &&& result.open_positions == tally.open_count
            &&& result.num_trades == if fills_only { round_trips as nat } else { closed }
            &&& result.realized_pnl == Some(metrics.net_profit)
            &&& result.unrealized_pnl == Some(tally.unrealized_pnl)
            &&& result.gross_profit == Some(
                if !fills_only {
                    metrics.gross_profit
                } else if gained {
                    gross
                } else {
                    N::whole(0)
                },
            )
            &&& result.gross_loss == Some(
                if !fills_only {
                    metrics.gross_loss
                } else if gained {
                    metrics.total_commission
                } else {
                    N::whole(-1i64).product(pnl)
                },
            )
            &&& result.net_profit == Some(if fills_only { pnl } else { metrics.net_profit })
            &&& result.avg_trade_return == if !fills_only {
                metrics.avg_trade_return
            } else if round_trips > 0 {
                Some(pnl.quotient(N::counted(round_trips)))
            } else {
                None
            }
            &&& result.median_trade_return == if fills_only { None } else { metrics.median_trade_return }
            &&& result.profit_factor == if fills_only && N::whole(0).below(metrics.total_commission) && gained {
                Some(gross.quotient(metrics.total_commission))
            } else {
                metrics.profit_factor
            }
            &&& result.win_rate == reported_win_rate(fills_only, closed, metrics.win_rate, round_trip_win_rate)
            &&& result.sharpe_ratio == metrics.sharpe_ratio
            &&& result.sortino_ratio == metrics.sortino_ratio
            &&& result.calmar_ratio == metrics.calmar_ratio
            &&& result.avg_trade_duration == metrics.avg_trade_duration
            &&& result.volatility == metrics.volatility
            &&& result.max_drawdown == match metrics.max_drawdown {
                Some(drawdown) => drawdown,
                None => N::whole(0),
            }
            &&& result.risk_halt_reason == run.halt_reason
            &&& result.equity_curve == run.equity_curve
            &&& result.equity_curve_timestamps@ == run.curve_times()
            &&& result.trade_returns == tally.trade_returns
        }),
        result.has_no_reports_but_a_halt(),
        result.has_no_details(),
{
    let closed: usize = tally.trade_returns.len();
    assert(tally.trade_returns@.len() == closed);
    let basis: TradeBasis = trade_basis(closed, tally.open_count, buy_fills, sell_fills);
    let total_pnl: N = final_value.minus(run.initial_capital);
    let mut result: BacktestResult<N> = BacktestResult::default();
    result.num_trades = basis.num_trades;
    if basis.fills_only {
        let figures: FillsOnlyFigures<N> = fills_only_figures(total_pnl, metrics.total_commission, basis.num_trades);
        result.gross_profit = Some(figures.gross_profit);
        result.gross_loss = Some(figures.gross_loss);
        result.net_profit = Some(figures.net_profit);
        result.avg_trade_return = figures.avg_trade_return;
        result.profit_factor = match figures.profit_factor {
            Some(factor) => Some(factor),
            None => metrics.profit_factor,
        };
        result.win_rate = round_trip_win_rate;
    } else {
        result.gross_profit = Some(metrics.gross_profit);
        result.gross_loss = Some(metrics.gross_loss);
        result.net_profit = Some(metrics.net_profit);
        result.avg_trade_return = metrics.avg_trade_return;
        result.median_trade_return = metrics.median_trade_return;
        result.profit_factor = metrics.profit_factor;
        result.win_rate = if closed > 0 { metrics.win_rate } else { None };
    }
    result.total_pnl = total_pnl;
    result.closed_trades = closed;
    result.open_positions = tally.open_count;
    result.realized_pnl = Some(metrics.net_profit);
    result.unrealized_pnl = Some(tally.unrealized_pnl);
    result.sharpe_ratio = metrics.sharpe_ratio;
    result.sortino_ratio = metrics.sortino_ratio;
    result.calmar_ratio = metrics.calmar_ratio;
    result.avg_trade_duration = metrics.avg_trade_duration;
    result.volatility = metrics.volatility;
    result.max_drawdown = match metrics.max_drawdown {
        Some(drawdown) => drawdown,
        None => N::of(0),
    };
    result.initial_capital = run.initial_capital;
    result.equity_curve_timestamps = run.times_of_curve();
    result.risk_halt_reason = run.halt_reason;
    result.equity_curve = run.equity_curve;
    result.trade_returns = tally.trade_returns;
    result
}

/// Gross figures that the profit factor is taken of before fills are looked
/// at: none where fills are counted.
pub fn profit_factor_basis<N: Number>(fills_only: bool, gross_profit: N, gross_loss: N) -> (basis: (N, N))
    ensures
        basis == if fills_only { (N::whole(0), N::whole(0)) } else { (gross_profit, gross_loss) },
{
    if fills_only {
        (N::of(0), N::of(0))
    } else {
        (gross_profit, gross_loss)
    }
}

/// The times that go with an equity curve are as many as its points, or there
/// are none, and the first two points share theirs.
pub proof fn law_curve_and_times_go_together<N: Number>(run: SimulationRun<N>)
    requires
        run.wf(),
    ensures
        run.curve_times().len() == run.equity_curve@.len() || run.curve_times().len() == 0,
        run.curve_times().len() > 1 ==> run.curve_times()[0] == run.curve_times()[1],
        run.curve_times().len() == 0 ==> run.equity_curve@ =~= seq![run.initial_capital],
{
}

/// Every position counts once: it is closed or it is open.
pub proof fn law_positions_are_closed_or_open<N>(positions: Seq<PositionOutcome<N>>)
    ensures
        closed_of(positions).len() + open_of(positions).len() == positions.len(),
    decreases positions.len(),
{
    reveal(Seq::filter);
    if positions.len() > 0 {
        law_positions_are_closed_or_open(positions.drop_last());
    }
}

} // verus!
