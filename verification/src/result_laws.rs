//! What the figures of a run and of its walk-forward windows mean.

use vstd::prelude::*;

use crate::directional_run::RunEnd;
use crate::exact::{
    is_deviation, is_mean, is_real_root, lemma_ratio_reads, lemma_total_reads, readings, reads_exactly, real_downside,
    real_gains, real_square_sum, real_sum,
};
use crate::ledger::RoundTrip;
use crate::measure_laws::{
    law_average_times_count_is_the_sum, law_downside_deviation_leaves_gains_out, law_gains_and_losses_make_the_sum,
    law_win_share_counts_the_positive_values, lemma_mean_is_unique, lemma_ratio_of_average_and_deviation, lemma_root_is_unique, lemma_square_sum_reads,
};
use crate::measures::{downside_sum, in_order, max_drawdown, mean_of, positive_base_returns, square_sum, steps_of};
use crate::number::{ratio_of, Number};
use crate::results::{
    are_run_costs, average_duration_of, closed_count, closed_maes, closed_pct_returns, closed_pnls, first_entry,
    is_result_of, last_activity, median_of, risk_returns, run_profit_factor, run_sharpe, run_sortino, run_volatility, run_years,
    trade_durations, RunContext,
};
use crate::types::{BacktestResult, TransactionCostAnalysis};
use crate::wf_report::{degradation_of, evenness, has_moved, test_sharpe_of, warm_up};

verus! {

/// A real held within twenty of zero.
pub open spec fn within_twenty(x: real) -> real {
    if x < -20real {
        -20real
    } else if x > 20real {
        20real
    } else {
        x
    }
}

/// The Sharpe ratio of a run is its average return in sample standard
/// deviations, times the annual factor, held within twenty of zero.
pub proof fn law_run_sharpe_is_average_over_deviation<N: Number>(
    value: spec_fn(N) -> real,
    values: Seq<N>,
    annual: N,
    mean: real,
    deviation: real,
)
    requires
        reads_exactly(value),
        1 < values.len() <= usize::MAX,
        is_mean(readings(value, values), mean),
        is_deviation(readings(value, values), deviation),
    ensures
        run_sharpe(values, annual) is Some,
        deviation > 0real ==> exists|exact: real|
            exact * deviation == mean * value(annual) && value(run_sharpe(values, annual)->0) == #[trigger]
                within_twenty(exact),
        deviation == 0real ==> value(run_sharpe(values, annual)->0) == 0real,
{
    assert(value(N::whole(0)) == 0real && value(N::whole(20)) == 20real && value(N::whole(-20i64)) == -20real);
    lemma_ratio_of_average_and_deviation(value, values, mean, deviation, annual);
    let spread = square_sum(values, mean_of(values)).quotient(N::counted((values.len() - 1) as usize)).root();
    if deviation > 0real {
        let exact = value(mean_of(values).quotient(spread).product(annual));
        assert(exact * deviation == mean * value(annual));
        assert(value(run_sharpe(values, annual)->0) == within_twenty(exact));
    }
}

/// The Sortino ratio of a run is its average return in downside deviations,
/// times the annual factor, held within twenty of zero.
pub proof fn law_run_sortino_is_average_over_downside<N: Number>(
    value: spec_fn(N) -> real,
    values: Seq<N>,
    annual: N,
    mean: real,
    downside: real,
)
    requires
        reads_exactly(value),
        0 < values.len() <= usize::MAX,
        is_mean(readings(value, values), mean),
        downside >= 0real,
        downside * downside * (values.len() as int as real) == real_downside(readings(value, values)),
    ensures
        run_sortino(values, annual) is Some,
        downside > 0real ==> exists|exact: real|
            exact * downside == mean * value(annual) && value(run_sortino(values, annual)->0) == #[trigger]
                within_twenty(exact),
        downside == 0real ==> value(run_sortino(values, annual)->0) == 0real,
{
    assert(value(N::whole(0)) == 0real && value(N::whole(20)) == 20real && value(N::whole(-20i64)) == -20real);
    law_average_times_count_is_the_sum(value, values);
    lemma_mean_is_unique(readings(value, values), mean, value(mean_of(values)));
    law_downside_deviation_leaves_gains_out(value, values);
    let spread = downside_sum(values).quotient(N::counted(values.len() as usize)).root();
    let d = value(spread);
    let n = values.len() as int as real;
    assert(d == downside) by (nonlinear_arith)
        requires
            d * d * n == downside * downside * n,
            d >= 0real,
            downside >= 0real,
            n > 0real,
    ;
    if downside > 0real {
        let q = value(mean_of(values).quotient(spread));
        let a = value(annual);
        let exact = value(mean_of(values).quotient(spread).product(annual));
        assert(exact * downside == mean * a) by (nonlinear_arith)
            requires
                exact == q * a,
                q * downside == mean,
        ;
        assert(value(run_sortino(values, annual)->0) == within_twenty(exact));
    }
}

/// The volatility of a run is the deviation over all of its returns times the
/// annual factor.
pub proof fn law_run_volatility_is_the_annual_deviation<N: Number>(
    value: spec_fn(N) -> real,
    values: Seq<N>,
    annual: N,
    mean: real,
    deviation: real,
)
    requires
        reads_exactly(value),
        0 < values.len() <= usize::MAX,
        is_mean(readings(value, values), mean),
        deviation >= 0real,
        deviation * deviation * (values.len() as int as real) == real_square_sum(readings(value, values), mean),
    ensures
        run_volatility(values, annual) is Some,
        value(run_volatility(values, annual)->0) == deviation * value(annual),
{
    law_average_times_count_is_the_sum(value, values);
    lemma_mean_is_unique(readings(value, values), mean, value(mean_of(values)));
    lemma_square_sum_reads(value, values, mean_of(values));
    let c = values.len() as int as real;
    assert(value(N::counted(values.len() as usize)) == c);
    let sum = square_sum(values, mean_of(values));
    let variance = sum.quotient(N::counted(values.len() as usize));
    let v = value(variance);
    let s = value(sum);
    assert(v >= 0real) by (nonlinear_arith)
        requires
            v * c == s,
            s >= 0real,
            c > 0real,
    ;
    let d = value(variance.root());
    assert(d == deviation) by (nonlinear_arith)
        requires
            d * d == v,
            v * c == s,
            deviation * deviation * c == s,
            d >= 0real,
            deviation >= 0real,
            c > 0real,
    ;
}

/// The median is the middle value in order, or half way between the two in
/// the middle.
pub proof fn law_median_is_in_the_middle<N: Number>(value: spec_fn(N) -> real, values: Seq<N>)
    requires
        reads_exactly(value),
        values.len() > 0,
    ensures
        ({
            let n = values.len() as int;
            let sorted = in_order(values);
            &&& median_of(values) is Some
            &&& n % 2 == 1 ==> median_of(values)->0 == sorted[(n - 1) / 2]
            &&& n % 2 == 0 ==> 2real * value(median_of(values)->0) == value(sorted[n / 2 - 1]) + value(sorted[n / 2])
        }),
{
    assert(value(N::whole(2)) == 2real);
}

/// The profit factor times the loss is the profit; without a loss it has no
/// bound, and without either it is zero.
pub proof fn law_run_profit_factor_weighs_profit_by_loss<N: Number>(value: spec_fn(N) -> real, profit: N, loss: N)
    requires
        reads_exactly(value),
    ensures
        value(loss) > 0real ==> value(run_profit_factor(profit, loss)) * value(loss) == value(profit),
        value(loss) <= 0real && value(profit) > 0real ==> run_profit_factor(profit, loss) == N::unbounded(),
        value(loss) <= 0real && value(profit) <= 0real ==> value(run_profit_factor(profit, loss)) == 0real,
{
    assert(value(N::whole(0)) == 0real);
}

/// A closed trade adds its own figures to what is reported, and nothing else.
pub proof fn law_closed_trade_is_reported_with_its_own_figures<N: Number>(
    value: spec_fn(N) -> real,
    log: Seq<RoundTrip<N>>,
    trade: RoundTrip<N>,
)
    requires
        reads_exactly(value),
        trade.exit_time is Some,
        trade.pnl is Some,
        trade.pnl_pct is Some,
        trade.mae is Some,
        trade.duration_secs is Some,
        value(trade.mae->0) <= 0real,
    ensures
        ({
            let after = log.push(trade);
            &&& closed_count(after) == closed_count(log) + 1
            &&& closed_pnls(after) == closed_pnls(log).push(trade.pnl->0)
            &&& closed_pct_returns(after) == closed_pct_returns(log).push(trade.pnl_pct->0)
            &&& closed_maes(after).len() == closed_maes(log).len() + 1
            &&& value(closed_maes(after).last()) == -value(trade.mae->0) * value(trade.entry_fill_price) * value(
                trade.quantity,
            )
            &&& trade_durations(after) == trade_durations(log).push(N::whole(trade.duration_secs->0))
            &&& last_activity(after) == trade.exit_time
            &&& log.len() == 0 ==> first_entry(after) == Some(trade.entry_time)
            &&& log.len() > 0 ==> first_entry(after) == first_entry(log)
        }),
{
    assert(log.push(trade).drop_last() =~= log);
}

/// Risk is measured on the closed trades as soon as there is one, and on the
/// steps of the equity curve before.
pub proof fn law_risk_is_measured_on_closed_trades_first<N: Number>(log: Seq<RoundTrip<N>>, equity: Seq<N>)
    ensures
        closed_pct_returns(log).len() > 0 ==> risk_returns(log, equity) == closed_pct_returns(log),
        closed_pct_returns(log).len() == 0 ==> risk_returns(log, equity) == positive_base_returns(equity),
{
}

/// The average duration times the number of timed trades is their time.
pub proof fn law_average_duration_is_of_the_timed_trades<N: Number>(
    value: spec_fn(N) -> real,
    log: Seq<RoundTrip<N>>,
)
    requires
        reads_exactly(value),
        trade_durations(log).len() <= usize::MAX,
    ensures
        trade_durations(log).len() == 0 <==> average_duration_of(log) is None,
        average_duration_of(log) matches Some(seconds) ==> is_mean(
            readings(value, trade_durations(log)),
            value(seconds),
        ),
{
    if trade_durations(log).len() > 0 {
        law_average_times_count_is_the_sum(value, trade_durations(log));
    }
}

/// A run spans the seconds from its first entry to its last activity, in
/// years of 31557600 of them.
pub proof fn law_run_years_span_the_trades<N: Number>(value: spec_fn(N) -> real, log: Seq<RoundTrip<N>>)
    requires
        reads_exactly(value),
        log.len() > 0,
        last_activity(log)->0 >= first_entry(log)->0,
        last_activity(log)->0 - first_entry(log)->0 <= i64::MAX,
    ensures
        value(run_years(log)) * 31557600real == ((last_activity(log)->0 - first_entry(log)->0) / 1000) as real,
{
    assert(value(N::whole(31_557_600)) == 31557600real);
    let span = last_activity(log)->0 - first_entry(log)->0;
    let seconds = span / 1000;
    assert(value(N::whole(seconds as i64)) == seconds as real);
}

/// The cost report of a run: the cost per trade times the trades is the
/// commission, and so is its share of the profit times the size of that.
pub proof fn law_run_costs_are_shared_by_the_trades<N: Number>(
    value: spec_fn(N) -> real,
    costs: TransactionCostAnalysis<N>,
    commission: N,
    pnl: N,
    num_trades: nat,
)
    requires
        reads_exactly(value),
        are_run_costs(costs, commission, pnl, num_trades),
        0 < num_trades <= usize::MAX,
    ensures
        costs.total_commission == commission && costs.total_transaction_costs == commission,
        value(costs.avg_cost_per_trade) * (num_trades as int as real) == value(commission),
        value(pnl) > 0real ==> value(costs.costs_as_percentage_of_pnl) * value(pnl) == value(commission),
        value(pnl) < 0real ==> value(costs.costs_as_percentage_of_pnl) * -value(pnl) == value(commission),
        value(pnl) == 0real ==> value(costs.costs_as_percentage_of_pnl) == 0real,
{
    assert(value(N::whole(0)) == 0real);
    assert(value(N::counted(num_trades as usize)) == num_trades as int as real);
}

/// What a Sharpe ratio loses from training to testing, times the one in
/// training, is the difference of the two; all of it where training has none
/// to lose.
pub proof fn law_degradation_is_relative_to_training<N: Number>(value: spec_fn(N) -> real, train: N, test: N)
    requires
        reads_exactly(value),
    ensures
        ({
            let size = if value(train) < 0real { -value(train) } else { value(train) };
            &&& size * 1000000000real > 1real ==> value(degradation_of(train, test)) * value(train) == value(train)
                - value(test)
            &&& size * 1000000000real <= 1real ==> value(degradation_of(train, test)) == 1real
        }),
{
    lemma_ratio_reads(value, 1, 1_000_000_000);
    assert(value(N::whole(1)) == 1real);
    let least = value(ratio_of::<N>(1, 1_000_000_000));
    let size = value(train.magnitude());
    assert(least < size <==> size * 1000000000real > 1real) by (nonlinear_arith)
        requires
            least * 1000000000real == 1real,
    ;
}

/// How even scores are: times one and their sample standard deviation it is
/// one, so that scores that do not vary are perfectly even and wider ones
/// less so.
pub proof fn law_evenness_falls_with_the_deviation<N: Number>(
    value: spec_fn(N) -> real,
    scores: Seq<N>,
    deviation: real,
)
    requires
        reads_exactly(value),
        1 < scores.len() <= usize::MAX,
        is_deviation(readings(value, scores), deviation),
    ensures
        value(evenness(scores)) * (1real + deviation) == 1real,
        deviation == 0real ==> value(evenness(scores)) == 1real,
{
    assert(value(N::whole(0)) == 0real && value(N::whole(1)) == 1real);
    law_average_times_count_is_the_sum(value, scores);
    lemma_ratio_of_average_and_deviation(value, scores, value(mean_of(scores)), deviation, N::whole(1));
    let spread = square_sum(scores, mean_of(scores)).quotient(N::counted((scores.len() - 1) as usize)).root();
    let base = N::whole(1).sum(spread);
    let q = value(N::whole(1).quotient(base));
    let b = value(base);
    assert(b == 1real + deviation);
    assert(q * b == 1real);
    assert(0real <= q <= 1real) by (nonlinear_arith)
        requires
            q * b == 1real,
            b >= 1real,
    ;
    if deviation == 0real {
        assert(q == 1real) by (nonlinear_arith)
            requires
                q * b == 1real,
                b == 1real,
        ;
    }
}

/// One score alone is perfectly even.
pub proof fn law_single_score_is_even<N: Number>(scores: Seq<N>)
    requires
        scores.len() <= 1,
    ensures
        evenness(scores) == N::whole(1),
{
}

/// The Sharpe ratio of a test slice is that of its returns after the flat
/// start, in sample standard deviations, times the root of the bars in a
/// year, held within twenty of zero.
pub proof fn law_test_sharpe_starts_where_the_curve_moves<N: Number>(
    value: spec_fn(N) -> real,
    curve: Seq<N>,
    reported: Option<N>,
    bars_per_year: N,
    start: int,
    mean: real,
    deviation: real,
    year: real,
)
    requires
        reads_exactly(value),
        curve.len() <= usize::MAX,
        0 <= start < curve.len() - 2,
        has_moved(curve[start], curve[0]),
        forall|i: int| 0 <= i < start ==> !has_moved(#[trigger] curve[i], curve[0]),
        positive_base_returns(curve.skip(start)).len() >= 2,
        positive_base_returns(curve.skip(start)).len() <= usize::MAX,
        is_mean(readings(value, positive_base_returns(curve.skip(start))), mean),
        is_deviation(readings(value, positive_base_returns(curve.skip(start))), deviation),
        is_real_root(year, value(bars_per_year)),
        deviation > 0real,
    ensures
        exists|exact: real|
            exact * deviation == mean * year && value(test_sharpe_of(curve, reported, bars_per_year)) == #[trigger]
                within_twenty(exact),
{
    assert(value(N::whole(0)) == 0real && value(N::whole(20)) == 20real && value(N::whole(-20i64)) == -20real);
    assert(crate::wf_report::first_move(curve, start));
    let chosen = warm_up(curve);
    assert(crate::wf_report::first_move(curve, chosen));
    if chosen < start {
        assert(!has_moved(curve[chosen], curve[0]));
    } else if start < chosen {
        assert(!has_moved(curve[start], curve[0]));
    }
    let changes = positive_base_returns(curve.skip(start));
    assert(value(bars_per_year) >= 0real) by (nonlinear_arith)
        requires
            year * year == value(bars_per_year),
    ;
    lemma_root_is_unique(year, value(bars_per_year.root()), value(bars_per_year));
    lemma_ratio_of_average_and_deviation(value, changes, mean, deviation, bars_per_year.root());
    let spread = square_sum(changes, mean_of(changes)).quotient(N::counted((changes.len() - 1) as usize)).root();
    let exact = value(mean_of(changes).quotient(spread).product(bars_per_year.root()));
    assert(exact * deviation == mean * year);
    assert(value(test_sharpe_of(curve, reported, bars_per_year)) == within_twenty(exact));
}

/// A curve has moved where it is more than a billionth away from its start.
pub proof fn law_curve_has_moved_past_a_billionth<N: Number>(value: spec_fn(N) -> real, now: N, base: N)
    requires
        reads_exactly(value),
    ensures
        ({
            let away = value(now) - value(base);
            has_moved(now, base) <==> away * 1000000000real > 1real || away * 1000000000real < -1real
        }),
{
    lemma_ratio_reads(value, 1, 1_000_000_000);
    let least = value(ratio_of::<N>(1, 1_000_000_000));
    let away = value(now) - value(base);
    assert(least * 1000000000real == 1real);
    assert((least < away <==> away * 1000000000real > 1real) && (least < -away <==> away * 1000000000real < -1real))
        by (nonlinear_arith)
        requires
            least * 1000000000real == 1real,
    ;
}

/// The returns that the risk of a run is measured on.
pub open spec fn measured_on<N: Number>(end: RunEnd<N>) -> Seq<N> {
    risk_returns(end.ledger@.trade_log, end.equity_curve@)
}

/// A run reports its own profit, gross profit and gross loss whose difference
/// is what its trades made, the share of its returns that gained, their
/// average, and its drawdown.
pub proof fn law_run_reports_its_own_figures<N: Number>(
    value: spec_fn(N) -> real,
    end: RunEnd<N>,
    context: RunContext<N>,
    out: BacktestResult<N>,
)
    requires
        reads_exactly(value),
        is_result_of(end, context, out),
        measured_on(end).len() <= usize::MAX,
        closed_pct_returns(end.ledger@.trade_log).len() <= usize::MAX,
    ensures
        out.total_pnl == end.total_pnl && out.net_profit == Some(end.total_pnl),
        out.num_trades == end.ledger@.num_trades,
        out.gross_profit is Some && out.gross_loss is Some && value(out.gross_profit->0) >= 0real && value(
            out.gross_loss->0,
        ) >= 0real,
        closed_count(end.ledger@.trade_log) > 0 ==> value(out.gross_profit->0) - value(out.gross_loss->0) == real_sum(
            readings(value, out.trade_returns@),
        ) && value(out.gross_profit->0) == real_gains(readings(value, out.trade_returns@)),
        out.realized_pnl is Some && value(out.realized_pnl->0) == real_sum(readings(value, out.trade_returns@)),
        out.unrealized_pnl == Some(context.unrealized_pnl),
        out.win_rate is None <==> measured_on(end).len() == 0,
        out.win_rate matches Some(rate) ==> value(rate) * (measured_on(end).len() as int as real) == measured_on(end).filter(
            |v: N| value(v) > 0real,
        ).len() as int as real,
        out.avg_trade_return is None <==> out.trade_pct_returns@.len() == 0,
        out.avg_trade_return matches Some(average) ==> is_mean(readings(value, out.trade_pct_returns@), value(average)),
        out.max_drawdown == max_drawdown(end.equity_curve@),
        out.equity_curve@ == end.equity_curve@,
        out.initial_capital == context.initial_capital,
        out.num_trades > 0 ==> out.volume_constrained_pct is Some && value(out.volume_constrained_pct->0) * (
        out.num_trades as int as real) == end.volume_constrained_fills as int as real,
        out.num_trades == 0 ==> out.volume_constrained_pct is None,
{
    assert(value(N::whole(0)) == 0real);
    let log = end.ledger@.trade_log;
    let values = measured_on(end);
    let closed = closed_pct_returns(log);
    let gross = if closed_count(log) > 0 { closed_pnls(log) } else { steps_of(end.equity_curve@) };
    law_gains_and_losses_make_the_sum(value, gross);
    lemma_total_reads(value, closed_pnls(log));
    if values.len() > 0 {
        law_win_share_counts_the_positive_values(value, values);
    }
    if closed.len() > 0 {
        law_average_times_count_is_the_sum(value, closed);
    }
    if out.num_trades > 0 {
        assert(end.ledger@.num_trades as usize == out.num_trades);
        assert(value(N::counted(out.num_trades)) == out.num_trades as int as real);
        assert(value(N::counted(end.volume_constrained_fills)) == end.volume_constrained_fills as int as real);
    }
}

} // verus!
