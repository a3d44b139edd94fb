//! What the combined result of all windows means.

use vstd::prelude::*;

use crate::combine::{
    calmar_applies, chained, combined_pnl, is_combined, parts_of, profit_factor_of, sharpe_of, sortino_of,
    statistic_returns, tiny, volatility_of, years_between, yearly_root,
};
use crate::exact::{
    is_deviation, is_mean, is_real_root, lemma_ratio_reads, readings, reads_exactly, real_downside,
};
use crate::measure_laws::{
    law_average_times_count_is_the_sum, law_downside_deviation_leaves_gains_out,
    law_win_share_counts_the_positive_values, lemma_mean_is_unique, lemma_ratio_of_average_and_deviation, lemma_root_is_unique,
};
use crate::measures::{downside_sum, mean_of, square_sum};
use crate::number::{ratio_of, Number};
use crate::types::BacktestResult;

verus! {

/// More than a millionth of a millionth.
pub open spec fn is_noticeable(x: real) -> bool {
    x * 1000000000000real > 1real
}

proof fn lemma_tiny_reads<N: Number>(value: spec_fn(N) -> real, x: N)
    requires
        reads_exactly(value),
    ensures
        tiny::<N>().below(x) <==> is_noticeable(value(x)),
{
    lemma_ratio_reads(value, 1, 1_000_000_000_000);
    let t = value(tiny::<N>());
    let v = value(x);
    assert(t * 1000000000000real == 1real);
    assert(t < v <==> v * 1000000000000real > 1real) by (nonlinear_arith)
        requires
            t * 1000000000000real == 1real,
    ;
}

/// The Sharpe ratio of the combined returns times their sample standard
/// deviation is their average times the root of the 252 trading days of a
/// year. Returns that do not vary, or fewer than two, have none.
pub proof fn law_combined_sharpe_is_average_over_deviation<N: Number>(
    value: spec_fn(N) -> real,
    values: Seq<N>,
    mean: real,
    deviation: real,
    year: real,
)
    requires
        reads_exactly(value),
        1 < values.len() <= usize::MAX,
        is_mean(readings(value, values), mean),
        is_deviation(readings(value, values), deviation),
        is_real_root(year, 252real),
    ensures
        is_noticeable(deviation) ==> value(sharpe_of(values)) * deviation == mean * year,
        !is_noticeable(deviation) ==> value(sharpe_of(values)) == 0real,
        is_noticeable(deviation) && mean > 0real ==> value(sharpe_of(values)) > 0real,
        is_noticeable(deviation) && mean < 0real ==> value(sharpe_of(values)) < 0real,
        mean == 0real ==> value(sharpe_of(values)) == 0real,
{
    assert(value(N::whole(0)) == 0real);
    lemma_year_reads(value, year);
    lemma_ratio_of_average_and_deviation(value, values, mean, deviation, yearly_root());
    let spread = square_sum(values, mean_of(values)).quotient(N::counted((values.len() - 1) as usize)).root();
    lemma_tiny_reads(value, spread);
    let s = value(sharpe_of(values));
    if is_noticeable(deviation) {
        assert(deviation > 0real);
        assert(s * deviation == mean * year);
        assert(year > 0real) by (nonlinear_arith)
            requires
                year >= 0real,
                year * year == 252real,
        ;
        assert((mean > 0real ==> s > 0real) && (mean < 0real ==> s < 0real) && (mean == 0real ==> s == 0real))
            by (nonlinear_arith)
            requires
                s * deviation == mean * year,
                deviation > 0real,
                year > 0real,
        ;
    }
}

proof fn lemma_year_reads<N: Number>(value: spec_fn(N) -> real, year: real)
    requires
        reads_exactly(value),
        is_real_root(year, 252real),
    ensures
        value(yearly_root::<N>()) == year,
{
    assert(value(N::whole(252)) == 252real);
    lemma_root_is_unique(year, value(yearly_root::<N>()), 252real);
}

/// Of two sets of returns with the same positive average, the one that varies
/// more has the lower Sharpe ratio.
pub proof fn law_more_variable_returns_score_lower<N: Number>(
    value: spec_fn(N) -> real,
    calm: Seq<N>,
    wild: Seq<N>,
    mean: real,
    low: real,
    high: real,
    year: real,
)
    requires
        reads_exactly(value),
        1 < calm.len() <= usize::MAX,
        1 < wild.len() <= usize::MAX,
        is_mean(readings(value, calm), mean),
        is_mean(readings(value, wild), mean),
        is_deviation(readings(value, calm), low),
        is_deviation(readings(value, wild), high),
        is_real_root(year, 252real),
        mean > 0real,
        is_noticeable(low),
        low < high,
    ensures
        value(sharpe_of(wild)) < value(sharpe_of(calm)),
{
    law_combined_sharpe_is_average_over_deviation(value, calm, mean, low, year);
    law_combined_sharpe_is_average_over_deviation(value, wild, mean, high, year);
    let a = value(sharpe_of(calm));
    let b = value(sharpe_of(wild));
    assert(b < a) by (nonlinear_arith)
        requires
            a * low == b * high,
            0real < low < high,
            b > 0real,
    ;
}

/// The Sortino ratio times the downside deviation is the average times the
/// root of the trading days of a year: only losses count as risk.
pub proof fn law_combined_sortino_is_average_over_downside<N: Number>(
    value: spec_fn(N) -> real,
    values: Seq<N>,
    mean: real,
    downside: real,
    year: real,
)
    requires
        reads_exactly(value),
        1 < values.len() <= usize::MAX,
        is_mean(readings(value, values), mean),
        downside >= 0real,
        downside * downside * (values.len() as int as real) == real_downside(readings(value, values)),
        is_real_root(year, 252real),
    ensures
        is_noticeable(downside) ==> value(sortino_of(values)) * downside == mean * year,
        !is_noticeable(downside) ==> value(sortino_of(values)) == 0real,
{
    assert(value(N::whole(0)) == 0real);
    law_average_times_count_is_the_sum(value, values);
    lemma_mean_is_unique(readings(value, values), mean, value(mean_of(values)));
    law_downside_deviation_leaves_gains_out(value, values);
    lemma_year_reads(value, year);
    let spread = downside_sum(values).quotient(N::counted(values.len() as usize)).root();
    let d = value(spread);
    let n = values.len() as int as real;
    assert(d == downside) by (nonlinear_arith)
        requires
            d * d * n == downside * downside * n,
            d >= 0real,
            downside >= 0real,
            n > 0real,
    ;
    lemma_tiny_reads(value, spread);
    if is_noticeable(downside) {
        let q = value(mean_of(values).quotient(spread));
        assert(q * downside == mean);
        assert(q * year * downside == mean * year) by (nonlinear_arith)
            requires
                q * downside == mean,
        ;
    }
}

/// The combined volatility is the sample standard deviation times the root of
/// the trading days of a year.
pub proof fn law_combined_volatility_is_the_annual_deviation<N: Number>(
    value: spec_fn(N) -> real,
    values: Seq<N>,
    deviation: real,
    year: real,
)
    requires
        reads_exactly(value),
        1 < values.len() <= usize::MAX,
        is_deviation(readings(value, values), deviation),
        is_real_root(year, 252real),
    ensures
        volatility_of(values) is Some,
        value(volatility_of(values)->0) == deviation * year,
{
    law_average_times_count_is_the_sum(value, values);
    lemma_year_reads(value, year);
    lemma_ratio_of_average_and_deviation(value, values, value(mean_of(values)), deviation, yearly_root());
}

/// The profit factor times the size of the losses is the profit; without
/// losses it has no bound, and without either it is zero.
pub proof fn law_profit_factor_weighs_profit_by_loss<N: Number>(value: spec_fn(N) -> real, profit: N, loss: N)
    requires
        reads_exactly(value),
    ensures
        ({
            let size = if value(loss) < 0real { -value(loss) } else { value(loss) };
            &&& is_noticeable(size) ==> value(profit_factor_of(profit, loss)) * size == value(profit)
            &&& !is_noticeable(size) && value(profit) > 0real ==> profit_factor_of(profit, loss) == N::unbounded()
            &&& !is_noticeable(size) && value(profit) <= 0real ==> value(profit_factor_of(profit, loss)) == 0real
        }),
{
    assert(value(N::whole(0)) == 0real);
    lemma_tiny_reads(value, loss.magnitude());
}

/// The lists of a combined result follow one another window by window, and
/// the counts add up.
pub proof fn law_windows_follow_one_another<N: Number>(
    earlier: Seq<BacktestResult<N>>,
    last: BacktestResult<N>,
    initial_capital: N,
)
    ensures
        ({
            let before = parts_of(earlier, initial_capital);
            let after = parts_of(earlier.push(last), initial_capital);
            &&& after.trade_returns == before.trade_returns + last.trade_returns@
            &&& after.trade_pct_returns == before.trade_pct_returns + last.trade_pct_returns@
            &&& after.trade_maes == before.trade_maes + last.trade_maes@
            &&& after.price_series == before.price_series + last.price_series@
            &&& after.trade_log == before.trade_log + crate::ledger::round_trips(last.trade_log@)
            &&& after.num_trades == before.num_trades + last.num_trades
            &&& after.closed_trades == before.closed_trades + last.closed_trades
            &&& after.open_positions == before.open_positions + last.open_positions
            &&& last.equity_curve@.len() == 0 ==> after.equity == before.equity
            &&& last.equity_curve@.len() > 0 ==> after.equity.len() == before.equity.len()
                + last.equity_curve@.len()
        }),
{
    let all = earlier.push(last);
    assert(all.map_values(|r: BacktestResult<N>| r.trade_returns@).drop_last() =~= earlier.map_values(
        |r: BacktestResult<N>| r.trade_returns@,
    ));
    assert(all.map_values(|r: BacktestResult<N>| r.trade_pct_returns@).drop_last() =~= earlier.map_values(
        |r: BacktestResult<N>| r.trade_pct_returns@,
    ));
    assert(all.map_values(|r: BacktestResult<N>| r.trade_maes@).drop_last() =~= earlier.map_values(
        |r: BacktestResult<N>| r.trade_maes@,
    ));
    assert(all.map_values(|r: BacktestResult<N>| r.price_series@).drop_last() =~= earlier.map_values(
        |r: BacktestResult<N>| r.price_series@,
    ));
    assert(all.map_values(|r: BacktestResult<N>| crate::ledger::round_trips(r.trade_log@)).drop_last()
        =~= earlier.map_values(|r: BacktestResult<N>| crate::ledger::round_trips(r.trade_log@)));
    assert(all.map_values(|r: BacktestResult<N>| r.num_trades).drop_last() =~= earlier.map_values(
        |r: BacktestResult<N>| r.num_trades,
    ));
    assert(all.map_values(|r: BacktestResult<N>| r.closed_trades).drop_last() =~= earlier.map_values(
        |r: BacktestResult<N>| r.closed_trades,
    ));
    assert(all.map_values(|r: BacktestResult<N>| r.open_positions).drop_last() =~= earlier.map_values(
        |r: BacktestResult<N>| r.open_positions,
    ));
    assert(all.map_values(|r: BacktestResult<N>| r.equity_curve@).drop_last() =~= earlier.map_values(
        |r: BacktestResult<N>| r.equity_curve@,
    ));
}

/// Chaining grows each window's curve from where the one before it ended, in
/// proportion: it starts there, and keeps the ratios of the window.
pub proof fn law_chained_window_starts_where_the_last_ended<N: Number>(
    value: spec_fn(N) -> real,
    curves: Seq<Seq<N>>,
    curve: Seq<N>,
    initial_capital: N,
)
    requires
        reads_exactly(value),
        curve.len() > 0,
        value(curve[0]) >= 1real,
    ensures
        ({
            let before = chained(curves, initial_capital);
            let after = chained(curves.push(curve), initial_capital);
            let start = if before.len() > 0 { value(before.last()) } else { value(initial_capital) };
            &&& after.len() == before.len() + curve.len()
            &&& forall|i: int| 0 <= i < before.len() ==> #[trigger] after[i] == before[i]
            &&& value(after[before.len() as int]) == start
            &&& forall|i: int|
                0 <= i < curve.len() ==> value(#[trigger] after[before.len() + i]) * value(curve[0]) == start * value(
                    curve[i],
                )
        }),
{
    let all = curves.push(curve);
    assert(all.drop_last() =~= curves);
    let before = chained(curves, initial_capital);
    let after = chained(all, initial_capital);
    let begin = if before.len() > 0 { before.last() } else { initial_capital };
    let start = value(begin);
    lemma_tiny_reads(value, curve[0].magnitude());
    let c = value(curve[0]);
    assert(is_noticeable(c));
    let scale = begin.quotient(curve[0]);
    let k = value(scale);
    assert(k * c == start);
    assert forall|i: int| 0 <= i < curve.len() implies value(#[trigger] after[before.len() + i]) * value(curve[0])
        == start * value(curve[i]) by {
        assert(after[before.len() + i] == curve[i].product(scale));
        let x = value(curve[i]);
        assert(x * k * c == start * x) by (nonlinear_arith)
            requires
                k * c == start,
        ;
    }
    let first = value(after[before.len() as int]);
    assert(after[before.len() as int] == after[before.len() + 0int]);
    assert(first == start) by (nonlinear_arith)
        requires
            first * c == start * c,
            c >= 1real,
    ;
}

/// What a combined result reports: profit as a share of the capital in
/// percent, costs per trade and against profit, and the shares and averages
/// of its own returns.
pub proof fn law_combined_figures_are_of_its_own_lists<N: Number>(
    value: spec_fn(N) -> real,
    results: Seq<BacktestResult<N>>,
    initial_capital: N,
    out: BacktestResult<N>,
)
    requires
        reads_exactly(value),
        is_combined(results, initial_capital, out),
        value(initial_capital) > 0real,
    ensures
        out.equity_curve@.len() > 0 ==> value(out.total_pnl) + value(initial_capital) == value(
            out.equity_curve@.last(),
        ),
        value(out.net_profit->0) * value(initial_capital) == value(out.total_pnl) * 100real,
        out.realized_pnl == Some(out.total_pnl),
        ({
            let costs = out.transaction_costs->0;
            let pnl = value(out.total_pnl);
            let size = if pnl < 0real { -pnl } else { pnl };
            &&& value(costs.total_transaction_costs) == value(costs.total_commission)
            &&& 0 < out.num_trades ==> value(costs.avg_cost_per_trade) * (out.num_trades as int as real) == value(
                costs.total_commission,
            )
            &&& is_noticeable(size) ==> value(costs.costs_as_percentage_of_pnl) * size == value(
                costs.total_commission,
            ) * 100real
        }),
{
    assert(value(N::whole(0)) == 0real);
    assert(value(N::whole(100)) == 100real);
    let parts = parts_of(results, initial_capital);
    let pnl = combined_pnl(parts, initial_capital);
    lemma_tiny_reads(value, pnl.magnitude());
    let q = value(pnl.quotient(initial_capital));
    let c = value(initial_capital);
    let p = value(pnl);
    assert(q * 100real * c == p * 100real) by (nonlinear_arith)
        requires
            q * c == p,
    ;
    let size = value(pnl.magnitude());
    if is_noticeable(size) {
        let r = value(parts.commission.quotient(pnl.magnitude()));
        let t = value(parts.commission);
        assert(r * 100real * size == t * 100real) by (nonlinear_arith)
            requires
                r * size == t,
        ;
    }
    if out.num_trades > 0 {
        assert(value(N::counted(out.num_trades)) == out.num_trades as int as real);
    }
}

/// Years are spans of 365 days and a quarter, 31557600 seconds, and never
/// fewer than a millionth.
pub proof fn law_years_have_a_quarter_day_more_than_365<N: Number>(value: spec_fn(N) -> real, first: i64, seconds: i64)
    requires
        reads_exactly(value),
        0 <= seconds,
        first + seconds * 1000 <= i64::MAX,
    ensures
        ({
            let years = value(years_between::<N>(Some(first), Some((first + seconds * 1000) as i64)));
            &&& years * 1000000real >= 1real
            &&& seconds >= 32 ==> years * 31557600real == seconds as int as real
        }),
{
    lemma_ratio_reads(value, 1, 1_000_000);
    let least = value(ratio_of::<N>(1, 1_000_000));
    assert(least * 1000000real == 1real);
    assert(value(N::whole(31_557_600)) == 31557600real);
    let q = value(N::whole(seconds).quotient(N::whole(31_557_600)));
    let s = seconds as int as real;
    assert(value(N::whole(seconds)) == s);
    assert(q * 31557600real == s);
    assert((seconds * 1000) / 1000 == seconds);
}

/// A combined result measures the returns of all its windows: the share of
/// them that gained, their average, and the one in the middle.
pub proof fn law_combined_result_measures_all_returns<N: Number>(
    value: spec_fn(N) -> real,
    results: Seq<BacktestResult<N>>,
    initial_capital: N,
    out: BacktestResult<N>,
)
    requires
        reads_exactly(value),
        is_combined(results, initial_capital, out),
        statistic_returns(parts_of(results, initial_capital)).len() <= usize::MAX,
    ensures
        ({
            let values = statistic_returns(parts_of(results, initial_capital));
            let parts = parts_of(results, initial_capital);
            &&& values.len() > 0 ==> value(out.win_rate->0) * (values.len() as int as real) == values.filter(
                |v: N| value(v) > 0real,
            ).len() as int as real
            &&& values.len() > 0 ==> is_mean(readings(value, values), value(out.avg_trade_return->0))
            &&& values.len() == 0 ==> value(out.win_rate->0) == 0real && value(out.avg_trade_return->0) == 0real
                && out.median_trade_return is None
            &&& out.win_rate is Some && out.avg_trade_return is Some
            &&& out.gross_profit == Some(parts.gross_profit) && out.gross_loss == Some(parts.gross_loss)
            &&& out.num_trades == parts.num_trades && out.closed_trades == parts.closed_trades
            &&& out.first_trade_price == results[0].first_trade_price
            &&& out.last_trade_price == results.last().last_trade_price
            &&& out.first_trade_timestamp == results[0].first_trade_timestamp
            &&& out.last_trade_timestamp == results.last().last_trade_timestamp
            &&& out.equity_curve@ == parts.equity
        }),
{
    assert(value(N::whole(0)) == 0real);
    let values = statistic_returns(parts_of(results, initial_capital));
    if values.len() > 0 {
        law_win_share_counts_the_positive_values(value, values);
        law_average_times_count_is_the_sum(value, values);
    }
}

/// The Calmar ratio needs a curve, a capital and a drawdown to speak of.
pub proof fn law_calmar_needs_a_drawdown<N: Number>(value: spec_fn(N) -> real, equity: Seq<N>, drawdown: N, capital: N)
    requires
        reads_exactly(value),
    ensures
        calmar_applies(equity, drawdown, capital) <==> is_noticeable(value(drawdown)) && equity.len() > 0 && value(capital)
            > 0real,
{
    assert(value(N::whole(0)) == 0real);
    lemma_tiny_reads(value, drawdown);
}

} // verus!
