//! What a strategy is judged by: costs, ruin, overfitting and the stages of a
//! validation.

use vstd::prelude::*;

use crate::double::nearest;
use crate::double_order::{lemma_nearest_is_normal, lemma_nearest_keeps_order, lemma_quotient_turns_order};
use crate::exact::{
    is_mean, lemma_ratio_reads, readings, reads_exactly, real_square_sum,
};
use crate::measure_laws::{law_average_times_count_is_the_sum, lemma_mean_is_unique, lemma_square_sum_reads};
use crate::measures::{
    average_bar_minutes, closes_of, cost_multiple, divergence_of, hurdle_of, mean_of, move_sizes, positive_base_returns,
    ruin_estimate, ruined_steps, square_sum,
};
use crate::market_data::MarketData;
use crate::number::{ratio_of, Number};
use crate::optimization::{
    base_of, cap_of, degradation_pct_of, figures_of, gaps_of, is_block_size, is_too_complex, overfits, span_days,
    step_return, step_returns, tests_of, volatility_at, TradeCounts,
};
use crate::types::BacktestResult;
use crate::validation::{Phase, ValidationState, Verdict};

verus! {

/// The average move must cover the cost four times over on bars of up to a
/// quarter of an hour, three times on bars of up to four hours, and two and a
/// half times on longer ones: the longer the bars, the less is asked.
pub proof fn law_shorter_bars_must_cover_the_cost_more_often<N: Number>(value: spec_fn(N) -> real, shorter: N, longer: N)
    requires
        reads_exactly(value),
        value(shorter) <= value(longer),
    ensures
        value(cost_multiple(longer)) <= value(cost_multiple(shorter)),
        value(shorter) <= 15real ==> value(cost_multiple(shorter)) == 4real,
        15real < value(shorter) <= 240real ==> value(cost_multiple(shorter)) == 3real,
        value(shorter) > 240real ==> value(cost_multiple(shorter)) * 2real == 5real,
{
    assert(value(N::whole(15)) == 15real && value(N::whole(240)) == 240real);
    assert(value(N::whole(3)) == 3real && value(N::whole(4)) == 4real);
    lemma_ratio_reads(value, 5, 2);
}

/// One more price adds the size of the move to it, relative to the price
/// before; a move from a price that is not positive is left out.
pub proof fn law_moves_are_relative_to_the_price_before<N: Number>(value: spec_fn(N) -> real, prices: Seq<N>, next: N)
    requires
        reads_exactly(value),
        prices.len() > 0,
    ensures
        move_sizes(Seq::<N>::empty()).len() == 0,
        move_sizes(seq![next]).len() == 0,
        value(prices.last()) <= 0real ==> move_sizes(prices.push(next)) == move_sizes(prices),
        value(prices.last()) > 0real ==> ({
            let moves = move_sizes(prices.push(next));
            let gap = value(next) - value(prices.last());
            &&& moves.len() == move_sizes(prices).len() + 1
            &&& moves.drop_last() == move_sizes(prices)
            &&& value(moves.last()) * value(prices.last()) == if gap < 0real { -gap } else { gap }
        }),
{
    assert(value(N::whole(0)) == 0real);
    let longer = prices.push(next);
    assert(longer.drop_last() =~= prices);
    assert(longer[longer.len() - 2] == prices.last());
    if value(prices.last()) > 0real {
        let from = prices.last();
        let r = next.difference(from).quotient(from);
        assert(value(r) * value(from) == value(next) - value(from));
        assert(positive_base_returns(longer) == positive_base_returns(prices).push(r));
        assert(move_sizes(longer).drop_last() =~= move_sizes(prices));
        assert(move_sizes(longer).last() == r.magnitude());
        let p = value(from);
        let q = value(r);
        if q < 0real {
            assert((-q) * p == -(q * p)) by (nonlinear_arith);
            assert(q * p <= 0real) by (nonlinear_arith)
                requires
                    q < 0real,
                    p > 0real,
            ;
        } else {
            assert(q * p >= 0real) by (nonlinear_arith)
                requires
                    q >= 0real,
                    p > 0real,
            ;
        }
    } else {
        assert(move_sizes(longer) =~= move_sizes(prices));
    }
}

/// A series passes the cost hurdle exactly where its average move covers the
/// fees of both sides and the slippage as many times over as is asked.
pub proof fn law_hurdle_holds_the_average_move_against_the_cost<N: Number>(
    value: spec_fn(N) -> real,
    prices: Seq<N>,
    minutes: N,
    fee: N,
    slippage: N,
)
    requires
        reads_exactly(value),
        2 <= prices.len() <= usize::MAX,
        0 < move_sizes(prices).len() <= usize::MAX,
        20000real * value(fee) + value(slippage) > 0real,
    ensures
        hurdle_of(prices, minutes, fee, slippage) matches Some(result) && {
            let cost = 20000real * value(fee) + value(slippage);
            &&& value(result.cost_bps) == cost
            &&& exists|average: real| #[trigger]
                is_mean(readings(value, move_sizes(prices)), average) && value(result.avg_move_bps) == average * 10000real
            &&& value(result.margin) * cost == value(result.avg_move_bps)
            &&& result.passed <==> value(cost_multiple(minutes)) * cost <= value(result.avg_move_bps)
            &&& result.required_multiple == cost_multiple(minutes)
        },
{
    assert(value(N::whole(0)) == 0real && value(N::whole(2)) == 2real && value(N::whole(10_000)) == 10000real);
    let result = hurdle_of(prices, minutes, fee, slippage)->0;
    let cost = value(result.cost_bps);
    let f = value(fee);
    assert(2real * f * 10000real == 20000real * f) by (nonlinear_arith);
    law_average_times_count_is_the_sum(value, move_sizes(prices));
    let m = value(result.margin);
    let k = value(cost_multiple(minutes));
    let a = value(result.avg_move_bps);
    assert(m * cost == a);
    assert(k <= m <==> k * cost <= a) by {
        let gap = m - k;
        assert((m - k) * cost == m * cost - k * cost) by (nonlinear_arith);
        assert(gap >= 0real <==> gap * cost >= 0real) by (nonlinear_arith)
            requires
                cost > 0real,
        ;
    }
}

/// Series without a usable move have no hurdle.
pub proof fn law_hurdle_needs_a_move<N: Number>(prices: Seq<N>, minutes: N, fee: N, slippage: N)
    ensures
        hurdle_of(prices, minutes, fee, slippage) is None <==> prices.len() < 2 || move_sizes(prices).len() == 0,
{
}

/// The bars make up the span: their average length in minutes times sixty
/// times the gaps between them is the span in seconds. It is never negative.
pub proof fn law_bar_length_spreads_the_span<N: Number>(value: spec_fn(N) -> real, seconds: i64, n: nat)
    requires
        reads_exactly(value),
        2 <= n <= usize::MAX,
    ensures
        value(average_bar_minutes::<N>(seconds as int, n)) >= 0real,
        seconds >= 0 ==> value(average_bar_minutes::<N>(seconds as int, n)) * 60real * ((n - 1) as real)
            == seconds as int as real,
        seconds <= 0 ==> value(average_bar_minutes::<N>(seconds as int, n)) == 0real,
{
    assert(value(N::whole(0)) == 0real && value(N::whole(60)) == 60real);
    assert(value(N::whole(seconds)) == seconds as int as real);
    let gaps = N::counted((n - 1) as usize);
    let g = (n - 1) as real;
    assert(value(gaps) == g);
    let minutes = N::whole(seconds).quotient(N::whole(60));
    let m = value(minutes);
    assert(m * 60real == seconds as int as real);
    let b = value(minutes.quotient(gaps));
    assert(b * g == m);
    assert(b * 60real * g == b * g * 60real) by (nonlinear_arith);
    if seconds >= 0 {
        assert(b >= 0real) by (nonlinear_arith)
            requires
                b * g == m,
                m >= 0real,
                g >= 1real,
        ;
    }
    if seconds <= 0 {
        assert(b <= 0real) by (nonlinear_arith)
            requires
                b * g == m,
                m <= 0real,
                g >= 1real,
        ;
    }
}

/// The closes are the traded prices and the closes of the candles, in order.
pub proof fn law_closes_follow_the_data<N: Number>(data: Seq<MarketData<N>>, i: int)
    requires
        0 <= i < data.len(),
    ensures
        closes_of(data).len() == data.len(),
        data[i] matches MarketData::Trade(trade) ==> closes_of(data)[i] == trade.price,
        data[i] matches MarketData::Candle(candle) ==> closes_of(data)[i] == candle.close,
        data[i] matches MarketData::PoolSwap(swap) ==> closes_of(data)[i] == swap.price,
        data[i] matches MarketData::Generic(row) ==> closes_of(data)[i] == row.price,
        data[i] matches MarketData::OptionCandle(candle) ==> closes_of(data)[i] == candle.close,
{
}

/// The divergence is the distance in percent of the base: nothing for the
/// base itself, and nothing where there is no base to speak of.
pub proof fn law_divergence_is_in_percent_of_the_base<N: Number>(value: spec_fn(N) -> real, base: N, other: N)
    requires
        reads_exactly(value),
    ensures
        ({
            let size = if value(base) < 0real { -value(base) } else { value(base) };
            let gap = value(base) - value(other);
            let found = value(divergence_of(base, other));
            &&& size > 1real / 10000000000real ==> found >= 0real && found * size == 100real * if gap < 0real {
                -gap
            } else {
                gap
            }
            &&& size <= 1real / 10000000000real ==> found == 0real
        }),
{
    assert(value(N::whole(0)) == 0real && value(N::whole(100)) == 100real);
    lemma_ratio_reads(value, 1, 10_000_000_000);
    let b = value(base);
    let size = if b < 0real { -b } else { b };
    if size > 1real / 10000000000real {
        let gap = b - value(other);
        let q = value(base.difference(other).quotient(base));
        assert(q * b == gap);
        let p = q * 100real;
        let found = if p < 0real { -p } else { p };
        assert(value(divergence_of(base, other)) == found);
        assert(p * b == 100real * (q * b)) by (nonlinear_arith)
            requires
                p == q * 100real,
        ;
        assert((-p) * b == -(p * b) && p * (-b) == -(p * b) && (-p) * (-b) == p * b) by (nonlinear_arith);
        assert(found * size >= 0real) by (nonlinear_arith)
            requires
                found >= 0real,
                size >= 0real,
        ;
    }
}

/// One more step of a fan chart counts as ruined exactly where its lowest
/// band lies below the threshold.
pub proof fn law_steps_are_ruined_below_the_threshold<N: Number>(
    value: spec_fn(N) -> real,
    chart: Seq<[N; 5]>,
    step: [N; 5],
    threshold: N,
)
    requires
        reads_exactly(value),
    ensures
        ruined_steps(Seq::<[N; 5]>::empty(), threshold) == 0,
        ruined_steps(chart.push(step), threshold) == ruined_steps(chart, threshold) + if value(step[0]) < value(threshold) {
            1int
        } else {
            0
        },
{
    assert(chart.push(step).drop_last() =~= chart);
}

proof fn lemma_no_more_ruined_than_steps<N: Number>(chart: Seq<[N; 5]>, threshold: N)
    ensures
        ruined_steps(chart, threshold) <= chart.len(),
        ruined_steps(chart, threshold) == 0 && chart.len() > 0 ==> !chart.last()[0].below(threshold),
    decreases chart.len(),
{
    if chart.len() > 0 {
        lemma_no_more_ruined_than_steps(chart.drop_last(), threshold);
    }
}

/// Ruin is to fall below half of the middle band that the chart begins with.
/// A chart that never gets there has none; one that ends there has at least
/// five percent, and half the share of its ruined steps where that is more;
/// one that recovers has a twentieth of the share.
pub proof fn law_ruin_is_to_lose_half<N: Number>(value: spec_fn(N) -> real, chart: Seq<[N; 5]>, threshold: N)
    requires
        reads_exactly(value),
        0 < chart.len() <= usize::MAX,
        value(threshold) * 2real == value(chart[0][2]),
    ensures
        ({
            let estimate = value(ruin_estimate(chart));
            let n = chart.len() as int as real;
            let ruined = ruined_steps(chart, threshold) as int as real;
            let ends_ruined = value(chart.last()[0]) < value(threshold);
            &&& 0real <= estimate <= 1real
            &&& ruined == 0real ==> estimate == 0real
            &&& ruined > 0real && !ends_ruined ==> estimate * 20real * n == ruined
            &&& ruined > 0real && ends_ruined ==> estimate * 20real >= 1real && estimate * 2real * n >= ruined && (
            estimate * 20real == 1real || estimate * 2real * n == ruined)
        }),
{
    assert(value(N::whole(0)) == 0real);
    lemma_ratio_reads(value, 1, 2);
    lemma_ratio_reads(value, 5, 100);
    let half = chart[0][2].product(ratio_of::<N>(1, 2));
    assert(value(half) == value(threshold)) by {
        assert(value(half) == value(chart[0][2]) * (1real / 2real));
    }
    lemma_same_threshold(value, chart, half, threshold);
    let ruined = ruined_steps(chart, half);
    lemma_no_more_ruined_than_steps(chart, half);
    let n = chart.len() as int as real;
    let r = ruined as int as real;
    assert(value(N::counted(ruined as usize)) == r);
    assert(value(N::counted(chart.len() as usize)) == n);
    let share = N::counted(ruined as usize).quotient(N::counted(chart.len() as usize));
    let s = value(share);
    assert(s * n == r);
    assert(0real <= s <= 1real) by {
        assert(s >= 0real && s <= 1real) by (nonlinear_arith)
            requires
                s * n == r,
                0real <= r <= n,
                n >= 1real,
        ;
    }
    assert(s * (1real / 2real) * 2real * n == s * n) by (nonlinear_arith);
    assert(s * (5real / 100real) * 20real * n == s * n) by (nonlinear_arith);
    let estimate = value(ruin_estimate(chart));
    if ruined > 0 && chart.last()[0].below(half) {
        let part = s * (1real / 2real);
        if estimate != part {
            assert(estimate > part);
            assert(estimate * 2real * n >= part * 2real * n) by (nonlinear_arith)
                requires
                    estimate > part,
                    n >= 1real,
            ;
        }
    }
}

proof fn lemma_same_threshold<N: Number>(value: spec_fn(N) -> real, chart: Seq<[N; 5]>, a: N, b: N)
    requires
        reads_exactly(value),
        value(a) == value(b),
    ensures
        ruined_steps(chart, a) == ruined_steps(chart, b),
    decreases chart.len(),
{
    if chart.len() > 0 {
        lemma_same_threshold(value, chart.drop_last(), a, b);
    }
}

/// The drawdown cap is what was asked for between five and sixty percent,
/// the nearer bound outside of them, and forty percent without a wish.
pub proof fn law_drawdown_cap_is_as_asked_within_bounds<N: Number>(value: spec_fn(N) -> real, asked: N)
    requires
        reads_exactly(value),
    ensures
        value(cap_of::<N>(None)) * 10real == 4real,
        ({
            let cap = value(cap_of(Some(asked)));
            &&& value(asked) * 20real < 1real ==> cap * 20real == 1real
            &&& value(asked) * 5real > 3real ==> cap * 5real == 3real
            &&& value(asked) * 20real >= 1real && value(asked) * 5real <= 3real ==> cap == value(asked)
        }),
{
    lemma_ratio_reads(value, 2, 5);
    lemma_ratio_reads(value, 1, 20);
    lemma_ratio_reads(value, 3, 5);
}

/// The span between the trades is counted in days, one at least.
pub proof fn law_trading_span_is_at_least_a_day<N: Number>(value: spec_fn(N) -> real, first: i64, last: i64)
    requires
        reads_exactly(value),
        0 <= last - first <= i64::MAX,
    ensures
        value(span_days::<N>(Some(first), Some(last))) >= 1real,
        last - first >= 86_400_000 ==> value(span_days::<N>(Some(first), Some(last))) * 86400real == ((last - first) / 1000)
            as real,
        last - first < 86_400_000 ==> value(span_days::<N>(Some(first), Some(last))) == 1real,
        value(span_days::<N>(None, Some(last))) == 1real,
        value(span_days::<N>(Some(first), None)) == 1real,
{
    assert(value(N::whole(1)) == 1real && value(N::whole(86_400)) == 86400real);
    let seconds = ((last - first) / 1000) as i64;
    assert(value(N::whole(seconds)) == seconds as int as real);
    let q = value(N::whole(seconds).quotient(N::whole(86_400)));
    assert(q * 86400real == seconds as int as real);
}

/// A candidate is scored by its own figures: its profit, its ratios, and its
/// drawdown as a positive share of the capital. A missing Sortino ratio is
/// taken to be the Sharpe ratio.
pub proof fn law_candidates_are_scored_by_their_own_figures<N: Number>(
    value: spec_fn(N) -> real,
    result: BacktestResult<N>,
    capital: N,
    cap: N,
)
    requires
        reads_exactly(value),
        value(capital) >= 1real,
    ensures
        ({
            let figures = figures_of(result, capital, cap);
            let fall = value(result.max_drawdown);
            &&& figures.num_trades == result.num_trades
            &&& figures.net_pnl == result.total_pnl
            &&& figures.initial_capital == capital
            &&& figures.max_drawdown_hard_cap == cap
            &&& figures.max_drawdown_abs == result.max_drawdown
            &&& value(figures.max_drawdown_frac) * value(capital) == if fall < 0real { -fall } else { fall }
            &&& result.sharpe_ratio matches Some(ratio) ==> figures.sharpe == ratio
            &&& result.sharpe_ratio is None ==> value(figures.sharpe) == 0real
            &&& result.sortino_ratio matches Some(ratio) ==> figures.sortino == ratio
            &&& result.sortino_ratio is None ==> figures.sortino == figures.sharpe
            &&& result.profit_factor matches Some(factor) ==> figures.profit_factor == factor
            &&& result.profit_factor is None ==> value(figures.profit_factor) == 1real
            &&& result.win_rate matches Some(rate) ==> figures.win_rate == rate
            &&& result.win_rate is None ==> value(figures.win_rate) == 0real
            &&& result.execution_metrics matches Some(metrics) ==> figures.fill_rate == metrics.fill_rate
            &&& result.transaction_costs matches Some(costs) ==> figures.total_fees == costs.total_commission
            &&& figures.data_span_days == span_days::<N>(result.first_trade_timestamp, result.last_trade_timestamp)
        }),
{
    assert(value(N::whole(0)) == 0real && value(N::whole(1)) == 1real);
    let base = capital.larger(N::whole(1));
    assert(value(base) == value(capital));
    let c = value(capital);
    let q = value(result.max_drawdown.quotient(base));
    let fall = value(result.max_drawdown);
    assert(q * c == fall);
    assert((-q) * c == -(q * c)) by (nonlinear_arith);
    assert(q < 0real <==> q * c < 0real) by (nonlinear_arith)
        requires
            c >= 1real,
    ;
}

/// The gap of a fold is how much better it scores in sample, and never
/// negative; its test is the score out of sample.
pub proof fn law_gaps_are_what_is_lost_out_of_sample<N: Number>(value: spec_fn(N) -> real, folds: Seq<(N, N)>, i: int)
    requires
        reads_exactly(value),
        0 <= i < folds.len(),
    ensures
        gaps_of(folds).len() == folds.len(),
        tests_of(folds).len() == folds.len(),
        tests_of(folds)[i] == folds[i].1,
        value(folds[i].0) >= value(folds[i].1) ==> value(gaps_of(folds)[i]) + value(folds[i].1) == value(folds[i].0),
        value(folds[i].0) <= value(folds[i].1) ==> value(gaps_of(folds)[i]) == 0real,
{
    assert(value(N::whole(0)) == 0real);
}

/// Degradation is positive exactly where testing falls short of training, and
/// within two hundred percent it is the loss in percent of the size of the
/// training ratio.
pub proof fn law_degradation_is_the_loss_from_training<N: Number>(value: spec_fn(N) -> real, train: N, test: N)
    requires
        reads_exactly(value),
        value(train) > 1real / 1000000000real || value(train) < -(1real / 1000000000real),
    ensures
        ({
            let size = if value(train) < 0real { -value(train) } else { value(train) };
            let lost = 100real * (value(train) - value(test));
            let found = value(degradation_pct_of(train, test));
            &&& -200real * size <= lost <= 200real * size ==> found * size == lost
            &&& lost > 200real * size ==> found == 200real
            &&& lost < -200real * size ==> found == -200real
            &&& value(test) < value(train) <==> found > 0real
        }),
{
    lemma_ratio_reads(value, 1, 1_000_000_000);
    assert(value(N::whole(100)) == 100real && value(N::whole(200)) == 200real && value(N::whole(-200i64)) == -200real);
    let size = value(train.magnitude());
    let q = value(train.difference(test).quotient(train.magnitude()));
    assert(q * size == value(train) - value(test));
    let p = q * 100real;
    let lost = 100real * (value(train) - value(test));
    assert(p * size == 100real * (q * size)) by (nonlinear_arith)
        requires
            p == q * 100real,
    ;
    assert(size > 0real);
    assert((p > 200real <==> p * size > 200real * size) && (p < -200real <==> p * size < -200real * size) && (p > 0real
        <==> p * size > 0real)) by (nonlinear_arith)
        requires
            size > 0real,
    ;
}

/// A winner with a gain in training is overfit exactly where testing keeps
/// less than half of it; one without a gain in training is unless testing
/// shows one.
pub proof fn law_overfit_winners_lose_half_their_ratio<N: Number>(value: spec_fn(N) -> real, train: N, test: N)
    requires
        reads_exactly(value),
    ensures
        value(train) > 1real / 1000000000real ==> (overfits(train, test) <==> 2real * value(test) < value(train)),
        value(train) <= 0real ==> (overfits(train, test) <==> value(test) <= 0real),
{
    assert(value(N::whole(0)) == 0real && value(N::whole(50)) == 50real);
    if value(train) > 1real / 1000000000real {
        law_degradation_is_the_loss_from_training(value, train, test);
        let size = value(train);
        let found = value(degradation_pct_of(train, test));
        let lost = 100real * (value(train) - value(test));
        assert(found * size == lost ==> (found > 50real <==> lost > 50real * size)) by (nonlinear_arith)
            requires
                size > 0real,
        ;
    }
}

/// A simulation starts from results out of sample where they have enough
/// trades, those after the optimisation before those before it; else from the
/// optimised backtest where that has enough; else from the quick one.
pub proof fn law_simulations_prefer_results_out_of_sample(
    optimized_oos: Option<TradeCounts>,
    default_oos: Option<TradeCounts>,
    optimized: Option<TradeCounts>,
    least: usize,
)
    ensures
        ({
            let base = base_of(optimized_oos, default_oos, optimized, least);
            let tested = if optimized_oos is Some { optimized_oos } else { default_oos };
            let has_tested = tested matches Some(c) && !(c.measured < least && c.reported < least);
            let has_optimized = optimized matches Some(c) && !(c.measured < least && c.reported < least);
            &&& base is OosCombined <==> has_tested
            &&& base is GaOptimized <==> !has_tested && has_optimized
            &&& base is Quick <==> !has_tested && !has_optimized
        }),
{
}

/// There is one length of blocks for a number of trades; it is three at
/// least, and above that no other whole number is nearer to the cube root.
pub proof fn law_blocks_are_the_cube_root_long(count: nat, size: nat, other: nat)
    requires
        is_block_size(count, size),
        is_block_size(count, other),
    ensures
        size == other,
        size >= 3,
        count >= 43 ==> (2 * size - 1) * (2 * size - 1) * (2 * size - 1) < 8 * count < (2 * size + 1) * (2 * size + 1) * (2
            * size + 1),
        count < 43 ==> size == 3,
{
    if size < other {
        lemma_cubes_grow((2 * size + 1) as int, 2 * other - 1);
    }
    if other < size {
        lemma_cubes_grow((2 * other + 1) as int, 2 * size - 1);
    }
    if size > 3 {
        lemma_cubes_grow(7, 2 * size - 1);
        assert(7 * 7 * 7 == 343int) by (nonlinear_arith);
    } else {
        assert((2 * size - 1) * (2 * size - 1) * (2 * size - 1) == 125) by (nonlinear_arith)
            requires
                size == 3,
        ;
    }
}

proof fn lemma_cubes_grow(a: int, b: int)
    requires
        0 <= a <= b,
    ensures
        a * a * a <= b * b * b,
{
    assert(a * a <= b * b) by (nonlinear_arith)
        requires
            0 <= a <= b,
    ;
    assert(a * a >= 0) by (nonlinear_arith);
    let x = a * a;
    let y = b * b;
    assert(x * a <= y * b) by (nonlinear_arith)
        requires
            0 <= a <= b,
            0 <= x <= y,
    ;
}

/// A step's return takes one value to the next; there is none from a value
/// that is next to nothing.
pub proof fn law_step_returns_take_one_value_to_the_next<N: Number>(value: spec_fn(N) -> real, curve: Seq<N>, i: int)
    requires
        reads_exactly(value),
        0 <= i < curve.len() - 1,
    ensures
        step_returns(curve).len() == curve.len() - 1,
        ({
            let from = value(curve[i]);
            let change = value(step_returns(curve)[i]);
            let is_base = from > 1real / 1000000000000real || from < -(1real / 1000000000000real);
            &&& is_base ==> from + change * from == value(curve[i + 1])
            &&& !is_base ==> change == 0real
        }),
{
    assert(value(N::whole(0)) == 0real);
    lemma_ratio_reads(value, 1, 1_000_000_000_000);
    assert(step_returns(curve)[i] == step_return(curve[i], curve[i + 1]));
}

/// The returns that a volatility looks back over: the one at the step and up
/// to twenty before it.
pub open spec fn looked_back<N>(value: spec_fn(N) -> real, changes: Seq<N>, i: int) -> Seq<real> {
    readings(value, changes.subrange(if i > 20 { i - 20 } else { 0 }, i + 1))
}

/// The volatility at a step is the standard deviation of the return there and
/// of up to twenty before it.
pub proof fn law_volatility_looks_back_twenty_steps<N: Number>(
    value: spec_fn(N) -> real,
    changes: Seq<N>,
    i: int,
    average: real,
)
    requires
        reads_exactly(value),
        0 <= i < changes.len(),
        is_mean(looked_back(value, changes, i), average),
    ensures
        value(volatility_at(changes, i)) >= 0real,
        value(volatility_at(changes, i)) * value(volatility_at(changes, i)) * (looked_back(value, changes, i).len() as int as real)
            == real_square_sum(looked_back(value, changes, i), average),
{
    let start = if i >= 20 { i - 20 } else { 0 };
    let window = changes.subrange(start, i + 1);
    assert(changes.subrange(if i > 20 { i - 20 } else { 0 }, i + 1) =~= window);
    let looked = looked_back(value, changes, i);
    assert(looked == readings(value, window));
    assert(0 < window.len() <= 21);
    assert(looked.len() == window.len());
    law_average_times_count_is_the_sum(value, window);
    lemma_mean_is_unique(looked, average, value(mean_of(window)));
    lemma_square_sum_reads(value, window, mean_of(window));
    let count = N::counted(window.len() as usize);
    let n = looked.len() as int as real;
    assert(value(count) == n);
    let variance = square_sum(window, mean_of(window)).quotient(count);
    let v = value(variance);
    let s = real_square_sum(looked, average);
    assert(v * n == s);
    assert(v >= 0real) by (nonlinear_arith)
        requires
            v * n == s,
            s >= 0real,
            n >= 1real,
    ;
    assert(volatility_at(changes, i) == variance.root());
    let found = value(volatility_at(changes, i));
    assert(found >= 0real && found * found == v);
    assert(found * found * n == s) by (nonlinear_arith)
        requires
            found * found == v,
            v * n == s,
    ;
}

/// A candidate without parameters is never too complex, and one that is too
/// complex for its trades is so for fewer.
pub proof fn law_more_trades_bear_more_parameters(count: nat, fewer: nat, more: nat)
    requires
        fewer <= more,
    ensures
        !is_too_complex(0, more),
        is_too_complex(count, more) ==> is_too_complex(count, fewer),
        is_too_complex(count, 0) == is_too_complex(count, 1),
{
    if count > 0 {
        let few = if fewer == 0 { 1 } else { fewer };
        let many = if more == 0 { 1 } else { more };
        lemma_nearest_keeps_order(few, 1, many, 1);
        lemma_nearest_is_normal(count, 1);
        lemma_quotient_turns_order(nearest(count, 1), nearest(few, 1), nearest(many, 1));
    }
}

/// Walk-forward passes exactly where the ratio out of sample reaches the
/// least that is asked and more than three tenths of the windows agree.
pub proof fn law_walk_forward_asks_for_ratio_and_agreement<N: Number>(
    value: spec_fn(N) -> real,
    state: ValidationState<N>,
    sharpe: N,
    consistency: N,
)
    requires
        reads_exactly(value),
    ensures
        state.walk_forward_passes(sharpe, consistency) <==> value(sharpe) >= value(state.limits.min_oos_sharpe) && 10real
            * value(consistency) > 3real,
{
    lemma_ratio_reads(value, 3, 10);
}

/// A stage says what became of it, and the ones before it stay as they were.
pub proof fn law_stages_are_kept<N: Number>(
    value: spec_fn(N) -> real,
    state: ValidationState<N>,
    fitness: N,
    trades: Option<usize>,
    overfit: N,
    ruin: N,
    message: Seq<char>,
)
    requires
        reads_exactly(value),
    ensures
        ({
            let next = state.after_optimization(fitness, message, trades);
            &&& next.stages.drop_last() == state.stages
            &&& next.stages.last().stage == 3
            &&& next.stages.last().message == message
            &&& next.stages.last().passed <==> value(fitness) > 0real
            &&& state.data_len >= 250 <==> next.phase is CrossValidation
            &&& state.data_len < 250 <==> next.phase is MonteCarlo
            &&& next.verdict == if trades == Some(0usize) && state.verdict == Verdict::Pass {
                Verdict::Warn
            } else {
                state.verdict
            }
        }),
        ({
            let next = state.after_cross_validation(Some((overfit, message)));
            &&& next.stages.drop_last() == state.stages
            &&& next.stages.last().stage == 4
            &&& next.stages.last().message == message
            &&& next.stages.last().passed <==> 2real * value(overfit) < 1real
            &&& next.phase is MonteCarlo
            &&& next.verdict == if 2real * value(overfit) < 1real { state.verdict } else { Verdict::Warn }
            &&& state.after_cross_validation(None).stages == state.stages
            &&& state.after_cross_validation(None).verdict == state.verdict
        }),
        ({
            let next = state.after_monte_carlo(ruin, message);
            &&& next.stages.drop_last() == state.stages
            &&& next.stages.last().message == message
            &&& next.stages.last().stage == if state.has_schema { 4int } else { 3 }
            &&& next.stages.last().passed <==> value(ruin) <= value(state.limits.max_ruin_probability)
            &&& next.verdict == if value(ruin) <= value(state.limits.max_ruin_probability) {
                state.verdict
            } else {
                Verdict::Warn
            }
        }),
{
    assert(value(N::whole(0)) == 0real);
    lemma_ratio_reads(value, 1, 2);
    assert(state.after_optimization(fitness, message, trades).stages.drop_last() =~= state.stages);
    assert(state.after_cross_validation(Some((overfit, message))).stages.drop_last() =~= state.stages);
    assert(state.after_monte_carlo(ruin, message).stages.drop_last() =~= state.stages);
}

/// The costs stop a validation exactly where they were not covered, and a
/// loss or the lack of a trade stops it at the quick backtest; the look at
/// related assets and the look-ahead test never do.
pub proof fn law_early_stages_stop_what_cannot_earn<N: Number>(
    value: spec_fn(N) -> real,
    state: ValidationState<N>,
    covered: bool,
    num_trades: usize,
    pnl: N,
    detected: Option<bool>,
    message: Seq<char>,
)
    requires
        reads_exactly(value),
    ensures
        ({
            let next = state.after_cost_hurdle(Some((covered, message)));
            &&& next.phase == if covered { Phase::LookAhead } else { Phase::Stopped(0) }
            &&& next.verdict == if covered { state.verdict } else { Verdict::Fail }
            &&& next.stages.drop_last() == state.stages
            &&& next.stages.last().passed == covered
            &&& next.stages.last().stage == 0
            &&& state.after_cost_hurdle(None).phase == Phase::LookAhead
            &&& state.after_cost_hurdle(None).stages == state.stages
        }),
        ({
            let next = state.after_quick_backtest(num_trades, pnl, message);
            let earns = num_trades > 0 && value(pnl) >= 0real;
            &&& next.phase == if earns { Phase::CrossSection } else { Phase::Stopped(1) }
            &&& next.verdict == if earns { state.verdict } else { Verdict::Fail }
            &&& next.stages.drop_last() == state.stages
            &&& next.stages.last().passed == earns
            &&& next.stages.last().stage == 1
        }),
        ({
            let next = state.after_look_ahead(detected);
            next.look_ahead_detected == detected && next.phase is QuickBacktest && next.verdict == state.verdict
                && next.stages == state.stages
        }),
        ({
            let next = state.after_cross_section(Some(message));
            &&& next.phase is WalkForward
            &&& next.verdict == state.verdict
            &&& next.stages.drop_last() == state.stages
            &&& next.stages.last().passed
            &&& next.stages.last().message == message
        }),
{
    assert(value(N::whole(0)) == 0real);
    assert(state.after_cost_hurdle(Some((covered, message))).stages.drop_last() =~= state.stages);
    assert(state.after_quick_backtest(num_trades, pnl, message).stages.drop_last() =~= state.stages);
    assert(state.after_cross_section(Some(message)).stages.drop_last() =~= state.stages);
}

} // verus!
