//! Decisions around a parameter search: what a candidate scores, whether the
//! winner is overfit, and which result a Monte Carlo simulation starts from.

use vstd::prelude::*;

use crate::exact::{is_mean, readings, reads_exactly};
use crate::measure_laws::{law_average_times_count_is_the_sum, lemma_mean_is_unique};
use crate::clock::seconds_between;
use crate::double::{below, nearest, nearest_to, quotient, Double};
use crate::measures::{add_squares, clamp, clamped, mean, mean_of, square_sum};
use crate::number::{cut_off, ratio, ratio_of, Number};
use crate::text::{append_text, decimal, decimal_digits};
use crate::types::BacktestResult;
use crate::wf_report::or_else;

verus! {

/// Highest drawdown, as a share of the capital, that a candidate may have:
/// forty percent unless the user asks otherwise, and between five and sixty
/// percent in any case.
pub open spec fn cap_of<N: Number>(asked: Option<N>) -> N {
    clamped(or_else(asked, ratio_of::<N>(2, 5)), ratio_of::<N>(1, 20), ratio_of::<N>(3, 5))
}

/// Highest drawdown that a candidate may have.
pub fn drawdown_cap<N: Number>(asked: Option<N>) -> (cap: N)
    ensures
        cap == cap_of(asked),
{
    let cap: N = match asked {
        Some(asked) => asked,
        None => ratio(2, 5),
    };
    clamp(cap, ratio(1, 20), ratio(3, 5))
}

/// What a candidate is scored by.
#[derive(Debug, Clone, Copy, PartialEq)]
pub struct CandidateFigures<N> {
    pub num_trades: usize,
    pub net_pnl: N,
    pub initial_capital: N,
    pub sharpe: N,
    pub sortino: N,
    pub profit_factor: N,
    pub win_rate: N,
    pub max_drawdown_frac: N,
    pub max_drawdown_abs: N,
    pub fill_rate: N,
    pub total_fees: N,
    pub data_span_days: N,
    pub max_drawdown_hard_cap: N,
}

/// Days between the first and the last trade, at least one.
pub open spec fn span_days<N: Number>(first: Option<i64>, last: Option<i64>) -> N {
    match (first, last) {
        (Some(from), Some(to)) => N::whole(cut_off(to - from, 1000) as i64).quotient(N::whole(86_400)).larger(
            N::whole(1),
        ),
        _ => N::whole(1),
    }
}

/// What a candidate is scored by, from the result of its backtest.
pub open spec fn figures_of<N: Number>(result: BacktestResult<N>, initial_capital: N, cap: N) -> CandidateFigures<N> {
    let sharpe = or_else(result.sharpe_ratio, N::whole(0));
    CandidateFigures {
        num_trades: result.num_trades,
        net_pnl: result.total_pnl,
        initial_capital,
        sharpe,
        sortino: or_else(result.sortino_ratio, sharpe),
        profit_factor: or_else(result.profit_factor, N::whole(1)),
        win_rate: or_else(result.win_rate, N::whole(0)),
        max_drawdown_frac: result.max_drawdown.quotient(initial_capital.larger(N::whole(1))).magnitude(),
        max_drawdown_abs: result.max_drawdown,
        fill_rate: match result.execution_metrics {
            Some(metrics) => metrics.fill_rate,
            None => N::whole(0),
        },
        total_fees: match result.transaction_costs {
            Some(costs) => costs.total_commission,
            None => N::whole(0),
        },
        data_span_days: span_days(result.first_trade_timestamp, result.last_trade_timestamp),
        max_drawdown_hard_cap: cap,
    }
}

/// What a candidate is scored by, from the result of its backtest. A missing
/// Sortino ratio is taken to be the Sharpe ratio.
pub fn candidate_figures<N: Number>(result: &BacktestResult<N>, initial_capital: N, asked_cap: Option<N>) -> (figures:
    CandidateFigures<N>)
    ensures
        figures == figures_of(*result, initial_capital, cap_of(asked_cap)),
{
    let sharpe: N = match result.sharpe_ratio {
        Some(sharpe) => sharpe,
        None => N::of(0),
    };
    let sortino: N = match result.sortino_ratio {
        Some(sortino) => sortino,
        None => sharpe,
    };
    let profit_factor: N = match result.profit_factor {
        Some(factor) => factor,
        None => N::of(1),
    };
    let win_rate: N = match result.win_rate {
        Some(rate) => rate,
        None => N::of(0),
    };
    let fill_rate: N = match &result.execution_metrics {
        Some(metrics) => metrics.fill_rate,
        None => N::of(0),
    };
    let total_fees: N = match &result.transaction_costs {
        Some(costs) => costs.total_commission,
        None => N::of(0),
    };
    let data_span_days: N = match (result.first_trade_timestamp, result.last_trade_timestamp) {
        (Some(from), Some(to)) => {
            let seconds: i64 = seconds_between(from, to);
            N::of(seconds).over(N::of(86_400)).max(N::of(1))
        },
        _ => N::of(1),
    };
    CandidateFigures {
        num_trades: result.num_trades,
        net_pnl: result.total_pnl,
        initial_capital,
        sharpe,
        sortino,
        profit_factor,
        win_rate,
        max_drawdown_frac: result.max_drawdown.over(initial_capital.max(N::of(1))).abs(),
        max_drawdown_abs: result.max_drawdown,
        fill_rate,
        total_fees,
        data_span_days,
        max_drawdown_hard_cap: drawdown_cap(asked_cap),
    }
}

/// How much better each fold scores in sample than out of sample, never less
/// than nothing.
pub open spec fn gaps_of<N: Number>(folds: Seq<(N, N)>) -> Seq<N> {
    folds.map_values(|fold: (N, N)| fold.0.difference(fold.1).larger(N::whole(0)))
}

/// The scores out of sample.
pub open spec fn tests_of<N: Number>(folds: Seq<(N, N)>) -> Seq<N> {
    folds.map_values(|fold: (N, N)| fold.1)
}

/// Score of a candidate over folds, each of them a score in sample and one
/// out of sample: the average out of sample, less a penalty on the average
/// gap between the two. A candidate without any fold has none.
pub fn folded_fitness<N: Number>(folds: &[(N, N)], gap_penalty: N) -> (fitness: Option<N>)
    ensures
        fitness == if folds@.len() > 0 {
            Some(mean_of(tests_of(folds@)).difference(gap_penalty.product(mean_of(gaps_of(folds@)))))
        } else {
            None
        },
        forall|value: spec_fn(N) -> real, tested: real, gap: real|
            #![trigger is_mean(readings(value, tests_of(folds@)), tested), is_mean(readings(value, gaps_of(folds@)), gap)]
            reads_exactly(value) && is_mean(readings(value, tests_of(folds@)), tested) && is_mean(
                readings(value, gaps_of(folds@)),
                gap,
            ) ==> fitness is Some && value(fitness->0) + value(gap_penalty) * gap == tested,
{
    let count: usize = folds.len();
    proof {
        assert(folds@.len() == count);
        assert forall|value: spec_fn(N) -> real, tested: real, gap: real|
            #![trigger is_mean(readings(value, tests_of(folds@)), tested), is_mean(readings(value, gaps_of(folds@)), gap)]
            reads_exactly(value) && is_mean(readings(value, tests_of(folds@)), tested) && is_mean(
                readings(value, gaps_of(folds@)),
                gap,
            ) implies folds@.len() > 0 && value(mean_of(tests_of(folds@))) == tested && value(mean_of(gaps_of(folds@)))
            == gap by {
            assert(readings(value, tests_of(folds@)).len() == folds@.len());
            law_average_times_count_is_the_sum(value, tests_of(folds@));
            lemma_mean_is_unique(readings(value, tests_of(folds@)), tested, value(mean_of(tests_of(folds@))));
            law_average_times_count_is_the_sum(value, gaps_of(folds@));
            lemma_mean_is_unique(readings(value, gaps_of(folds@)), gap, value(mean_of(gaps_of(folds@))));
        }
    }
    if count == 0 {
        return None;
    }
    let mut tests: Vec<N> = Vec::new();
    let mut gaps: Vec<N> = Vec::new();
    let mut i: usize = 0;
    while i < folds.len()
        invariant
            i <= folds@.len(),
            tests@ =~= tests_of(folds@.take(i as int)),
            gaps@ =~= gaps_of(folds@.take(i as int)),
        decreases folds@.len() - i,
    {
        tests.push(folds[i].1);
        gaps.push(folds[i].0.minus(folds[i].1).max(N::of(0)));
        i = i + 1;
    }
    assert(folds@.take(i as int) =~= folds@);
    Some(mean(tests.as_slice()).minus(gap_penalty.times(mean(gaps.as_slice()))))
}

/// How the winner of a search fares in training and in testing.
#[derive(Debug, Clone, Copy, PartialEq)]
pub struct OverfitReport<N> {
    pub train_sharpe: N,
    pub test_sharpe: N,
    pub degradation_pct: N,
    pub is_overfit: bool,
}

/// Loss of Sharpe ratio from training to testing in percent, between -200 and
/// 200; zero where training has none to lose.
pub open spec fn degradation_pct_of<N: Number>(train: N, test: N) -> N {
    if ratio_of::<N>(1, 1_000_000_000).below(train.magnitude()) {
        clamped(
            train.difference(test).quotient(train.magnitude()).product(N::whole(100)),
            N::whole(-200i64),
            N::whole(200),
        )
    } else {
        N::whole(0)
    }
}

/// The winner is overfit. Without a gain in training it is where testing
/// shows none either or less still; with one, where testing shows a loss or
/// gives up more than half of it.
pub open spec fn overfits<N: Number>(train: N, test: N) -> bool {
    if train.at_most(N::whole(0)) {
        test.at_most(N::whole(0)) || test.below(train)
    } else {
        test.below(N::whole(0)) || N::whole(50).below(degradation_pct_of(train, test))
    }
}

/// Reports how the winner of a search fares in training and in testing.
pub fn overfit_report<N: Number>(train_sharpe: N, test_sharpe: N) -> (report: OverfitReport<N>)
    ensures
        report == (OverfitReport {
            train_sharpe,
            test_sharpe,
            degradation_pct: degradation_pct_of(train_sharpe, test_sharpe),
            is_overfit: overfits(train_sharpe, test_sharpe),
        }),
{
    let degradation_pct: N = if ratio::<N>(1, 1_000_000_000).lt(train_sharpe.abs()) {
        clamp(
            train_sharpe.minus(test_sharpe).over(train_sharpe.abs()).times(N::of(100)),
            N::of(-200),
            N::of(200),
        )
    } else {
        N::of(0)
    };
    let is_overfit: bool = if train_sharpe.le(N::of(0)) {
        test_sharpe.le(N::of(0)) || test_sharpe.lt(train_sharpe)
    } else {
        test_sharpe.lt(N::of(0)) || N::of(50).lt(degradation_pct)
    };
    OverfitReport { train_sharpe, test_sharpe, degradation_pct, is_overfit }
}

/// Offset between the seeds of two searches that are compared.
pub const SEED_STABILITY_OFFSET: u64 = 0x9E37_79B9_7F4A_7C15;

/// Seed of the second search where the stability of the first is checked. The
/// check needs a seed to start from, and a search by a single score.
pub fn second_seed(check_stability: bool, single_objective: bool, seed: Option<u64>) -> (second: Option<u64>)
    ensures
        second == if check_stability && single_objective && seed is Some {
            Some(((seed->0 + SEED_STABILITY_OFFSET) % 0x1_0000_0000_0000_0000) as u64)
        } else {
            None
        },
        second is Some ==> second != seed,
{
    if check_stability && single_objective {
        match seed {
            Some(first) => Some(first.wrapping_add(0x9E37_79B9_7F4A_7C15)),
            None => None,
        }
    } else {
        None
    }
}

/// Simulations that a search ran: those that the cache missed, those of the
/// worker processes, and those that walk-forward searched with.
pub fn fresh_evaluations(cache_misses: usize, pool_evaluations: usize, walk_forward: Option<usize>) -> (count: usize)
    ensures
        ({
            let sum = cache_misses + pool_evaluations + match walk_forward {
                Some(n) => n as int,
                None => 0,
            };
            count == if sum <= usize::MAX { sum } else { usize::MAX as int }
        }),
{
    let extra: usize = match walk_forward {
        Some(n) => n,
        None => 0,
    };
    cache_misses.saturating_add(pool_evaluations).saturating_add(extra)
}

/// The deflated Sharpe ratio of a cross-validation, where every fold has
/// enough trades for it to mean anything.
pub fn trusted_deflated_sharpe<N: Number>(deflated_sharpe: N, min_trades_per_fold: usize, reliable_trades: usize) -> (trusted:
    Option<N>)
    ensures
        trusted == if min_trades_per_fold >= reliable_trades { Some(deflated_sharpe) } else { None },
{
    if min_trades_per_fold >= reliable_trades {
        Some(deflated_sharpe)
    } else {
        None
    }
}

/// How much a result offers to resample.
#[derive(Debug, Clone, Copy, PartialEq, Eq, Structural)]
pub struct TradeCounts {
    /// Trades whose return is known.
    pub measured: usize,
    pub reported: usize,
}

/// The result that a Monte Carlo simulation starts from.
#[derive(Debug, Clone, Copy, PartialEq, Eq, Structural)]
pub enum MonteCarloBase {
    /// The test slices of the walk-forward analysis, combined; of the one
    /// after the optimisation where there is such a one.
    OosCombined,
    /// The backtest with the optimised parameters.
    GaOptimized,
    /// The quick backtest.
    Quick,
}

/// The result has enough trades to resample.
pub open spec fn suffices(counts: Option<TradeCounts>, min_trades: usize) -> bool {
    counts matches Some(c) && (c.measured >= min_trades || c.reported >= min_trades)
}

/// The result that a Monte Carlo simulation starts from. Results out of
/// sample come first. Those of the walk-forward analysis after the
/// optimisation stand in for those before it, whether they suffice or not.
pub open spec fn base_of(
    optimized_oos: Option<TradeCounts>,
    default_oos: Option<TradeCounts>,
    optimized: Option<TradeCounts>,
    min_trades: usize,
) -> MonteCarloBase {
    if suffices(if optimized_oos is Some { optimized_oos } else { default_oos }, min_trades) {
        MonteCarloBase::OosCombined
    } else if suffices(optimized, min_trades) {
        MonteCarloBase::GaOptimized
    } else {
        MonteCarloBase::Quick
    }
}

fn has_enough(counts: Option<TradeCounts>, min_trades: usize) -> (enough: bool)
    ensures
        enough == suffices(counts, min_trades),
{
    match counts {
        Some(c) => c.measured >= min_trades || c.reported >= min_trades,
        None => false,
    }
}

/// Chooses the result that a Monte Carlo simulation starts from.
pub fn choose_monte_carlo_base(
    optimized_oos: Option<TradeCounts>,
    default_oos: Option<TradeCounts>,
    optimized: Option<TradeCounts>,
    min_trades: usize,
) -> (base: MonteCarloBase)
    ensures
        base == base_of(optimized_oos, default_oos, optimized, min_trades),
{
    let oos = match optimized_oos {
        Some(counts) => Some(counts),
        None => default_oos,
    };
    if has_enough(oos, min_trades) {
        MonteCarloBase::OosCombined
    } else if has_enough(optimized, min_trades) {
        MonteCarloBase::GaOptimized
    } else {
        MonteCarloBase::Quick
    }
}

impl MonteCarloBase {
    /// What the result is called.
    pub open spec fn called(self) -> Seq<char> {
        match self {
            MonteCarloBase::OosCombined => "OOS-combined"@,
            MonteCarloBase::GaOptimized => "GA-optimized"@,
            MonteCarloBase::Quick => "quick backtest fallback"@,
        }
    }

    /// What the result is called.
    pub fn label(&self) -> (text: &'static str)
        ensures
            text@ == self.called(),
    {
        match self {
            MonteCarloBase::OosCombined => "OOS-combined",
            MonteCarloBase::GaOptimized => "GA-optimized",
            MonteCarloBase::Quick => "quick backtest fallback",
        }
    }

    /// The source of a simulation as it is shown: the name of the result and
    /// its number of trades.
    pub fn source(&self, num_trades: usize) -> (text: String)
        ensures
            text@ == self.called() + " ("@ + decimal_digits(num_trades as nat) + " trades)"@,
    {
        let mut text: String = self.label().to_owned();
        append_text(&mut text, " (");
        append_text(&mut text, decimal(num_trades).as_str());
        append_text(&mut text, " trades)");
        text
    }
}

/// The size is the whole number nearest to the cube root of a count, and at
/// least three.
pub open spec fn is_block_size(count: nat, size: nat) -> bool {
    &&& size >= 3
    &&& size > 3 ==> (2 * size - 1) * (2 * size - 1) * (2 * size - 1) < 8 * count
    &&& 8 * count < (2 * size + 1) * (2 * size + 1) * (2 * size + 1)
}

fn cube(x: u128) -> (r: u128)
    requires
        x <= 0x80_0001,
    ensures
        r == x * x * x,
{
    assert(x * x <= 0x80_0001 * 0x80_0001 && x * x * x <= 0x80_0001 * 0x80_0001 * 0x80_0001) by (nonlinear_arith)
        requires
            0 <= x <= 0x80_0001,
    ;
    x * x * x
}

/// Length of the blocks that a bootstrap draws from so many trades.
pub fn block_size(num_trades: usize) -> (size: usize)
    ensures
        is_block_size(num_trades as nat, size as nat),
{
    let target: u128 = 8 * num_trades as u128;
    let mut size: u128 = 3;
    while cube(2 * size + 1) <= target
        invariant
            target == 8 * num_trades as u128,
            3 <= size <= 0x40_0000,
            size > 3 ==> (2 * size - 1) * (2 * size - 1) * (2 * size - 1) < target,
        decreases 0x40_0000 - size,
    {
        proof {
            let odd = 2 * size + 1;
            assert(odd * odd * odd == 2 * (4 * (size * size * size) + 6 * (size * size) + 3 * size) + 1)
                by (nonlinear_arith)
                requires
                    odd == 2 * size + 1,
            ;
            if size == 0x40_0000 {
                assert(odd * odd * odd == 0x80_0001 * 0x80_0001 * 0x80_0001);
            }
        }
        size = size + 1;
    }
    size as usize
}

/// Returns from each value of a curve to the next; zero from a value that is
/// next to nothing.
pub open spec fn step_returns<N: Number>(curve: Seq<N>) -> Seq<N> {
    Seq::new(
        if curve.len() == 0 { 0 } else { (curve.len() - 1) as nat },
        |i: int| step_return(curve[i], curve[i + 1]),
    )
}

/// Return from one value to the next; zero from a value that is next to
/// nothing.
pub open spec fn step_return<N: Number>(from: N, to: N) -> N {
    if ratio_of::<N>(1, 1_000_000_000_000).below(from.magnitude()) {
        to.difference(from).quotient(from)
    } else {
        N::whole(0)
    }
}

/// Bars of equity that a volatility looks back over.
pub const VOLATILITY_LOOKBACK: usize = 20;

/// Volatility of the returns up to and with one of them.
pub open spec fn volatility_at<N: Number>(changes: Seq<N>, i: int) -> N {
    let start = if i >= VOLATILITY_LOOKBACK { i - VOLATILITY_LOOKBACK } else { 0 };
    let window = changes.subrange(start, i + 1);
    square_sum(window, mean_of(window)).quotient(N::counted(window.len() as usize)).root()
}

/// Volatility along an equity curve, one value for each step; nothing where
/// the curve has no more than twenty points. The last value is the current
/// volatility.
pub fn curve_volatilities<N: Number>(curve: &[N]) -> (volatilities: Option<Vec<N>>)
    ensures
        curve@.len() <= VOLATILITY_LOOKBACK ==> volatilities is None,
        curve@.len() > VOLATILITY_LOOKBACK ==> (volatilities matches Some(v) && v@.len() == curve@.len() - 1
            && forall|i: int|
            0 <= i < v@.len() ==> #[trigger] v@[i] == volatility_at(step_returns(curve@), i)),
{
    if curve.len() <= VOLATILITY_LOOKBACK {
        return None;
    }
    let mut changes: Vec<N> = Vec::new();
    let mut i: usize = 0;
    while i < curve.len() - 1
        invariant
            curve@.len() > 20,
            i < curve@.len(),
            changes@.len() == i,
            forall|k: int| 0 <= k < i ==> #[trigger] changes@[k] == step_return(curve@[k], curve@[k + 1]),
        decreases curve@.len() - i,
    {
        let from: N = curve[i];
        let change: N = if ratio::<N>(1, 1_000_000_000_000).lt(from.abs()) {
            curve[i + 1].minus(from).over(from)
        } else {
            N::of(0)
        };
        changes.push(change);
        i = i + 1;
    }
    assert(changes@ =~= step_returns(curve@));
    let mut volatilities: Vec<N> = Vec::new();
    let steps: usize = changes.len();
    let mut j: usize = 0;
    while j < steps
        invariant
            steps == changes@.len(),
            j <= steps,
            volatilities@.len() == j,
            forall|k: int| 0 <= k < j ==> #[trigger] volatilities@[k] == volatility_at(changes@, k),
        decreases changes@.len() - j,
    {
        let start: usize = if j >= 20 { j - 20 } else { 0 };
        let mut window: Vec<N> = Vec::new();
        let mut k: usize = start;
        while k <= j
            invariant
                start <= k <= j + 1,
                j < steps,
                steps == changes@.len(),
                window@ =~= changes@.subrange(start as int, k as int),
            decreases j + 1 - k,
        {
            window.push(changes[k]);
            k = k + 1;
        }
        let average: N = mean(window.as_slice());
        let volatility: N = add_squares(window.as_slice(), average).over(N::count(window.len())).sqrt();
        volatilities.push(volatility);
        j = j + 1;
    }
    Some(volatilities)
}

/// Sharpe ratios in training and in testing that a winner is judged by: those
/// of its own walk-forward analysis, or else that of the quick backtest and
/// that of the analysis before the search.
pub fn overfit_basis<N: Number>(own: Option<(N, N)>, quick: Option<N>, before: N) -> (basis: (N, N))
    ensures
        basis == match own {
            Some(pair) => pair,
            None => (or_else(quick, N::whole(0)), before),
        },
{
    match own {
        Some(pair) => pair,
        None => {
            let quick: N = match quick {
                Some(sharpe) => sharpe,
                None => N::of(0),
            };
            (quick, before)
        },
    }
}

/// A candidate has more than one parameter for every ten trades, in double
/// precision; without trades it is taken to have one.
pub open spec fn is_too_complex(param_count: nat, num_trades: nat) -> bool {
    let trades = if num_trades == 0 { 1 } else { num_trades };
    param_count > 0 && below(nearest(1, 10), quotient(nearest(param_count, 1), nearest(trades, 1)))
}

/// Whether a candidate has too many parameters for its trades.
pub fn exceeds_param_complexity_gate(param_count: usize, num_trades: usize) -> (exceeds: bool)
    ensures
        exceeds == is_too_complex(param_count as nat, num_trades as nat),
{
    if param_count == 0 {
        return false;
    }
    let trades: usize = if num_trades == 0 { 1 } else { num_trades };
    let ratio: Double = nearest_to(param_count as u128, 1).over(&nearest_to(trades as u128, 1));
    nearest_to(1, 10).is_below(&ratio)
}

/// A winner that loses out of sample is overfit, whatever it did in training,
/// where a loss is at most nothing.
pub proof fn law_losing_winner_is_overfit<N: Number>(train: N, test: N)
    requires
        test.below(N::whole(0)),
        test.at_most(N::whole(0)),
    ensures
        overfits(train, test),
{
}

} // verus!
