//! What a walk-forward analysis reports: its windows and their averages.

use vstd::prelude::*;

use crate::exact::reads_exactly;
use crate::folds::WindowBounds;
use crate::measure_laws::law_win_share_counts_the_positive_values;
use crate::measures::{
    add_squares, clamp, clamped, count_positive, equity_returns, mean, mean_of, positive_base_returns,
    positives, square_sum,
};
use crate::number::{ratio, ratio_of, Number};
use crate::regime::{
    coverage_sentence, is_missed, regime_coverage_incomplete, regime_coverage_narrative, window_regime_label,
    VolatilityRegime,
};
use crate::types::BacktestResult;

verus! {

/// One window of a walk-forward analysis.
#[derive(Debug, Clone, Copy, PartialEq)]
pub struct WalkForwardWindow<N> {
    pub train_start_idx: usize,
    pub train_end_idx: usize,
    pub test_start_idx: usize,
    pub test_end_idx: usize,
    /// Times of the first and the last bar of each slice, in milliseconds
    /// since the epoch.
    pub train_start_date: Option<i64>,
    pub train_end_date: Option<i64>,
    pub test_start_date: Option<i64>,
    pub test_end_date: Option<i64>,
    pub train_pnl: N,
    pub train_sharpe: N,
    pub train_trades: usize,
    pub test_pnl: N,
    pub test_sharpe: N,
    pub test_trades: usize,
    pub test_win_rate: N,
    pub test_max_drawdown: N,
    pub test_profit_factor: N,
    pub test_regime: Option<VolatilityRegime>,
}

/// Result of a walk-forward analysis.
#[derive(Debug, Clone)]
pub struct WalkForwardResult<N> {
    pub windows: Vec<WalkForwardWindow<N>>,
    pub avg_oos_sharpe: N,
    pub avg_oos_pnl: N,
    pub avg_train_sharpe: N,
    /// Loss of Sharpe ratio from training to testing, relative to training.
    pub overfitting_ratio: N,
    /// How even the test windows are: one where all score the same.
    pub consistency_score: N,
    /// Share of the windows with a positive Sharpe ratio out of sample.
    pub oos_profitability_rate: N,
    pub num_windows: usize,
    /// The test slices taken together.
    pub oos_combined_result: Option<BacktestResult<N>>,
    /// Evaluations that the analysis spent on a search of its own.
    pub ga_trial_count: Option<usize>,
    pub regime_coverage_narrative: String,
    pub regime_coverage_incomplete: bool,
}

/// Result of a short run that only asks whether a strategy trades at all.
#[derive(Debug, Clone, Copy, PartialEq)]
pub struct QuickSignalDryRunResult<N> {
    /// Bars that were simulated.
    pub bars_tested: usize,
    pub num_trades: usize,
    pub total_pnl: N,
}

/// Result of a validation. Monte Carlo results and optimisation reports are
/// carried along as they are.
#[derive(Debug, Clone)]
pub struct ValidationResult<N, M, G> {
    pub stages_completed: u8,
    pub quick_backtest: Option<BacktestResult<N>>,
    pub walk_forward: Option<WalkForwardResult<N>>,
    pub monte_carlo: Option<M>,
    pub block_bootstrap: Option<M>,
    pub regime_mc: Option<M>,
    pub ga_report: Option<G>,
    pub cpcv_pbo: Option<N>,
    pub cpcv_deflated_sharpe: Option<N>,
    pub cpcv_parameter_stability: Option<N>,
    pub optimized_backtest: Option<BacktestResult<N>>,
    pub verdict: String,
    pub summary: String,
    pub stage_verdicts: Vec<crate::validation::StageVerdict>,
    pub look_ahead_detected: Option<bool>,
    pub elapsed_seconds: N,
}

/// The equity has moved away from where it started.
pub open spec fn has_moved<N: Number>(value: N, base: N) -> bool {
    ratio_of::<N>(1, 1_000_000_000).below(value.difference(base).magnitude())
}

/// First place at which the equity has moved away from where it started; zero
/// where it never does.
pub open spec fn warm_up<N: Number>(curve: Seq<N>) -> int {
    if exists|k: int| first_move(curve, k) {
        choose|k: int| first_move(curve, k)
    } else {
        0
    }
}

/// The equity moves away from where it started at this place first.
pub open spec fn first_move<N: Number>(curve: Seq<N>, k: int) -> bool {
    &&& 0 <= k < curve.len()
    &&& has_moved(curve[k], curve[0])
    &&& forall|i: int| 0 <= i < k ==> !has_moved(#[trigger] curve[i], curve[0])
}

/// First place at which the equity has moved away from where it started.
fn find_warm_up<N: Number>(curve: &[N]) -> (end: usize)
    ensures
        end == warm_up(curve@),
        end <= curve@.len(),
{
    if curve.len() == 0 {
        return 0;
    }
    let base: N = curve[0];
    let mut k: usize = 0;
    while k < curve.len()
        invariant
            curve@.len() > 0,
            base == curve@[0],
            k <= curve@.len(),
            forall|i: int| 0 <= i < k ==> !has_moved(#[trigger] curve@[i], base),
        decreases curve@.len() - k,
    {
        if ratio::<N>(1, 1_000_000_000).lt(curve[k].minus(base).abs()) {
            proof {
                assert(first_move(curve@, k as int));
                let chosen = warm_up(curve@);
                assert(first_move(curve@, chosen));
                if chosen < k {
                    assert(!has_moved(curve@[chosen], base));
                } else if chosen > k {
                    assert(!has_moved(curve@[k as int], base));
                }
            }
            return k;
        }
        k = k + 1;
    }
    0
}

/// Annualised Sharpe ratio of a series of returns, held between -20 and 20;
/// zero where the returns do not vary.
pub open spec fn held_sharpe<N: Number>(changes: Seq<N>, bars_per_year: N) -> N {
    let average = mean_of(changes);
    let spread = square_sum(changes, average).quotient(N::counted((changes.len() - 1) as usize)).root();
    if N::whole(0).below(spread) {
        held(average.quotient(spread).product(bars_per_year.root()))
    } else {
        N::whole(0)
    }
}

/// A score held between -20 and 20.
pub open spec fn held<N: Number>(score: N) -> N {
    clamped(score, N::whole(-20i64), N::whole(20))
}

/// Sharpe ratio of a test slice: that of its equity curve after the flat
/// start, or the reported one where the curve is too short for it.
pub open spec fn test_sharpe_of<N: Number>(curve: Seq<N>, reported: Option<N>, bars_per_year: N) -> N {
    let moving = curve.skip(warm_up(curve));
    let changes = positive_base_returns(moving);
    if moving.len() >= 3 && changes.len() >= 2 {
        held_sharpe(changes, bars_per_year)
    } else {
        held(
            match reported {
                Some(sharpe) => sharpe,
                None => N::whole(0),
            },
        )
    }
}

/// Sharpe ratio of a test slice.
pub fn test_sharpe<N: Number>(curve: &Vec<N>, reported: Option<N>, bars_per_year: N) -> (sharpe: N)
    ensures
        sharpe == test_sharpe_of(curve@, reported, bars_per_year),
{
    let start: usize = find_warm_up(curve.as_slice());
    let mut moving: Vec<N> = Vec::new();
    let mut i: usize = start;
    while i < curve.len()
        invariant
            start <= i <= curve@.len(),
            moving@ =~= curve@.subrange(start as int, i as int),
        decreases curve@.len() - i,
    {
        moving.push(curve[i]);
        i = i + 1;
    }
    assert(moving@ =~= curve@.skip(start as int));
    let changes: Vec<N> = equity_returns(moving.as_slice());
    if moving.len() >= 3 && changes.len() >= 2 {
        let average: N = mean(changes.as_slice());
        let spread: N = add_squares(changes.as_slice(), average).over(N::count(changes.len() - 1)).sqrt();
        if N::of(0).lt(spread) {
            clamp(average.over(spread).times(bars_per_year.sqrt()), N::of(-20), N::of(20))
        } else {
            N::of(0)
        }
    } else {
        let sharpe: N = match reported {
            Some(sharpe) => sharpe,
            None => N::of(0),
        };
        clamp(sharpe, N::of(-20), N::of(20))
    }
}

/// The number, or another where there is none.
pub open spec fn or_else<N>(value: Option<N>, other: N) -> N {
    match value {
        Some(v) => v,
        None => other,
    }
}

fn unwrap_or_number<N: Number>(value: Option<N>, other: N) -> (r: N)
    ensures
        r == or_else(value, other),
{
    match value {
        Some(v) => v,
        None => other,
    }
}

/// The time of a bar, where there is such a bar.
pub open spec fn time_at(times: Seq<i64>, i: int) -> Option<i64> {
    if 0 <= i < times.len() {
        Some(times[i])
    } else {
        None
    }
}

/// Index of the last bar before an end.
pub open spec fn last_before(end: usize) -> int {
    if end == 0 {
        0
    } else {
        end - 1
    }
}

fn time_of(times: &[i64], i: usize) -> (time: Option<i64>)
    ensures
        time == time_at(times@, i as int),
{
    if i < times.len() {
        Some(times[i])
    } else {
        None
    }
}

/// The report of a window that was trained and tested.
pub open spec fn window_of<N: Number>(
    bounds: WindowBounds,
    train: BacktestResult<N>,
    test: BacktestResult<N>,
    bars_per_year: N,
    times: Seq<i64>,
    regime: Option<VolatilityRegime>,
) -> WalkForwardWindow<N> {
    WalkForwardWindow {
        train_start_idx: bounds.train_start,
        train_end_idx: bounds.train_end,
        test_start_idx: bounds.test_start,
        test_end_idx: bounds.test_end,
        train_start_date: time_at(times, bounds.train_start as int),
        train_end_date: time_at(times, last_before(bounds.train_end)),
        test_start_date: time_at(times, bounds.test_start as int),
        test_end_date: time_at(times, last_before(bounds.test_end)),
        train_pnl: train.total_pnl,
        train_sharpe: or_else(train.sharpe_ratio, N::whole(0)),
        train_trades: train.num_trades,
        test_pnl: test.total_pnl,
        test_sharpe: test_sharpe_of(test.equity_curve@, test.sharpe_ratio, bars_per_year),
        test_trades: test.num_trades,
        test_win_rate: or_else(test.win_rate, N::whole(0)),
        test_max_drawdown: test.max_drawdown,
        test_profit_factor: or_else(test.profit_factor, N::whole(0)),
        test_regime: regime,
    }
}

/// Reports a window that was trained and tested.
pub fn report_window<N: Number>(
    bounds: WindowBounds,
    train: &BacktestResult<N>,
    test: &BacktestResult<N>,
    bars_per_year: N,
    times: &[i64],
    regimes: &[Option<VolatilityRegime>],
) -> (window: WalkForwardWindow<N>)
    ensures
        ({
            let width = if bounds.test_end >= bounds.test_start { bounds.test_end - bounds.test_start } else { 0 };
            let mid = bounds.test_start + width / 2;
            window == window_of(
                bounds,
                *train,
                *test,
                bars_per_year,
                times@,
                if mid < regimes@.len() {
                    regimes@[mid]
                } else {
                    None
                },
            )
        }),
{
    WalkForwardWindow {
        train_start_idx: bounds.train_start,
        train_end_idx: bounds.train_end,
        test_start_idx: bounds.test_start,
        test_end_idx: bounds.test_end,
        train_start_date: time_of(times, bounds.train_start),
        train_end_date: time_of(times, bounds.train_end.saturating_sub(1)),
        test_start_date: time_of(times, bounds.test_start),
        test_end_date: time_of(times, bounds.test_end.saturating_sub(1)),
        train_pnl: train.total_pnl,
        train_sharpe: unwrap_or_number(train.sharpe_ratio, N::of(0)),
        train_trades: train.num_trades,
        test_pnl: test.total_pnl,
        test_sharpe: test_sharpe(&test.equity_curve, test.sharpe_ratio, bars_per_year),
        test_trades: test.num_trades,
        test_win_rate: unwrap_or_number(test.win_rate, N::of(0)),
        test_max_drawdown: test.max_drawdown,
        test_profit_factor: unwrap_or_number(test.profit_factor, N::of(0)),
        test_regime: window_regime_label(regimes, bounds.test_start, bounds.test_end),
    }
}

/// The Sharpe ratios out of sample.
pub open spec fn test_sharpes<N>(windows: Seq<WalkForwardWindow<N>>) -> Seq<N> {
    windows.map_values(|w: WalkForwardWindow<N>| w.test_sharpe)
}

/// The profits out of sample.
pub open spec fn test_pnls<N>(windows: Seq<WalkForwardWindow<N>>) -> Seq<N> {
    windows.map_values(|w: WalkForwardWindow<N>| w.test_pnl)
}

/// The Sharpe ratios in training.
pub open spec fn train_sharpes<N>(windows: Seq<WalkForwardWindow<N>>) -> Seq<N> {
    windows.map_values(|w: WalkForwardWindow<N>| w.train_sharpe)
}

/// The regimes that the windows were tested in.
pub open spec fn tested_regimes<N>(windows: Seq<WalkForwardWindow<N>>) -> Seq<Option<VolatilityRegime>> {
    windows.map_values(|w: WalkForwardWindow<N>| w.test_regime)
}

/// Loss of Sharpe ratio from training to testing, relative to training; one
/// where training has none to lose.
pub open spec fn degradation_of<N: Number>(train: N, test: N) -> N {
    if ratio_of::<N>(1, 1_000_000_000).below(train.magnitude()) {
        train.difference(test).quotient(train)
    } else {
        N::whole(1)
    }
}

/// How even some scores are: one over one plus their standard deviation.
pub open spec fn evenness<N: Number>(scores: Seq<N>) -> N {
    if scores.len() > 1 {
        let spread = square_sum(scores, mean_of(scores)).quotient(N::counted((scores.len() - 1) as usize)).root();
        clamped(N::whole(1).quotient(N::whole(1).sum(spread)), N::whole(0), N::whole(1))
    } else {
        N::whole(1)
    }
}

/// The average Sharpe ratio in training.
pub fn average_train_sharpe<N: Number>(windows: &Vec<WalkForwardWindow<N>>) -> (average: N)
    ensures
        average == mean_of(train_sharpes(windows@)),
{
    let mut scores: Vec<N> = Vec::new();
    let mut i: usize = 0;
    while i < windows.len()
        invariant
            i <= windows@.len(),
            scores@ =~= train_sharpes(windows@.take(i as int)),
        decreases windows@.len() - i,
    {
        scores.push(windows[i].train_sharpe);
        i = i + 1;
    }
    assert(windows@.take(i as int) =~= windows@);
    mean(scores.as_slice())
}

/// Puts the result of a walk-forward analysis together. There is at least one
/// window.
pub fn walk_forward_result<N: Number>(
    windows: Vec<WalkForwardWindow<N>>,
    oos_combined_result: Option<BacktestResult<N>>,
    regimes: &[Option<VolatilityRegime>],
) -> (result: WalkForwardResult<N>)
    requires
        windows@.len() > 0,
    ensures
        result.windows == windows,
        result.avg_oos_sharpe == mean_of(test_sharpes(windows@)),
        result.avg_oos_pnl == mean_of(test_pnls(windows@)),
        result.avg_train_sharpe == mean_of(train_sharpes(windows@)),
        result.overfitting_ratio == degradation_of(result.avg_train_sharpe, result.avg_oos_sharpe),
        result.consistency_score == evenness(test_sharpes(windows@)),
        result.oos_profitability_rate == N::counted(positives(test_sharpes(windows@)) as usize).quotient(
            N::counted(windows@.len() as usize),
        ),
        forall|value: spec_fn(N) -> real| #[trigger]
            reads_exactly(value) ==> value(result.oos_profitability_rate) * (windows@.len() as int as real)
                == test_sharpes(windows@).filter(|sharpe: N| value(sharpe) > 0real).len() as int as real,
        result.num_windows == windows@.len(),
        result.oos_combined_result == oos_combined_result,
        result.ga_trial_count is None,
        result.regime_coverage_narrative@ == coverage_sentence(tested_regimes(windows@), regimes@),
        result.regime_coverage_incomplete == (exists|label: VolatilityRegime|
            is_missed(tested_regimes(windows@), regimes@, label)),
{
    let mut scores: Vec<N> = Vec::new();
    let mut profits: Vec<N> = Vec::new();
    let mut tested: Vec<Option<VolatilityRegime>> = Vec::new();
    let mut i: usize = 0;
    while i < windows.len()
        invariant
            i <= windows@.len(),
            scores@ =~= test_sharpes(windows@.take(i as int)),
            profits@ =~= test_pnls(windows@.take(i as int)),
            tested@ =~= tested_regimes(windows@.take(i as int)),
        decreases windows@.len() - i,
    {
        scores.push(windows[i].test_sharpe);
        profits.push(windows[i].test_pnl);
        tested.push(windows[i].test_regime);
        i = i + 1;
    }
    assert(windows@.take(i as int) =~= windows@);
    let num_windows: usize = windows.len();
    assert(windows@.len() == num_windows);
    let avg_oos_sharpe: N = mean(scores.as_slice());
    let avg_train_sharpe: N = average_train_sharpe(&windows);
    let overfitting_ratio: N = if ratio::<N>(1, 1_000_000_000).lt(avg_train_sharpe.abs()) {
        avg_train_sharpe.minus(avg_oos_sharpe).over(avg_train_sharpe)
    } else {
        N::of(1)
    };
    let consistency_score: N = if num_windows > 1 {
        let spread: N = add_squares(scores.as_slice(), avg_oos_sharpe).over(N::count(num_windows - 1)).sqrt();
        clamp(N::of(1).over(N::of(1).plus(spread)), N::of(0), N::of(1))
    } else {
        N::of(1)
    };
    let positive: usize = count_positive(scores.as_slice());
    proof {
        let ratios = test_sharpes(windows@);
        assert forall|value: spec_fn(N) -> real| #[trigger] reads_exactly(value) implies value(
            N::counted(positive).quotient(N::counted(num_windows)),
        ) * (windows@.len() as int as real) == ratios.filter(
            |sharpe: N| value(sharpe) > 0real,
        ).len() as int as real by {
            law_win_share_counts_the_positive_values(value, ratios);
        }
    }
    WalkForwardResult {
        windows,
        avg_oos_sharpe,
        avg_oos_pnl: mean(profits.as_slice()),
        avg_train_sharpe,
        overfitting_ratio,
        consistency_score,
        oos_profitability_rate: N::count(positive).over(N::count(num_windows)),
        num_windows,
        oos_combined_result,
        ga_trial_count: None,
        regime_coverage_narrative: regime_coverage_narrative(tested.as_slice(), regimes),
        regime_coverage_incomplete: regime_coverage_incomplete(tested.as_slice(), regimes),
    }
}

} // verus!
