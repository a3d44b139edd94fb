//! How much data walk-forward windows and folds take, and what their reports
//! show.

use vstd::prelude::*;

use crate::cross_section::{shows_edge, AssetOutcome};
use crate::double::{lemma_seven_tenths, EXACT_COUNTS_END};
use crate::exact::reads_exactly;
use crate::folds::{bounds_at, fits, fitting_bounds, layout_for, sizes_for, SliceSizes, WindowBounds};
use crate::number::Number;
use crate::regime::{is_present, regimes_in, VolatilityRegime};
use crate::types::BacktestResult;
use crate::walk_forward::{auto_windows, step_between, training_end, uniform_offsets, WindowLayout};
use crate::wf_report::{test_pnls, test_sharpe_of, tested_regimes, train_sharpes, window_of, WalkForwardWindow};

verus! {

/// The step is the longest for which every window still begins in time to end
/// within the data, one bar at least. A single window, or one as long as the
/// data, is stepped over as a whole.
pub proof fn law_steps_spread_the_windows_over_the_data(n: nat, size: nat, count: nat)
    ensures
        ({
            let step = step_between(n, size, count);
            &&& step >= 1
            &&& count <= 1 || size >= n ==> step == if size >= 1 { size as int } else { 1 }
            &&& count > 1 && size < n && step > 1 ==> size + (count - 1) * step <= n
            &&& count > 1 && size < n ==> size + (count - 1) * (step + 1) > n
        }),
{
    if count > 1 && size < n {
        let gaps = count - 1;
        let room = n - size;
        let q = room / gaps;
        assert(gaps * q <= room < gaps * (q + 1)) by (nonlinear_arith)
            requires
                q == room / gaps,
                gaps >= 1,
        ;
        let step = step_between(n, size, count);
        if step != q {
            assert(gaps * (q + 1) <= gaps * (step + 1)) by (nonlinear_arith)
                requires
                    q <= step,
                    gaps >= 1,
            ;
        }
    }
}

/// Evenly spaced windows begin with the data, follow each other by the step,
/// and never run past the end.
pub proof fn law_even_windows_follow_by_the_step(layout: WindowLayout, i: int)
    requires
        layout.is_feasible(),
        0 <= i < layout.num_windows,
    ensures
        uniform_offsets(layout).len() == layout.num_windows,
        uniform_offsets(layout)[0] == 0,
        uniform_offsets(layout)[i] + layout.window_size <= layout.n,
        i * layout.step() + layout.window_size <= layout.n ==> uniform_offsets(layout)[i] == i * layout.step(),
        i * layout.step() + layout.window_size > layout.n ==> uniform_offsets(layout)[i] + layout.window_size == layout.n,
{
    law_steps_spread_the_windows_over_the_data(
        layout.n as nat,
        layout.window_size as nat,
        layout.num_windows as nat,
    );
    let step = layout.step();
    assert(0 * step == 0) by (nonlinear_arith);
    assert(i * step >= 0) by (nonlinear_arith)
        requires
            i >= 0,
            step >= 1,
    ;
}

/// There are three windows at least and eight at most. Beyond three, a number
/// is used where the data has five hundred bars for each and a thousand in all,
/// and ninety days for each or as many segments; the largest such number is.
pub proof fn law_automatic_windows_need_bars_and_days(days: nat, bars: nat, segments: nat, k: int)
    requires
        3 < k <= 8,
    ensures
        3 <= auto_windows(days, bars, segments) <= 8,
        auto_windows(days, bars, segments) >= k <==> bars >= 1000 && bars >= 500 * k && (days >= 90 * k || segments >= k),
{
}

/// Training takes seven tenths of a window, rounded down, and testing the
/// rest; one bar may move to the test where the tenths come out even.
pub proof fn law_training_takes_seven_tenths(n: usize, span: int, size: usize)
    requires
        0 < size < EXACT_COUNTS_END,
    ensures
        ({
            let sizes = sizes_for(n as nat, span, size as nat);
            &&& sizes.train_size + sizes.test_size == size
            &&& 10 * sizes.train_size <= 7 * size
            &&& 10 * sizes.train_size + 20 > 7 * size
            &&& size % 10 != 0 ==> 10 * sizes.train_size + 10 > 7 * size
        }),
{
    lemma_seven_tenths(size as nat);
}

/// The quick check draws on the first seven tenths, rounded down, and on one
/// bar at least.
pub proof fn law_quick_check_takes_seven_tenths(n: nat)
    requires
        n < EXACT_COUNTS_END,
    ensures
        n == 0 ==> training_end(n) == 0,
        n >= 1 ==> 1 <= training_end(n) <= n,
        n >= 2 ==> 10 * training_end(n) <= 7 * n && 10 * training_end(n) + 20 > 7 * n,
        n % 10 != 0 && n >= 2 ==> 10 * training_end(n) + 10 > 7 * n,
{
    if n > 0 {
        lemma_seven_tenths(n);
    }
}

/// Windows share the data: as many bars each as there are for all of them.
pub proof fn law_windows_share_the_data_evenly(n: usize, count: usize)
    requires
        count > 0,
    ensures
        layout_for(n, count).n == n,
        layout_for(n, count).num_windows == count,
        layout_for(n, count).window_size * count <= n < (layout_for(n, count).window_size + 1) * count,
        layout_for(n, 0) == (WindowLayout { num_windows: 0, ..layout_for(n, 1) }),
{
    let q = n as int / count as int;
    assert(q * count <= n < (q + 1) * count) by (nonlinear_arith)
        requires
            q == n as int / count as int,
            count > 0,
    ;
    assert(0 <= q <= n) by (nonlinear_arith)
        requires
            q == n as int / count as int,
            count > 0,
    ;
}

/// A window that fits is kept, with its training slice first, the embargo
/// behind it and the test slice at its end; one that does not fit is dropped.
pub proof fn law_windows_that_fit_are_kept(sizes: SliceSizes, n: nat, offsets: Seq<usize>, next: usize)
    requires
        n <= usize::MAX,
    ensures
        fitting_bounds(sizes, n, Seq::empty()) == Seq::<WindowBounds>::empty(),
        next + sizes.train_size + sizes.purge_gap_bars + sizes.test_size > n ==> fitting_bounds(
            sizes,
            n,
            offsets.push(next),
        ) == fitting_bounds(sizes, n, offsets),
        next + sizes.train_size + sizes.purge_gap_bars + sizes.test_size <= n ==> ({
            let kept = fitting_bounds(sizes, n, offsets.push(next));
            &&& kept.drop_last() == fitting_bounds(sizes, n, offsets)
            &&& kept.last().train_start == next
            &&& kept.last().train_end - kept.last().train_start == sizes.train_size
            &&& kept.last().test_start - kept.last().train_end == sizes.purge_gap_bars
            &&& kept.last().test_end - kept.last().test_start == sizes.test_size
        }),
{
    assert(offsets.push(next).drop_last() =~= offsets);
    if fits(sizes, n, next as int) {
        let kept = fitting_bounds(sizes, n, offsets.push(next));
        assert(kept == fitting_bounds(sizes, n, offsets).push(bounds_at(sizes, next as int)));
        assert(kept.drop_last() =~= fitting_bounds(sizes, n, offsets));
    }
}

/// A window reports the training figures of its training run and the test
/// figures of its test run, with the times of its first and last bars.
pub proof fn law_windows_report_their_own_runs<N: Number>(
    value: spec_fn(N) -> real,
    bounds: WindowBounds,
    train: BacktestResult<N>,
    test: BacktestResult<N>,
    bars_per_year: N,
    times: Seq<i64>,
    regime: Option<VolatilityRegime>,
)
    requires
        reads_exactly(value),
        bounds.train_start < bounds.train_end <= bounds.test_start < bounds.test_end <= times.len(),
    ensures
        ({
            let window = window_of(bounds, train, test, bars_per_year, times, regime);
            &&& window.train_start_idx == bounds.train_start && window.train_end_idx == bounds.train_end
            &&& window.test_start_idx == bounds.test_start && window.test_end_idx == bounds.test_end
            &&& window.train_start_date == Some(times[bounds.train_start as int])
            &&& window.train_end_date == Some(times[bounds.train_end - 1])
            &&& window.test_start_date == Some(times[bounds.test_start as int])
            &&& window.test_end_date == Some(times[bounds.test_end - 1])
            &&& window.train_pnl == train.total_pnl && window.test_pnl == test.total_pnl
            &&& window.train_trades == train.num_trades && window.test_trades == test.num_trades
            &&& train.sharpe_ratio matches Some(ratio) ==> window.train_sharpe == ratio
            &&& train.sharpe_ratio is None ==> value(window.train_sharpe) == 0real
            &&& window.test_sharpe == test_sharpe_of(test.equity_curve@, test.sharpe_ratio, bars_per_year)
            &&& test.win_rate matches Some(rate) ==> window.test_win_rate == rate
            &&& test.win_rate is None ==> value(window.test_win_rate) == 0real
            &&& window.test_max_drawdown == test.max_drawdown
            &&& test.profit_factor matches Some(factor) ==> window.test_profit_factor == factor
            &&& test.profit_factor is None ==> value(window.test_profit_factor) == 0real
            &&& window.test_regime == regime
        }),
{
    assert(value(N::whole(0)) == 0real);
}

/// The lists over the windows hold, for each, the figure they are named for.
pub proof fn law_lists_hold_the_figures_of_each_window<N: Number>(windows: Seq<WalkForwardWindow<N>>, i: int)
    requires
        0 <= i < windows.len(),
    ensures
        test_pnls(windows).len() == windows.len() && test_pnls(windows)[i] == windows[i].test_pnl,
        train_sharpes(windows).len() == windows.len() && train_sharpes(windows)[i] == windows[i].train_sharpe,
        tested_regimes(windows).len() == windows.len() && tested_regimes(windows)[i] == windows[i].test_regime,
{
}

proof fn lemma_present_after(all: Seq<Option<VolatilityRegime>>, next: Option<VolatilityRegime>, label: VolatilityRegime)
    ensures
        is_present(all.push(next), label) <==> is_present(all, label) || next == Some(label),
{
    let longer = all.push(next);
    if is_present(all, label) {
        let i = choose|i: int| 0 <= i < all.len() && #[trigger] all[i] == Some(label);
        assert(longer[i] == Some(label));
    }
    if next == Some(label) {
        assert(longer[all.len() as int] == Some(label));
    }
    if is_present(longer, label) {
        let i = choose|i: int| 0 <= i < longer.len() && #[trigger] longer[i] == Some(label);
        if i < all.len() {
            assert(all[i] == Some(label));
        }
    }
}

/// A bar adds to the regimes of the data exactly where it is the first of its
/// own.
pub proof fn law_regimes_are_counted_once(all: Seq<Option<VolatilityRegime>>, label: VolatilityRegime)
    ensures
        regimes_in(Seq::empty()) == 0,
        regimes_in(all.push(None)) == regimes_in(all),
        regimes_in(all.push(Some(label))) == regimes_in(all) + if exists|i: int|
            0 <= i < all.len() && #[trigger] all[i] == Some(label) {
            0int
        } else {
            1
        },
{
    lemma_present_after(all, None, VolatilityRegime::Low);
    lemma_present_after(all, None, VolatilityRegime::Medium);
    lemma_present_after(all, None, VolatilityRegime::High);
    lemma_present_after(all, Some(label), VolatilityRegime::Low);
    lemma_present_after(all, Some(label), VolatilityRegime::Medium);
    lemma_present_after(all, Some(label), VolatilityRegime::High);
}

/// An asset shows the edge where the strategy trades on it and gains.
pub proof fn law_edges_are_gains_with_trades<N: Number>(value: spec_fn(N) -> real, trades: usize, pnl: N)
    requires
        reads_exactly(value),
    ensures
        shows_edge(AssetOutcome::Ran { num_trades: trades, total_pnl: pnl }) <==> trades > 0 && value(pnl) > 0real,
        forall|outcome: AssetOutcome<N>| !(outcome is Ran) ==> !#[trigger] shows_edge(outcome),
{
    assert(value(N::whole(0)) == 0real);
}

} // verus!
