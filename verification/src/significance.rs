//! How far chance explains a result: significance of a Sharpe ratio and
//! confidence intervals by resampling.
//!
//! The exponential and the logarithm are handed in as functions.

use rand::{Rng, SeedableRng};
use vstd::prelude::*;

use crate::double::{nearest_to, part_of, Double};
use crate::measures::{add_squares, count_positive, in_order, mean, mean_of, positives, sort_values, square_sum};
use crate::number::{add_up, one_is_neutral, ratio, ratio_of, total, Number};

verus! {

/// Significance of a Sharpe ratio.
#[derive(Debug, Clone, Copy, PartialEq)]
pub struct SignificanceResult<N> {
    /// Annualised.
    pub sharpe_ratio: N,
    /// Annualised.
    pub sharpe_std_error: N,
    pub t_statistic: N,
    /// One-sided.
    pub p_value: N,
    pub is_significant_5pct: bool,
    pub is_significant_1pct: bool,
    pub probabilistic_sharpe_ratio: N,
    pub ci_95_lower: N,
    pub ci_95_upper: N,
    /// Returns that it takes to be significant, where that can be said.
    pub min_track_record_length: Option<usize>,
    pub n_observations: usize,
    pub skewness: N,
    /// Excess kurtosis.
    pub kurtosis: N,
}

/// Confidence intervals by resampling.
#[derive(Debug, PartialEq)]
pub struct BootstrapConfidenceIntervals<N> {
    pub n_iterations: usize,
    pub sharpe_ci_95: (N, N),
    pub sharpe_ci_99: (N, N),
    pub return_ci_95: (N, N),
    pub max_drawdown_ci_95: (N, N),
    pub win_rate_ci_95: (N, N),
    pub profit_factor_ci_95: (N, N),
}

impl<N: Number> Clone for BootstrapConfidenceIntervals<N> {
    fn clone(&self) -> (copy: Self)
        ensures
            copy == *self,
    {
        BootstrapConfidenceIntervals {
            n_iterations: self.n_iterations,
            sharpe_ci_95: (self.sharpe_ci_95.0, self.sharpe_ci_95.1),
            sharpe_ci_99: (self.sharpe_ci_99.0, self.sharpe_ci_99.1),
            return_ci_95: (self.return_ci_95.0, self.return_ci_95.1),
            max_drawdown_ci_95: (self.max_drawdown_ci_95.0, self.max_drawdown_ci_95.1),
            win_rate_ci_95: (self.win_rate_ci_95.0, self.win_rate_ci_95.1),
            profit_factor_ci_95: (self.profit_factor_ci_95.0, self.profit_factor_ci_95.1),
        }
    }
}

/// Nothing can be said of so many returns.
pub open spec fn no_significance<N: Number>(n: usize) -> SignificanceResult<N> {
    SignificanceResult {
        sharpe_ratio: N::whole(0),
        sharpe_std_error: N::whole(0),
        t_statistic: N::whole(0),
        p_value: N::whole(1),
        is_significant_5pct: false,
        is_significant_1pct: false,
        probabilistic_sharpe_ratio: ratio_of::<N>(1, 2),
        ci_95_lower: N::whole(0),
        ci_95_upper: N::whole(0),
        min_track_record_length: None,
        n_observations: n,
        skewness: N::whole(0),
        kurtosis: N::whole(0),
    }
}

fn nothing_to_say<N: Number>(n: usize) -> (result: SignificanceResult<N>)
    ensures
        result == no_significance::<N>(n),
{
    SignificanceResult {
        sharpe_ratio: N::of(0),
        sharpe_std_error: N::of(0),
        t_statistic: N::of(0),
        p_value: N::of(1),
        is_significant_5pct: false,
        is_significant_1pct: false,
        probabilistic_sharpe_ratio: ratio(1, 2),
        ci_95_lower: N::of(0),
        ci_95_upper: N::of(0),
        min_track_record_length: None,
        n_observations: n,
        skewness: N::of(0),
        kurtosis: N::of(0),
    }
}

/// Standard deviation of a sample.
pub open spec fn sample_deviation<N: Number>(changes: Seq<N>) -> N {
    square_sum(changes, mean_of(changes)).quotient(N::counted((changes.len() - 1) as usize)).root()
}

/// The standardised values raised to a power, added up in order.
pub open spec fn power_sum<N: Number>(changes: Seq<N>, centre: N, scale: N, power: u32) -> N
    decreases changes.len(),
{
    if changes.len() == 0 {
        N::whole(0)
    } else {
        power_sum(changes.drop_last(), centre, scale, power).sum(
            changes.last().difference(centre).quotient(scale).raised(power),
        )
    }
}

fn add_powers<N: Number>(changes: &[N], centre: N, scale: N, power: u32) -> (r: N)
    ensures
        r == power_sum(changes@, centre, scale, power),
{
    let mut r: N = N::of(0);
    let mut i: usize = 0;
    assert(changes@.take(0) =~= Seq::empty());
    while i < changes.len()
        invariant
            i <= changes@.len(),
            r == power_sum(changes@.take(i as int), centre, scale, power),
        decreases changes@.len() - i,
    {
        assert(changes@.take(i as int + 1).drop_last() =~= changes@.take(i as int));
        r = r.plus(changes[i].minus(centre).over(scale).power(power));
        i = i + 1;
    }
    assert(changes@.take(i as int) =~= changes@);
    r
}

/// A moment of the standardised values.
pub open spec fn moment<N: Number>(changes: Seq<N>, power: u32) -> N {
    power_sum(changes, mean_of(changes), sample_deviation(changes), power).quotient(
        N::counted(changes.len() as usize),
    )
}

/// Sharpe ratio of a period.
pub open spec fn period_sharpe<N: Number>(changes: Seq<N>) -> N {
    mean_of(changes).quotient(sample_deviation(changes))
}

/// Excess kurtosis.
pub open spec fn excess_kurtosis<N: Number>(changes: Seq<N>) -> N {
    moment(changes, 4).difference(N::whole(3))
}

/// Standard error of the Sharpe ratio of a period, with the skewness and the
/// kurtosis of the returns.
pub open spec fn sharpe_error<N: Number>(changes: Seq<N>) -> N {
    let sharpe = period_sharpe(changes);
    let square = sharpe.raised(2);
    N::whole(1).sum(ratio_of::<N>(1, 2).product(square)).difference(moment(changes, 3).product(sharpe)).sum(
        excess_kurtosis(changes).quotient(N::whole(4)).product(square),
    ).quotient(N::counted((changes.len() - 1) as usize)).root()
}

/// The returns hardly vary.
pub open spec fn is_flat<N: Number>(changes: Seq<N>) -> bool {
    sample_deviation(changes).below(ratio_of::<N>(1, 10_000_000_000))
}

/// Returns that it takes for the Sharpe ratio to be significant; nothing
/// where it is not above the benchmark, where it has no error or where it
/// would take a million of them.
pub open spec fn track_record<N: Number>(n: usize, sharpe: N, error: N, benchmark: N) -> Option<usize> {
    let needed = N::counted(n).product(
        ratio_of::<N>(1645, 1000).product(error).quotient(sharpe.difference(benchmark)).raised(2),
    );
    if benchmark.below(sharpe) && N::whole(0).below(error) && needed.below(N::whole(1_000_000)) {
        Some(needed.ceiling())
    } else {
        None
    }
}

/// Argument of the exponential in [`normal_cdf`].
pub open spec fn cdf_exponent<N: Number>(x: N) -> N {
    let scaled = x.magnitude().quotient(N::whole(2).root());
    N::whole(-1i64).product(scaled).product(scaled)
}

/// Distribution function of the standard normal distribution after Abramowitz
/// and Stegun, given the exponential of [`cdf_exponent`].
pub open spec fn cdf_of<N: Number>(x: N, exponential: N) -> N {
    let scaled = x.magnitude().quotient(N::whole(2).root());
    let t = N::whole(1).quotient(N::whole(1).sum(ratio_of::<N>(3_275_911, 10_000_000).product(scaled)));
    let polynomial = ratio_of::<N>(1_061_405_429, 1_000_000_000).product(t).sum(
        ratio_of::<N>(-1_453_152_027i64, 1_000_000_000),
    ).product(t).sum(ratio_of::<N>(1_421_413_741, 1_000_000_000)).product(t).sum(
        ratio_of::<N>(-284_496_736i64, 1_000_000_000),
    ).product(t).sum(ratio_of::<N>(254_829_592, 1_000_000_000)).product(t);
    let y = N::whole(1).difference(polynomial.product(exponential));
    let sign = if x.below(N::whole(0)) { N::whole(-1i64) } else { N::whole(1) };
    ratio_of::<N>(1, 2).product(N::whole(1).sum(sign.product(y)))
}

/// The number is what the distribution function gives with this exponential.
pub open spec fn is_cdf<N: Number, F: Fn(N) -> N>(exp: F, x: N, r: N) -> bool {
    exists|exponential: N|
        #[trigger] call_ensures(exp, (cdf_exponent(x),), exponential) && r == cdf_of(x, exponential)
}

/// Distribution function of the standard normal distribution.
pub fn normal_cdf<N: Number, F: Fn(N) -> N>(x: N, exp: &F) -> (r: N)
    requires
        forall|argument: N| call_requires(*exp, (argument,)),
    ensures
        is_cdf(*exp, x, r),
{
    let scaled: N = x.abs().over(N::of(2).sqrt());
    let t: N = N::of(1).over(N::of(1).plus(ratio::<N>(3_275_911, 10_000_000).times(scaled)));
    let exponential: N = (*exp)(N::of(-1).times(scaled).times(scaled));
    let polynomial: N = ratio::<N>(1_061_405_429, 1_000_000_000).times(t).plus(
        ratio(-1_453_152_027, 1_000_000_000),
    ).times(t).plus(ratio(1_421_413_741, 1_000_000_000)).times(t).plus(ratio(-284_496_736, 1_000_000_000)).times(
        t,
    ).plus(ratio(254_829_592, 1_000_000_000)).times(t);
    let y: N = N::of(1).minus(polynomial.times(exponential));
    let sign: N = if x.lt(N::of(0)) { N::of(-1) } else { N::of(1) };
    let r: N = ratio::<N>(1, 2).times(N::of(1).plus(sign.times(y)));
    assert(call_ensures(*exp, (cdf_exponent(x),), exponential));
    assert(r == cdf_of(x, exponential));
    r
}

/// What a significance test says of returns that vary.
pub open spec fn is_significance<N: Number, F: Fn(N) -> N>(
    changes: Seq<N>,
    benchmark: N,
    annualization_factor: N,
    exp: F,
    result: SignificanceResult<N>,
) -> bool {
    let sharpe = period_sharpe(changes);
    let error = sharpe_error(changes);
    let t = sharpe.quotient(error);
    let year = annualization_factor.root();
    let margin = ratio_of::<N>(196, 100).product(error);
    &&& result.sharpe_ratio == sharpe.product(year)
    &&& result.sharpe_std_error == error.product(year)
    &&& result.t_statistic == t
    &&& exists|cdf: N| #[trigger] is_cdf(exp, t, cdf) && result.p_value == N::whole(1).difference(cdf)
    &&& is_cdf(exp, sharpe.difference(benchmark).quotient(error), result.probabilistic_sharpe_ratio)
    &&& result.is_significant_5pct == result.p_value.below(ratio_of::<N>(1, 20))
    &&& result.is_significant_1pct == result.p_value.below(ratio_of::<N>(1, 100))
    &&& result.ci_95_lower == sharpe.difference(margin).product(year)
    &&& result.ci_95_upper == sharpe.sum(margin).product(year)
    &&& result.min_track_record_length == track_record(changes.len() as usize, sharpe, error, benchmark)
    &&& result.n_observations == changes.len()
    &&& result.skewness == moment(changes, 3)
    &&& result.kurtosis == excess_kurtosis(changes)
}

/// Tests whether the Sharpe ratio of a series of returns is above zero, and
/// how probably it is above a benchmark.
pub fn compute_sharpe_significance<N: Number, F: Fn(N) -> N>(
    changes: &[N],
    benchmark_sharpe: N,
    annualization_factor: N,
    exp: &F,
) -> (result: SignificanceResult<N>)
    requires
        forall|argument: N| call_requires(*exp, (argument,)),
    ensures
        changes@.len() < 2 || is_flat(changes@) ==> result == no_significance::<N>(changes@.len() as usize),
        changes@.len() >= 2 && !is_flat(changes@) ==> is_significance(
            changes@,
            benchmark_sharpe,
            annualization_factor,
            *exp,
            result,
        ),
        changes@.len() < 2 || is_flat(changes@) ==> !result.is_significant_5pct && !result.is_significant_1pct,
        changes@.len() >= 2 && !is_flat(changes@) ==> {
            &&& result.is_significant_5pct <==> result.p_value.below(N::whole(1).quotient(N::whole(20)))
            &&& result.is_significant_1pct <==> result.p_value.below(N::whole(1).quotient(N::whole(100)))
        },
{
    let n: usize = changes.len();
    assert(changes@.len() == n);
    if n < 2 {
        return nothing_to_say(n);
    }
    let average: N = mean(changes);
    let deviation: N = add_squares(changes, average).over(N::count(n - 1)).sqrt();
    if deviation.lt(ratio(1, 10_000_000_000)) {
        return nothing_to_say(n);
    }
    let sharpe: N = average.over(deviation);
    let year: N = annualization_factor.sqrt();
    let skewness: N = add_powers(changes, average, deviation, 3).over(N::count(n));
    let kurtosis: N = add_powers(changes, average, deviation, 4).over(N::count(n)).minus(N::of(3));
    let square: N = sharpe.power(2);
    let error: N = N::of(1).plus(ratio::<N>(1, 2).times(square)).minus(skewness.times(sharpe)).plus(
        kurtosis.over(N::of(4)).times(square),
    ).over(N::count(n - 1)).sqrt();
    let t: N = sharpe.over(error);
    let cdf: N = normal_cdf(t, exp);
    let p_value: N = N::of(1).minus(cdf);
    assert(is_cdf(*exp, t, cdf));
    let psr: N = normal_cdf(sharpe.minus(benchmark_sharpe).over(error), exp);
    let margin: N = ratio::<N>(196, 100).times(error);
    let needed: N = N::count(n).times(
        ratio::<N>(1645, 1000).times(error).over(sharpe.minus(benchmark_sharpe)).power(2),
    );
    let min_track_record_length: Option<usize> = if benchmark_sharpe.lt(sharpe) && N::of(0).lt(error) && needed.lt(
        N::of(1_000_000),
    ) {
        Some(needed.ceil())
    } else {
        None
    };
    SignificanceResult {
        sharpe_ratio: sharpe.times(year),
        sharpe_std_error: error.times(year),
        t_statistic: t,
        p_value,
        is_significant_5pct: p_value.lt(ratio(1, 20)),
        is_significant_1pct: p_value.lt(ratio(1, 100)),
        probabilistic_sharpe_ratio: psr,
        ci_95_lower: sharpe.minus(margin).times(year),
        ci_95_upper: sharpe.plus(margin).times(year),
        min_track_record_length,
        n_observations: n,
        skewness,
        kurtosis,
    }
}

/// Probability that a Sharpe ratio is above the best that chance alone would
/// give among the strategies that were tried.
pub fn compute_deflated_sharpe_ratio<N: Number, F: Fn(N) -> N>(
    sharpe: N,
    sharpe_std_error: N,
    num_strategies_tested: usize,
    expected_max_sharpe_if_null: N,
    exp: &F,
) -> (r: N)
    requires
        forall|argument: N| call_requires(*exp, (argument,)),
    ensures
        if sharpe_std_error.at_most(N::whole(0)) || num_strategies_tested == 0 {
            r == N::whole(0)
        } else {
            is_cdf(*exp, sharpe.difference(expected_max_sharpe_if_null).quotient(sharpe_std_error), r)
        },
{
    if sharpe_std_error.le(N::of(0)) || num_strategies_tested == 0 {
        N::of(0)
    } else {
        normal_cdf(sharpe.minus(expected_max_sharpe_if_null).over(sharpe_std_error), exp)
    }
}

/// The circle constant in double precision.
pub open spec fn circle_constant<N: Number>() -> N {
    ratio_of::<N>(884_279_719_003_555, 281_474_976_710_656)
}

/// Best Sharpe ratio to expect of chance, given the logarithm of the number
/// of strategies, the logarithm of that and the logarithm of four times the
/// circle constant.
pub open spec fn max_sharpe_of<N: Number>(log: N, log_log: N, log_circle: N, periods: usize) -> N {
    let root = N::whole(2).product(log).root();
    let t = N::counted(periods);
    root.difference(log_log.sum(log_circle).quotient(N::whole(2).product(root))).product(
        t.difference(N::whole(1)).quotient(t).root(),
    )
}

/// Best Sharpe ratio to expect of chance among so many strategies without
/// skill.
pub fn expected_max_sharpe_under_null<N: Number, F: Fn(N) -> N>(
    num_strategies: usize,
    lookback_periods: usize,
    ln: &F,
) -> (r: N)
    requires
        forall|argument: N| call_requires(*ln, (argument,)),
    ensures
        num_strategies == 0 || lookback_periods == 0 ==> r == N::whole(0),
        num_strategies > 0 && lookback_periods > 0 ==> exists|log: N|
            #[trigger] call_ensures(*ln, (N::counted(num_strategies),), log) && if log.at_most(N::whole(0)) {
                r == N::whole(0)
            } else {
                exists|log_log: N, log_circle: N| #[trigger]
                    call_ensures(*ln, (log,), log_log) && #[trigger] call_ensures(
                        *ln,
                        (N::whole(4).product(circle_constant::<N>()),),
                        log_circle,
                    ) && r == max_sharpe_of(log, log_log, log_circle, lookback_periods)
            },
{
    if num_strategies == 0 || lookback_periods == 0 {
        return N::of(0);
    }
    let log: N = (*ln)(N::count(num_strategies));
    if log.le(N::of(0)) {
        return N::of(0);
    }
    let root: N = N::of(2).times(log).sqrt();
    let log_log: N = (*ln)(log);
    let circle: N = ratio(884_279_719_003_555, 281_474_976_710_656);
    let log_circle: N = (*ln)(N::of(4).times(circle));
    let t: N = N::count(lookback_periods);
    let r: N = root.minus(log_log.plus(log_circle).over(N::of(2).times(root))).times(
        t.minus(N::of(1)).over(t).sqrt(),
    );
    assert(call_ensures(*ln, (N::counted(num_strategies),), log));
    assert(call_ensures(*ln, (log,), log_log));
    assert(call_ensures(*ln, (N::whole(4).product(circle_constant::<N>()),), log_circle));
    assert(r == max_sharpe_of(log, log_log, log_circle, lookback_periods));
    r
}

/// What a resampled series comes to.
#[derive(Debug, Clone, Copy, PartialEq)]
pub struct SampleMetrics<N> {
    pub sharpe: N,
    pub total_return: N,
    pub max_drawdown: N,
    pub win_rate: N,
    pub profit_factor: N,
}

/// Equity, its peak and the largest fall from it, along returns that add up.
pub struct FallState<N> {
    pub equity: N,
    pub peak: N,
    pub fall: N,
}

/// The state along the returns.
pub open spec fn fall_along<N: Number>(changes: Seq<N>) -> FallState<N>
    decreases changes.len(),
{
    if changes.len() == 0 {
        FallState { equity: N::whole(0), peak: N::whole(0), fall: N::whole(0) }
    } else {
        let before = fall_along(changes.drop_last());
        let equity = before.equity.sum(changes.last());
        let peak = if before.peak.below(equity) { equity } else { before.peak };
        let fall = peak.difference(equity).quotient(N::whole(1).sum(peak.larger(N::whole(0))));
        FallState { equity, peak, fall: if before.fall.below(fall) { fall } else { before.fall } }
    }
}

/// Sizes of the losses, added up in order.
pub open spec fn loss_sizes<N: Number>(changes: Seq<N>) -> N
    decreases changes.len(),
{
    if changes.len() == 0 {
        N::whole(0)
    } else {
        let before = loss_sizes(changes.drop_last());
        if changes.last().below(N::whole(0)) {
            before.sum(changes.last().magnitude())
        } else {
            before
        }
    }
}

/// The gains, added up in order.
pub open spec fn gain_sizes<N: Number>(changes: Seq<N>) -> N
    decreases changes.len(),
{
    if changes.len() == 0 {
        N::whole(0)
    } else {
        let before = gain_sizes(changes.drop_last());
        if N::whole(0).below(changes.last()) {
            before.sum(changes.last())
        } else {
            before
        }
    }
}

/// What a series of returns comes to. Returns add up; they are not
/// compounded.
pub open spec fn metrics_of<N: Number>(changes: Seq<N>) -> SampleMetrics<N> {
    if changes.len() == 0 {
        SampleMetrics {
            sharpe: N::whole(0),
            total_return: N::whole(0),
            max_drawdown: N::whole(0),
            win_rate: N::whole(0),
            profit_factor: N::whole(0),
        }
    } else {
        let n = N::counted(changes.len() as usize);
        let average = mean_of(changes);
        let deviation = square_sum(changes, average).quotient(n).root();
        let factor = if N::whole(0).below(loss_sizes(changes)) {
            gain_sizes(changes).quotient(loss_sizes(changes))
        } else {
            N::limit()
        };
        SampleMetrics {
            sharpe: if ratio_of::<N>(1, 10_000_000_000).below(deviation) {
                average.quotient(deviation)
            } else {
                N::whole(0)
            },
            total_return: total(changes),
            max_drawdown: fall_along(changes).fall,
            win_rate: N::counted(positives(changes) as usize).quotient(n),
            profit_factor: factor.smaller(N::whole(100)),
        }
    }
}

/// Computes what a series of returns comes to.
pub fn compute_sample_metrics<N: Number>(changes: &[N]) -> (metrics: SampleMetrics<N>)
    ensures
        metrics == metrics_of(changes@),
{
    let n: usize = changes.len();
    assert(changes@.len() == n);
    if n == 0 {
        return SampleMetrics {
            sharpe: N::of(0),
            total_return: N::of(0),
            max_drawdown: N::of(0),
            win_rate: N::of(0),
            profit_factor: N::of(0),
        };
    }
    let average: N = mean(changes);
    let deviation: N = add_squares(changes, average).over(N::count(n)).sqrt();
    let sharpe: N = if ratio::<N>(1, 10_000_000_000).lt(deviation) { average.over(deviation) } else { N::of(0) };
    let mut equity: N = N::of(0);
    let mut peak: N = N::of(0);
    let mut fall: N = N::of(0);
    let mut gains: N = N::of(0);
    let mut losses: N = N::of(0);
    let mut i: usize = 0;
    assert(changes@.take(0) =~= Seq::empty());
    while i < n
        invariant
            n == changes@.len(),
            i <= n,
            fall_along(changes@.take(i as int)) == (FallState { equity, peak, fall }),
            gains == gain_sizes(changes@.take(i as int)),
            losses == loss_sizes(changes@.take(i as int)),
        decreases n - i,
    {
        assert(changes@.take(i as int + 1).drop_last() =~= changes@.take(i as int));
        let change: N = changes[i];
        equity = equity.plus(change);
        if peak.lt(equity) {
            peak = equity;
        }
        let drop: N = peak.minus(equity).over(N::of(1).plus(peak.max(N::of(0))));
        if fall.lt(drop) {
            fall = drop;
        }
        if N::of(0).lt(change) {
            gains = gains.plus(change);
        }
        if change.lt(N::of(0)) {
            losses = losses.plus(change.abs());
        }
        i = i + 1;
    }
    assert(changes@.take(i as int) =~= changes@);
    let factor: N = if N::of(0).lt(losses) { gains.over(losses) } else { N::largest() };
    SampleMetrics {
        sharpe,
        total_return: add_up(changes),
        max_drawdown: fall,
        win_rate: N::count(count_positive(changes)).over(N::count(n)),
        profit_factor: factor.min(N::of(100)),
    }
}

/// What a seeded generator draws: so many numbers below a bound.
pub uninterp spec fn seeded_draws(seed: u64, bound: u64, count: nat) -> Seq<u64>;

/// Calls `StdRng::seed_from_u64` and, so many times, `Rng::gen_range` from
/// zero up to the bound. The numbers drawn are below the bound and, with the
/// version of the generator that the library is built with, depend on the
/// seed, the bound and their count alone.
#[verifier::external_body]
fn draws(seed: u64, bound: u64, count: usize) -> (picks: Vec<u64>)
    requires
        bound > 0,
    ensures
        picks@ == seeded_draws(seed, bound, count as nat),
        picks@.len() == count,
        forall|i: int| 0 <= i < picks@.len() ==> #[trigger] picks@[i] < bound,
{
    let mut rng = rand::rngs::StdRng::seed_from_u64(seed);
    (0..count).map(|_| rng.gen_range(0..bound)).collect()
}

/// The values at some places.
pub open spec fn picked<N>(values: Seq<N>, picks: Seq<u64>) -> Seq<N> {
    picks.map_values(|pick: u64| values[pick as int])
}

/// Takes the values at some places.
pub fn pick<N: Number>(values: &[N], picks: &[u64]) -> (sample: Vec<N>)
    requires
        forall|i: int| 0 <= i < picks@.len() ==> #[trigger] picks@[i] < values@.len(),
    ensures
        sample@ == picked(values@, picks@),
{
    let mut sample: Vec<N> = Vec::new();
    let mut i: usize = 0;
    while i < picks.len()
        invariant
            i <= picks@.len(),
            forall|k: int| 0 <= k < picks@.len() ==> #[trigger] picks@[k] < values@.len(),
            sample@ =~= picked(values@, picks@.take(i as int)),
        decreases picks@.len() - i,
    {
        assert(picks@[i as int] < values@.len());
        sample.push(values[picks[i] as usize]);
        i = i + 1;
    }
    assert(picks@.take(i as int) =~= picks@);
    sample
}

/// A series of the same length, drawn with replacement.
pub open spec fn resampled<N>(values: Seq<N>, seed: u64) -> Seq<N> {
    picked(values, seeded_draws(seed, values.len() as u64, values.len()))
}

/// What a series comes to that is drawn with replacement, from this seed.
pub fn bootstrap_sample<N: Number>(values: &[N], seed: u64) -> (metrics: SampleMetrics<N>)
    requires
        values@.len() > 0,
    ensures
        metrics == metrics_of(resampled(values@, seed)),
{
    let n: usize = values.len();
    assert(values@.len() == n);
    let picks: Vec<u64> = draws(seed, n as u64, n);
    let sample: Vec<N> = pick(values, picks.as_slice());
    compute_sample_metrics(sample.as_slice())
}

/// Place of a quantile among so many sorted values: the whole part of their
/// share, in double precision, and a place that there is.
pub open spec fn quantile_place(count: nat, num: nat, den: nat) -> int {
    let part = part_of(count, num, den);
    if part < count {
        part as int
    } else {
        count - 1
    }
}

/// Place of a quantile among so many sorted values.
fn find_quantile(count: usize, num: u64, den: u64) -> (place: usize)
    requires
        count > 0,
        0 < num,
        0 < den,
    ensures
        place == quantile_place(count as nat, num as nat, den as nat),
        place < count,
{
    let share: Double = nearest_to(num as u128, den as u128);
    let part: usize = nearest_to(count as u128, 1).times(&share).whole_part();
    if part < count {
        part
    } else {
        count - 1
    }
}

/// Range between two quantiles of some values.
pub open spec fn interval_of<N: Number>(values: Seq<N>, low: nat, high: nat, den: nat) -> (N, N) {
    let sorted = in_order(values);
    (sorted[quantile_place(values.len(), low, den)], sorted[quantile_place(values.len(), high, den)])
}

fn find_interval<N: Number>(values: &Vec<N>, low: u64, high: u64, den: u64) -> (interval: (N, N))
    requires
        values@.len() > 0,
        0 < low,
        0 < high,
        0 < den,
    ensures
        interval == interval_of(values@, low as nat, high as nat, den as nat),
{
    let sorted: Vec<N> = sort_values(values.as_slice());
    let n: usize = values.len();
    assert(values@.len() == n);
    let first: usize = find_quantile(n, low, den);
    let last: usize = find_quantile(n, high, den);
    (sorted[first], sorted[last])
}

/// A range with both ends multiplied.
pub open spec fn scaled<N: Number>(interval: (N, N), factor: N) -> (N, N) {
    (interval.0.product(factor), interval.1.product(factor))
}

/// Confidence intervals from what resampled series came to: the middle 95 or
/// 99 percent of each figure, the Sharpe ratios annualised.
pub open spec fn intervals_of<N: Number>(samples: Seq<SampleMetrics<N>>, annualization_factor: N) -> BootstrapConfidenceIntervals<
    N,
> {
    let sharpes = samples.map_values(|s: SampleMetrics<N>| s.sharpe);
    let year = annualization_factor.root();
    BootstrapConfidenceIntervals {
        n_iterations: samples.len() as usize,
        sharpe_ci_95: scaled(interval_of(sharpes, 25, 975, 1000), year),
        sharpe_ci_99: scaled(interval_of(sharpes, 5, 995, 1000), year),
        return_ci_95: interval_of(samples.map_values(|s: SampleMetrics<N>| s.total_return), 25, 975, 1000),
        max_drawdown_ci_95: interval_of(samples.map_values(|s: SampleMetrics<N>| s.max_drawdown), 25, 975, 1000),
        win_rate_ci_95: interval_of(samples.map_values(|s: SampleMetrics<N>| s.win_rate), 25, 975, 1000),
        profit_factor_ci_95: interval_of(samples.map_values(|s: SampleMetrics<N>| s.profit_factor), 25, 975, 1000),
    }
}

/// Confidence intervals from what at least one resampled series came to.
pub fn bootstrap_intervals<N: Number>(samples: &[SampleMetrics<N>], annualization_factor: N) -> (intervals:
    BootstrapConfidenceIntervals<N>)
    requires
        samples@.len() > 0,
    ensures
        intervals == intervals_of(samples@, annualization_factor),
{
    let mut sharpes: Vec<N> = Vec::new();
    let mut totals: Vec<N> = Vec::new();
    let mut falls: Vec<N> = Vec::new();
    let mut wins: Vec<N> = Vec::new();
    let mut factors: Vec<N> = Vec::new();
    let n: usize = samples.len();
    let mut i: usize = 0;
    while i < n
        invariant
            n == samples@.len(),
            i <= n,
            sharpes@ =~= samples@.take(i as int).map_values(|s: SampleMetrics<N>| s.sharpe),
            totals@ =~= samples@.take(i as int).map_values(|s: SampleMetrics<N>| s.total_return),
            falls@ =~= samples@.take(i as int).map_values(|s: SampleMetrics<N>| s.max_drawdown),
            wins@ =~= samples@.take(i as int).map_values(|s: SampleMetrics<N>| s.win_rate),
            factors@ =~= samples@.take(i as int).map_values(|s: SampleMetrics<N>| s.profit_factor),
        decreases n - i,
    {
        sharpes.push(samples[i].sharpe);
        totals.push(samples[i].total_return);
        falls.push(samples[i].max_drawdown);
        wins.push(samples[i].win_rate);
        factors.push(samples[i].profit_factor);
        i = i + 1;
    }
    assert(samples@.take(i as int) =~= samples@);
    let year: N = annualization_factor.sqrt();
    let (low_95, high_95): (N, N) = find_interval(&sharpes, 25, 975, 1000);
    let (low_99, high_99): (N, N) = find_interval(&sharpes, 5, 995, 1000);
    BootstrapConfidenceIntervals {
        n_iterations: n,
        sharpe_ci_95: (low_95.times(year), high_95.times(year)),
        sharpe_ci_99: (low_99.times(year), high_99.times(year)),
        return_ci_95: find_interval(&totals, 25, 975, 1000),
        max_drawdown_ci_95: find_interval(&falls, 25, 975, 1000),
        win_rate_ci_95: find_interval(&wins, 25, 975, 1000),
        profit_factor_ci_95: find_interval(&factors, 25, 975, 1000),
    }
}

/// The resampled series, one for each seed.
pub open spec fn bootstrap_samples<N: Number>(values: Seq<N>, n_iterations: nat) -> Seq<SampleMetrics<N>> {
    Seq::new(n_iterations, |seed: int| metrics_of(resampled(values, seed as u64)))
}

/// Confidence intervals of some trade returns by resampling, one series for
/// each seed from zero on. Fewer than three returns say nothing.
pub fn compute_bootstrap_confidence_intervals<N: Number>(
    trade_returns: &[N],
    n_iterations: usize,
    annualization_factor: N,
) -> (intervals: BootstrapConfidenceIntervals<N>)
    requires
        n_iterations > 0 || trade_returns@.len() < 3,
    ensures
        trade_returns@.len() < 3 ==> intervals == (BootstrapConfidenceIntervals {
            n_iterations: 0,
            sharpe_ci_95: (N::whole(0), N::whole(0)),
            sharpe_ci_99: (N::whole(0), N::whole(0)),
            return_ci_95: (N::whole(0), N::whole(0)),
            max_drawdown_ci_95: (N::whole(0), N::whole(1)),
            win_rate_ci_95: (N::whole(0), N::whole(1)),
            profit_factor_ci_95: (N::whole(0), N::whole(0)),
        }),
        trade_returns@.len() >= 3 ==> intervals == intervals_of(
            bootstrap_samples(trade_returns@, n_iterations as nat),
            annualization_factor,
        ),
{
    if trade_returns.len() < 3 {
        return BootstrapConfidenceIntervals {
            n_iterations: 0,
            sharpe_ci_95: (N::of(0), N::of(0)),
            sharpe_ci_99: (N::of(0), N::of(0)),
            return_ci_95: (N::of(0), N::of(0)),
            max_drawdown_ci_95: (N::of(0), N::of(1)),
            win_rate_ci_95: (N::of(0), N::of(1)),
            profit_factor_ci_95: (N::of(0), N::of(0)),
        };
    }
    let mut samples: Vec<SampleMetrics<N>> = Vec::new();
    let mut seed: usize = 0;
    while seed < n_iterations
        invariant
            trade_returns@.len() >= 3,
            seed <= n_iterations,
            samples@.len() == seed,
            forall|k: int|
                0 <= k < seed ==> #[trigger] samples@[k] == metrics_of(resampled(trade_returns@, k as u64)),
        decreases n_iterations - seed,
    {
        samples.push(bootstrap_sample(trade_returns, seed as u64));
        seed = seed + 1;
    }
    assert(samples@ =~= bootstrap_samples(trade_returns@, n_iterations as nat));
    bootstrap_intervals(samples.as_slice(), annualization_factor)
}

/// The annualisation factor scales the Sharpe intervals and nothing else.
pub proof fn law_annualization_scales_only_sharpe<N: Number>(
    samples: Seq<SampleMetrics<N>>,
    factor: N,
    other: N,
)
    ensures
        ({
            let a = intervals_of(samples, factor);
            let b = intervals_of(samples, other);
            let sharpes = samples.map_values(|s: SampleMetrics<N>| s.sharpe);
            &&& a.sharpe_ci_95 == scaled(interval_of(sharpes, 25, 975, 1000), factor.root())
            &&& a.sharpe_ci_99 == scaled(interval_of(sharpes, 5, 995, 1000), factor.root())
            &&& a.return_ci_95 == b.return_ci_95
            &&& a.max_drawdown_ci_95 == b.max_drawdown_ci_95
            &&& a.win_rate_ci_95 == b.win_rate_ci_95
            &&& a.profit_factor_ci_95 == b.profit_factor_ci_95
        }),
{
}

/// A strategy is significant at one percent only where its value below which
/// five percent lie is reached too, if one percent is below five.
pub proof fn law_one_percent_is_stricter<N: Number, F: Fn(N) -> N>(
    changes: Seq<N>,
    benchmark: N,
    annualization_factor: N,
    exp: F,
    result: SignificanceResult<N>,
)
    requires
        is_significance(changes, benchmark, annualization_factor, exp, result),
        forall|value: N|
            value.below(ratio_of::<N>(1, 100)) ==> #[trigger] value.below(ratio_of::<N>(1, 20)),
    ensures
        result.is_significant_1pct ==> result.is_significant_5pct,
{
}

/// The confidence intervals that an annualisation factor gives are those of
/// the factor one with both bounds of the Sharpe ratio multiplied by the root
/// of the factor, and all others unchanged, where one is neutral.
pub proof fn law_annualized_intervals_scale_the_plain_ones<N: Number>(
    values: Seq<N>,
    n_iterations: nat,
    annualization_factor: N,
)
    requires
        one_is_neutral::<N>(),
    ensures
        ({
            let plain = intervals_of(bootstrap_samples(values, n_iterations), N::whole(1));
            intervals_of(bootstrap_samples(values, n_iterations), annualization_factor)
                == (BootstrapConfidenceIntervals {
                sharpe_ci_95: scaled(plain.sharpe_ci_95, annualization_factor.root()),
                sharpe_ci_99: scaled(plain.sharpe_ci_99, annualization_factor.root()),
                ..plain
            })
        }),
{
}

/// The test of a Sharpe ratio above zero does not depend on the benchmark:
/// with an exponential that is a function, its statistic, its p-value and
/// both judgements are the same for any two benchmarks.
pub proof fn law_benchmark_leaves_the_test_alone<N: Number, F: Fn(N) -> N>(
    changes: Seq<N>,
    benchmark: N,
    other: N,
    annualization_factor: N,
    exp: F,
    a: SignificanceResult<N>,
    b: SignificanceResult<N>,
)
    requires
        forall|x: N, y: N, z: N|
            #[trigger] call_ensures(exp, (x,), y) && #[trigger] call_ensures(exp, (x,), z) ==> y == z,
        is_significance(changes, benchmark, annualization_factor, exp, a),
        is_significance(changes, other, annualization_factor, exp, b),
    ensures
        a.t_statistic == b.t_statistic,
        a.p_value == b.p_value,
        a.is_significant_5pct == b.is_significant_5pct,
        a.is_significant_1pct == b.is_significant_1pct,
{
    let t = period_sharpe(changes).quotient(sharpe_error(changes));
    let first = choose|cdf: N| #[trigger] is_cdf(exp, t, cdf) && a.p_value == N::whole(1).difference(cdf);
    let second = choose|cdf: N| #[trigger] is_cdf(exp, t, cdf) && b.p_value == N::whole(1).difference(cdf);
    assert(is_cdf(exp, t, first) && is_cdf(exp, t, second));
    assert(first == second);
}

} // verus!
