//! What the significance of a Sharpe ratio means.

use vstd::prelude::*;

use crate::exact::{
    is_deviation, is_mean, is_real_root, lemma_ratio_reads, lemma_square_reads, lemma_total_reads, readings,
    reads_exactly, real_gains, real_square_sum, real_sum,
};
use crate::measure_laws::{
    law_average_times_count_is_the_sum, lemma_mean_is_unique, lemma_ratio_of_average_and_deviation,
    lemma_root_is_unique, lemma_square_sum_reads,
};
use crate::measures::{mean_of, square_sum};
use crate::number::{ratio_of, Number};
use crate::significance::{
    cdf_exponent, cdf_of, circle_constant, excess_kurtosis, fall_along, gain_sizes, is_cdf, is_flat, is_significance, loss_sizes, max_sharpe_of,
    metrics_of, moment, no_significance, period_sharpe, picked, power_sum, sample_deviation, sharpe_error, track_record,
    SignificanceResult,
};

verus! {

/// A Sharpe ratio is significant at five percent exactly where its p-value is
/// below a twentieth, and at one percent exactly where it is below a
/// hundredth; values between the two tell the judgements apart.
pub proof fn law_verdicts_are_by_a_twentieth_and_a_hundredth<N: Number, F: Fn(N) -> N>(
    value: spec_fn(N) -> real,
    changes: Seq<N>,
    benchmark: N,
    annualization_factor: N,
    exp: F,
    result: SignificanceResult<N>,
)
    requires
        reads_exactly(value),
        is_significance(changes, benchmark, annualization_factor, exp, result),
    ensures
        result.is_significant_5pct <==> value(result.p_value) * 20real < 1real,
        result.is_significant_1pct <==> value(result.p_value) * 100real < 1real,
        value(result.p_value) * 20real < 1real && value(result.p_value) * 100real >= 1real
            ==> result.is_significant_5pct && !result.is_significant_1pct,
        value(result.p_value) * 20real >= 1real ==> !result.is_significant_5pct && !result.is_significant_1pct,
{
    lemma_ratio_reads(value, 1, 20);
    lemma_ratio_reads(value, 1, 100);
    let p = value(result.p_value);
    let a = value(ratio_of::<N>(1, 20));
    let b = value(ratio_of::<N>(1, 100));
    assert(a * 20real == 1real && b * 100real == 1real);
}

/// Returns that do not vary, or fewer than two, are never significant.
pub proof fn law_nothing_is_not_significant<N: Number>(value: spec_fn(N) -> real, n: usize)
    requires
        reads_exactly(value),
    ensures
        ({
            let nothing = no_significance::<N>(n);
            &&& !nothing.is_significant_5pct && !nothing.is_significant_1pct
            &&& value(nothing.p_value) == 1real
            &&& value(nothing.sharpe_ratio) == 0real && value(nothing.t_statistic) == 0real
            &&& value(nothing.probabilistic_sharpe_ratio) * 2real == 1real
            &&& nothing.min_track_record_length is None
            &&& nothing.n_observations == n
        }),
{
    lemma_ratio_reads(value, 1, 2);
    assert(value(N::whole(0)) == 0real && value(N::whole(1)) == 1real);
}

/// The Sharpe ratio of a period times the sample standard deviation is the
/// average; returns are flat where they deviate by less than a ten-billionth.
pub proof fn law_period_sharpe_is_average_over_deviation<N: Number>(
    value: spec_fn(N) -> real,
    changes: Seq<N>,
    mean: real,
    deviation: real,
)
    requires
        reads_exactly(value),
        1 < changes.len() <= usize::MAX,
        is_mean(readings(value, changes), mean),
        is_deviation(readings(value, changes), deviation),
    ensures
        deviation > 0real ==> value(period_sharpe(changes)) * deviation == mean,
        value(sample_deviation(changes)) == deviation,
        is_flat(changes) <==> deviation * 10000000000real < 1real,
{
    assert(value(N::whole(1)) == 1real);
    lemma_ratio_of_average_and_deviation(value, changes, mean, deviation, N::whole(1));
    lemma_ratio_reads(value, 1, 10_000_000_000);
    let least = value(ratio_of::<N>(1, 10_000_000_000));
    assert(least * 10000000000real == 1real);
    assert(deviation < least <==> deviation * 10000000000real < 1real) by (nonlinear_arith)
        requires
            least * 10000000000real == 1real,
    ;
}

/// What a test reports: the ratio and its error are those of a period times
/// the root of the periods in a year, the statistic times the error of a
/// period is the ratio of a period, the p-value is what the distribution
/// leaves above the statistic, and the confidence interval reaches 1.96
/// errors to either side of the ratio.
pub proof fn law_test_measures_the_ratio_in_errors<N: Number, F: Fn(N) -> N>(
    value: spec_fn(N) -> real,
    changes: Seq<N>,
    benchmark: N,
    annualization_factor: N,
    exp: F,
    result: SignificanceResult<N>,
    year: real,
)
    requires
        reads_exactly(value),
        is_significance(changes, benchmark, annualization_factor, exp, result),
        is_real_root(year, value(annualization_factor)),
        value(sharpe_error(changes)) != 0real,
    ensures
        ({
            let sharpe = value(period_sharpe(changes));
            let error = value(sharpe_error(changes));
            &&& value(result.sharpe_ratio) == sharpe * year
            &&& value(result.sharpe_std_error) == error * year
            &&& value(result.t_statistic) * error == sharpe
            &&& exists|above: N| #[trigger]
                is_cdf(exp, result.t_statistic, above) && value(result.p_value) + value(above) == 1real
            &&& exists|distance: N| #[trigger]
                is_cdf(exp, distance, result.probabilistic_sharpe_ratio) && value(distance) * error == sharpe - value(
                    benchmark,
                )
            &&& value(result.ci_95_lower) + value(result.ci_95_upper) == 2real * value(result.sharpe_ratio)
            &&& (value(result.ci_95_upper) - value(result.ci_95_lower)) * 50real == 196real * value(
                result.sharpe_std_error,
            )
            &&& result.n_observations == changes.len()
        }),
{
    let root = value(annualization_factor.root());
    assert(value(annualization_factor) >= 0real) by (nonlinear_arith)
        requires
            year * year == value(annualization_factor),
    ;
    lemma_root_is_unique(year, root, value(annualization_factor));
    assert(value(N::whole(1)) == 1real);
    let s = value(period_sharpe(changes));
    let e = value(sharpe_error(changes));
    lemma_ratio_reads(value, 196, 100);
    let z = value(ratio_of::<N>(196, 100));
    assert(z * 50real == 98real);
    let lower = value(result.ci_95_lower);
    let upper = value(result.ci_95_upper);
    assert(lower == (s - z * e) * year);
    assert(upper == (s + z * e) * year);
    assert(lower + upper == 2real * (s * year) && (upper - lower) * 50real == 196real * (e * year)) by (nonlinear_arith)
        requires
            lower == (s - z * e) * year,
            upper == (s + z * e) * year,
            z * 50real == 98real,
    ;
    let t = result.t_statistic;
    let above = choose|cdf: N| #[trigger] is_cdf(exp, t, cdf) && result.p_value == N::whole(1).difference(cdf);
    assert(is_cdf(exp, t, above) && value(result.p_value) + value(above) == 1real);
    let distance = period_sharpe(changes).difference(benchmark).quotient(sharpe_error(changes));
    assert(is_cdf(exp, distance, result.probabilistic_sharpe_ratio));
    assert(value(distance) * e == s - value(benchmark));
}

/// Standardised values raised to a power, added up.
pub open spec fn real_power_sum(values: Seq<real>, mean: real, deviation: real, power: nat) -> real
    decreases values.len(),
{
    if values.len() == 0 {
        0real
    } else {
        real_power_sum(values.drop_last(), mean, deviation, power) + real_power(
            (values.last() - mean) / deviation,
            power,
        )
    }
}

/// A real multiplied with itself so many times.
pub open spec fn real_power(base: real, power: nat) -> real
    decreases power,
{
    if power == 0 {
        1real
    } else {
        real_power(base, (power - 1) as nat) * base
    }
}

proof fn lemma_power_reads<N: Number>(value: spec_fn(N) -> real, base: N, power: u32)
    requires
        reads_exactly(value),
    ensures
        value(base.raised(power)) == real_power(value(base), power as nat),
    decreases power,
{
    if power > 0 {
        lemma_power_reads(value, base, (power - 1) as u32);
        assert(value(base.raised(power)) == value(base.raised((power - 1) as u32)) * value(base));
    } else {
        assert(value(base.raised(0)) == 1real);
    }
}

proof fn lemma_power_sum_reads<N: Number>(
    value: spec_fn(N) -> real,
    changes: Seq<N>,
    centre: N,
    scale: N,
    power: u32,
)
    requires
        reads_exactly(value),
        value(scale) != 0real,
    ensures
        value(power_sum(changes, centre, scale, power)) == real_power_sum(
            readings(value, changes),
            value(centre),
            value(scale),
            power as nat,
        ),
    decreases changes.len(),
{
    assert(value(N::whole(0)) == 0real);
    if changes.len() > 0 {
        lemma_power_sum_reads(value, changes.drop_last(), centre, scale, power);
        assert(readings(value, changes).drop_last() =~= readings(value, changes.drop_last()));
        let step = changes.last().difference(centre);
        let q = step.quotient(scale);
        lemma_power_reads(value, q, power);
        let a = value(q);
        let b = value(scale);
        let c = value(step);
        assert(a == c / b) by (nonlinear_arith)
            requires
                a * b == c,
                b != 0real,
        ;
    }
}

/// Skewness and kurtosis are the average third and fourth powers of the
/// returns in deviations from their average, the kurtosis less three.
pub proof fn law_moments_are_averages_of_powers<N: Number>(
    value: spec_fn(N) -> real,
    changes: Seq<N>,
    mean: real,
    deviation: real,
)
    requires
        reads_exactly(value),
        1 < changes.len() <= usize::MAX,
        is_mean(readings(value, changes), mean),
        is_deviation(readings(value, changes), deviation),
        deviation > 0real,
    ensures
        ({
            let n = changes.len() as int as real;
            let xs = readings(value, changes);
            &&& value(moment(changes, 3)) * n == real_power_sum(xs, mean, deviation, 3)
            &&& (value(excess_kurtosis(changes)) + 3real) * n == real_power_sum(xs, mean, deviation, 4)
        }),
{
    law_period_sharpe_is_average_over_deviation(value, changes, mean, deviation);
    law_average_times_count_is_the_sum(value, changes);
    lemma_mean_is_unique(readings(value, changes), mean, value(mean_of(changes)));
    lemma_power_sum_reads(value, changes, mean_of(changes), sample_deviation(changes), 3);
    lemma_power_sum_reads(value, changes, mean_of(changes), sample_deviation(changes), 4);
    assert(value(N::counted(changes.len() as usize)) == changes.len() as int as real);
    assert(value(N::whole(3)) == 3real);
}

/// The square of the standard error times one less than the number of returns
/// is one, plus half the squared ratio, less the skewness times the ratio,
/// plus a quarter of the excess kurtosis times the squared ratio.
pub proof fn law_error_of_the_ratio_allows_for_skewness_and_kurtosis<N: Number>(
    value: spec_fn(N) -> real,
    changes: Seq<N>,
)
    requires
        reads_exactly(value),
        1 < changes.len() <= usize::MAX,
        ({
            let s = value(period_sharpe(changes));
            1real + s * s / 2real - value(moment(changes, 3)) * s + value(excess_kurtosis(changes)) * s * s / 4real
                >= 0real
        }),
    ensures
        ({
            let s = value(period_sharpe(changes));
            let error = value(sharpe_error(changes));
            &&& error >= 0real
            &&& error * error * ((changes.len() - 1) as real) == 1real + s * s / 2real - value(moment(changes, 3)) * s
                + value(excess_kurtosis(changes)) * s * s / 4real
        }),
{
    let sharpe = period_sharpe(changes);
    let s = value(sharpe);
    let square = sharpe.raised(2);
    lemma_square_reads(value, sharpe);
    lemma_ratio_reads(value, 1, 2);
    assert(value(N::whole(1)) == 1real && value(N::whole(4)) == 4real);
    let n = N::counted((changes.len() - 1) as usize);
    assert(value(n) == (changes.len() - 1) as real);
    let k = value(excess_kurtosis(changes));
    let quarter = value(excess_kurtosis(changes).quotient(N::whole(4)));
    assert(quarter * 4real == k);
    let inner = N::whole(1).sum(ratio_of::<N>(1, 2).product(square)).difference(moment(changes, 3).product(sharpe)).sum(
        excess_kurtosis(changes).quotient(N::whole(4)).product(square),
    );
    let m = value(moment(changes, 3));
    let v = value(inner);
    assert(v == 1real + s * s / 2real - m * s + k * s * s / 4real) by {
        let half = value(ratio_of::<N>(1, 2));
        assert(v == 1real + half * (s * s) - m * s + quarter * (s * s));
        assert(half * (s * s) == s * s / 2real) by (nonlinear_arith)
            requires
                half == 1real / 2real,
        ;
        assert(quarter * (s * s) == k * s * s / 4real) by (nonlinear_arith)
            requires
                quarter * 4real == k,
        ;
    }
    let variance = inner.quotient(n);
    let w = value(variance);
    let d = value(n);
    assert(w * d == v);
    assert(w >= 0real) by (nonlinear_arith)
        requires
            w * d == v,
            v >= 0real,
            d > 0real,
    ;
    assert(sharpe_error(changes) == variance.root());
}

/// How long a record it takes: the number of returns times the square of
/// 1.645 errors over the distance from the benchmark, rounded up. A ratio no
/// better than the benchmark has no such length.
pub proof fn law_track_record_shrinks_with_the_distance<N: Number>(
    value: spec_fn(N) -> real,
    n: usize,
    sharpe: N,
    error: N,
    benchmark: N,
)
    requires
        reads_exactly(value),
    ensures
        value(sharpe) <= value(benchmark) || value(error) <= 0real ==> track_record(n, sharpe, error, benchmark) is None,
        track_record(n, sharpe, error, benchmark) matches Some(length) ==> ({
            let d = value(sharpe) - value(benchmark);
            let e = value(error);
            let exact = (n as int as real) * (1645real * e) * (1645real * e);
            let l = (length as int as real);
            &&& d > 0real && e > 0real
            &&& exact <= l * (1000real * d) * (1000real * d)
            &&& (l - 1real) * (1000real * d) * (1000real * d) < exact
        }),
{
    assert(value(N::whole(0)) == 0real);
    if track_record(n, sharpe, error, benchmark) is Some {
        let length = track_record(n, sharpe, error, benchmark)->0;
        let gap = sharpe.difference(benchmark);
        let reach = ratio_of::<N>(1645, 1000).product(error);
        let share = reach.quotient(gap);
        let needed = N::counted(n).product(share.raised(2));
        lemma_ratio_reads(value, 1645, 1000);
        lemma_square_reads(value, share);
        let z = value(ratio_of::<N>(1645, 1000));
        assert(z * 1000real == 1645real);
        let d = value(gap);
        let e = value(error);
        let q = value(share);
        let c = (n as int as real);
        assert(value(N::counted(n)) == c);
        assert(d > 0real && e > 0real);
        assert(q * d == z * e);
        let x = value(needed);
        assert(x == c * (q * q));
        assert(value(N::whole(1_000_000)) == 1000000real);
        assert(x >= 0real) by (nonlinear_arith)
            requires
                x == c * (q * q),
                c >= 0real,
        ;
        let l = (length as int as real);
        assert(x <= l < x + 1real);
        let u = 1000real * d;
        let r = 1645real * e;
        assert(q * u == r) by (nonlinear_arith)
            requires
                q * d == z * e,
                z * 1000real == 1645real,
                u == 1000real * d,
                r == 1645real * e,
        ;
        let exact = c * r * r;
        assert(exact == x * u * u) by (nonlinear_arith)
            requires
                exact == c * r * r,
                q * u == r,
                x == c * (q * q),
        ;
        assert(exact <= l * u * u && (l - 1real) * u * u < exact) by (nonlinear_arith)
            requires
                exact == x * u * u,
                x <= l,
                l - 1real < x,
                u > 0real,
        ;
        assert(exact == (n as int as real) * (1645real * e) * (1645real * e));
    }
}

/// The distribution is symmetric: as much lies above a distance as below the
/// opposite one.
pub proof fn law_distribution_is_symmetric<N: Number>(value: spec_fn(N) -> real, x: N, opposite: N, exponential: N)
    requires
        reads_exactly(value),
        value(x) > 0real,
        value(opposite) == -value(x),
        x.magnitude() == opposite.magnitude(),
    ensures
        value(cdf_of(x, exponential)) + value(cdf_of(opposite, exponential)) == 1real,
{
    assert(value(N::whole(0)) == 0real && value(N::whole(1)) == 1real && value(N::whole(-1i64)) == -1real);
    lemma_ratio_reads(value, 1, 2);
    let half = value(ratio_of::<N>(1, 2));
    let a = value(cdf_of(x, exponential));
    let b = value(cdf_of(opposite, exponential));
    let scaled = x.magnitude().quotient(N::whole(2).root());
    let t = N::whole(1).quotient(N::whole(1).sum(ratio_of::<N>(3_275_911, 10_000_000).product(scaled)));
    let polynomial = ratio_of::<N>(1_061_405_429, 1_000_000_000).product(t).sum(
        ratio_of::<N>(-1_453_152_027i64, 1_000_000_000),
    ).product(t).sum(ratio_of::<N>(1_421_413_741, 1_000_000_000)).product(t).sum(
        ratio_of::<N>(-284_496_736i64, 1_000_000_000),
    ).product(t).sum(ratio_of::<N>(254_829_592, 1_000_000_000)).product(t);
    let y = N::whole(1).difference(polynomial.product(exponential));
    let v = value(y);
    assert(cdf_of(x, exponential) == ratio_of::<N>(1, 2).product(N::whole(1).sum(N::whole(1).product(y))));
    assert(cdf_of(opposite, exponential) == ratio_of::<N>(1, 2).product(
        N::whole(1).sum(N::whole(-1i64).product(y)),
    ));
    assert(a == half * (1real + 1real * v));
    assert(b == half * (1real + -1real * v));
    assert(a + b == 1real) by (nonlinear_arith)
        requires
            a == half * (1real + 1real * v),
            b == half * (1real + -1real * v),
            half == 1real / 2real,
    ;
}

/// The best Sharpe ratio to expect of chance: with the root of twice the
/// logarithm, that root less the two further logarithms over twice it, times
/// the root of the share of periods but one.
pub proof fn law_best_of_chance_follows_the_logarithm<N: Number>(
    value: spec_fn(N) -> real,
    log: N,
    log_log: N,
    log_circle: N,
    periods: usize,
    root: real,
    share: real,
)
    requires
        reads_exactly(value),
        value(log) > 0real,
        periods >= 1,
        is_real_root(root, 2real * value(log)),
        share >= 0real,
        share * share * (periods as int as real) == (periods - 1) as real,
    ensures
        value(max_sharpe_of(log, log_log, log_circle, periods)) * 2real * root == (4real * value(log) - value(log_log)
            - value(log_circle)) * share,
{
    assert(value(N::whole(2)) == 2real && value(N::whole(1)) == 1real);
    let r = N::whole(2).product(log).root();
    lemma_root_is_unique(root, value(r), 2real * value(log));
    let t = N::counted(periods);
    let p = periods as int as real;
    assert(value(t) == p);
    let part = t.difference(N::whole(1)).quotient(t);
    let w = value(part);
    assert(w * p == p - 1real);
    assert(w >= 0real) by (nonlinear_arith)
        requires
            w * p == p - 1real,
            p >= 1real,
    ;
    let a = value(part.root());
    assert(a == share) by (nonlinear_arith)
        requires
            a * a == w,
            w * p == p - 1real,
            share * share * p == p - 1real,
            a >= 0real,
            share >= 0real,
            p >= 1real,
    ;
    let l = value(log);
    assert(root > 0real) by (nonlinear_arith)
        requires
            root >= 0real,
            root * root == 2real * l,
            l > 0real,
    ;
    let extra = log_log.sum(log_circle);
    let x = value(extra);
    let q = value(extra.quotient(N::whole(2).product(r)));
    assert(q * (2real * root) == x) by {
        assert(value(N::whole(2).product(r)) == 2real * root);
        assert(2real * root != 0real);
    }
    let m = value(max_sharpe_of(log, log_log, log_circle, periods));
    assert(m == (root - q) * share);
    assert(m * 2real * root == (4real * l - x) * share) by (nonlinear_arith)
        requires
            m == (root - q) * share,
            q * (2real * root) == x,
            root * root == 2real * l,
    ;
}

/// What a resampled series comes to: its returns added up, the share of its
/// gains, and its average in deviations over all of its returns.
pub proof fn law_sample_is_measured_by_its_own_returns<N: Number>(
    value: spec_fn(N) -> real,
    changes: Seq<N>,
    mean: real,
    deviation: real,
)
    requires
        reads_exactly(value),
        0 < changes.len() <= usize::MAX,
        is_mean(readings(value, changes), mean),
        deviation >= 0real,
        deviation * deviation * (changes.len() as int as real) == real_square_sum(readings(value, changes), mean),
    ensures
        ({
            let metrics = metrics_of(changes);
            &&& value(metrics.total_return) == real_sum(readings(value, changes))
            &&& deviation * 10000000000real > 1real ==> value(metrics.sharpe) * deviation == mean
            &&& deviation * 10000000000real <= 1real ==> value(metrics.sharpe) == 0real
        }),
{
    assert(value(N::whole(0)) == 0real);
    lemma_total_reads(value, changes);
    law_average_times_count_is_the_sum(value, changes);
    lemma_mean_is_unique(readings(value, changes), mean, value(mean_of(changes)));
    lemma_square_sum_reads(value, changes, mean_of(changes));
    let n = N::counted(changes.len() as usize);
    let c = changes.len() as int as real;
    assert(value(n) == c);
    let sum = square_sum(changes, mean_of(changes));
    let variance = sum.quotient(n);
    let v = value(variance);
    let s = value(sum);
    assert(v >= 0real) by (nonlinear_arith)
        requires
            v * c == s,
            s >= 0real,
            c > 0real,
    ;
    let d = value(variance.root());
    assert(d == deviation) by (nonlinear_arith)
        requires
            d * d == v,
            v * c == s,
            deviation * deviation * c == s,
            d >= 0real,
            deviation >= 0real,
            c > 0real,
    ;
    lemma_ratio_reads(value, 1, 10_000_000_000);
    let least = value(ratio_of::<N>(1, 10_000_000_000));
    assert(least < deviation <==> deviation * 10000000000real > 1real) by (nonlinear_arith)
        requires
            least * 10000000000real == 1real,
    ;
}

/// The gains of a series add up to those of its positive returns, and gains
/// less losses make its sum.
pub proof fn law_gains_less_losses_make_the_return<N: Number>(value: spec_fn(N) -> real, changes: Seq<N>)
    requires
        reads_exactly(value),
    ensures
        value(gain_sizes(changes)) == real_gains(readings(value, changes)),
        value(loss_sizes(changes)) >= 0real,
        value(gain_sizes(changes)) - value(loss_sizes(changes)) == real_sum(readings(value, changes)),
    decreases changes.len(),
{
    assert(value(N::whole(0)) == 0real);
    if changes.len() > 0 {
        law_gains_less_losses_make_the_return(value, changes.drop_last());
        assert(readings(value, changes).drop_last() =~= readings(value, changes.drop_last()));
    }
}

/// The equity of a series is its sum so far, and no fall that it has seen is
/// worse than the one it reports, relative to one and the highest sum.
pub proof fn law_fall_along_a_series_is_from_its_highest_sum<N: Number>(value: spec_fn(N) -> real, changes: Seq<N>)
    requires
        reads_exactly(value),
    ensures
        ({
            let state = fall_along(changes);
            &&& value(state.equity) == real_sum(readings(value, changes))
            &&& value(state.peak) >= value(state.equity) && value(state.peak) >= 0real
            &&& value(state.fall) >= 0real
            &&& value(state.peak) - value(state.equity) <= value(state.fall) * (1real + value(state.peak))
            &&& changes.len() > 0 ==> value(fall_along(changes.drop_last()).fall) <= value(state.fall)
            &&& changes.len() > 0 ==> value(fall_along(changes.drop_last()).peak) <= value(state.peak)
        }),
    decreases changes.len(),
{
    assert(value(N::whole(0)) == 0real && value(N::whole(1)) == 1real);
    if changes.len() > 0 {
        law_fall_along_a_series_is_from_its_highest_sum(value, changes.drop_last());
        assert(readings(value, changes).drop_last() =~= readings(value, changes.drop_last()));
        let before = fall_along(changes.drop_last());
        let state = fall_along(changes);
        let base = N::whole(1).sum(state.peak.larger(N::whole(0)));
        let fall = state.peak.difference(state.equity).quotient(base);
        let b = value(base);
        let f = value(fall);
        let p = value(state.peak);
        let e = value(state.equity);
        assert(b == 1real + p);
        assert(f * b == p - e);
        let w = value(state.fall);
        assert(w >= f);
        assert(p - e <= w * (1real + p)) by (nonlinear_arith)
            requires
                f * b == p - e,
                b == 1real + p,
                p >= 0real,
                w >= f,
        ;
    }
}

/// The exponent of the normal density is minus half the square, on either
/// side of zero.
pub proof fn law_density_falls_by_half_the_square<N: Number>(value: spec_fn(N) -> real, x: N)
    requires
        reads_exactly(value),
    ensures
        value(cdf_exponent(x)) * 2real == -(value(x) * value(x)),
{
    assert(value(N::whole(2)) == 2real && value(N::whole(-1i64)) == -1real);
    let root = N::whole(2).root();
    let r = value(root);
    assert(r >= 0real && r * r == 2real);
    assert(r != 0real) by {
        if r == 0real {
            assert(0real * 0real == 0real);
        }
    }
    let m = value(x.magnitude());
    let s = value(x.magnitude().quotient(root));
    assert(s * r == m);
    let e = value(cdf_exponent(x));
    assert(e == -1real * s * s);
    assert(e * 2real == -(m * m)) by (nonlinear_arith)
        requires
            e == -1real * s * s,
            s * r == m,
            r * r == 2real,
    ;
    let v = value(x);
    assert((-v) * (-v) == v * v) by (nonlinear_arith);
}

/// The circle constant is pi to ten decimals.
pub proof fn law_circle_constant_is_pi<N: Number>(value: spec_fn(N) -> real)
    requires
        reads_exactly(value),
    ensures
        31415926535real < value(circle_constant::<N>()) * 10000000000real < 31415926536real,
{
    lemma_ratio_reads(value, 884_279_719_003_555, 281_474_976_710_656);
}

/// A resample holds, for each pick, the value that was picked.
pub proof fn law_resamples_hold_what_was_picked<N>(values: Seq<N>, picks: Seq<u64>, i: int)
    requires
        0 <= i < picks.len(),
    ensures
        picked(values, picks).len() == picks.len(),
        picked(values, picks)[i] == values[picks[i] as int],
{
}

} // verus!
