use backtest::number::Number;
use backtest::significance::{
    bootstrap_intervals, bootstrap_sample, compute_bootstrap_confidence_intervals, compute_deflated_sharpe_ratio,
    compute_sample_metrics, compute_sharpe_significance, expected_max_sharpe_under_null, normal_cdf, SampleMetrics,
};

#[derive(Clone, Copy, Debug, PartialEq)]
struct Real(f64);

impl Number for Real {
    fn of(n: i64) -> Self {
        Real(n as f64)
    }
    fn count(n: usize) -> Self {
        Real(n as f64)
    }
    fn largest() -> Self {
        Real(f64::MAX)
    }
    fn infinity() -> Self {
        Real(f64::INFINITY)
    }
    fn plus(self, other: Self) -> Self {
        Real(self.0 + other.0)
    }
    fn minus(self, other: Self) -> Self {
        Real(self.0 - other.0)
    }
    fn times(self, other: Self) -> Self {
        Real(self.0 * other.0)
    }
    fn over(self, other: Self) -> Self {
        Real(self.0 / other.0)
    }
    fn sqrt(self) -> Self {
        Real(self.0.sqrt())
    }
    fn power(self, times: u32) -> Self {
        Real(self.0.powi(times as i32))
    }
    fn abs(self) -> Self {
        Real(self.0.abs())
    }
    fn max(self, other: Self) -> Self {
        Real(self.0.max(other.0))
    }
    fn min(self, other: Self) -> Self {
        Real(self.0.min(other.0))
    }
    fn lt(self, other: Self) -> bool {
        self.0 < other.0
    }
    fn le(self, other: Self) -> bool {
        self.0 <= other.0
    }
    fn ceil(self) -> usize {
        self.0.ceil() as usize
    }
}

fn reals(values: &[f64]) -> Vec<Real> {
    values.iter().map(|v| Real(*v)).collect()
}

fn exp(x: Real) -> Real {
    Real(x.0.exp())
}

fn ln(x: Real) -> Real {
    Real(x.0.ln())
}

#[test]
fn test_sharpe_significance() {
    let returns: Vec<Real> = (0..252).map(|i| Real(0.001 + 0.02 * ((i as f64 * 0.1).sin()))).collect();
    let result = compute_sharpe_significance(&returns, Real(0.0), Real(252.0), &exp);
    assert!(result.sharpe_ratio.0 > 0.0);
    assert!(result.n_observations == 252);
    println!("Sharpe: {:?}", result.sharpe_ratio);
    println!("t-stat: {:?}", result.t_statistic);
    println!("p-value: {:?}", result.p_value);
    println!("Significant at 5%: {}", result.is_significant_5pct);
}

#[test]
fn test_bootstrap_ci() {
    let returns: Vec<Real> = (0..100).map(|i| Real(0.01 + 0.05 * ((i as f64 * 0.2).sin()))).collect();
    let ci = compute_bootstrap_confidence_intervals(&returns, 1000, Real(252.0));
    assert!(ci.sharpe_ci_95.0 .0 < ci.sharpe_ci_95.1 .0);
}

#[test]
fn test_bootstrap_ci_sharpe_annualization_scaling() {
    let returns: Vec<Real> = (0..100).map(|i| Real(0.01 + 0.05 * ((i as f64 * 0.2).sin()))).collect();

    let ci_daily = compute_bootstrap_confidence_intervals(&returns, 1000, Real(1.0));
    let ci_annualized = compute_bootstrap_confidence_intervals(&returns, 1000, Real(252.0));

    let scale = 252.0_f64.sqrt();
    assert!((ci_annualized.sharpe_ci_95.0 .0 - ci_daily.sharpe_ci_95.0 .0 * scale).abs() < 1e-9);
    assert!((ci_annualized.sharpe_ci_95.1 .0 - ci_daily.sharpe_ci_95.1 .0 * scale).abs() < 1e-9);
    assert!((ci_annualized.sharpe_ci_99.0 .0 - ci_daily.sharpe_ci_99.0 .0 * scale).abs() < 1e-9);
    assert!((ci_annualized.sharpe_ci_99.1 .0 - ci_daily.sharpe_ci_99.1 .0 * scale).abs() < 1e-9);

    assert_eq!(ci_annualized.return_ci_95, ci_daily.return_ci_95);
}

#[test]
fn test_normal_cdf() {
    assert!((normal_cdf(Real(0.0), &exp).0 - 0.5).abs() < 0.001);
    assert!((normal_cdf(Real(1.96), &exp).0 - 0.975).abs() < 0.01);
    assert!((normal_cdf(Real(-1.96), &exp).0 - 0.025).abs() < 0.01);
}

#[test]
fn flat_or_short_series_have_no_significance() {
    let flat = compute_sharpe_significance(&reals(&[0.01, 0.01, 0.01]), Real(0.0), Real(252.0), &exp);
    assert_eq!(flat.p_value, Real(1.0));
    assert_eq!(flat.probabilistic_sharpe_ratio, Real(0.5));
    assert!(flat.min_track_record_length.is_none());
    let short = compute_sharpe_significance(&reals(&[0.01]), Real(0.0), Real(252.0), &exp);
    assert_eq!(short.n_observations, 1);
    assert_eq!(short.sharpe_ratio, Real(0.0));
}

#[test]
fn significance_at_one_percent_is_significance_at_five() {
    let returns: Vec<Real> = (0..500).map(|i| Real(0.01 + 0.01 * ((i as f64 * 0.7).sin()))).collect();
    let result = compute_sharpe_significance(&returns, Real(0.0), Real(252.0), &exp);
    assert!(result.is_significant_1pct);
    assert!(result.is_significant_5pct);
    assert!(result.min_track_record_length.unwrap() < 500);
    assert!(result.ci_95_lower.0 < result.sharpe_ratio.0 && result.sharpe_ratio.0 < result.ci_95_upper.0);
}

#[test]
fn deflated_sharpe_needs_an_error_and_a_trial() {
    assert_eq!(compute_deflated_sharpe_ratio(Real(1.0), Real(0.0), 10, Real(0.5), &exp), Real(0.0));
    assert_eq!(compute_deflated_sharpe_ratio(Real(1.0), Real(0.1), 0, Real(0.5), &exp), Real(0.0));
    let even = compute_deflated_sharpe_ratio(Real(1.0), Real(0.1), 10, Real(1.0), &exp);
    assert!((even.0 - 0.5).abs() < 1e-6);
}

#[test]
fn more_strategies_raise_the_best_of_chance() {
    assert_eq!(expected_max_sharpe_under_null::<Real, _>(0, 100, &ln), Real(0.0));
    assert_eq!(expected_max_sharpe_under_null::<Real, _>(1, 100, &ln), Real(0.0));
    let ten: Real = expected_max_sharpe_under_null(10, 252, &ln);
    let thousand: Real = expected_max_sharpe_under_null(1000, 252, &ln);
    assert!(thousand.0 > ten.0);
    let log = 1000.0_f64.ln();
    let root = (2.0 * log).sqrt();
    let expected = (root - (log.ln() + (4.0 * std::f64::consts::PI).ln()) / (2.0 * root)) * (251.0_f64 / 252.0).sqrt();
    assert_eq!(thousand, Real(expected));
}

#[test]
fn sample_metrics_add_returns_up() {
    let m = compute_sample_metrics(&reals(&[0.1, -0.2, 0.05]));
    assert!((m.total_return.0 + 0.05).abs() < 1e-12);
    assert!((m.max_drawdown.0 - 0.2 / 1.1).abs() < 1e-12);
    assert!((m.win_rate.0 - 2.0 / 3.0).abs() < 1e-12);
    assert!((m.profit_factor.0 - 0.75).abs() < 1e-12);
    let winners = compute_sample_metrics(&reals(&[0.1, 0.2]));
    assert_eq!(winners.profit_factor, Real(100.0));
    let none: Vec<Real> = vec![];
    assert_eq!(compute_sample_metrics(&none).win_rate, Real(0.0));
}

#[test]
fn resampling_depends_on_the_seed_alone() {
    let values: Vec<Real> = (0..50).map(|i| Real(i as f64)).collect();
    let a = bootstrap_sample(&values, 3);
    let b = bootstrap_sample(&values, 3);
    let c = bootstrap_sample(&values, 4);
    assert_eq!(a, b);
    assert_ne!(a, c);
    assert!(a.total_return.0 > 0.0);
}

#[test]
fn resampling_draws_as_the_generator_does() {
    let values: Vec<Real> = (0..10).map(|i| Real(i as f64)).collect();
    let mut rng: rand::rngs::StdRng = rand::SeedableRng::seed_from_u64(7);
    let mut total = 0.0;
    for _ in 0..10 {
        let pick: usize = rand::Rng::gen_range(&mut rng, 0..10);
        total += pick as f64;
    }
    assert_eq!(bootstrap_sample(&values, 7).total_return, Real(total));
}

#[test]
fn intervals_take_the_middle_of_the_samples() {
    let samples: Vec<SampleMetrics<Real>> = (0..1000)
        .rev()
        .map(|i| SampleMetrics {
            sharpe: Real(i as f64),
            total_return: Real(i as f64),
            max_drawdown: Real(i as f64),
            win_rate: Real(i as f64),
            profit_factor: Real(i as f64),
        })
        .collect();
    let ci = bootstrap_intervals(&samples, Real(4.0));
    assert_eq!(ci.n_iterations, 1000);
    assert_eq!(ci.return_ci_95, (Real(25.0), Real(975.0)));
    assert_eq!(ci.sharpe_ci_95, (Real(50.0), Real(1950.0)));
    assert_eq!(ci.sharpe_ci_99, (Real(10.0), Real(1990.0)));
    let few = compute_bootstrap_confidence_intervals(&reals(&[0.1, 0.2]), 1000, Real(1.0));
    assert_eq!(few.n_iterations, 0);
    assert_eq!(few.win_rate_ci_95, (Real(0.0), Real(1.0)));
}

#[test]
fn benchmark_leaves_the_test_alone() {
    let returns = reals(&[0.01, -0.004, 0.02, 0.003, -0.01, 0.015]);
    let a = compute_sharpe_significance(&returns, Real(0.0), Real(252.0), &exp);
    let b = compute_sharpe_significance(&returns, Real(0.3), Real(252.0), &exp);
    assert_eq!(a.t_statistic, b.t_statistic);
    assert_eq!(a.p_value, b.p_value);
    assert_eq!(a.is_significant_5pct, b.is_significant_5pct);
    assert!(a.probabilistic_sharpe_ratio.0 > b.probabilistic_sharpe_ratio.0);
    assert_ne!(a.min_track_record_length, b.min_track_record_length);
}

#[test]
fn annualized_intervals_scale_the_plain_ones() {
    let returns = reals(&[0.01, -0.004, 0.02, 0.003, -0.01, 0.015]);
    let plain = compute_bootstrap_confidence_intervals(&returns, 200, Real(1.0));
    let annual = compute_bootstrap_confidence_intervals(&returns, 200, Real(252.0));
    let year = 252.0_f64.sqrt();
    assert_eq!(annual.sharpe_ci_95.0 .0, plain.sharpe_ci_95.0 .0 * year);
    assert_eq!(annual.sharpe_ci_95.1 .0, plain.sharpe_ci_95.1 .0 * year);
    assert_eq!(annual.sharpe_ci_99.0 .0, plain.sharpe_ci_99.0 .0 * year);
    assert_eq!(annual.sharpe_ci_99.1 .0, plain.sharpe_ci_99.1 .0 * year);
    assert_eq!(annual.return_ci_95, plain.return_ci_95);
    assert_eq!(annual.max_drawdown_ci_95, plain.max_drawdown_ci_95);
    assert_eq!(annual.win_rate_ci_95, plain.win_rate_ci_95);
    assert_eq!(annual.profit_factor_ci_95, plain.profit_factor_ci_95);
}
