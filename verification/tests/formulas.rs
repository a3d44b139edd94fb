use backtest::measures::{compute_cost_hurdle, compute_max_drawdown, simple_returns};
use backtest::number::Number;
use backtest::rebalancing::{simulate_rebalancing, RebalanceStrategy};
use backtest::significance::{compute_sample_metrics, compute_sharpe_significance, normal_cdf};
use backtest::synthetic_book::{BookSide, SyntheticBookConfig, SyntheticOrderBook};
use backtest::wf_report::test_sharpe;

#[derive(Clone, Copy, Debug, PartialEq)]
struct Real(f64);

impl Number for Real {
    fn of(n: i64) -> Self {
        Real(n as f64)
    }
    fn count(n: usize) -> Self {
        Real(n as f64)
    }
    fn largest() -> Self {
        Real(f64::MAX)
    }
    fn infinity() -> Self {
        Real(f64::INFINITY)
    }
    fn plus(self, other: Self) -> Self {
        Real(self.0 + other.0)
    }
    fn minus(self, other: Self) -> Self {
        Real(self.0 - other.0)
    }
    fn times(self, other: Self) -> Self {
        Real(self.0 * other.0)
    }
    fn over(self, other: Self) -> Self {
        Real(self.0 / other.0)
    }
    fn sqrt(self) -> Self {
        Real(self.0.sqrt())
    }
    fn power(self, times: u32) -> Self {
        Real(self.0.powi(times as i32))
    }
    fn abs(self) -> Self {
        Real(self.0.abs())
    }
    fn max(self, other: Self) -> Self {
        Real(self.0.max(other.0))
    }
    fn min(self, other: Self) -> Self {
        Real(self.0.min(other.0))
    }
    fn lt(self, other: Self) -> bool {
        self.0 < other.0
    }
    fn le(self, other: Self) -> bool {
        self.0 <= other.0
    }
    fn ceil(self) -> usize {
        self.0.ceil() as usize
    }
}

fn reals(values: &[f64]) -> Vec<Real> {
    values.iter().map(|v| Real(*v)).collect()
}

struct Numbers(u64);

impl Numbers {
    /// A number between zero and one.
    fn next(&mut self) -> f64 {
        self.0 = self.0.wrapping_mul(6364136223846793005).wrapping_add(1442695040888963407);
        (self.0 >> 11) as f64 / (1u64 << 53) as f64
    }

    fn series(&mut self, len: usize, low: f64, high: f64) -> Vec<f64> {
        (0..len).map(|_| low + (high - low) * self.next()).collect()
    }
}

fn exp(x: Real) -> Real {
    Real(x.0.exp())
}

fn cdf(x: f64) -> f64 {
    let sign = if x < 0.0 { -1.0 } else { 1.0 };
    let x = x.abs() / std::f64::consts::SQRT_2;
    let t = 1.0 / (1.0 + 0.3275911 * x);
    let y = 1.0
        - (((((1.061405429 * t + -1.453152027) * t) + 1.421413741) * t + -0.284496736) * t + 0.254829592)
            * t
            * (-x * x).exp();
    0.5 * (1.0 + sign * y)
}

#[test]
fn the_normal_distribution_is_computed_to_the_bit() {
    let mut numbers = Numbers(1);
    for _ in 0..2_000 {
        let x = 12.0 * numbers.next() - 6.0;
        assert_eq!(normal_cdf(Real(x), &exp), Real(cdf(x)));
    }
}

#[test]
fn significance_is_computed_to_the_bit() {
    let mut numbers = Numbers(2);
    for round in 0..200 {
        let returns = numbers.series(2 + round % 60, -0.05, 0.06);
        let (benchmark, factor) = (0.1 * numbers.next(), 1.0 + 400.0 * numbers.next());
        let n = returns.len();
        let mean = returns.iter().sum::<f64>() / n as f64;
        let std = (returns.iter().map(|r| (r - mean).powi(2)).sum::<f64>() / (n - 1) as f64).sqrt();
        let sharpe = mean / std;
        let skew = returns.iter().map(|r| ((r - mean) / std).powi(3)).sum::<f64>() / n as f64;
        let kurtosis = returns.iter().map(|r| ((r - mean) / std).powi(4)).sum::<f64>() / n as f64 - 3.0;
        let error = ((1.0 + 0.5 * sharpe.powi(2) - skew * sharpe + kurtosis / 4.0 * sharpe.powi(2)) / (n - 1) as f64)
            .sqrt();
        let t = sharpe / error;
        let result = compute_sharpe_significance(&reals(&returns), Real(benchmark), Real(factor), &exp);
        if error.is_nan() {
            assert!(result.t_statistic.0.is_nan());
            continue;
        }
        assert_eq!(result.sharpe_ratio.0, sharpe * factor.sqrt());
        assert_eq!(result.sharpe_std_error.0, error * factor.sqrt());
        assert_eq!(result.t_statistic.0, t);
        assert_eq!(result.p_value.0, 1.0 - cdf(t));
        assert_eq!(result.probabilistic_sharpe_ratio.0, cdf((sharpe - benchmark) / error));
        assert_eq!(result.ci_95_lower.0, (sharpe - 1.96 * error) * factor.sqrt());
        assert_eq!(result.ci_95_upper.0, (sharpe + 1.96 * error) * factor.sqrt());
        assert_eq!(result.skewness.0, skew);
        assert_eq!(result.kurtosis.0, kurtosis);
        let track = if sharpe > benchmark && error > 0.0 {
            let raw = n as f64 * ((1.645 * error) / (sharpe - benchmark)).powi(2);
            if raw.is_finite() && raw < 1_000_000.0 { Some(raw.ceil() as usize) } else { None }
        } else {
            None
        };
        assert_eq!(result.min_track_record_length, track);
    }
}

#[test]
fn resampled_metrics_are_computed_to_the_bit() {
    let mut numbers = Numbers(3);
    for round in 0..200 {
        let returns = numbers.series(1 + round % 40, -0.05, 0.05);
        let n = returns.len() as f64;
        let mean = returns.iter().sum::<f64>() / n;
        let std = (returns.iter().map(|r| (r - mean).powi(2)).sum::<f64>() / n).sqrt();
        let (mut peak, mut fall, mut equity) = (0.0f64, 0.0f64, 0.0f64);
        for r in &returns {
            equity += r;
            if equity > peak {
                peak = equity;
            }
            let drop = (peak - equity) / (1.0 + peak.max(0.0));
            if drop > fall {
                fall = drop;
            }
        }
        let profit: f64 = returns.iter().filter(|r| **r > 0.0).sum();
        let loss: f64 = returns.iter().filter(|r| **r < 0.0).map(|r| r.abs()).sum();
        let factor = if loss > 0.0 { profit / loss } else { f64::MAX };
        let metrics = compute_sample_metrics(&reals(&returns));
        assert_eq!(metrics.sharpe.0, if std > 1e-10 { mean / std } else { 0.0 });
        assert_eq!(metrics.total_return.0, returns.iter().sum::<f64>());
        assert_eq!(metrics.max_drawdown.0, fall);
        assert_eq!(metrics.win_rate.0, returns.iter().filter(|r| **r > 0.0).count() as f64 / n);
        assert_eq!(metrics.profit_factor.0, factor.min(100.0));
    }
}

#[test]
fn cost_hurdles_are_computed_to_the_bit() {
    let mut numbers = Numbers(4);
    for _ in 0..100 {
        let prices = numbers.series(30, 50.0, 60.0);
        let (fee, slippage) = (0.002 * numbers.next(), 10.0 * numbers.next());
        let moves: Vec<f64> = prices.windows(2).map(|w| ((w[1] - w[0]) / w[0]).abs()).collect();
        let average = (moves.iter().sum::<f64>() / moves.len() as f64) * 10_000.0;
        let cost = 2.0 * fee * 10_000.0 + slippage;
        let result = compute_cost_hurdle(&reals(&prices), Real(60.0), Real(fee), Real(slippage)).unwrap();
        assert_eq!(result.avg_move_bps.0, average);
        assert_eq!(result.cost_bps.0, cost);
        assert_eq!(result.margin.0, average / cost);
        assert_eq!(result.passed, average / cost >= 3.0);
    }
}

#[test]
fn synthetic_books_are_computed_to_the_bit() {
    let mut numbers = Numbers(5);
    for _ in 0..200 {
        let close = 10.0 + 90.0 * numbers.next();
        let (high, low) = (close + numbers.next(), close - numbers.next());
        let volume = 1_000.0 * numbers.next();
        let config: SyntheticBookConfig<Real> = SyntheticBookConfig {
            spread_bps: Real(20.0 * numbers.next()),
            depth_levels: 1 + (7.0 * numbers.next()) as usize,
            depth_decay: Real(0.3 + 0.6 * numbers.next()),
            volatility_multiplier: Real(3.0 * numbers.next()),
            max_volatility_widening_bps: Real(80.0 * numbers.next()),
        };
        let half = close * config.spread_bps.0 / 10_000.0
            + (close * ((high - low) / close) * config.volatility_multiplier.0 / 2.0)
                .min(close * config.max_volatility_widening_bps.0 / 10_000.0);
        let decay = config.depth_decay.0;
        let sum = (1.0 - decay.powi(config.depth_levels as i32)) / (1.0 - decay);
        let base = volume / 2.0 / sum;
        let tick = half.max(close * 0.0001);
        let book = SyntheticOrderBook::from_candle(Real(close), Real(high), Real(low), Real(volume), &config);
        assert_eq!(book.best_bid.0, close - half);
        assert_eq!(book.best_ask.0, close + half);
        let mut levels = Vec::new();
        for i in 0..config.depth_levels {
            levels.push((close + half + tick * i as f64, base * decay.powi(i as i32)));
            assert_eq!(book.ask_levels[i].price.0, levels[i].0);
            assert_eq!(book.ask_levels[i].volume.0, levels[i].1);
            assert_eq!(book.bid_levels[i].price.0, close - half - tick * i as f64);
        }
        let size = 800.0 * numbers.next();
        let (mut remaining, mut cost) = (size, 0.0);
        for (price, volume) in &levels {
            if remaining <= 0.0 {
                break;
            }
            let filled = remaining.min(*volume);
            cost += filled * price;
            remaining -= filled;
        }
        if remaining > 0.0 {
            cost += remaining * levels.last().unwrap().0;
        }
        let price = cost / size;
        let (fill, slippage) = book.calculate_slippage(Real(size), BookSide::Bid);
        assert_eq!(fill.0, price);
        assert_eq!(slippage.0, ((price - close).abs() / close) * 10_000.0);
        let impact = ((book.best_ask.0 - book.best_bid.0) / (2.0 * close)) * 10_000.0 * (size / 500.0).sqrt();
        assert_eq!(book.calculate_market_impact(Real(size), Real(500.0)).0, impact);
    }
}

#[test]
fn drawdowns_and_slice_scores_are_computed_to_the_bit() {
    let mut numbers = Numbers(6);
    for _ in 0..200 {
        let curve = numbers.series(20, 90.0, 120.0);
        let (mut peak, mut worst) = (f64::NEG_INFINITY, 0.0);
        for value in &curve {
            if *value > peak {
                peak = *value;
            }
            let fall = (peak - value) / peak;
            if fall > worst {
                worst = fall;
            }
        }
        assert_eq!(compute_max_drawdown(&reals(&curve)), Real(worst));
        let changes: Vec<f64> = curve.windows(2).map(|w| (w[1] - w[0]) / w[0]).collect();
        assert_eq!(simple_returns(&reals(&curve)), reals(&changes));
        let moving: Vec<f64> = changes[1..].to_vec();
        let mean = moving.iter().sum::<f64>() / moving.len() as f64;
        let std =
            (moving.iter().map(|r| (r - mean).powi(2)).sum::<f64>() / (moving.len() - 1) as f64).sqrt();
        let score = ((mean / std) * 300.0_f64.sqrt()).clamp(-20.0, 20.0);
        assert_eq!(test_sharpe(&reals(&curve), None, Real(300.0)), Real(score));
    }
}

#[test]
fn a_rebalance_moves_the_weights_back_to_their_targets() {
    let curves = vec![reals(&[50.0, 80.0, 80.0]), reals(&[50.0, 20.0, 20.0])];
    let strategy = RebalanceStrategy::Threshold { drift_pct: Real(0.05) };
    let result = simulate_rebalancing(&curves, &reals(&[0.5, 0.5]), &strategy, Real(0.01), Real(0.0), 1);
    assert_eq!(result.events[0].timestamp_idx, 1);
    assert_eq!(result.events[0].trades.len(), 2);
    assert!((result.events[0].total_cost.0 - 0.6).abs() < 1e-12);
    assert!((result.weight_drift_series[1][0].0 - 0.3).abs() < 1e-12);
}
