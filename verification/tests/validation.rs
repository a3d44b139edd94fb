use backtest::clock::{calendar_days, seconds_between, timestamp_or, timestamp_or_now};
use backtest::cross_section::{
    asset_class, average_bar_minutes, basket_candidates, cross_section_message, cross_sectional_basket_for,
    cross_sectional_check_enabled, AssetClass, AssetOutcome,
};
use backtest::folds::WindowBounds;
use backtest::lookahead::{
    not_deterministic_message, source_may_be_stochastic, trade_counts_diverge, LookAheadStep, LookAheadTest,
};
use backtest::market_data::{Candle, GenericTick, MarketData, Side, TradeData};
use backtest::number::Number;
use backtest::optimization::{
    block_size, candidate_figures, choose_monte_carlo_base, curve_volatilities, drawdown_cap,
    exceeds_param_complexity_gate, folded_fitness,
    fresh_evaluations, overfit_basis, overfit_report, second_seed, trusted_deflated_sharpe, MonteCarloBase, TradeCounts,
};
use backtest::parameters::{declared_value, parameter_value, DeclaredValue, ParameterValue};
use backtest::regime::VolatilityRegime;
use backtest::types::BacktestResult;
use backtest::validation::{
    dry_run_data, dry_run_result, quick_check_data, training_data, Phase, StageVerdict, ValidationConfig, ValidationLimits, ValidationRun, Verdict,
};
use backtest::walk_forward::{choose_window_count, resolve_auto_wf_windows};
use backtest::wf_report::{
    report_window, test_sharpe, walk_forward_result, ValidationResult, WalkForwardResult,
};
use backtest::workers::{choose_workers, compact_ticks, data_identity, parse_count, worker_pool_size};

#[derive(Clone, Copy, Debug, PartialEq)]
struct Real(f64);

impl Number for Real {
    fn of(n: i64) -> Self {
        Real(n as f64)
    }
    fn count(n: usize) -> Self {
        Real(n as f64)
    }
    fn largest() -> Self {
        Real(f64::MAX)
    }
    fn infinity() -> Self {
        Real(f64::INFINITY)
    }
    fn plus(self, other: Self) -> Self {
        Real(self.0 + other.0)
    }
    fn minus(self, other: Self) -> Self {
        Real(self.0 - other.0)
    }
    fn times(self, other: Self) -> Self {
        Real(self.0 * other.0)
    }
    fn over(self, other: Self) -> Self {
        Real(self.0 / other.0)
    }
    fn sqrt(self) -> Self {
        Real(self.0.sqrt())
    }
    fn power(self, times: u32) -> Self {
        Real(self.0.powi(times as i32))
    }
    fn abs(self) -> Self {
        Real(self.0.abs())
    }
    fn max(self, other: Self) -> Self {
        Real(self.0.max(other.0))
    }
    fn min(self, other: Self) -> Self {
        Real(self.0.min(other.0))
    }
    fn lt(self, other: Self) -> bool {
        self.0 < other.0
    }
    fn le(self, other: Self) -> bool {
        self.0 <= other.0
    }
    fn ceil(self) -> usize {
        self.0.ceil() as usize
    }
}

fn reals(values: &[f64]) -> Vec<Real> {
    values.iter().map(|v| Real(*v)).collect()
}

#[test]
fn stochastic_source_detection() {
    assert!(source_may_be_stochastic("rng = np.random.default_rng(0)"));
    assert!(source_may_be_stochastic("from numpy.random import default_rng"));
    assert!(source_may_be_stochastic("labels = KMeans(2).fit_predict(x)"));
    assert!(source_may_be_stochastic("s = returns.sample(100)"));
    assert!(source_may_be_stochastic("idx = np.random.choice(n)"));
    let indicator = "signals = np.zeros(n)\nema = pd.Series(prices).ewm(span=20).mean()";
    assert!(!source_may_be_stochastic(indicator));
}

#[test]
fn test_validation_config_default() {
    let config: ValidationConfig<Real> = ValidationConfig::default();
    assert!(config.python_source.is_empty());
    assert_eq!(config.wf_windows, 0);
    assert_eq!(config.mc_runs, 1000);
    assert!((config.min_oos_sharpe.0 - 0.5).abs() < f64::EPSILON);
    assert!((config.max_ruin_probability.0 - 0.20).abs() < f64::EPSILON);
    assert!(config.parameter_count.is_none());
    assert_eq!(config.mc_min_trades, 30);
    assert!((config.mc_confidence_level.0 - 0.95).abs() < f64::EPSILON);
}

#[test]
fn test_validation_config_custom_fields() {
    let config = ValidationConfig {
        python_source: "class MyStrategy: pass".into(),
        wf_windows: 5,
        mc_runs: 500,
        min_oos_sharpe: Real(1.0),
        max_ruin_probability: Real(0.10),
        parameter_count: None,
        mc_min_trades: 50,
        mc_confidence_level: Real(0.99),
        max_drawdown_hard_cap: None,
    };
    assert_eq!(config.wf_windows, 5);
    assert_eq!(config.mc_runs, 500);
    assert!((config.min_oos_sharpe.0 - 1.0).abs() < f64::EPSILON);
    assert!((config.max_ruin_probability.0 - 0.10).abs() < f64::EPSILON);
    assert_eq!(config.mc_min_trades, 50);
    assert!((config.mc_confidence_level.0 - 0.99).abs() < f64::EPSILON);
}

fn blank_validation(stages: u8, verdict: &str, summary: &str) -> ValidationResult<Real, String, String> {
    ValidationResult {
        stages_completed: stages,
        quick_backtest: None,
        walk_forward: None,
        monte_carlo: None,
        block_bootstrap: None,
        regime_mc: None,
        ga_report: None,
        optimized_backtest: None,
        cpcv_pbo: None,
        cpcv_deflated_sharpe: None,
        cpcv_parameter_stability: None,
        verdict: verdict.into(),
        summary: summary.into(),
        stage_verdicts: vec![],
        look_ahead_detected: None,
        elapsed_seconds: Real(100.0),
    }
}

#[test]
fn test_validation_result_clone() {
    let mut result = blank_validation(3, "warn", "Monte Carlo shows high risk");
    result.stage_verdicts = vec![StageVerdict {
        stage: 3,
        name: "Monte Carlo".into(),
        passed: false,
        message: "P(ruin) > 20%".into(),
    }];
    let cloned = result.clone();
    assert_eq!(cloned.verdict, "warn");
    assert_eq!(cloned.stage_verdicts.len(), 1);
    assert!(!cloned.stage_verdicts[0].passed);
}

#[test]
fn test_validation_result_debug() {
    let result = blank_validation(1, "pass", "OK");
    let debug = format!("{:?}", result);
    assert!(debug.contains("stages_completed"));
}

#[test]
fn test_walk_forward_result_empty_windows() {
    let result: WalkForwardResult<Real> = WalkForwardResult {
        windows: vec![],
        avg_oos_sharpe: Real(0.0),
        avg_oos_pnl: Real(0.0),
        avg_train_sharpe: Real(0.0),
        overfitting_ratio: Real(0.0),
        consistency_score: Real(0.0),
        oos_profitability_rate: Real(0.0),
        num_windows: 0,
        oos_combined_result: None,
        ga_trial_count: None,
        regime_coverage_narrative: String::new(),
        regime_coverage_incomplete: false,
    };
    assert_eq!(result.windows.len(), 0);
    assert_eq!(result.num_windows, 0);
}

#[test]
fn test_stage_verdict_clone_and_debug() {
    let verdict = StageVerdict {
        stage: 2,
        name: "Walk-Forward".into(),
        passed: true,
        message: "OOS Sharpe=1.50".into(),
    };
    let cloned = verdict.clone();
    assert_eq!(cloned.stage, 2);
    let debug = format!("{:?}", cloned);
    assert!(debug.contains("Walk-Forward"));
}

/// Classifies each return by the volatility of the window that ends with it.
fn tercile_regimes(prices: &[f64], window: usize) -> Vec<Option<VolatilityRegime>> {
    let returns: Vec<f64> = prices.windows(2).map(|w| (w[1] - w[0]) / w[0]).collect();
    let volatility: Vec<Option<f64>> = (0..returns.len())
        .map(|i| {
            if i + 1 < window {
                return None;
            }
            let slice = &returns[i + 1 - window..=i];
            let mean = slice.iter().sum::<f64>() / window as f64;
            Some((slice.iter().map(|r| (r - mean) * (r - mean)).sum::<f64>() / window as f64).sqrt())
        })
        .collect();
    let mut known: Vec<f64> = volatility.iter().filter_map(|v| *v).collect();
    known.sort_by(|a, b| a.partial_cmp(b).unwrap());
    if known.is_empty() {
        return vec![None; returns.len()];
    }
    let low = known[known.len() / 3];
    let high = known[2 * known.len() / 3];
    volatility
        .iter()
        .map(|v| {
            v.map(|v| {
                if v <= low {
                    VolatilityRegime::Low
                } else if v <= high {
                    VolatilityRegime::Medium
                } else {
                    VolatilityRegime::High
                }
            })
        })
        .collect()
}

#[test]
fn resolve_auto_wf_windows_none_close_prices_matches_prior_pure_calendar_behavior() {
    let calendar_days = 730;
    let data_len = 500_000;
    assert_eq!(
        resolve_auto_wf_windows(calendar_days, data_len, None),
        resolve_auto_wf_windows(calendar_days, data_len, Some(&tercile_regimes(&[], 20)))
    );
}

#[test]
fn resolve_auto_wf_windows_raises_target_for_a_synthetic_multi_regime_series() {
    let mut prices = Vec::new();
    let mut price = 100.0_f64;
    for cycle in 0..6 {
        let step = if cycle % 2 == 0 { 0.01 } else { 5.0 };
        for i in 0..40 {
            price += if i % 2 == 0 { step } else { -step };
            prices.push(price);
        }
    }
    let calendar_days = 90;
    let data_len = prices.len();
    let baseline = resolve_auto_wf_windows(calendar_days, data_len, None);
    let regime_aware = resolve_auto_wf_windows(calendar_days, data_len, Some(&tercile_regimes(&prices, 20)));
    assert!(
        regime_aware >= baseline,
        "regime-aware target ({regime_aware}) should never fall below the pure-calendar baseline ({baseline})"
    );
}

#[test]
fn resolve_auto_wf_windows_bar_ceiling_still_wins_when_segments_are_large() {
    let mut prices = Vec::new();
    let mut price = 100.0_f64;
    for i in 0..200 {
        let step = if (i / 5) % 2 == 0 { 0.01 } else { 5.0 };
        price += if i % 2 == 0 { step } else { -step };
        prices.push(price);
    }
    let windows = resolve_auto_wf_windows(9999, prices.len(), Some(&tercile_regimes(&prices, 20)));
    assert_eq!(windows, 3, "bar-count ceiling for sparse data must still win over any regime-segment floor");
}

#[test]
fn cross_sectional_check_disabled_by_default() {
    assert!(!cross_sectional_check_enabled(None));
}

#[test]
fn cross_sectional_check_enabled_via_env_var() {
    assert!(cross_sectional_check_enabled(Some("true")));
    assert!(cross_sectional_check_enabled(Some("1")));
    assert!(cross_sectional_check_enabled(Some("TruE")));
    assert!(!cross_sectional_check_enabled(Some("yes")));
    assert!(!cross_sectional_check_enabled(Some("")));
}

#[test]
fn cross_sectional_basket_classifies_crypto() {
    let crypto = ["BTC-USD", "ETH-USD", "SOL-USD"];
    assert_eq!(cross_sectional_basket_for("BTC-USD"), crypto);
    assert_eq!(cross_sectional_basket_for("eth/usd"), crypto);
}

#[test]
fn cross_sectional_basket_classifies_forex() {
    let forex = ["EUR-USD", "GBP-USD", "USD-JPY"];
    assert_eq!(cross_sectional_basket_for("EUR-USD"), forex);
    assert_eq!(cross_sectional_basket_for("usd/jpy"), forex);
}

#[test]
fn cross_sectional_basket_defaults_to_equity() {
    assert_eq!(cross_sectional_basket_for("AAPL"), ["AAPL", "MSFT", "GOOGL"]);
}

#[test]
fn symbols_are_classed_by_their_parts() {
    assert_eq!(asset_class("EUR-USD"), AssetClass::Forex);
    assert_eq!(asset_class("EUR-USD-X"), AssetClass::Equity);
    assert_eq!(asset_class("BTC"), AssetClass::Crypto);
    assert_eq!(asset_class("eur-usd"), AssetClass::Equity);
    assert_eq!(asset_class(""), AssetClass::Equity);
    assert_eq!(basket_candidates("ETH-USD"), vec!["BTC-USD".to_string(), "SOL-USD".to_string()]);
    assert_eq!(basket_candidates("TSLA").len(), 3);
}

fn ran(num_trades: usize, pnl: f64) -> AssetOutcome<Real> {
    AssetOutcome::Ran { num_trades, total_pnl: Real(pnl) }
}

#[test]
fn related_assets_are_summed_up_in_words() {
    let names = vec!["BTC-USD".to_string(), "SOL-USD".to_string()];
    assert!(cross_section_message(&[AssetOutcome::<Real>::NoData, AssetOutcome::Failed], &names, "ETH-USD").is_none());
    let broad = cross_section_message(&[ran(3, 1.0), ran(2, 5.0)], &names, "ETH-USD").unwrap();
    assert_eq!(
        broad,
        "Edge appears broadly consistent: 2/2 related assets (BTC-USD, SOL-USD) also showed a profitable edge with this strategy — less likely to be overfit to ETH-USD specifically."
    );
    let narrow = cross_section_message(&[ran(3, -1.0), AssetOutcome::Failed], &names, "ETH-USD").unwrap();
    assert!(narrow.starts_with("Edge appears narrow: 0/1 related assets (BTC-USD, SOL-USD) showed"));
    assert!(narrow.ends_with(" (1 basket asset(s) could not be fetched for comparison.)"));
    let mixed = cross_section_message(&[ran(3, 1.0), ran(0, 5.0)], &names, "ETH-USD").unwrap();
    assert!(mixed.starts_with("Mixed cross-sectional result: 1/2 related assets"));
}

#[test]
fn bar_lengths_are_rounded_to_minutes() {
    assert_eq!(average_bar_minutes(0, 1), 60);
    assert_eq!(average_bar_minutes(-5, 10), 1);
    assert_eq!(average_bar_minutes(59 * 60, 60), 1);
    assert_eq!(average_bar_minutes(86_400, 2), 1440);
    assert_eq!(average_bar_minutes(150, 2), 3);
}

#[test]
fn look_ahead_is_found_by_comparing_trades() {
    let test = LookAheadTest::new(1_000, "signals = np.zeros(n)");
    assert_eq!(test.step, LookAheadStep::RunTruncated(600));
    let times: Vec<i64> = (0..20).collect();
    let short = test.on_truncated(10, &times[..10], 9);
    assert_eq!(short.step, LookAheadStep::RunFull);
    assert_eq!(short.on_full(&times).step, LookAheadStep::Done(false));
    let fewer = test.on_truncated(10, &times[..10], 12);
    assert_eq!(fewer.on_full(&times).step, LookAheadStep::Done(true));
    let round_trip = test.on_truncated(2, &[5], 9);
    assert_eq!(round_trip.truncated_entries, 1);
    assert_eq!(round_trip.on_full(&[5, 11, 15]).step, LookAheadStep::Done(false));
    assert_eq!(round_trip.on_full(&[5, 7, 11]).step, LookAheadStep::Done(true));
    let silent = test.on_truncated(0, &[], 9);
    assert_eq!(silent.on_full(&[10]).step, LookAheadStep::Done(false));
    assert_eq!(LookAheadTest::new(199, "").step, LookAheadStep::Done(false));
}

#[test]
fn chance_is_tried_twice_before_the_look_ahead_test() {
    let test = LookAheadTest::new(200, "np.random.rand()");
    assert_eq!(test.step, LookAheadStep::RunTruncated(120));
    let again = test.on_truncated(4, &[1, 2], 9);
    assert_eq!(again.step, LookAheadStep::RunAgain(120));
    assert_eq!(again.on_truncated(4, &[1, 2], 9).step, LookAheadStep::RunFull);
    assert_eq!(again.on_truncated(5, &[1, 2], 9).step, LookAheadStep::NotDeterministic { first: 4, second: 5 });
    let message = not_deterministic_message(4, 5);
    assert!(message.contains("(4 vs 5 trades)"));
}

#[test]
fn counts_diverge_past_one_in_twenty() {
    assert!(!trade_counts_diverge(0, 0));
    assert!(!trade_counts_diverge(100, 95));
    assert!(trade_counts_diverge(100, 94));
    assert!(trade_counts_diverge(0, 1));
}

fn limits() -> ValidationLimits<Real> {
    ValidationLimits { min_oos_sharpe: Real(0.5), max_ruin_probability: Real(0.2) }
}

fn to_walk_forward(run: &mut ValidationRun<Real>) {
    run.on_cost_hurdle(Some((true, "fine".to_string())));
    run.on_look_ahead(Some(false));
    run.on_quick_backtest(12, Real(0.0), "PnL".to_string());
    run.on_cross_section(None);
}

#[test]
fn a_validation_without_parameters_has_three_stages() {
    let mut run = ValidationRun::new(false, 1_000, limits());
    to_walk_forward(&mut run);
    assert_eq!(run.stages_completed(), None);
    run.on_walk_forward(Real(0.5), Real(0.31), "ok".to_string());
    assert_eq!(run.phase, Phase::MonteCarlo);
    assert_eq!(run.monte_carlo_stage(), 3);
    run.on_monte_carlo(Real(0.2), "mc".to_string());
    assert_eq!(run.stages_completed(), Some(3));
    assert_eq!(run.verdict, Verdict::Pass);
    assert_eq!(run.verdict.word(), "pass");
    let numbers: Vec<u8> = run.stages.iter().map(|s| s.stage).collect();
    assert_eq!(numbers, vec![0, 1, 2, 3]);
    assert_eq!(run.look_ahead_detected, Some(false));
}

#[test]
fn a_validation_stops_at_the_first_stage_that_rules_it_out() {
    let mut run = ValidationRun::new(true, 1_000, limits());
    run.on_cost_hurdle(Some((false, "too dear".to_string())));
    assert_eq!(run.stages_completed(), Some(0));
    assert_eq!(run.verdict, Verdict::Fail);

    let mut run = ValidationRun::new(true, 1_000, limits());
    run.on_cost_hurdle(None);
    run.on_look_ahead(None);
    run.on_quick_backtest(0, Real(0.0), "unused".to_string());
    assert_eq!(run.stages_completed(), Some(1));
    assert_eq!(run.stages[0].message, "Strategy generated no trades");
    assert_eq!(run.verdict.word(), "fail");

    let mut run = ValidationRun::new(true, 1_000, limits());
    run.on_cost_hurdle(None);
    run.on_look_ahead(None);
    run.on_quick_backtest(7, Real(-0.01), "PnL=$-0.01, 7 trades".to_string());
    assert_eq!(run.stages_completed(), Some(1));
    assert_eq!(run.phase, Phase::Stopped(1));
    assert!(!run.stages[0].passed);
    assert_eq!(run.stages[0].message, "PnL=$-0.01, 7 trades");
    assert_eq!(run.verdict.word(), "fail");

    let mut run = ValidationRun::new(false, 1_000, limits());
    to_walk_forward(&mut run);
    run.on_walk_forward(Real(0.6), Real(0.3), "uneven".to_string());
    assert_eq!(run.stages_completed(), Some(2));
    assert_eq!(run.verdict, Verdict::Fail);
}

#[test]
fn a_validation_with_parameters_is_optimised_after_walk_forward() {
    let mut failed = ValidationRun::new(true, 250, limits());
    to_walk_forward(&mut failed);
    failed.on_walk_forward(Real(-1.0), Real(0.1), "bad".to_string());
    assert_eq!(failed.stages_completed(), Some(2));
    assert_eq!(failed.verdict, Verdict::Fail);

    let mut run = ValidationRun::new(true, 250, limits());
    to_walk_forward(&mut run);
    run.on_walk_forward(Real(0.6), Real(0.4), "good".to_string());
    assert_eq!(run.phase, Phase::Optimization);
    run.on_optimization(Real(1.0), "ga".to_string(), Some(0));
    assert_eq!(run.verdict, Verdict::Warn);
    assert_eq!(run.phase, Phase::CrossValidation);
    run.on_cross_validation(Some((Real(0.4), "cpcv".to_string())));
    run.on_monte_carlo(Real(0.1), "mc".to_string());
    assert_eq!(run.stages_completed(), Some(4));
    assert_eq!(run.verdict.word(), "warn");

    let mut short = ValidationRun::new(true, 249, limits());
    to_walk_forward(&mut short);
    short.on_walk_forward(Real(1.0), Real(0.9), "good".to_string());
    short.on_optimization(Real(1.0), "ga".to_string(), Some(5));
    assert_eq!(short.phase, Phase::MonteCarlo);
    short.on_monte_carlo(Real(0.21), "mc".to_string());
    assert_eq!(short.verdict, Verdict::Warn);
}

fn candle(i: i64) -> MarketData<Real> {
    MarketData::Candle(Candle {
        timestamp_ms: i,
        symbol: "A".to_string(),
        exchange: "x".to_string(),
        open: Real(1.0),
        high: Real(1.0),
        low: Real(1.0),
        close: Real(2.0),
        volume: Real(3.0),
    })
}

#[test]
fn a_dry_run_is_thinned_out() {
    assert!(dry_run_data::<Real>(&[]).is_none());
    let data: Vec<MarketData<Real>> = (0..300_001).map(candle).collect();
    let kept = dry_run_data(&data).unwrap();
    assert_eq!(kept.len(), 150_001);
    let result = BacktestResult { num_trades: 4, total_pnl: Real(9.0), ..Default::default() };
    let report = dry_run_result(kept.len(), &result);
    assert_eq!((report.bars_tested, report.num_trades, report.total_pnl), (150_001, 4, Real(9.0)));
}

#[test]
fn workers_follow_the_setting_or_the_machine() {
    assert_eq!(parse_count("12"), Some(12));
    assert_eq!(parse_count("+7"), Some(7));
    assert_eq!(parse_count("+"), None);
    assert_eq!(parse_count(""), None);
    assert_eq!(parse_count("1x"), None);
    assert_eq!(parse_count("-1"), None);
    assert_eq!(parse_count("18446744073709551616"), None);
    assert_eq!(parse_count("18446744073709551615"), Some(usize::MAX));
    assert_eq!(choose_workers(Some("6"), 2), 6);
    assert_eq!(choose_workers(Some("0"), 2), 1);
    assert_eq!(choose_workers(Some("many"), 2), 2);
    assert_eq!(choose_workers(None, 64), 4);
    assert_eq!(worker_pool_size(Some("1")), None);
    assert_eq!(worker_pool_size(Some("3")), Some(3));
    let by_machine = worker_pool_size(None).unwrap_or(1);
    assert!((1..=4).contains(&by_machine));
}

#[test]
fn worker_data_names_the_first_trade() {
    let trade = MarketData::Trade(TradeData {
        timestamp_ms: 5,
        symbol: "BTC-USD".to_string(),
        exchange: "kraken".to_string(),
        price: Real(10.0),
        quantity: Real(2.0),
        side: Side::Sell,
        trade_id: 9,
        value: Real(20.0),
    });
    let row = MarketData::Generic(GenericTick {
        timestamp_ms: 6,
        price: Real(11.0),
        quantity: Real(4.0),
        open: None,
        high: None,
        low: None,
        close: None,
        volume: None,
    });
    assert_eq!(data_identity(&[candle(1)]), ("UNKNOWN".to_string(), "UNKNOWN".to_string()));
    let data = vec![candle(1), trade, row];
    assert_eq!(data_identity(&data), ("BTC-USD".to_string(), "kraken".to_string()));
    let ticks = compact_ticks(&data);
    assert_eq!((ticks[0].price, ticks[0].quantity, ticks[0].side), (Real(2.0), Real(3.0), 0));
    assert_eq!((ticks[1].price, ticks[1].side), (Real(10.0), 1));
    assert_eq!(ticks[2].quantity, Real(0.0));
}

#[test]
fn declared_values_keep_their_narrowest_reading() {
    let flag = declared_value(Some(true), Some(1), Some(Real(1.0)), None);
    assert_eq!(flag, DeclaredValue::Bool(true));
    let whole = declared_value(None, Some(1000), Some(Real(1000.0)), None);
    assert_eq!(parameter_value(&whole), ParameterValue::Int(1000));
    let text: DeclaredValue<Real> = declared_value(None, None, None, Some("x".to_string()));
    assert_eq!(parameter_value(&text), ParameterValue::Float(Real(0.0)));
    assert_eq!(declared_value::<Real>(None, None, None, None), DeclaredValue::Nothing);
}

#[test]
fn candidates_are_capped_and_scored() {
    assert_eq!(drawdown_cap::<Real>(None), Real(0.4));
    assert_eq!(drawdown_cap(Some(Real(0.01))), Real(0.05));
    assert_eq!(drawdown_cap(Some(Real(0.9))), Real(0.6));
    let result = BacktestResult {
        num_trades: 3,
        total_pnl: Real(50.0),
        max_drawdown: Real(-20.0),
        sharpe_ratio: Some(Real(1.25)),
        first_trade_timestamp: Some(0),
        last_trade_timestamp: Some(2 * 86_400_000),
        ..Default::default()
    };
    let figures = candidate_figures(&result, Real(100.0), None);
    assert_eq!(figures.sortino, Real(1.25));
    assert_eq!(figures.profit_factor, Real(1.0));
    assert_eq!(figures.max_drawdown_frac, Real(0.2));
    assert_eq!(figures.data_span_days, Real(2.0));
    assert_eq!(folded_fitness::<Real>(&[], Real(1.0)), None);
    let folds = [(Real(3.0), Real(1.0)), (Real(1.0), Real(2.0))];
    assert_eq!(folded_fitness(&folds, Real(0.5)), Some(Real(1.0)));
}

#[test]
fn winners_that_do_not_hold_up_are_overfit() {
    assert!(!overfit_report(Real(2.0), Real(1.5)).is_overfit);
    assert!(overfit_report(Real(2.0), Real(0.9)).is_overfit);
    assert!(overfit_report(Real(2.0), Real(-0.1)).is_overfit);
    assert!(overfit_report(Real(-1.0), Real(-0.5)).is_overfit);
    assert!(!overfit_report(Real(-1.0), Real(0.5)).is_overfit);
    assert_eq!(overfit_report(Real(0.1), Real(-9.0)).degradation_pct, Real(200.0));
    assert_eq!(overfit_report(Real(0.0), Real(1.0)).degradation_pct, Real(0.0));
}

#[test]
fn searches_are_repeated_from_another_seed() {
    assert_eq!(second_seed(true, true, Some(0)), Some(0x9E37_79B9_7F4A_7C15));
    assert_eq!(second_seed(true, true, Some(u64::MAX)), Some(0x9E37_79B9_7F4A_7C14));
    assert_eq!(second_seed(true, false, Some(1)), None);
    assert_eq!(second_seed(true, true, None), None);
    assert_eq!(fresh_evaluations(3, 4, Some(5)), 12);
    assert_eq!(fresh_evaluations(usize::MAX, 4, None), usize::MAX);
    assert_eq!(trusted_deflated_sharpe(Real(0.9), 10, 10), Some(Real(0.9)));
    assert_eq!(trusted_deflated_sharpe(Real(0.9), 9, 10), None);
}

#[test]
fn monte_carlo_starts_from_results_out_of_sample_first() {
    let many = Some(TradeCounts { measured: 40, reported: 0 });
    let few = Some(TradeCounts { measured: 3, reported: 4 });
    assert_eq!(choose_monte_carlo_base(None, many, many, 30), MonteCarloBase::OosCombined);
    assert_eq!(choose_monte_carlo_base(few, many, many, 30), MonteCarloBase::GaOptimized);
    assert_eq!(choose_monte_carlo_base(few, many, few, 30), MonteCarloBase::Quick);
    assert_eq!(MonteCarloBase::Quick.source(24), "quick backtest fallback (24 trades)");
    assert_eq!(MonteCarloBase::OosCombined.label(), "OOS-combined");
}

#[test]
fn blocks_are_as_long_as_the_cube_root() {
    assert_eq!(block_size(0), 3);
    assert_eq!(block_size(42), 3);
    assert_eq!(block_size(43), 4);
    assert_eq!(block_size(1000), 10);
    for n in [7usize, 91, 92, 166, 167, 5000, 123_456] {
        assert_eq!(block_size(n), (n as f64).powf(1.0 / 3.0).round().max(3.0) as usize);
    }
}

#[test]
fn volatility_looks_back_over_the_curve() {
    let short: Vec<Real> = (0..20).map(|i| Real(100.0 + i as f64)).collect();
    assert!(curve_volatilities(&short).is_none());
    let flat: Vec<Real> = (0..30).map(|_| Real(100.0)).collect();
    let volatilities = curve_volatilities(&flat).unwrap();
    assert_eq!(volatilities.len(), 29);
    assert!(volatilities.iter().all(|v| *v == Real(0.0)));
}

#[test]
fn test_slices_are_scored_after_their_flat_start() {
    let curve = reals(&[100.0, 100.0, 101.0, 100.0, 102.0]);
    let changes: Vec<f64> = vec![-1.0 / 101.0, 2.0 / 100.0];
    let mean = changes.iter().sum::<f64>() / 2.0;
    let variance = changes.iter().map(|c| (c - mean).powi(2)).sum::<f64>();
    let expected = ((mean / variance.sqrt()) * 252.0_f64.sqrt()).clamp(-20.0, 20.0);
    assert_eq!(test_sharpe(&curve, None, Real(252.0)), Real(expected));
    assert_eq!(test_sharpe(&reals(&[100.0]), Some(Real(33.0)), Real(252.0)), Real(20.0));
    assert_eq!(test_sharpe(&vec![], None, Real(252.0)), Real(0.0));
}

#[test]
fn walk_forward_windows_are_averaged() {
    let bounds = WindowBounds { train_start: 0, train_end: 2, test_start: 2, test_end: 4 };
    let train = BacktestResult { sharpe_ratio: Some(Real(2.0)), total_pnl: Real(5.0), ..Default::default() };
    let test = BacktestResult { sharpe_ratio: Some(Real(1.0)), total_pnl: Real(3.0), num_trades: 7, ..Default::default() };
    let regimes = vec![None, None, None, Some(VolatilityRegime::High)];
    let times = vec![10, 20, 30, 40];
    let window = report_window(bounds, &train, &test, Real(252.0), &times, &regimes);
    assert_eq!(window.train_end_date, Some(20));
    assert_eq!(window.test_end_date, Some(40));
    assert_eq!(window.test_sharpe, Real(1.0));
    assert_eq!(window.test_regime, Some(VolatilityRegime::High));
    let mut other = window;
    other.test_sharpe = Real(-1.0);
    let result = walk_forward_result(vec![window, other], None, &regimes);
    assert_eq!(result.avg_oos_sharpe, Real(0.0));
    assert_eq!(result.avg_train_sharpe, Real(2.0));
    assert_eq!(result.overfitting_ratio, Real(1.0));
    let mut losing = window;
    losing.train_sharpe = Real(-1.0);
    losing.test_sharpe = Real(0.0);
    assert_eq!(walk_forward_result(vec![losing], None, &regimes).overfitting_ratio, Real(1.0));
    losing.train_sharpe = Real(-2.0);
    losing.test_sharpe = Real(1.0);
    assert_eq!(walk_forward_result(vec![losing], None, &regimes).overfitting_ratio, Real(1.5));
    assert_eq!(result.oos_profitability_rate, Real(0.5));
    assert_eq!(result.consistency_score, Real(1.0 / (1.0 + 2.0_f64.sqrt())));
    assert!(!result.regime_coverage_incomplete);
    let single = walk_forward_result(vec![window], None, &regimes);
    assert_eq!(single.consistency_score, Real(1.0));
}

#[test]
fn times_out_of_range_fall_back() {
    assert_eq!(timestamp_or(1_700_000_000_000, 0), 1_700_000_000_000);
    assert_eq!(timestamp_or(i64::MAX, 7), 7);
    assert_eq!(timestamp_or(i64::MIN, 7), 7);
    assert_eq!(timestamp_or_now(5), 5);
    assert!(timestamp_or_now(i64::MAX) > 1_600_000_000_000);
    let last = chrono::DateTime::<chrono::Utc>::MAX_UTC.timestamp_millis();
    let first = chrono::DateTime::<chrono::Utc>::MIN_UTC.timestamp_millis();
    assert_eq!(timestamp_or(last, 0), last);
    assert_eq!(timestamp_or(last + 1, 0), 0);
    assert_eq!(timestamp_or(first, 1), first);
    assert_eq!(timestamp_or(first - 1, 1), 1);
    assert_eq!(seconds_between(0, -1_999), -1);
    assert_eq!(calendar_days(0, 3 * 86_400_000 - 1), 2);
}

#[test]
fn a_number_of_windows_that_is_asked_for_is_kept() {
    assert_eq!(choose_window_count(17, 365, 10_000, &[]), 17);
    assert_eq!(choose_window_count(0, 365, 10_000, &[]), 4);
    assert_eq!(overfit_basis(Some((Real(2.0), Real(1.0))), None, Real(9.0)), (Real(2.0), Real(1.0)));
    assert_eq!(overfit_basis(None, Some(Real(3.0)), Real(9.0)), (Real(3.0), Real(9.0)));
}

#[test]
fn exceeds_param_complexity_gate_passes_a_well_sampled_candidate() {
    assert!(!exceeds_param_complexity_gate(3, 100));
}

#[test]
fn exceeds_param_complexity_gate_flags_a_thin_sample() {
    assert!(exceeds_param_complexity_gate(6, 20));
}

#[test]
fn exceeds_param_complexity_gate_is_exclusive_at_the_exact_threshold() {
    assert!(!exceeds_param_complexity_gate(1, 10));
    assert!(exceeds_param_complexity_gate(101, 1000));
}

#[test]
fn exceeds_param_complexity_gate_treats_zero_trades_as_one_trade() {
    assert!(exceeds_param_complexity_gate(1, 0));
    assert!(!exceeds_param_complexity_gate(0, 0));
}

fn row(timestamp_ms: i64, price: f64) -> MarketData<Real> {
    MarketData::Generic(GenericTick {
        timestamp_ms,
        price: Real(price),
        quantity: Real(1.0),
        open: None,
        high: None,
        low: None,
        close: None,
        volume: None,
    })
}

#[test]
fn quick_check_sees_only_training_data() {
    let a: Vec<MarketData<Real>> = (0..10).map(|i| row(i, 1.0)).collect();
    let b: Vec<MarketData<Real>> = (0..10).map(|i| row(i, if i < 7 { 1.0 } else { 9.0 })).collect();
    assert_eq!(training_data(&a).len(), 7);
    assert_eq!(quick_check_data(&a), a[..7].to_vec());
    assert_eq!(quick_check_data(&a), quick_check_data(&b));
}

#[test]
fn undated_rows_still_have_a_cost_hurdle() {
    let rows = vec![row(i64::MAX, 100.0), row(i64::MAX, 101.0)];
    let hurdle = backtest::measures::check_cost_hurdle(&rows, None, Real(0.0)).unwrap();
    assert_eq!(hurdle.cost_bps, Real(2.0 * 0.001 * 10_000.0));
    assert!((hurdle.avg_move_bps.0 - 100.0).abs() < 1e-9);
}
