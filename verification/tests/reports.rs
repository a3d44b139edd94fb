use backtest::combine::combine_oos_results;
use backtest::measures::{
    check_cost_hurdle, compute_cost_hurdle, compute_tick_divergence, estimate_ruin_probability, required_cost_multiple,
    simple_returns,
};
use backtest::market_data::{Candle, MarketData};
use backtest::number::{Fixed, Number};
use backtest::rebalancing::{simulate_rebalancing, RebalanceFreq, RebalanceStrategy};
use backtest::synthetic_book::{BookSide, SyntheticBookConfig, SyntheticOrderBook};
use backtest::types::{BacktestEvent, BacktestResult, ExecutionMetrics, InventoryMetrics};
use backtest::ledger::TradeRecord;

#[derive(Clone, Copy, Debug, PartialEq)]
struct Real(f64);

impl Number for Real {
    fn of(n: i64) -> Self {
        Real(n as f64)
    }
    fn count(n: usize) -> Self {
        Real(n as f64)
    }
    fn largest() -> Self {
        Real(f64::MAX)
    }
    fn infinity() -> Self {
        Real(f64::INFINITY)
    }
    fn plus(self, other: Self) -> Self {
        Real(self.0 + other.0)
    }
    fn minus(self, other: Self) -> Self {
        Real(self.0 - other.0)
    }
    fn times(self, other: Self) -> Self {
        Real(self.0 * other.0)
    }
    fn over(self, other: Self) -> Self {
        Real(self.0 / other.0)
    }
    fn sqrt(self) -> Self {
        Real(self.0.sqrt())
    }
    fn power(self, times: u32) -> Self {
        Real(self.0.powi(times as i32))
    }
    fn abs(self) -> Self {
        Real(self.0.abs())
    }
    fn max(self, other: Self) -> Self {
        Real(self.0.max(other.0))
    }
    fn min(self, other: Self) -> Self {
        Real(self.0.min(other.0))
    }
    fn lt(self, other: Self) -> bool {
        self.0 < other.0
    }
    fn le(self, other: Self) -> bool {
        self.0 <= other.0
    }
    fn ceil(self) -> usize {
        self.0.ceil() as usize
    }
}

fn reals(values: &[f64]) -> Vec<Real> {
    values.iter().map(|v| Real(*v)).collect()
}

fn powf(base: Real, exponent: Real) -> Real {
    Real(base.0.powf(exponent.0))
}

#[test]
fn returns_are_relative_changes() {
    let r = simple_returns(&reals(&[100.0, 110.0, 99.0]));
    assert_eq!(r.len(), 2);
    assert!((r[0].0 - 0.1).abs() < 1e-12);
    assert!((r[1].0 + 0.1).abs() < 1e-12);
}

#[test]
fn fixed_numbers_cut_off_and_saturate() {
    let third = Fixed::of(1).over(Fixed::of(3));
    assert_eq!(third.units, 333_333);
    assert_eq!(Fixed::of(-1).over(Fixed::of(3)).units, -333_333);
    assert_eq!(Fixed::of(1).over(Fixed::of(0)).units, 0);
    assert_eq!(Fixed::of(i64::MAX).units, i64::MAX);
    assert_eq!(Fixed::of(2).sqrt().units, 1_414_213);
    assert_eq!(Fixed::of(3).power(4), Fixed::of(81));
    assert_eq!(third.ceil(), 1);
    assert_eq!(Fixed::of(2).ceil(), 2);
    assert_eq!(Fixed::of(-2).ceil(), 0);
}

#[test]
fn required_cost_multiple_scales_with_bar_frequency() {
    assert_eq!(required_cost_multiple(Real(1.0)), Real(4.0));
    assert_eq!(required_cost_multiple(Real(15.0)), Real(4.0));
    assert_eq!(required_cost_multiple(Real(16.0)), Real(3.0));
    assert_eq!(required_cost_multiple(Real(240.0)), Real(3.0));
    assert_eq!(required_cost_multiple(Real(241.0)), Real(2.5));
    assert_eq!(required_cost_multiple(Real(1440.0)), Real(2.5));
}

#[test]
fn compute_cost_hurdle_fails_when_move_is_smaller_than_cost() {
    let prices: Vec<Real> = (0..100).map(|i| Real(100.0 * (1.0 + 0.0001 * (i % 2) as f64))).collect();
    let result = compute_cost_hurdle(&prices, Real(1440.0), Real(0.001), Real(5.0)).expect("enough data for a result");
    assert!(!result.passed, "tiny moves should never clear a realistic cost hurdle");
    assert!(result.margin.0 < result.required_multiple.0);
}

#[test]
fn compute_cost_hurdle_passes_when_move_comfortably_clears_cost() {
    let prices: Vec<Real> =
        (0..100).map(|i| Real(100.0 * (1.0 + 0.05 * if i % 2 == 0 { 1.0 } else { -1.0 }))).collect();
    let result = compute_cost_hurdle(&prices, Real(1440.0), Real(0.001), Real(5.0)).expect("enough data for a result");
    assert!(result.passed, "large moves should comfortably clear cost");
    assert!(result.margin.0 > result.required_multiple.0);
}

#[test]
fn compute_cost_hurdle_requires_a_higher_margin_at_higher_frequency() {
    let prices: Vec<Real> =
        (0..100).map(|i| Real(100.0 * (1.0 + 0.001 * if i % 2 == 0 { 1.0 } else { -1.0 }))).collect();
    let daily = compute_cost_hurdle(&prices, Real(1440.0), Real(0.001), Real(5.0)).unwrap();
    let five_min = compute_cost_hurdle(&prices, Real(5.0), Real(0.001), Real(5.0)).unwrap();
    assert!((daily.margin.0 - five_min.margin.0).abs() < 1e-9);
    assert!(five_min.required_multiple.0 > daily.required_multiple.0);
}

#[test]
fn compute_cost_hurdle_returns_none_for_insufficient_data() {
    assert!(compute_cost_hurdle(&[], Real(1440.0), Real(0.001), Real(5.0)).is_none());
    assert!(compute_cost_hurdle(&[Real(100.0)], Real(1440.0), Real(0.001), Real(5.0)).is_none());
}

#[test]
fn compute_cost_hurdle_zero_cost_always_passes() {
    let prices = reals(&[100.0, 100.001, 100.0, 100.001]);
    let result = compute_cost_hurdle(&prices, Real(1440.0), Real(0.0), Real(0.0)).expect("enough data");
    assert!(result.passed);
    assert!(result.margin.0.is_infinite());
}

#[test]
fn cost_hurdle_takes_its_bars_from_the_data() {
    let data: Vec<MarketData<Real>> = (0..100i64)
        .map(|i| {
            let close = Real(if i % 2 == 0 { 100.0 } else { 105.0 });
            MarketData::Candle(Candle {
                timestamp_ms: i * 60_000,
                symbol: "BTC-USD".to_string(),
                exchange: "kraken".to_string(),
                open: close,
                high: close,
                low: close,
                close,
                volume: Real(1.0),
            })
        })
        .collect();
    let result = check_cost_hurdle(&data, Some(Real(0.001)), Real(5.0)).unwrap();
    assert_eq!(result.required_multiple, Real(4.0));
    assert!(result.passed);
}

#[test]
fn test_estimate_ruin_probability_empty_fan_chart() {
    let none: Vec<[Real; 5]> = vec![];
    assert_eq!(estimate_ruin_probability(&none), Real(0.0));
}

fn step(values: [f64; 5]) -> [Real; 5] {
    values.map(Real)
}

#[test]
fn test_estimate_ruin_probability_no_ruin() {
    let chart = vec![
        step([9000.0, 9500.0, 10000.0, 10500.0, 11000.0]),
        step([9200.0, 9700.0, 10200.0, 10700.0, 11200.0]),
        step([9500.0, 10000.0, 10500.0, 11000.0, 11500.0]),
    ];
    assert_eq!(estimate_ruin_probability(&chart), Real(0.0));
}

#[test]
fn test_estimate_ruin_probability_with_ruin() {
    let chart = vec![
        step([10000.0, 10000.0, 10000.0, 10000.0, 10000.0]),
        step([4000.0, 7000.0, 10000.0, 12000.0, 14000.0]),
        step([3000.0, 6000.0, 10000.0, 13000.0, 16000.0]),
    ];
    let prob = estimate_ruin_probability(&chart);
    assert!(prob.0 > 0.0, "Should detect ruin probability when p5 drops below threshold");
    assert!((prob.0 - 2.0 / 3.0 * 0.5).abs() < 1e-12);
}

#[test]
fn ruin_that_was_recovered_from_counts_little() {
    let chart = vec![
        step([10000.0, 10000.0, 10000.0, 10000.0, 10000.0]),
        step([4000.0, 7000.0, 10000.0, 12000.0, 14000.0]),
        step([6000.0, 7000.0, 10000.0, 12000.0, 14000.0]),
    ];
    assert!((estimate_ruin_probability(&chart).0 - 1.0 / 3.0 * 0.05).abs() < 1e-12);
}

#[test]
fn ticks_that_halve_the_sharpe_ratio_are_flagged() {
    let result = compute_tick_divergence(Real(2.0), Real(100.0), Real(1.0), Real(90.0));
    assert!((result.sharpe_divergence_pct.0 - 50.0).abs() < 1e-9);
    assert!((result.pnl_divergence_pct.0 - 10.0).abs() < 1e-9);
    assert!(result.flagged);
    assert!(!compute_tick_divergence(Real(0.0), Real(0.0), Real(1.0), Real(1.0)).flagged);
}

fn oos_window(equity_curve: Vec<f64>, pct_returns: Vec<f64>) -> BacktestResult<Real> {
    let initial_capital = equity_curve.first().copied().unwrap_or(10_000.0);
    let final_eq = equity_curve.last().copied().unwrap_or(initial_capital);
    let total_pnl = final_eq - initial_capital;
    let dollar_returns: Vec<f64> = pct_returns.iter().map(|p| p * initial_capital).collect();
    BacktestResult {
        total_pnl: Real(total_pnl),
        num_trades: pct_returns.len(),
        closed_trades: pct_returns.len(),
        equity_curve: reals(&equity_curve),
        trade_returns: reals(&dollar_returns),
        trade_pct_returns: reals(&pct_returns),
        initial_capital: Real(initial_capital),
        ..Default::default()
    }
}

#[test]
fn test_combine_oos_total_pnl_matches_chained_equity_endpoint() {
    let initial_capital = 10_000.0;
    let w1 = oos_window(vec![10_000.0, 11_000.0, 12_000.0], vec![0.20]);
    let w2 = oos_window(vec![10_000.0, 9_500.0, 9_000.0], vec![-0.10]);

    let combined = combine_oos_results(&[w1, w2], Real(initial_capital), powf);

    let chained_end = combined.equity_curve.last().copied().unwrap().0;
    assert!(
        (combined.total_pnl.0 - (chained_end - initial_capital)).abs() < 1e-6,
        "total_pnl {:?} should match chained endpoint pnl {}",
        combined.total_pnl,
        chained_end - initial_capital
    );
    assert!((chained_end - 10_800.0).abs() < 1e-6, "chained end was {}", chained_end);
    assert!((combined.total_pnl.0 - 800.0).abs() < 1e-6, "total_pnl was {:?}", combined.total_pnl);
    let net_pct = combined.net_profit.unwrap().0;
    assert!((net_pct - (combined.total_pnl.0 / initial_capital * 100.0)).abs() < 1e-6);
    assert!((combined.realized_pnl.unwrap().0 - combined.total_pnl.0).abs() < 1e-6);
}

#[test]
fn test_combine_oos_falls_back_to_additive_without_equity_curve() {
    let initial_capital = 10_000.0;
    let mut w1 = oos_window(vec![], vec![0.05]);
    w1.total_pnl = Real(500.0);
    let mut w2 = oos_window(vec![], vec![-0.02]);
    w2.total_pnl = Real(-200.0);

    let combined = combine_oos_results(&[w1, w2], Real(initial_capital), powf);
    assert!(combined.equity_curve.is_empty());
    assert!((combined.total_pnl.0 - 300.0).abs() < 1e-6, "total_pnl was {:?}", combined.total_pnl);
}

#[test]
fn combining_nothing_gives_a_blank_result() {
    let combined = combine_oos_results(&[], Real(5_000.0), powf);
    assert_eq!(combined.total_pnl, Real(0.0));
    assert_eq!(combined.initial_capital, Real(5_000.0));
}

#[test]
fn no_rebalancing_returns_summed_curves() {
    let curves = vec![reals(&[5000.0, 5100.0, 5200.0]), reals(&[5000.0, 4900.0, 4800.0])];
    let weights = reals(&[0.5, 0.5]);
    let result = simulate_rebalancing(&curves, &weights, &RebalanceStrategy::Never, Real(0.001), Real(5.0), 1);

    assert_eq!(result.adjusted_equity_curve, reals(&[10000.0, 10000.0, 10000.0]));
    assert_eq!(result.num_rebalances, 0);
}

#[test]
fn threshold_triggers_when_drift_exceeded() {
    let curves =
        vec![reals(&[5000.0, 6000.0, 7000.0, 8000.0]), reals(&[5000.0, 4000.0, 3000.0, 2000.0])];
    let weights = reals(&[0.5, 0.5]);
    let strategy = RebalanceStrategy::Threshold { drift_pct: Real(0.05) };
    let result = simulate_rebalancing(&curves, &weights, &strategy, Real(0.001), Real(5.0), 1);

    assert!(result.num_rebalances > 0);
    assert!(result.total_rebalance_cost.0 > 0.0);
}

#[test]
fn calendar_triggers_at_interval() {
    let curve_a: Vec<Real> = (0..100).map(|i| Real(5000.0 + i as f64 * 10.0)).collect();
    let curve_b: Vec<Real> = (0..100).map(|i| Real(5000.0 - i as f64 * 5.0)).collect();
    let curves = vec![curve_a, curve_b];
    let weights = reals(&[0.5, 0.5]);
    let strategy = RebalanceStrategy::Calendar { frequency: RebalanceFreq::Daily };
    let result = simulate_rebalancing(&curves, &weights, &strategy, Real(0.001), Real(5.0), 1);

    assert!(result.num_rebalances > 0);
}

#[test]
fn rebalancing_follows_drift_or_calendar() {
    assert_eq!(RebalanceFreq::Weekly.interval_seconds(), 604_800);
    let curves =
        vec![reals(&[5000.0, 6000.0, 7000.0, 8000.0]), reals(&[5000.0, 4000.0, 3000.0, 2000.0])];
    let weights = reals(&[0.5, 0.5]);
    let strategy =
        RebalanceStrategy::ThresholdOrCalendar { drift_pct: Real(0.05), frequency: RebalanceFreq::Quarterly };
    let result = simulate_rebalancing(&curves, &weights, &strategy, Real(0.0), Real(0.0), 1);
    assert_eq!(result.num_rebalances, result.events.len());
    assert_eq!(result.adjusted_equity_curve.len(), 4);
    assert_eq!(result.total_rebalance_cost, Real(0.0));
}

#[test]
fn test_wider_spread_for_volatile_candle() {
    let config = SyntheticBookConfig::default();
    let calm = SyntheticOrderBook::from_candle(Real(100.0), Real(100.05), Real(99.95), Real(1000.0), &config);
    let wild = SyntheticOrderBook::from_candle(Real(100.0), Real(100.2), Real(99.8), Real(1000.0), &config);
    let calm_spread = calm.best_ask.0 - calm.best_bid.0;
    let wild_spread = wild.best_ask.0 - wild.best_bid.0;
    assert!(wild_spread > calm_spread, "volatile candle should widen spread");
}

#[test]
fn test_extreme_range_candle_spread_is_capped_not_unbounded() {
    let config = SyntheticBookConfig::default();
    let extreme = SyntheticOrderBook::from_candle(Real(100.0), Real(104.0), Real(96.0), Real(1000.0), &config);
    let full_spread_pct = (extreme.best_ask.0 - extreme.best_bid.0) / extreme.mid_price.0;
    assert!(
        full_spread_pct < 0.02,
        "an extreme-range bar's spread must stay bounded (got {:.4}%, expected < 2%)",
        full_spread_pct * 100.0
    );
}

#[test]
fn test_slippage_increases_with_size() {
    let config = SyntheticBookConfig::default();
    let book = SyntheticOrderBook::from_candle(Real(100.0), Real(101.0), Real(99.0), Real(1000.0), &config);
    let (_, slip_small) = book.calculate_slippage(Real(10.0), BookSide::Bid);
    let (_, slip_large) = book.calculate_slippage(Real(500.0), BookSide::Bid);
    assert!(slip_large.0 >= slip_small.0, "larger orders should have >= slippage");
}

#[test]
fn test_market_impact_sqrt_law() {
    let config = SyntheticBookConfig::default();
    let book = SyntheticOrderBook::from_candle(Real(100.0), Real(101.0), Real(99.0), Real(1000.0), &config);
    let impact_small = book.calculate_market_impact(Real(10.0), Real(1000.0));
    let impact_large = book.calculate_market_impact(Real(100.0), Real(1000.0));
    let ratio = impact_large.0 / impact_small.0;
    assert!(ratio > 2.5 && ratio < 4.0, "sqrt-law check: ratio={:.2}", ratio);
}

#[test]
fn test_zero_volume_candle() {
    let config = SyntheticBookConfig::default();
    let book = SyntheticOrderBook::from_candle(Real(100.0), Real(100.0), Real(100.0), Real(0.0), &config);
    assert!(book.best_bid.0 < book.best_ask.0);
    assert_eq!(book.calculate_market_impact(Real(10.0), Real(0.0)), Real(0.0));
}

#[test]
fn test_trade_record_open_position() {
    let record: TradeRecord<Real> = TradeRecord {
        trade_id: 2,
        side: "short".to_string(),
        entry_signal_price: Real(200.0),
        entry_fill_price: Real(200.1),
        exit_signal_price: None,
        exit_fill_price: None,
        quantity: Real(0.5),
        pnl: None,
        pnl_pct: None,
        commission: Real(0.05),
        slippage_cost: Real(0.1),
        entry_time: chrono::Utc::now().timestamp_millis(),
        exit_time: None,
        duration_secs: None,
        entry_liquidity: "maker".to_string(),
        exit_liquidity: None,
        entry_reason: "signal_sell".to_string(),
        exit_reason: None,
        mae: None,
        mfe: None,
        legs: Vec::new(),
    };
    assert!(record.exit_fill_price.is_none());
    assert!(record.pnl.is_none());
    assert!(record.exit_time.is_none());
}

#[test]
fn test_backtest_result_default() {
    let result: BacktestResult<Real> = BacktestResult::default();
    assert_eq!(result.total_pnl, Real(0.0));
    assert_eq!(result.num_trades, 0);
    assert_eq!(result.closed_trades, 0);
    assert_eq!(result.open_positions, 0);
    assert_eq!(result.max_drawdown, Real(0.0));
    assert!(result.sharpe_ratio.is_none());
    assert!(result.equity_curve.is_empty());
    assert!(result.trade_returns.is_empty());
    assert!(result.trade_maes.is_empty());
    assert!(result.trade_log.is_empty());
    assert!(result.price_series.is_empty());
}

#[test]
fn test_backtest_event_market_data() {
    let event: BacktestEvent<Real> = BacktestEvent::MarketData { timestamp: chrono::Utc::now().timestamp_millis() };
    match event {
        BacktestEvent::MarketData { timestamp } => {
            assert!(timestamp <= chrono::Utc::now().timestamp_millis());
        }
        _ => panic!("Wrong variant"),
    }
}

#[test]
fn test_backtest_event_order_filled() {
    let event = BacktestEvent::OrderFilled {
        order_id: "order-1".to_string(),
        fill_price: Real(50000.0),
        quantity: Real(0.1),
        timestamp: chrono::Utc::now().timestamp_millis(),
    };
    match event {
        BacktestEvent::OrderFilled { fill_price, quantity, .. } => {
            assert_eq!(fill_price, Real(50000.0));
            assert_eq!(quantity, Real(0.1));
        }
        _ => panic!("Wrong variant"),
    }
}

#[test]
fn test_execution_metrics_default() {
    let m: ExecutionMetrics<Real> = ExecutionMetrics::default();
    assert_eq!(m.orders_placed, 0);
    assert_eq!(m.orders_filled, 0);
    assert_eq!(m.fill_rate, Real(0.0));
    assert!(m.round_trip_win_rate.is_none());
}

#[test]
fn test_inventory_metrics_default() {
    let m: InventoryMetrics<Real> = InventoryMetrics::default();
    assert_eq!(m.total_volume_traded, Real(0.0));
    assert_eq!(m.buy_fills, 0);
    assert_eq!(m.sell_fills, 0);
    assert_eq!(m.starting_inventory, Real(0.0));
    assert_eq!(m.ending_inventory, Real(0.0));
}

#[test]
fn flat_candle_is_quoted_at_the_base_half_spread() {
    let config: SyntheticBookConfig<Real> = SyntheticBookConfig::default();
    let book = SyntheticOrderBook::from_candle(Real(100.0), Real(100.0), Real(100.0), Real(1000.0), &config);
    assert!((book.best_ask.0 - 100.05).abs() < 1e-9);
    assert!((book.best_bid.0 - 99.95).abs() < 1e-9);
}

#[test]
fn weights_are_needed_only_where_a_rebalance_comes_due() {
    let curves = vec![reals(&[5000.0, 5001.0]), reals(&[5000.0, 5001.0])];
    let strategy = RebalanceStrategy::Threshold { drift_pct: Real(0.5) };
    let result = simulate_rebalancing(&curves, &reals(&[0.5]), &strategy, Real(0.001), Real(5.0), 1);
    assert_eq!(result.num_rebalances, 0);
    assert_eq!(result.adjusted_equity_curve, reals(&[10000.0, 10002.0]));
    assert_eq!(result.weight_drift_series, vec![reals(&[0.0]), reals(&[0.0])]);
}

#[test]
fn market_impact_grows_past_the_volume_of_the_bar() {
    let config: SyntheticBookConfig<Real> = SyntheticBookConfig::default();
    let book = SyntheticOrderBook::from_candle(Real(100.0), Real(100.0), Real(100.0), Real(1000.0), &config);
    assert!((book.calculate_market_impact(Real(4000.0), Real(1000.0)).0 - 10.0).abs() < 1e-9);
}
