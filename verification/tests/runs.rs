use backtest::directional_run::{
    reports_progress, resolve_bulk_signals, resolve_position_sizes, DirectionalRun, RunError,
};
use backtest::evaluation_key::evaluation_key;
use backtest::quoting_history::QuotingHistory;
use backtest::folds::{
    plan_folds, plan_walk_forward, slice_sizes, WalkForwardError, WalkForwardRun, WalkForwardStep, WindowBounds,
};
use backtest::ledger::{ExecutedFill, LiquidityType};
use backtest::market_data::{
    close_prices_from_market_data, extract_candle_ohlcv, extract_ohlcv_ts, extract_price_volume_ts,
    market_data_close_price, market_data_symbol_exchange, market_data_timestamp, subsample, subsample_step, timestamp_with_fallback, Candle,
    GenericTick, MarketData, MarketDataInput, PoolSwap, Side, SimulationTick, TradeData,
};
use backtest::number::{Fixed, Number};
use backtest::regime::VolatilityRegime;
use backtest::results::{build_backtest_result, returns_for_risk, trade_span_seconds, RunContext};
use backtest::signals::Direction;
use backtest::simulation::SimulationLoop;
use backtest::synthetic_book::BookSide;
use backtest::types::FeatureDiagnostic;
use backtest::tick_flow::{DirectionalFlow, DirectionalStep, QuotingStep, QuotingTick};
use backtest::walk_forward::stage1_training_only_end;

#[derive(Clone, Copy, Debug, PartialEq)]
struct Real(f64);

impl Number for Real {
    fn of(n: i64) -> Self {
        Real(n as f64)
    }
    fn count(n: usize) -> Self {
        Real(n as f64)
    }
    fn largest() -> Self {
        Real(f64::MAX)
    }
    fn infinity() -> Self {
        Real(f64::INFINITY)
    }
    fn plus(self, other: Self) -> Self {
        Real(self.0 + other.0)
    }
    fn minus(self, other: Self) -> Self {
        Real(self.0 - other.0)
    }
    fn times(self, other: Self) -> Self {
        Real(self.0 * other.0)
    }
    fn over(self, other: Self) -> Self {
        Real(self.0 / other.0)
    }
    fn sqrt(self) -> Self {
        Real(self.0.sqrt())
    }
    fn power(self, times: u32) -> Self {
        Real(self.0.powi(times as i32))
    }
    fn abs(self) -> Self {
        Real(self.0.abs())
    }
    fn max(self, other: Self) -> Self {
        Real(self.0.max(other.0))
    }
    fn min(self, other: Self) -> Self {
        Real(self.0.min(other.0))
    }
    fn lt(self, other: Self) -> bool {
        self.0 < other.0
    }
    fn le(self, other: Self) -> bool {
        self.0 <= other.0
    }
    fn ceil(self) -> usize {
        self.0.ceil() as usize
    }
}

fn reals(values: &[f64]) -> Vec<Real> {
    values.iter().map(|v| Real(*v)).collect()
}

fn powf(base: Real, exponent: Real) -> Real {
    Real(base.0.powf(exponent.0))
}

#[test]
fn walk_forward_windows_train_purge_and_test() {
    let day = 86_400_000i64;
    let plan = plan_walk_forward(1_000, 999 * day, 5, &[]).unwrap();
    assert!(!plan.is_empty());
    for w in &plan {
        assert_eq!(w.train_end - w.train_start, 140);
        assert_eq!(w.test_start - w.train_end, 5);
        assert_eq!(w.test_end - w.test_start, 60);
        assert!(w.test_end <= 1_000);
    }
    for pair in plan.windows(2) {
        assert!(pair[0].test_end <= pair[1].test_start);
    }
    let sizes = slice_sizes(1_000, 999 * day, 200);
    assert_eq!((sizes.train_size, sizes.test_size, sizes.purge_gap_bars), (140, 60, 5));
}

#[test]
fn walk_forward_needs_a_hundred_bars() {
    let error = plan_walk_forward(99, 1_000, 3, &[]).unwrap_err();
    assert_eq!(error, WalkForwardError::InsufficientData { bars: 99 });
    assert_eq!(error.message(), "Insufficient data for walk-forward analysis (need >= 100 ticks, got 99)");
    assert!(plan_walk_forward(100, 1_000, 3, &[]).is_ok());
}

#[test]
fn evaluate_is_oos_folds_returns_empty_for_zero_folds() {
    assert!(plan_folds(0, 0, 0).is_empty());
    assert!(plan_folds(10_000, 0, 0).is_empty());
}

#[test]
fn evaluate_is_oos_folds_returns_empty_for_insufficient_data() {
    assert!(plan_folds(0, 0, 3).is_empty());
    assert!(plan_folds(99, 0, 3).is_empty());
}

#[test]
fn folds_cover_the_data_evenly() {
    let folds = plan_folds(900, 899 * 60_000, 3);
    assert!(!folds.is_empty());
    assert_eq!(folds[0].train_start, 0);
    for fold in &folds {
        assert!(fold.train_end <= fold.test_start);
    }
}

fn bounds(at: usize) -> WindowBounds {
    WindowBounds { train_start: at, train_end: at + 7, test_start: at + 8, test_end: at + 10 }
}

#[test]
fn a_window_counts_when_both_slices_ran() {
    let mut run = WalkForwardRun::new(vec![bounds(0), bounds(10), bounds(20)], 2);
    assert_eq!(run.next_step(), WalkForwardStep::Train(bounds(0)));
    run.on_train(false);
    assert_eq!(run.next_step(), WalkForwardStep::Train(bounds(10)));
    run.on_train(true);
    assert_eq!(run.next_step(), WalkForwardStep::Test(bounds(10)));
    assert_eq!(run.on_test(true), Some(1));
    run.on_train(true);
    assert_eq!(run.on_test(false), None);
    assert_eq!(run.next_step(), WalkForwardStep::Done);
    assert_eq!(run.finish().unwrap(), vec![bounds(10)]);
    let none = WalkForwardRun::new(vec![], 4).finish().unwrap_err();
    assert_eq!(none, WalkForwardError::NoWindows { num_windows: 4 });
    assert_eq!(none.message(), "Walk-forward produced no windows (data too short for 4 windows)");
}

#[test]
fn the_quick_check_stops_before_the_last_test_slice() {
    assert_eq!(stage1_training_only_end(90), 62);
    for n in [100usize, 500, 999, 12_345] {
        for num_windows in 1..10usize {
            let plan = plan_walk_forward(n, 0, num_windows, &[]).unwrap();
            for w in plan {
                if w.test_end == n {
                    assert!(stage1_training_only_end(n) <= w.test_start);
                }
            }
        }
    }
}

#[test]
fn windows_are_placed_in_every_regime() {
    let mut regimes = vec![Some(VolatilityRegime::Low); 800];
    regimes.extend(vec![Some(VolatilityRegime::High); 200]);
    let plan = plan_walk_forward(1_000, 0, 4, &regimes).unwrap();
    let tested: Vec<Option<VolatilityRegime>> =
        plan.iter().map(|w| regimes[w.test_start + (w.test_end - w.test_start) / 2]).collect();
    assert!(tested.contains(&Some(VolatilityRegime::Low)));
}

#[test]
fn bulk_signals_need_one_code_per_tick() {
    assert_eq!(resolve_bulk_signals(Some(vec![1, 0]), None, 2), Ok(Some(vec![1, 0])));
    assert_eq!(resolve_bulk_signals(None, None, 2), Ok(None));
    let short = resolve_bulk_signals(Some(vec![1]), None, 2).unwrap_err();
    assert_eq!(
        short.message(),
        "Strategy compute_signals() failed: compute_signals() returned 1 signals but expected 2. The array must have exactly one entry per tick. Common fix: return sig (full-length zeros array) instead of sig[warmup:].. Fix the error in your strategy code."
    );
    let failed = resolve_bulk_signals(None, Some("boom".to_string()), 2).unwrap_err();
    assert_eq!(failed, RunError::SignalsFailed { message: "boom".to_string() });
    assert_eq!(resolve_position_sizes(Some(reals(&[0.1])), 2), None);
    assert_eq!(resolve_position_sizes(Some(reals(&[0.1, 0.2])), 2), Some(reals(&[0.1, 0.2])));
    assert!(reports_progress(0, 10) && reports_progress(9, 10) && !reports_progress(5, 10));
}

fn fill(direction: Direction, price: f64, time: i64) -> ExecutedFill<Real> {
    ExecutedFill {
        direction,
        signal_price: Real(price),
        fill_price: Real(price),
        quantity: Real(1.0),
        commission: Real(0.5),
        entry_slippage: Real(0.0),
        exit_slippage: None,
        cash_share: Real(0.0),
        liquidity: LiquidityType::Taker,
        entry_time: time,
        exit_time: time,
        reason: "signal".to_string(),
        numbered: true,
    }
}

fn context() -> RunContext<Real> {
    RunContext {
        initial_capital: Real(1_000.0),
        open_positions: 0,
        unrealized_pnl: Real(0.0),
        observations_per_year: Real(252.0),
        sharpe_t_stat: None,
        significance_pvalue: None,
        deflated_sharpe: None,
        ulcer_index: None,
        pain_index: None,
        cdar_95: None,
        compute_signals_error: None,
        strategy_display_name: Some("name".to_string()),
        feature_diagnostics: Some(vec![FeatureDiagnostic {
            feature_name: "momentum".to_string(),
            ic: vec![("ic".to_string(), Real(0.1))],
            quantile_buckets: vec![],
        }]),
        option_summary: None,
    }
}

#[test]
fn a_run_goes_from_ticks_to_a_result() {
    assert_eq!(DirectionalRun::<Real>::new(0, None).err(), Some(RunError::NoData));
    let mut run: DirectionalRun<Real> = DirectionalRun::new(3, None).unwrap();
    assert!(!run.on_price(Real(0.0)));
    assert!(run.on_price(Real(100.0)));
    run.ledger.record_fill(fill(Direction::Buy, 100.0, 0));
    run.record_equity(0, Real(1_000.0), 0, true);
    assert!(run.on_price(Real(120.0)));
    run.ledger.record_fill(fill(Direction::Sell, 120.0, 86_400_000));
    run.record_equity(1, Real(1_019.0), 86_400_000, true);
    assert!(run.on_price(Real(90.0)));
    run.ledger.record_fill(fill(Direction::Buy, 90.0, 2 * 86_400_000));
    run.record_equity(2, Real(1_010.0), 2 * 86_400_000, false);
    let end = run.finish(Some(&[1, -1, 1]), Real(1_000.0)).unwrap();
    assert_eq!(end.final_equity, Real(1_010.0));
    assert_eq!((end.signal_counts.buy, end.signal_counts.sell), (2, 1));
    assert_eq!(trade_span_seconds(&end.ledger.trade_log), Some(2 * 86_400));
    assert_eq!(returns_for_risk(&end.ledger.trade_log, &end.equity_curve).len(), 1);
    let result = build_backtest_result(end, context(), powf);
    assert_eq!(result.total_pnl, Real(10.0));
    assert_eq!(result.num_trades, 3);
    assert_eq!(result.closed_trades, 1);
    assert_eq!(result.trade_returns, reals(&[19.0]));
    assert_eq!(result.feature_diagnostics, context().feature_diagnostics);
    assert_eq!(result.trade_log.len(), 2);
    assert!(result.trade_log[1].exit_time.is_none());
    assert_eq!(result.gross_profit, Some(Real(19.0)));
    assert_eq!(result.profit_factor, Some(Real(f64::INFINITY)));
    assert_eq!(result.win_rate, Some(Real(1.0)));
    assert_eq!(result.first_trade_price, Some(Real(100.0)));
    assert_eq!(result.last_trade_price, Some(Real(90.0)));
    assert!(result.sharpe_ratio.is_none());
    assert_eq!(result.max_drawdown, Real(9.0 / 1_019.0));
}

#[test]
fn a_strategy_that_fails_on_every_tick_is_reported() {
    let mut run: DirectionalRun<Real> = DirectionalRun::new(2, None).unwrap();
    run.on_strategy_tick(Some("first".to_string()));
    run.on_strategy_tick(Some("second".to_string()));
    let error = run.finish(None, Real(1.0)).err().unwrap();
    assert_eq!(
        error.message(),
        "Strategy execution failed on every attempted tick (2 of 2): first. Fix the error in your strategy code."
    );
    let mut run: DirectionalRun<Real> = DirectionalRun::new(2, None).unwrap();
    run.on_strategy_tick(Some("first".to_string()));
    run.on_strategy_tick(None);
    assert!(run.finish(None, Real(1.0)).is_ok());
}

#[test]
fn a_halted_run_samples_but_takes_no_signal() {
    let flow = DirectionalFlow { has_risk_manager: true, is_leveraged: true };
    let mut step = flow.begin(true);
    let mut seen = vec![step];
    while step != DirectionalStep::Done {
        step = flow.next(step, true);
        seen.push(step);
    }
    assert_eq!(
        seen,
        vec![
            DirectionalStep::FillPending,
            DirectionalStep::AskStrategy,
            DirectionalStep::CheckRisk,
            DirectionalStep::CheckMargin,
            DirectionalStep::Sample,
            DirectionalStep::Done,
        ]
    );
    assert_eq!(flow.begin(false), DirectionalStep::Done);
    let plain = DirectionalFlow { has_risk_manager: false, is_leveraged: false };
    assert_eq!(plain.next(DirectionalStep::AskStrategy, false), DirectionalStep::HandleSignals);
}

#[test]
fn quotes_replace_orders_unless_the_limits_refuse() {
    let tick = QuotingTick { is_trade: true, was_halted: false, has_signals: true, is_refused: false };
    assert_eq!(tick.begin(), QuotingStep::MatchTrade);
    assert_eq!(tick.next(QuotingStep::AskStrategy), QuotingStep::CancelOrders);
    assert_eq!(tick.next(QuotingStep::CheckRisk), QuotingStep::PlaceQuotes);
    let refused = QuotingTick { is_refused: true, ..tick };
    assert_eq!(refused.next(QuotingStep::CheckRisk), QuotingStep::Done);
    let halted = QuotingTick { is_trade: false, was_halted: true, ..tick };
    assert_eq!(halted.begin(), QuotingStep::Sample);
}

#[test]
fn fixed_point_runs_keep_volume_and_leverage_in_bounds() {
    let mut sim: SimulationLoop<Fixed> = SimulationLoop::new();
    sim.update_30d_volume("x", 0, Fixed::of(-5));
    assert_eq!(sim.thirty_day_volume("x"), Fixed::of(0));
    sim.place_order("a", BookSide::Bid, 0, Fixed::of(9));
    assert_eq!(sim.best_own_quote(BookSide::Bid), Some(Fixed::of(9)));
    assert_eq!(sim.best_own_quote(BookSide::Ask), None);
    assert_eq!(backtest::directional::effective_leverage(Fixed::of(3), Fixed::of(10)), Fixed::of(3));
}

fn generic(timestamp_ms: i64) -> MarketData<Real> {
    MarketData::Generic(GenericTick {
        timestamp_ms,
        price: Real(10.0),
        quantity: Real(4.0),
        open: None,
        high: Some(Real(12.0)),
        low: None,
        close: None,
        volume: None,
    })
}

#[test]
fn market_data_is_read_by_its_kind() {
    let candle = MarketData::Candle(Candle {
        timestamp_ms: 5,
        symbol: "A".to_string(),
        exchange: "x".to_string(),
        open: Real(1.0),
        high: Real(3.0),
        low: Real(0.5),
        close: Real(2.0),
        volume: Real(7.0),
    });
    assert_eq!(extract_price_volume_ts(&candle), (Real(2.0), Real(7.0), 5));
    assert_eq!(extract_candle_ohlcv(&candle), Some((Real(2.0), Real(3.0), Real(0.5), Real(7.0))));
    assert_eq!(market_data_symbol_exchange(&candle), Some(("A".to_string(), "x".to_string())));
    let swap = MarketData::PoolSwap(PoolSwap { timestamp_ms: 6, price: Real(8.0), amount_in: Real(2.0) });
    assert_eq!(market_data_symbol_exchange(&swap), None);
    assert_eq!(extract_candle_ohlcv(&swap), None);
    let bar = extract_ohlcv_ts(&generic(7));
    assert_eq!((bar.open, bar.high, bar.low, bar.close, bar.volume), (Real(10.0), Real(12.0), Real(10.0), Real(10.0), Real(4.0)));
    assert_eq!(market_data_timestamp(&generic(7)), 7);
    assert_eq!(timestamp_with_fallback(&generic(i64::MAX), 3), 3);
    assert_eq!(close_prices_from_market_data(&[candle, swap]), reals(&[2.0, 8.0]));
}

#[test]
fn series_are_thinned_from_the_first_on() {
    let data: Vec<MarketData<Real>> = (0..10).map(generic).collect();
    assert_eq!(subsample_step(10, 3), 3);
    let kept: Vec<i64> = subsample(&data, 3).iter().map(market_data_timestamp).collect();
    assert_eq!(kept, vec![0, 3, 6, 9]);
    assert_eq!(subsample(&data, 100).len(), 10);
}

#[test]
fn compact_ticks_stand_for_trades() {
    let ticks = vec![
        SimulationTick { timestamp_ms: 1, price: Real(2.0), quantity: Real(3.0), side: 1 },
        SimulationTick { timestamp_ms: i64::MAX, price: Real(2.0), quantity: Real(3.0), side: 0 },
    ];
    let input = MarketDataInput::SimTicks { ticks: &ticks, symbol: "A".to_string(), exchange: "x".to_string() };
    assert_eq!(input.len(), 2);
    let points = input.iter();
    match &points[0] {
        MarketData::Trade(t) => {
            assert_eq!((t.timestamp_ms, t.side, t.value), (1, Side::Sell, Real(6.0)));
        }
        other => panic!("expected a trade, got {other:?}"),
    }
    assert_eq!(market_data_timestamp(&points[1]), 0);
}

#[test]
fn whole_parts_agree_with_floating_point() {
    let mut counts: Vec<usize> = (0..20_000).collect();
    let mut seed = 0x1234_5678_9abc_def1u64;
    for _ in 0..5_000 {
        seed = seed.wrapping_mul(6364136223846793005).wrapping_add(1442695040888963407);
        counts.push((seed >> (seed % 60)) as usize);
    }
    for n in counts {
        let expected = (((n as f64) * 0.7) as usize).clamp(1, n.max(1)).min(n);
        assert_eq!(stage1_training_only_end(n), expected, "{n}");
    }
}

#[test]
fn rates_agree_with_floating_point() {
    let mut seed = 99u64;
    let mut next = |bound: u64| {
        seed = seed.wrapping_mul(6364136223846793005).wrapping_add(1442695040888963407);
        (seed >> 20) % bound
    };
    for _ in 0..3_000 {
        let (n, span, test) = (next(100_000) as usize, next(1 << 41) as i64, next(50_000) as usize);
        let average = if n > 1 { (span as f64 / (n - 1) as f64).max(1.0) } else { 1.0 };
        let gap = ((5.0 * 86_400_000.0 / average).round() as usize).min(test / 2);
        assert_eq!(backtest::walk_forward::resolve_wf_purge_gap_bars(n, span, test), gap);

        let (samples, seconds) = (next(100_000) as usize + 2, next(1 << 30) as i64);
        let days = seconds.max(1) as f64 / 86400.0;
        let periods = (samples as f64 / days).max(1.0) as usize;
        assert_eq!(backtest::simulation_run::periods_per_day(samples, Some(0), Some(seconds * 1000)), periods);

        let bars = next(10_000) as usize + 2;
        let minutes = ((seconds as f64 / 60.0) / (bars - 1) as f64).max(1.0).round() as usize;
        assert_eq!(backtest::cross_section::average_bar_minutes(seconds, bars), minutes);

        let (a, b) = (next(500) as usize, next(500) as usize);
        let diverges = a.abs_diff(b) as f64 / a.max(b).max(1) as f64 > 0.05;
        assert_eq!(backtest::lookahead::trade_counts_diverge(a, b), diverges);
        let complex = a as f64 / b.max(1) as f64 > 0.1;
        assert_eq!(backtest::optimization::exceeds_param_complexity_gate(a, b), complex);
    }
    for n in 0..100_000usize {
        let size = (n as f64).powf(1.0 / 3.0).round().max(3.0) as usize;
        assert_eq!(backtest::optimization::block_size(n), size);
    }
}

#[test]
fn closing_price_of_an_uploaded_row_is_its_price_column() {
    let row = MarketData::Generic(GenericTick {
        timestamp_ms: 1,
        price: Real(10.0),
        quantity: Real(4.0),
        open: None,
        high: None,
        low: None,
        close: Some(Real(11.0)),
        volume: None,
    });
    assert_eq!(market_data_close_price(&row), Real(10.0));
    assert_eq!(market_data_close_price(&row), extract_price_volume_ts(&row).0);
}

#[test]
fn fresh_runs_have_an_empty_ledger() {
    let run: DirectionalRun<Real> = DirectionalRun::new(5, Some(3)).unwrap();
    assert_eq!(run.ledger.total_commission, Real(0.0));
    assert_eq!(run.ledger.next_trade_id, 1);
    assert!(run.ledger.trade_returns.is_empty() && run.ledger.trade_maes.is_empty());
    assert!(run.first_error.is_none());
}

#[test]
fn quoting_history_keeps_what_trades_and_candles_show() {
    let trade = |price: f64| {
        MarketData::Trade(TradeData {
            timestamp_ms: 1,
            symbol: "A".to_string(),
            exchange: "x".to_string(),
            price: Real(price),
            quantity: Real(2.0),
            side: Side::Buy,
            trade_id: 0,
            value: Real(2.0 * price),
        })
    };
    let mut history: QuotingHistory<Real> = QuotingHistory::new(2);
    history.see(&generic(1));
    history.remember(&generic(1));
    assert_eq!(history.market_price, None);
    assert!(history.prices.is_empty());
    for price in [10.0, 11.0, 12.0] {
        history.see(&trade(price));
        history.remember(&trade(price));
    }
    history.see(&generic(2));
    history.remember(&generic(2));
    assert_eq!(history.market_price, Some(Real(12.0)));
    assert_eq!(history.prices.to_vec(), reals(&[12.0, 12.0]));
    assert_eq!(history.volumes.to_vec(), reals(&[2.0, 2.0]));
}

#[test]
fn evaluations_are_found_again_in_any_order() {
    let key = evaluation_key(3, 2, &vec!["b=1".to_string(), "a=2".to_string(), "ab=0".to_string()]);
    assert_eq!(key, "sr3|f2|a=2|ab=0|b=1");
    assert_eq!(key, evaluation_key(3, 2, &vec!["ab=0".to_string(), "b=1".to_string(), "a=2".to_string()]));
    assert_ne!(key, evaluation_key(4, 2, &vec!["a=2".to_string()]));
    assert_eq!(evaluation_key(1, 0, &vec![]), "sr1|f0|");
}
