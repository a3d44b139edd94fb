use backtest::market_data::Side;
use backtest::number::Number;
use backtest::risk::RiskAction;
use backtest::signals::{Signal, SignalType};
use backtest::simulation::{Collector, FillScreen, OrderTracker, SimulationLoop};
use backtest::simulation_costs::{
    aggressor_side, choose_fee_source, is_dex_name, market_fill_cost, order_side, quoted_side, resting_fill_fee, size_quote,
    total_fill_value, CostModel, FeeSource, QuoteOutcome,
    QuotePair, QuoteSizing,
};
use backtest::simulation_run::{
    annualized_return, build_simulation_result, day_number, fills_only_figures, mean_or_zero, periods_per_day,
    profit_factor_basis, progress_interval, round_trip_stats, tally_positions, trade_basis, PositionOutcome, SimulationMetrics,
    SimulationRun,
};
use backtest::synthetic_book::BookSide;

#[derive(Clone, Copy, Debug, PartialEq)]
struct Real(f64);

impl Number for Real {
    fn of(n: i64) -> Self {
        Real(n as f64)
    }
    fn count(n: usize) -> Self {
        Real(n as f64)
    }
    fn largest() -> Self {
        Real(f64::MAX)
    }
    fn infinity() -> Self {
        Real(f64::INFINITY)
    }
    fn plus(self, other: Self) -> Self {
        Real(self.0 + other.0)
    }
    fn minus(self, other: Self) -> Self {
        Real(self.0 - other.0)
    }
    fn times(self, other: Self) -> Self {
        Real(self.0 * other.0)
    }
    fn over(self, other: Self) -> Self {
        Real(self.0 / other.0)
    }
    fn sqrt(self) -> Self {
        Real(self.0.sqrt())
    }
    fn power(self, times: u32) -> Self {
        Real(self.0.powi(times as i32))
    }
    fn abs(self) -> Self {
        Real(self.0.abs())
    }
    fn max(self, other: Self) -> Self {
        Real(self.0.max(other.0))
    }
    fn min(self, other: Self) -> Self {
        Real(self.0.min(other.0))
    }
    fn lt(self, other: Self) -> bool {
        self.0 < other.0
    }
    fn le(self, other: Self) -> bool {
        self.0 <= other.0
    }
    fn ceil(self) -> usize {
        self.0.ceil() as usize
    }
}

fn reals(values: &[f64]) -> Vec<Real> {
    values.iter().map(|v| Real(*v)).collect()
}

fn now_ms() -> i64 {
    chrono::Utc::now().timestamp_millis()
}

fn new_sim() -> SimulationLoop<Real> {
    SimulationLoop::new()
}

#[test]
fn test_simulation_loop_new() {
    let sim = new_sim();
    assert!(sim.trade_history_by_exchange.is_empty());
    assert!(sim.current_30d_volume_by_exchange.is_empty());
    assert!(sim.active_order_ids.is_empty());
    assert!(sim.market_volume_window.is_empty());
    assert_eq!(sim.rolling_avg_volume, Real(0.0));
    assert!(sim.order_trackers.is_empty());
    assert!(sim.quote_spreads_bps.is_empty());
    assert_eq!(sim.stable_region_skips, 0);
    assert!(!sim.collectors.is_empty());
}

#[test]
fn test_simulation_loop_new_lean() {
    let sim: SimulationLoop<Real> = SimulationLoop::new_lean();
    assert!(!sim.collectors.is_empty());
    assert_eq!(sim.collectors, vec![Collector::Timestamps]);
}

#[test]
fn test_simulation_loop_new_full() {
    let sim: SimulationLoop<Real> = SimulationLoop::new_full(Real(0.001));
    assert!(!sim.collectors.is_empty());
    assert!(sim.collectors.contains(&Collector::RoundTrips(Real(0.001))));
}

#[test]
fn test_get_avg_volume_default() {
    let sim = new_sim();
    assert_eq!(sim.get_avg_volume(), Real(100_000.0));
}

#[test]
fn test_get_avg_volume_with_data() {
    let mut sim = new_sim();
    sim.rolling_avg_volume = Real(50_000.0);
    assert_eq!(sim.get_avg_volume(), Real(50_000.0));
}

#[test]
fn test_update_market_volume() {
    let mut sim = new_sim();
    sim.update_market_volume(now_ms(), Real(1000.0));
    assert_eq!(sim.market_volume_window.len(), 1);
    assert!(sim.rolling_avg_volume.0 > 0.0);
}

#[test]
fn test_update_market_volume_window_retention() {
    let mut sim = new_sim();
    let ts = now_ms();
    sim.update_market_volume(ts, Real(1000.0));
    sim.update_market_volume(ts, Real(2000.0));
    assert_eq!(sim.market_volume_window.len(), 2);
    assert!((sim.rolling_avg_volume.0 - 3000.0 / 60.0).abs() < 0.01);
}

#[test]
fn market_trades_leave_the_window_after_an_hour() {
    let mut sim = new_sim();
    sim.update_market_volume(0, Real(600.0));
    sim.update_market_volume(3_600_000, Real(1200.0));
    assert_eq!(sim.market_volume_window.len(), 2);
    sim.update_market_volume(3_600_001, Real(60.0));
    assert_eq!(sim.market_volume_window.len(), 2);
    assert_eq!(sim.get_avg_volume(), Real(21.0));
}

#[test]
fn test_update_30d_volume() {
    let mut sim = new_sim();
    let ts = now_ms();
    sim.update_30d_volume("massive", ts, Real(50_000.0));
    assert_eq!(*sim.current_30d_volume_by_exchange.get("massive").unwrap(), Real(50_000.0));
    sim.update_30d_volume("massive", ts, Real(30_000.0));
    assert_eq!(*sim.current_30d_volume_by_exchange.get("massive").unwrap(), Real(80_000.0));
}

#[test]
fn own_trades_leave_the_volume_after_thirty_days() {
    let mut sim = new_sim();
    sim.update_30d_volume("a", 0, Real(10.0));
    sim.update_30d_volume("b", 0, Real(5.0));
    sim.update_30d_volume("a", 2_592_000_001, Real(7.0));
    assert_eq!(sim.thirty_day_volume("a"), Real(7.0));
    assert_eq!(sim.thirty_day_volume("b"), Real(5.0));
    assert_eq!(sim.thirty_day_volume("c"), Real(0.0));
    assert_eq!(sim.trade_history_by_exchange.get("a").unwrap().len(), 1);
}

#[test]
fn test_get_fee_rate_fallback() {
    let sim = new_sim();
    assert_eq!(sim.fee_source(None, "massive"), FeeSource::Flat);
}

#[test]
fn fee_schedules_count_for_their_own_exchange() {
    let mut sim = new_sim();
    sim.update_30d_volume("Kraken", 0, Real(9.0));
    assert_eq!(sim.fee_source(Some("kraken"), "Kraken"), FeeSource::Configured(Real(9.0)));
    assert_eq!(sim.fee_source(Some("binance"), "Kraken"), FeeSource::OfExchange(Real(9.0)));
    assert_eq!(choose_fee_source(Some("kraken"), "kraken", Real(1.0)), FeeSource::Configured(Real(1.0)));
    assert_eq!(choose_fee_source(Some("kraken"), "Kraken", Real(1.0)), FeeSource::OfExchange(Real(1.0)));
}

#[test]
fn test_initialize_starting_volume() {
    let mut sim = new_sim();
    sim.initialize_starting_volume(None);
    assert!(sim.current_30d_volume_by_exchange.is_empty());
    sim.initialize_starting_volume(Some(("kraken", Real(0.0))));
    assert!(sim.current_30d_volume_by_exchange.is_empty());
    sim.initialize_starting_volume(Some(("kraken", Real(500.0))));
    assert_eq!(sim.thirty_day_volume("kraken"), Real(500.0));
}

#[test]
fn test_calculate_market_impact_disabled() {
    let impact = SimulationLoop::calculate_market_impact(Real(100.0), Real(50000.0), None);
    assert_eq!(impact, Real(0.0));
}

#[test]
fn test_calculate_market_impact_zero_volume() {
    let impact_bps = |avg_volume: f64| if avg_volume > 0.0 { Some(Real(1.0)) } else { None };
    let impact = SimulationLoop::calculate_market_impact(Real(100.0), Real(50000.0), impact_bps(0.0));
    assert_eq!(impact, Real(0.0));
}

#[test]
fn test_calculate_market_impact_delegates_to_config_impact_bps() {
    let order_size = 5000.0;
    let price = 50000.0;
    let expected_bps = 3.5;
    let impact = SimulationLoop::calculate_market_impact(Real(order_size), Real(price), Some(Real(expected_bps)));
    let expected = (expected_bps / 10000.0) * price * order_size;
    assert!((impact.0 - expected).abs() < 1e-9);
    assert!(impact.0 > 0.0, "sanity check: this order size should be large enough to trigger impact");
}

#[test]
fn test_active_order_ids_tracking() {
    let mut sim = new_sim();
    sim.active_order_ids.insert("order-1".to_string(), ());
    assert!(sim.active_order_ids.contains("order-1"));
    sim.active_order_ids.remove("order-1");
    assert!(!sim.active_order_ids.contains("order-1"));
}

fn tracker(id: &str, side: BookSide, placed_at: i64, price: f64) -> OrderTracker<Real> {
    OrderTracker {
        order_id: id.to_string(),
        side,
        placed_at,
        price: Real(price),
        filled: false,
        fill_count: 0,
        first_fill_at: None,
    }
}

#[test]
fn test_order_tracker_struct() {
    let tracker = tracker("test-order", BookSide::Bid, now_ms(), 50000.0);
    assert!(!tracker.filled);
    assert_eq!(tracker.fill_count, 0);
    assert!(tracker.first_fill_at.is_none());
}

#[test]
fn test_track_fill() {
    let mut sim = new_sim();
    let now = now_ms();
    sim.order_trackers.insert("order-42".to_string(), tracker("order-42", BookSide::Bid, now, 100.0));
    sim.track_fill("order-42", now);
    let tracker = sim.order_trackers.get("order-42").unwrap();
    assert!(tracker.filled);
    assert_eq!(tracker.fill_count, 1);
    assert!(tracker.first_fill_at.is_some());
    assert_eq!(sim.orders_filled_count, 1);
    assert_eq!(sim.bid_orders_filled_count, 1);
}

#[test]
fn test_track_fill_multiple() {
    let mut sim = new_sim();
    let now = now_ms();
    sim.order_trackers.insert("order-99".to_string(), tracker("order-99", BookSide::Ask, now, 200.0));
    sim.track_fill("order-99", now);
    sim.track_fill("order-99", now);
    let tracker = sim.order_trackers.get("order-99").unwrap();
    assert!(tracker.filled);
    assert_eq!(tracker.fill_count, 2);
    assert_eq!(sim.orders_filled_count, 1);
    assert_eq!(sim.ask_orders_filled_count, 1);
}

#[test]
fn test_track_fill_nonexistent_order() {
    let mut sim = new_sim();
    sim.track_fill("nonexistent", now_ms());
    assert_eq!(sim.orders_filled_count, 0);
}

#[test]
fn test_quote_spreads_tracking() {
    let mut sim = new_sim();
    sim.quote_spreads_bps.push(Real(5.0));
    sim.quote_spreads_bps.push(Real(10.0));
    assert_eq!(sim.quote_spreads_bps.len(), 2);
    assert_eq!(*sim.quote_spreads_bps.last().unwrap(), Real(10.0));
}

#[test]
fn the_identifier_map_keeps_every_value_under_its_own_name() {
    let mut sim = new_sim();
    for i in 0..20 {
        sim.place_order(&format!("o{i}"), BookSide::Bid, i, Real(i as f64));
    }
    for i in (0..20).step_by(3) {
        assert!(sim.order_trackers.remove(&format!("o{i}")).is_some());
        assert!(sim.order_trackers.remove(&format!("o{i}")).is_none());
    }
    for i in 0..20i64 {
        let found = sim.order_trackers.get(&format!("o{i}"));
        if i % 3 == 0 {
            assert!(found.is_none());
        } else {
            assert_eq!(found.unwrap().placed_at, i);
        }
    }
    assert_eq!(sim.order_trackers.len(), 13);
}

#[test]
fn fills_of_young_orders_are_rejected_and_the_orders_dropped() {
    let mut sim = new_sim();
    sim.place_order("old", BookSide::Bid, 0, Real(100.0));
    sim.place_order("young", BookSide::Ask, 990, Real(101.0));
    let ids = vec!["old".to_string(), "young".to_string(), "other".to_string(), "young".to_string()];
    let screens = sim.screen_fills(&ids, 1_000, 50);
    assert_eq!(
        screens,
        vec![
            FillScreen::Ours,
            FillScreen::TooEarly(BookSide::Ask),
            FillScreen::Foreign,
            FillScreen::TooEarly(BookSide::Ask),
        ]
    );
    assert!(sim.active_order_ids.contains("old"));
    assert!(!sim.active_order_ids.contains("young"));
    assert!(sim.order_trackers.get("young").is_none());
}

#[test]
fn a_resting_fill_is_counted_charged_and_dropped() {
    let mut sim = new_sim();
    sim.place_order("a", BookSide::Ask, 0, Real(100.0));
    sim.place_order("b", BookSide::Bid, 0, Real(99.0));
    let fee = resting_fill_fee(Real(100.0), Real(2.0), Real(0.001));
    assert!((fee.0 - 0.2).abs() < 1e-12);
    let trade = sim.on_resting_fill("a", "kraken", 1_000, Real(100.0), Real(2.0), Real(1.0), fee).unwrap();
    assert_eq!(trade.quantity, Real(1.0));
    assert_eq!(trade.value, Real(100.0));
    assert!((trade.commission.0 - 0.1).abs() < 1e-12);
    assert_eq!(sim.orders_filled_count, 1);
    assert_eq!(sim.thirty_day_volume("kraken"), Real(100.0));
    assert!(!sim.active_order_ids.contains("a"));
    assert!(sim.on_resting_fill("b", "kraken", 1_000, Real(99.0), Real(2.0), Real(0.0), fee).is_none());
    assert!(sim.order_trackers.is_empty());
    assert_eq!(sim.orders_filled_count, 1);
}

#[test]
fn cancelling_lists_every_resting_order_once() {
    let mut sim = new_sim();
    sim.place_order("a", BookSide::Ask, 0, Real(100.0));
    sim.place_order("b", BookSide::Bid, 0, Real(99.0));
    sim.track_fill("a", 5);
    let mut cancelled: Vec<(String, bool)> = sim.cancel_orders().into_iter().map(|c| (c.id, c.unfilled)).collect();
    cancelled.sort();
    assert_eq!(cancelled, vec![("a".to_string(), false), ("b".to_string(), true)]);
    assert!(sim.active_order_ids.is_empty());
    assert!(sim.order_trackers.is_empty());
}

#[test]
fn market_trades_that_miss_the_best_quote_are_noted() {
    let mut sim = new_sim();
    assert_eq!(sim.missed_fill(BookSide::Ask, Real(100.0)), None);
    sim.place_order("low", BookSide::Bid, 0, Real(97.0));
    sim.place_order("high", BookSide::Bid, 0, Real(98.0));
    sim.place_order("ask", BookSide::Ask, 0, Real(103.0));
    assert_eq!(sim.missed_fill(BookSide::Ask, Real(100.0)), Some((BookSide::Bid, Real(2.0))));
    assert_eq!(sim.missed_fill(BookSide::Ask, Real(98.0)), None);
    assert_eq!(sim.missed_fill(BookSide::Bid, Real(100.0)), Some((BookSide::Ask, Real(3.0))));
    assert_eq!(sim.missed_fill(BookSide::Bid, Real(104.0)), None);
}

#[test]
fn decentralised_exchanges_are_known_in_any_case() {
    assert!(SimulationLoop::<Real>::is_dex_exchange("CETUS"));
    assert!(SimulationLoop::<Real>::is_dex_exchange("DeepBookV2"));
    assert!(!SimulationLoop::<Real>::is_dex_exchange("kraken"));
    assert!(is_dex_name("deep_book"));
    assert!(!is_dex_name("Deep_Book"));
}

#[test]
fn market_fills_share_the_impact_and_pay_slippage_on_chain_only() {
    let total = total_fill_value(&[(Real(10.0), Real(1.0)), (Real(10.0), Real(3.0))]);
    assert_eq!(total, Real(40.0));
    let on_chain = market_fill_cost(
        Real(10.0),
        Real(1.0),
        CostModel::Dex { slippage_bps: Real(20.0), gas: Real(0.5) },
        Real(8.0),
        total,
    );
    assert_eq!(on_chain.commission, Real(0.5));
    assert!((on_chain.slippage.0 - 0.02).abs() < 1e-12);
    assert!((on_chain.fee_amount.0 - 2.52).abs() < 1e-12);
    let listed = market_fill_cost(
        Real(10.0),
        Real(3.0),
        CostModel::Exchange { fee_rate: Real(0.001), slippage_bps: Some(Real(10.0)) },
        Real(8.0),
        total,
    );
    assert!((listed.commission.0 - 0.03).abs() < 1e-12);
    assert!((listed.slippage.0 - 0.03).abs() < 1e-12);
    assert!((listed.fee_amount.0 - 6.03).abs() < 1e-12);
    let mut sim = new_sim();
    let trade = sim.on_market_fill("cetus", 0, Real(10.0), Real(3.0), Real(1.5), &listed).unwrap();
    assert!((trade.commission.0 - 0.015).abs() < 1e-12);
    assert_eq!(sim.thirty_day_volume("cetus"), Real(15.0));
}

#[test]
fn quotes_pair_up_into_spreads() {
    let mut sim = new_sim();
    let none = QuotePair { bid: None, ask: None };
    let pair = sim.on_quote(none, quoted_side(&SignalType::<Real>::Buy), Real(99.0));
    assert_eq!(pair.bid, Some(Real(99.0)));
    let pair = sim.on_quote(pair, quoted_side(&SignalType::<Real>::Hold), Real(1.0));
    let pair = sim.on_quote(pair, quoted_side(&SignalType::<Real>::ScaleOut), Real(101.0));
    assert_eq!(pair, none);
    assert_eq!(sim.quote_spreads_bps, reals(&[200.0]));
    assert_eq!(sim.place_order("x", BookSide::Bid, 0, Real(1.0)), Real(200.0));
    assert_eq!(order_side(&SignalType::<Real>::ScaleIn), BookSide::Bid);
    assert_eq!(order_side(&SignalType::<Real>::Close), BookSide::Ask);
}

#[test]
fn quotes_are_sized_by_the_risk_answer() {
    assert_eq!(size_quote(Real(0.0), RiskAction::Proceed), QuoteSizing::Place(Real(0.0)));
    assert_eq!(size_quote(Real(4.0), RiskAction::ReducePosition(Real(0.0))), QuoteSizing::Skip);
    assert_eq!(size_quote(Real(4.0), RiskAction::ScalePosition(Real(0.5))), QuoteSizing::Place(Real(2.0)));
    assert_eq!(size_quote(Real(4.0), RiskAction::RejectOrder), QuoteSizing::Skip);
    assert_eq!(size_quote(Real(4.0), RiskAction::HaltTrading), QuoteSizing::Halt);
}

#[test]
fn progress_is_reported_more_often_on_long_runs() {
    assert_eq!(progress_interval(0), 1000);
    assert_eq!(progress_interval(50_000), 5_000);
    assert_eq!(progress_interval(200_000), 20_000);
    assert_eq!(progress_interval(2_000_000), 100_000);
}

#[test]
fn a_losing_run_is_given_up() {
    let mut run: SimulationRun<Real> = SimulationRun::new(20_000, Real(100.0), true);
    let mut ticks = 0;
    while run.begin_tick() {
        ticks += 1;
        run.record_equity(Real(60.0), ticks);
    }
    assert_eq!(ticks, 4_999);
    let mut kept: SimulationRun<Real> = SimulationRun::new(20_000, Real(100.0), false);
    for i in 0..20_000i64 {
        assert!(kept.begin_tick());
        kept.record_equity(Real(60.0), i);
    }
}

#[test]
fn the_curve_starts_with_the_capital_and_the_first_time_twice() {
    let mut run: SimulationRun<Real> = SimulationRun::new(2, Real(100.0), false);
    assert!(run.times_of_curve().is_empty());
    run.begin_tick();
    run.record_equity(Real(101.0), 7);
    run.begin_tick();
    run.record_equity(Real(102.0), 9);
    assert_eq!(run.equity_curve, reals(&[100.0, 101.0, 102.0]));
    assert_eq!(run.times_of_curve(), vec![7, 7, 9]);
}

#[test]
fn the_profit_of_the_day_starts_anew_each_day() {
    let mut run: SimulationRun<Real> = SimulationRun::new(3, Real(100.0), false);
    assert_eq!(run.roll_day(0, Real(110.0)), Real(0.0));
    assert_eq!(run.roll_day(86_399_999, Real(130.0)), Real(20.0));
    assert_eq!(run.roll_day(86_400_000, Real(90.0)), Real(0.0));
    assert_eq!(day_number(-1), -1);
    assert_eq!(day_number(i64::MIN), -106_751_991_168);
    assert_eq!(day_number(i64::MAX), 106_751_991_167);
}

#[test]
fn periods_per_day_follow_the_span_of_the_trades() {
    assert_eq!(periods_per_day(0, None, None), 1);
    assert_eq!(periods_per_day(500, None, Some(1)), 500);
    assert_eq!(periods_per_day(1, Some(0), Some(1)), 1);
    assert_eq!(periods_per_day(48, Some(0), Some(2 * 86_400_000)), 24);
    assert_eq!(periods_per_day(10, Some(0), Some(0)), 864_000);
    assert_eq!(periods_per_day(5, Some(0), Some(100 * 86_400_000)), 1);
}

fn outcome(opened_at: i64, closed_at: Option<i64>, realized: f64, unrealized: f64) -> PositionOutcome<Real> {
    PositionOutcome { opened_at, closed_at, realized_pnl: Real(realized), unrealized_pnl: Real(unrealized) }
}

#[test]
fn positions_are_tallied_as_closed_or_open() {
    let tally = tally_positions(&[
        outcome(0, Some(5_500), 10.0, 0.0),
        outcome(0, None, 0.0, -4.0),
        outcome(1_000, Some(2_000), -3.0, 0.0),
    ]);
    assert_eq!(tally.open_count, 1);
    assert_eq!(tally.unrealized_pnl, Real(-4.0));
    assert_eq!(tally.trade_returns, reals(&[10.0, -3.0]));
    assert_eq!(tally.trade_durations, reals(&[5.0, 1.0]));
}

#[test]
fn fills_count_as_trades_where_nothing_was_closed() {
    let basis = trade_basis(0, 2, 7, 5);
    assert!(basis.fills_only);
    assert_eq!(basis.num_trades, 5);
    assert!(basis.use_equity_returns);
    let basis = trade_basis(12, 2, 7, 5);
    assert!(!basis.fills_only);
    assert_eq!(basis.num_trades, 12);
    assert!(!basis.use_equity_returns);
}

#[test]
fn fills_only_figures_take_commission_for_the_loss() {
    let won = fills_only_figures(Real(30.0), Real(10.0), 4);
    assert_eq!(won.gross_profit, Real(40.0));
    assert_eq!(won.gross_loss, Real(10.0));
    assert_eq!(won.avg_trade_return, Some(Real(7.5)));
    assert_eq!(won.profit_factor, Some(Real(4.0)));
    let lost = fills_only_figures(Real(-30.0), Real(10.0), 0);
    assert_eq!(lost.gross_profit, Real(0.0));
    assert_eq!(lost.gross_loss, Real(30.0));
    assert_eq!(lost.avg_trade_return, None);
    assert_eq!(lost.profit_factor, None);
}

#[test]
fn round_trips_pair_purchases_with_sales() {
    let stats = round_trip_stats(&reals(&[100.0, 100.0, 90.0]), &reals(&[102.0, 99.0]), Real(0.0), Real(100.0));
    assert_eq!(stats.total, 2);
    assert_eq!(stats.profitable, 1);
    assert_eq!(stats.total_pnl, Real(1.0));
    assert_eq!(stats.win_rate, Some(Real(0.5)));
    assert_eq!(stats.adverse_selection_rate, Some(Real(0.5)));
    let expected = 0.5 / (491.0 / 5.0) * 10_000.0 / 100.0;
    assert_eq!(stats.spread_capture_rate, Some(Real(expected)));
    let none = round_trip_stats(&[], &reals(&[1.0]), Real(0.0), Real(100.0));
    assert_eq!(none.win_rate, None);
}

#[test]
fn returns_are_annualised_by_the_samples_per_day() {
    assert_eq!(mean_or_zero::<Real>(&[]), Real(0.0));
    assert_eq!(mean_or_zero(&reals(&[1.0, 3.0])), Real(2.0));
    assert_eq!(annualized_return(&reals(&[0.5, 0.5]), 2, Real(0.1)), Some(Real(365.0)));
    assert_eq!(annualized_return(&reals(&[0.5]), 2, Real(0.0)), None);
}

fn metrics() -> SimulationMetrics<Real> {
    SimulationMetrics {
        gross_profit: Real(12.0),
        gross_loss: Real(2.0),
        net_profit: Real(10.0),
        avg_trade_return: Some(Real(5.0)),
        median_trade_return: Some(Real(5.0)),
        sharpe_ratio: Some(Real(1.5)),
        sortino_ratio: None,
        calmar_ratio: None,
        profit_factor: Some(Real(6.0)),
        win_rate: Some(Real(0.9)),
        avg_trade_duration: Some(Real(3.0)),
        volatility: None,
        max_drawdown: None,
        total_commission: Real(4.0),
    }
}

#[test]
fn the_result_reports_closed_trades_or_fills() {
    let mut run: SimulationRun<Real> = SimulationRun::new(1, Real(100.0), false);
    run.begin_tick();
    run.record_equity(Real(108.0), 3);
    run.halt("limit".to_string());
    let tally = tally_positions(&[outcome(0, Some(1_000), 10.0, 0.0)]);
    let result = build_simulation_result(run, tally, 3, 3, metrics(), Real(108.0), Some(Real(0.25)));
    assert_eq!(result.total_pnl, Real(8.0));
    assert_eq!(result.num_trades, 1);
    assert_eq!(result.win_rate, Some(Real(0.9)));
    assert_eq!(result.gross_profit, Some(Real(12.0)));
    assert_eq!(result.risk_halt_reason, Some("limit".to_string()));
    assert_eq!(result.equity_curve_timestamps, vec![3, 3]);

    let run: SimulationRun<Real> = SimulationRun::new(1, Real(100.0), false);
    let tally = tally_positions::<Real>(&[]);
    let result = build_simulation_result(run, tally, 3, 2, metrics(), Real(108.0), Some(Real(0.25)));
    assert_eq!(result.num_trades, 2);
    assert_eq!(result.win_rate, Some(Real(0.25)));
    assert_eq!(result.gross_profit, Some(Real(12.0)));
    assert_eq!(result.gross_loss, Some(Real(4.0)));
    assert_eq!(result.profit_factor, Some(Real(3.0)));
    assert_eq!(result.avg_trade_return, Some(Real(4.0)));
    assert!(result.equity_curve_timestamps.is_empty());
}

#[test]
fn buyers_take_asks_and_sellers_take_bids() {
    assert_eq!(aggressor_side(Side::Buy), BookSide::Bid);
    assert_eq!(aggressor_side(Side::Sell), BookSide::Ask);
    assert_eq!(profit_factor_basis(true, Real(3.0), Real(1.0)), (Real(0.0), Real(0.0)));
    assert_eq!(profit_factor_basis(false, Real(3.0), Real(1.0)), (Real(3.0), Real(1.0)));
}

#[test]
fn quotes_are_paired_sized_and_followed() {
    let mut sim = new_sim();
    let mut run: SimulationRun<Real> = SimulationRun::new(1, Real(100.0), false);
    let signal = |signal_type, price: Option<f64>| Signal {
        signal_type,
        price: price.map(Real),
        quantity: Some(Real(4.0)),
        is_limit: price.is_some(),
        reason: String::new(),
    };
    let none = QuotePair { bid: None, ask: None };
    let bid = signal(SignalType::Buy, Some(99.0));
    let (pair, outcome) = sim.take_quote(&mut run, none, "b", &bid, RiskAction::Proceed, String::new(), 7);
    assert_eq!(
        outcome,
        QuoteOutcome::Placed {
            side: BookSide::Bid,
            price: Real(99.0),
            size: Real(4.0),
            spread_bps: Real(0.0),
            rests: true,
        }
    );
    let ask = signal(SignalType::Sell, Some(101.0));
    let scale = RiskAction::ScalePosition(Real(0.5));
    let (pair, outcome) = sim.take_quote(&mut run, pair, "a", &ask, scale, String::new(), 7);
    assert_eq!(pair, none);
    assert!(matches!(outcome, QuoteOutcome::Placed { size: Real(2.0), spread_bps: Real(200.0), .. }));
    let market = signal(SignalType::Buy, None);
    let (_, outcome) = sim.take_quote(&mut run, none, "m", &market, RiskAction::RejectOrder, String::new(), 7);
    assert_eq!(outcome, QuoteOutcome::Skipped);
    assert!(run.halt_reason.is_none());
    let (_, outcome) =
        sim.take_quote(&mut run, none, "m", &market, RiskAction::HaltTrading, "limit".to_string(), 7);
    assert_eq!(outcome, QuoteOutcome::Halted);
    assert_eq!(run.halt_reason, Some("limit".to_string()));
    assert_eq!(sim.order_trackers.len(), 2);
    assert_eq!(sim.on_market_trade(Side::Sell, Real(100.0), Real(60.0), 9), Some((BookSide::Bid, Real(1.0))));
    assert_eq!(sim.rolling_avg_volume, Real(1.0));
}

#[test]
fn round_trips_are_charged_at_the_recorded_rate() {
    let full: SimulationLoop<Real> = SimulationLoop::new_full(Real(0.002));
    assert_eq!(full.round_trip_fee_rate(Real(0.001)), Real(0.002));
    let lean: SimulationLoop<Real> = SimulationLoop::new_lean();
    assert_eq!(lean.round_trip_fee_rate(Real(0.001)), Real(0.001));
}

#[test]
fn skipped_ticks_are_counted() {
    let mut sim: SimulationLoop<Real> = SimulationLoop::new();
    sim.skip_stable_region();
    sim.skip_stable_region();
    assert_eq!(sim.stable_region_skips, 2);
}
