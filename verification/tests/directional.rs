use backtest::asof::{
    find_asof_value, find_nearest_iv_surface, find_nearest_snapshot, tardis_to_orderbook, BookSnapshot,
    OrderBookLevel, Stamped,
};
use backtest::directional::{
    annualized_underlying_realized_vol, close_all_positions, close_expired_positions, count_open, count_signal,
    display_name, effective_leverage,
    effective_size_pct, emergency_exit, equity_sample_interval, fee_rates, is_exempt_from_leverage_liquidation_check,
    leg_quantity, liquidation_price, liquidation_side, margin_call_triggered, plan_signal, plan_spread, resolve_position_size_pct,
    select_greeks_vol, usable_at, LegOrder, PositionSnapshot, SignalPlan, SizingKnobs, SpreadContext,
};
use backtest::directional_run::DirectionalRun;
use backtest::fills::{
    build_fill, compute_commission, settle_maker_fill, settle_taker_fill, taker_price, AccountValue, FillRules,
    LimitPass, PendingLimit, TakerOrder, TickMarket,
};
use backtest::ledger::{
    classify_round_trip_action, ExecutedFill, LiquidityType, OpenPosition, PositionSide, RoundTripAction, TradeLedger,
    TradeRecord,
};
use backtest::measures::{compute_max_drawdown, win_rate_with_fallback};
use backtest::number::Number;
use backtest::results::{gross_profit_loss_with_fallback, sharpe_for};
use backtest::risk::{after_cap, size_order, OrderSizing, RiskAction};
use backtest::signals::{
    count_signals, extract_instrument, i8_to_signals, spread_leg_price_at, to_directional_signal, DerivativeMetadata,
    Direction, InstrumentKind, OptionSpreadLeg, Signal, SignalCounts, SignalType, SpreadLeg,
};
use backtest::synthetic_book::BookSide;
use backtest::types::{build_option_summary, Greeks};

#[derive(Clone, Copy, Debug, PartialEq)]
struct Real(f64);

impl Number for Real {
    fn of(n: i64) -> Self {
        Real(n as f64)
    }
    fn count(n: usize) -> Self {
        Real(n as f64)
    }
    fn largest() -> Self {
        Real(f64::MAX)
    }
    fn infinity() -> Self {
        Real(f64::INFINITY)
    }
    fn plus(self, other: Self) -> Self {
        Real(self.0 + other.0)
    }
    fn minus(self, other: Self) -> Self {
        Real(self.0 - other.0)
    }
    fn times(self, other: Self) -> Self {
        Real(self.0 * other.0)
    }
    fn over(self, other: Self) -> Self {
        Real(self.0 / other.0)
    }
    fn sqrt(self) -> Self {
        Real(self.0.sqrt())
    }
    fn power(self, times: u32) -> Self {
        Real(self.0.powi(times as i32))
    }
    fn abs(self) -> Self {
        Real(self.0.abs())
    }
    fn max(self, other: Self) -> Self {
        Real(self.0.max(other.0))
    }
    fn min(self, other: Self) -> Self {
        Real(self.0.min(other.0))
    }
    fn lt(self, other: Self) -> bool {
        self.0 < other.0
    }
    fn le(self, other: Self) -> bool {
        self.0 <= other.0
    }
    fn ceil(self) -> usize {
        self.0.ceil() as usize
    }
}

fn reals(values: &[f64]) -> Vec<Real> {
    values.iter().map(|v| Real(*v)).collect()
}

fn mk_trade(pnl: Option<f64>, exit_time: Option<i64>) -> TradeRecord<Real> {
    TradeRecord {
        trade_id: 0,
        side: "long".to_string(),
        entry_signal_price: Real(100.0),
        entry_fill_price: Real(100.0),
        exit_signal_price: exit_time.map(|_| Real(105.0)),
        exit_fill_price: exit_time.map(|_| Real(105.0)),
        quantity: Real(1.0),
        pnl: pnl.map(Real),
        pnl_pct: pnl.map(|p| Real(p / 100.0)),
        commission: Real(0.0),
        slippage_cost: Real(0.0),
        entry_time: chrono::Utc::now().timestamp_millis(),
        exit_time,
        duration_secs: None,
        entry_liquidity: "taker".to_string(),
        exit_liquidity: exit_time.map(|_| "taker".to_string()),
        entry_reason: "signal".to_string(),
        exit_reason: exit_time.map(|_| "signal".to_string()),
        mae: None,
        mfe: None,
        legs: Vec::new(),
    }
}

fn now_ms() -> i64 {
    chrono::Utc::now().timestamp_millis()
}

#[test]
fn find_asof_value_returns_last_value_at_or_before_tick() {
    let series = vec![(1_000_i64, Real(10.0)), (2_000, Real(20.0)), (3_000, Real(30.0))];
    assert_eq!(find_asof_value(&series, 2_500), Some(Real(20.0)));
    assert_eq!(find_asof_value(&series, 2_000), Some(Real(20.0)));
}

#[test]
fn find_asof_value_never_returns_a_future_value() {
    let series = vec![(1_000_i64, Real(10.0)), (2_000, Real(20.0))];
    assert_eq!(find_asof_value(&series, 500), None);
}

#[test]
fn find_asof_value_empty_series_is_none() {
    let series: Vec<(i64, Real)> = vec![];
    assert_eq!(find_asof_value(&series, now_ms()), None);
}

#[test]
fn find_asof_value_after_last_point_returns_last_value() {
    let series = vec![(1_000_i64, Real(10.0)), (2_000, Real(20.0))];
    assert_eq!(find_asof_value(&series, 999_999), Some(Real(20.0)));
}

#[test]
fn nearest_surface_is_the_last_one_not_after() {
    let surfaces = vec![
        Stamped { timestamp: 1_000, value: "a" },
        Stamped { timestamp: 2_000, value: "b" },
        Stamped { timestamp: 3_000, value: "c" },
    ];
    assert_eq!(find_nearest_iv_surface(&surfaces, 2_500), Some(&"b"));
    assert_eq!(find_nearest_iv_surface(&surfaces, 3_000), Some(&"c"));
}

#[test]
fn win_rate_with_fallback_uses_primary_when_present() {
    let primary = reals(&[0.01, -0.01, 0.02]);
    let fallback = reals(&[-0.5, -0.5]);
    let wr = win_rate_with_fallback(&primary, &fallback).unwrap();
    assert!((wr.0 - 2.0 / 3.0).abs() < 1e-9);
}

#[test]
fn win_rate_with_fallback_uses_equity_curve_when_no_closed_trades() {
    let primary: Vec<Real> = vec![];
    let fallback = reals(&[0.01, 0.02, -0.005, 0.01]);
    let wr = win_rate_with_fallback(&primary, &fallback).unwrap();
    assert!((wr.0 - 0.75).abs() < 1e-9);
}

#[test]
fn win_rate_with_fallback_is_none_when_both_empty() {
    let none: Vec<Real> = vec![];
    assert!(win_rate_with_fallback(&none, &none).is_none());
}

#[test]
fn gross_profit_loss_uses_closed_trades_when_present() {
    let trades = vec![
        mk_trade(Some(100.0), Some(now_ms())),
        mk_trade(Some(-40.0), Some(now_ms())),
        mk_trade(Some(9999.0), None),
    ];
    let equity_curve = reals(&[1000.0, 1100.0]);
    let (gp, gl) = gross_profit_loss_with_fallback(&trades, &equity_curve);
    assert!((gp.0 - 100.0).abs() < 1e-9);
    assert!((gl.0 - 40.0).abs() < 1e-9);
}

#[test]
fn gross_profit_loss_falls_back_to_equity_curve_when_no_closed_trades() {
    let trades = vec![mk_trade(Some(500.0), None)];
    let equity_curve = reals(&[1000.0, 1050.0, 1030.0, 1080.0]);
    let (gp, gl) = gross_profit_loss_with_fallback(&trades, &equity_curve);
    assert!((gp.0 - 100.0).abs() < 1e-9);
    assert!((gl.0 - 20.0).abs() < 1e-9);
}

fn level(price: f64, amount: f64) -> OrderBookLevel<Real> {
    OrderBookLevel { price: Real(price), amount: Real(amount) }
}

#[test]
fn test_find_nearest_snapshot_empty() {
    let snapshots: Vec<BookSnapshot<Real>> = vec![];
    assert!(find_nearest_snapshot(&snapshots, now_ms()).is_none());
}

#[test]
fn test_find_nearest_snapshot_single() {
    let snap = BookSnapshot {
        timestamp_us: 1_000_000_000,
        bids: vec![level(100.0, 1.0)],
        asks: vec![level(101.0, 1.0)],
    };
    let result = find_nearest_snapshot(&[snap], 2_000_000);
    assert!(result.is_some());
    let ob = result.unwrap();
    assert!((ob.bids[0].price.0 - 100.0).abs() < f64::EPSILON);
    assert!((ob.asks[0].price.0 - 101.0).abs() < f64::EPSILON);
}

#[test]
fn test_find_nearest_snapshot_before_all() {
    let snap = BookSnapshot {
        timestamp_us: 5_000_000_000,
        bids: vec![level(50.0, 2.0)],
        asks: vec![level(51.0, 2.0)],
    };
    let result = find_nearest_snapshot(&[snap], 1_000);
    assert!(result.is_some());
}

#[test]
fn test_tardis_to_orderbook_basic() {
    let snap = BookSnapshot {
        timestamp_us: 1_000_000,
        bids: vec![level(100.0, 5.0), level(99.0, 3.0)],
        asks: vec![level(101.0, 4.0), level(102.0, 2.0)],
    };
    let ob = tardis_to_orderbook(&snap);
    assert_eq!(ob.bids.len(), 2);
    assert_eq!(ob.asks.len(), 2);
    assert!((ob.spread.0 - 1.0).abs() < f64::EPSILON);
    assert!((ob.mid_price.0 - 100.5).abs() < f64::EPSILON);
    assert!((ob.bid_depth.0 - 8.0).abs() < f64::EPSILON);
    assert!((ob.ask_depth.0 - 6.0).abs() < f64::EPSILON);
}

#[test]
fn test_tardis_to_orderbook_filters_zero_prices() {
    let snap = BookSnapshot {
        timestamp_us: 1_000_000,
        bids: vec![level(100.0, 5.0), level(0.0, 3.0)],
        asks: vec![level(0.0, 4.0), level(102.0, 2.0)],
    };
    let ob = tardis_to_orderbook(&snap);
    assert_eq!(ob.bids.len(), 1);
    assert_eq!(ob.asks.len(), 1);
}

#[test]
fn test_tardis_to_orderbook_empty() {
    let snap: BookSnapshot<Real> = BookSnapshot { timestamp_us: 1_000_000, bids: vec![], asks: vec![] };
    let ob = tardis_to_orderbook(&snap);
    assert!(ob.bids.is_empty());
    assert!(ob.asks.is_empty());
    assert_eq!(ob.mid_price, Real(0.0));
    assert_eq!(ob.spread, Real(0.0));
    assert_eq!(ob.bid_depth, Real(0.0));
    assert_eq!(ob.ask_depth, Real(0.0));
}

#[test]
fn test_tardis_to_orderbook_imbalance() {
    let snap = BookSnapshot {
        timestamp_us: 1_000_000,
        bids: vec![level(100.0, 10.0)],
        asks: vec![level(101.0, 0.0001)],
    };
    let ob = tardis_to_orderbook(&snap);
    assert!(ob.imbalance.0 > 0.0);
}

#[test]
fn test_compute_max_drawdown_empty() {
    let none: Vec<Real> = vec![];
    assert_eq!(compute_max_drawdown(&none), Real(0.0));
}

#[test]
fn test_compute_max_drawdown_monotonic_up() {
    assert_eq!(compute_max_drawdown(&reals(&[100.0, 110.0, 120.0, 130.0])), Real(0.0));
}

#[test]
fn test_compute_max_drawdown_with_drawdown() {
    let dd = compute_max_drawdown(&reals(&[100.0, 110.0, 88.0, 95.0, 105.0]));
    assert!((dd.0 - 0.2).abs() < 1e-10);
}

#[test]
fn test_compute_max_drawdown_full_loss() {
    let dd = compute_max_drawdown(&reals(&[100.0, 50.0, 25.0, 10.0]));
    assert!((dd.0 - 0.9).abs() < 1e-10);
}

#[test]
fn test_compute_max_drawdown_single_value() {
    assert_eq!(compute_max_drawdown(&reals(&[100.0])), Real(0.0));
}

#[test]
fn effective_leverage_uses_configured_value_when_strategy_declares_no_cap() {
    assert_eq!(effective_leverage(Real(10.0), Real(f64::INFINITY)), Real(10.0));
    assert_eq!(effective_leverage(Real(1.0), Real(f64::INFINITY)), Real(1.0));
}

#[test]
fn effective_leverage_strategy_cap_reduces_below_configured() {
    assert_eq!(effective_leverage(Real(10.0), Real(3.0)), Real(3.0));
}

#[test]
fn effective_leverage_strategy_cap_above_configured_has_no_effect() {
    assert_eq!(effective_leverage(Real(3.0), Real(10.0)), Real(3.0));
}

#[test]
fn effective_leverage_never_drops_below_one() {
    assert_eq!(effective_leverage(Real(0.5), Real(f64::INFINITY)), Real(1.0));
    assert_eq!(effective_leverage(Real(10.0), Real(0.5)), Real(1.0));
}

fn mk_open_position(side: PositionSide) -> OpenPosition<Real> {
    OpenPosition {
        trade_id: 1,
        side,
        entry_signal_price: Real(100.0),
        entry_fill_price: Real(100.0),
        quantity: Real(1.0),
        entry_commission: Real(0.0),
        entry_slippage: Real(0.0),
        entry_time: now_ms(),
        entry_liquidity: LiquidityType::Taker,
        entry_reason: "signal".to_string(),
        worst_unrealized: Real(0.0),
        best_unrealized: Real(0.0),
    }
}

#[test]
fn classify_round_trip_action_buy_from_flat_opens_long() {
    let open_positions: Vec<OpenPosition<Real>> = Vec::new();
    assert!(matches!(classify_round_trip_action(true, &open_positions), RoundTripAction::OpenLong));
}

#[test]
fn classify_round_trip_action_sell_from_flat_opens_short() {
    let open_positions: Vec<OpenPosition<Real>> = Vec::new();
    assert!(matches!(classify_round_trip_action(false, &open_positions), RoundTripAction::OpenShort));
}

#[test]
fn classify_round_trip_action_sell_closes_open_long() {
    let open_positions = vec![mk_open_position(PositionSide::Long)];
    assert!(matches!(classify_round_trip_action(false, &open_positions), RoundTripAction::Close));
}

#[test]
fn classify_round_trip_action_buy_covers_open_short() {
    let open_positions = vec![mk_open_position(PositionSide::Short)];
    assert!(matches!(classify_round_trip_action(true, &open_positions), RoundTripAction::Close));
}

#[test]
fn classify_round_trip_action_buy_adds_to_open_long() {
    let open_positions = vec![mk_open_position(PositionSide::Long)];
    assert!(matches!(classify_round_trip_action(true, &open_positions), RoundTripAction::OpenLong));
}

#[test]
fn classify_round_trip_action_sell_adds_to_open_short() {
    let open_positions = vec![mk_open_position(PositionSide::Short)];
    assert!(matches!(classify_round_trip_action(false, &open_positions), RoundTripAction::OpenShort));
}

fn fixed_expiry() -> i64 {
    chrono::DateTime::parse_from_rfc3339("2026-10-02T00:00:00Z").unwrap().timestamp_millis()
}

fn test_call_instrument() -> DerivativeMetadata<Real> {
    DerivativeMetadata {
        symbol: "O:SPY-TEST-C".to_string(),
        underlying: "SPY".to_string(),
        instrument_kind: InstrumentKind::Call { strike: Real(450.0), expiry: fixed_expiry() },
        contract_multiplier: Real(100.0),
    }
}

fn test_put_instrument() -> DerivativeMetadata<Real> {
    DerivativeMetadata {
        symbol: "O:SPY-TEST-P".to_string(),
        underlying: "SPY".to_string(),
        instrument_kind: InstrumentKind::Put { strike: Real(460.0), expiry: fixed_expiry() },
        contract_multiplier: Real(100.0),
    }
}

fn no_greeks() -> Greeks<Real> {
    Greeks { delta: Real(0.0), gamma: Real(0.0), theta: Real(0.0), vega: Real(0.0), rho: Real(0.0) }
}

#[test]
fn build_option_summary_is_none_for_a_non_option_run() {
    assert!(build_option_summary(None, None, no_greeks()).is_none());
}

#[test]
fn build_option_summary_reports_the_single_leg_contract_identity() {
    let instrument = test_call_instrument();
    let summary = build_option_summary(Some(&instrument), None, no_greeks())
        .expect("a single-leg option run should produce a summary");
    assert_eq!(summary.contracts.len(), 1);
    let contract = &summary.contracts[0];
    assert_eq!(contract.symbol, "O:SPY-TEST-C");
    assert_eq!(contract.underlying, "SPY");
    assert_eq!(contract.strike, Some(Real(450.0)));
    assert_eq!(contract.contract_type, "call");
    assert_eq!(contract.contract_multiplier, Real(100.0));
    assert_eq!(contract.ratio, 1);
    assert!(summary.final_greeks.is_none());
}

#[test]
fn build_option_summary_reports_both_legs_of_a_spread_with_their_own_ratios() {
    let legs = vec![
        OptionSpreadLeg { instrument: test_call_instrument(), ratio: 1, prices: reals(&[5.0]) },
        OptionSpreadLeg { instrument: test_put_instrument(), ratio: -1, prices: reals(&[2.0]) },
    ];
    let summary =
        build_option_summary(None, Some(&legs), no_greeks()).expect("a spread run should produce a summary");
    assert_eq!(summary.contracts.len(), 2);
    assert_eq!(summary.contracts[0].contract_type, "call");
    assert_eq!(summary.contracts[0].ratio, 1);
    assert_eq!(summary.contracts[1].contract_type, "put");
    assert_eq!(summary.contracts[1].ratio, -1);
}

#[test]
fn build_option_summary_prefers_a_nonzero_final_greeks_snapshot_when_available() {
    let instrument = test_call_instrument();
    let marked = Greeks { delta: Real(0.6), gamma: Real(0.01), theta: Real(-0.1), vega: Real(0.4), rho: Real(0.2) };
    let summary = build_option_summary(Some(&instrument), None, marked).unwrap();
    let greeks = summary.final_greeks.expect("a marked option position should produce real Greeks");
    assert_eq!(greeks, marked);
}

#[test]
fn i8_to_signals_wraps_buy_and_sell_as_options_when_instrument_is_set() {
    let instrument = test_call_instrument();
    let buy_signals = i8_to_signals(1, Real(5.0), 0, Some(&instrument), None);
    assert_eq!(buy_signals.len(), 1);
    match &buy_signals[0].signal_type {
        SignalType::BuyOption { instrument: instr, premium } => {
            assert_eq!(instr, &instrument);
            assert!(premium.is_none(), "premium is filled in from the fill price downstream, not set here");
        }
        other => panic!("expected BuyOption, got {other:?}"),
    }

    let sell_signals = i8_to_signals(-1, Real(5.0), 0, Some(&instrument), None);
    assert_eq!(sell_signals.len(), 1);
    match &sell_signals[0].signal_type {
        SignalType::SellOption { instrument: instr, .. } => assert_eq!(instr, &instrument),
        other => panic!("expected SellOption, got {other:?}"),
    }
}

#[test]
fn i8_to_signals_stays_plain_buy_sell_without_an_instrument() {
    let buy_signals = i8_to_signals(1, Real(100.0), 0, None, None);
    assert_eq!(buy_signals.len(), 1);
    assert_eq!(buy_signals[0].signal_type, SignalType::Buy);

    let sell_signals = i8_to_signals(-1, Real(100.0), 0, None, None);
    assert_eq!(sell_signals.len(), 1);
    assert_eq!(sell_signals[0].signal_type, SignalType::Sell);
}

#[test]
fn i8_to_signals_close_is_unaffected_by_option_instrument() {
    let instrument = test_call_instrument();
    let with_instrument = i8_to_signals(2, Real(5.0), 0, Some(&instrument), None);
    let without_instrument = i8_to_signals(2, Real(5.0), 0, None, None);
    assert_eq!(with_instrument.len(), 1);
    assert_eq!(without_instrument.len(), 1);
    assert_eq!(with_instrument[0].signal_type, SignalType::Close);
    assert_eq!(without_instrument[0].signal_type, SignalType::Close);
}

#[test]
fn i8_to_signals_hold_and_unknown_codes_produce_nothing_regardless_of_instrument() {
    let instrument = test_call_instrument();
    assert!(i8_to_signals(0, Real(5.0), 0, Some(&instrument), None).is_empty());
    assert!(i8_to_signals(99, Real(5.0), 0, Some(&instrument), None).is_empty());
}

fn test_position(
    side: PositionSide,
    instrument: Option<DerivativeMetadata<Real>>,
    closed: bool,
) -> PositionSnapshot<Real> {
    PositionSnapshot { side, quantity: Real(1.0), instrument, is_closed: closed }
}

#[test]
fn liquidation_exemption_a_closed_position_is_exempt_regardless_of_instrument() {
    let pos = test_position(PositionSide::Long, None, true);
    assert!(is_exempt_from_leverage_liquidation_check(&pos));
}

#[test]
fn liquidation_exemption_a_plain_leveraged_position_is_not_exempt() {
    let pos = test_position(PositionSide::Long, None, false);
    assert!(!is_exempt_from_leverage_liquidation_check(&pos));
}

#[test]
fn liquidation_exemption_a_long_option_is_exempt() {
    let pos = test_position(PositionSide::Long, Some(test_call_instrument()), false);
    assert!(is_exempt_from_leverage_liquidation_check(&pos));
}

#[test]
fn liquidation_exemption_a_short_written_option_is_also_exempt() {
    let pos = test_position(PositionSide::Short, Some(test_call_instrument()), false);
    assert!(is_exempt_from_leverage_liquidation_check(&pos));
}

#[test]
fn liquidation_exemption_a_future_position_is_not_exempt() {
    let future = DerivativeMetadata {
        symbol: "BTC-PERP".to_string(),
        underlying: "BTC".to_string(),
        instrument_kind: InstrumentKind::Perpetual,
        contract_multiplier: Real(1.0),
    };
    let pos = test_position(PositionSide::Long, Some(future), false);
    assert!(!is_exempt_from_leverage_liquidation_check(&pos));
}

#[test]
fn select_greeks_vol_prefers_the_real_iv_surface_when_available() {
    let instrument = test_call_instrument();
    let vol = select_greeks_vol(Some(Real(0.42)), &instrument, Some(Real(0.99)));
    assert_eq!(vol, Some(Real(0.42)), "the real IV surface reading must win over the fallback");
}

#[test]
fn select_greeks_vol_falls_back_to_realized_vol_without_a_surface() {
    let instrument = test_call_instrument();
    assert_eq!(select_greeks_vol(None, &instrument, Some(Real(0.35))), Some(Real(0.35)));
}

#[test]
fn select_greeks_vol_falls_back_when_the_surface_has_no_points() {
    let instrument = test_call_instrument();
    assert_eq!(select_greeks_vol(None, &instrument, Some(Real(0.28))), Some(Real(0.28)));
}

#[test]
fn select_greeks_vol_returns_none_when_no_usable_source_exists() {
    let instrument = test_call_instrument();
    assert_eq!(select_greeks_vol::<Real>(None, &instrument, None), None);
    assert_eq!(select_greeks_vol(None, &instrument, Some(Real(f64::NAN))), None);
    assert_eq!(select_greeks_vol(None, &instrument, Some(Real(-0.1))), None);
    assert_eq!(select_greeks_vol(None, &instrument, Some(Real(0.0))), None);
}

fn per_year(count: usize, seconds: Real) -> Real {
    Real(count as f64 / (seconds.0 / (365.25 * 86_400.0)))
}

#[test]
fn annualized_underlying_realized_vol_is_empty_for_too_short_a_series() {
    assert!(annualized_underlying_realized_vol(&[Real(100.0)], &[0], &[None], per_year).is_empty());
    assert!(annualized_underlying_realized_vol(&[], &[], &[], per_year).is_empty());
}

#[test]
fn annualized_underlying_realized_vol_scales_by_the_real_bars_per_year_annualization() {
    let series = reals(&[100.0, 102.0, 99.0, 103.0, 98.0, 105.0, 97.0, 104.0, 101.0, 103.0]);
    let n = series.len();
    let one_year_ms: i64 = (365.25 * 86_400.0 * 1000.0) as i64;
    let timestamps: Vec<i64> = (0..n as i64).map(|i| i * (one_year_ms / n as i64)).collect();
    let raw: Vec<Option<Real>> = vec![
        None,
        None,
        None,
        Some(Real(0.031)),
        Some(Real(0.044)),
        Some(Real(0.058)),
        Some(Real(0.069)),
        Some(Real(0.074)),
        Some(Real(0.061)),
        Some(Real(0.052)),
    ];
    let annualized = annualized_underlying_realized_vol(&series, &timestamps, &raw, per_year);
    assert_eq!(annualized.len(), raw.len());
    let ratios: Vec<f64> = annualized
        .iter()
        .zip(raw.iter())
        .filter_map(|(a, r)| match (a, r) {
            (Some(a), Some(r)) if r.0 > 0.0 => Some(a.0 / r.0),
            _ => None,
        })
        .collect();
    assert!(!ratios.is_empty(), "expected at least one populated reading from this fixture");
    let first = ratios[0];
    for ratio in &ratios {
        assert!((ratio - first).abs() < 1e-6, "annualization factor must be identical across ticks: {:?}", ratios);
    }
    assert!(first > 1.0, "annualizing ~daily bars over a year should scale vol up materially, got factor {}", first);
    assert!(annualized[0].is_none());
}

fn vertical_spread_legs() -> Vec<OptionSpreadLeg<Real>> {
    vec![
        OptionSpreadLeg { instrument: test_call_instrument(), ratio: 1, prices: reals(&[5.0, 5.5, 4.5]) },
        OptionSpreadLeg { instrument: test_put_instrument(), ratio: -1, prices: reals(&[2.0, 1.8, 2.2]) },
    ]
}

#[test]
fn i8_to_signals_buy_enters_spread_legs_as_configured() {
    let legs = vertical_spread_legs();
    let signals = i8_to_signals(1, Real(999.0), 1, None, Some(&legs));
    assert_eq!(signals.len(), 1);
    match &signals[0].signal_type {
        SignalType::OptionSpread { legs: spread_legs } => {
            assert_eq!(spread_legs.len(), 2);
            match &spread_legs[0].signal_type {
                SignalType::BuyOption { instrument, premium } => {
                    assert_eq!(instrument, &test_call_instrument());
                    assert_eq!(*premium, Some(Real(5.5)));
                }
                other => panic!("expected BuyOption for the +1 ratio leg, got {other:?}"),
            }
            assert_eq!(spread_legs[0].ratio, 1);
            match &spread_legs[1].signal_type {
                SignalType::SellOption { instrument, premium } => {
                    assert_eq!(instrument, &test_put_instrument());
                    assert_eq!(*premium, Some(Real(1.8)));
                }
                other => panic!("expected SellOption for the -1 ratio leg, got {other:?}"),
            }
            assert_eq!(spread_legs[1].ratio, -1);
        }
        other => panic!("expected OptionSpread, got {other:?}"),
    }
}

#[test]
fn i8_to_signals_sell_mirrors_every_leg_to_close_or_reverse() {
    let legs = vertical_spread_legs();
    let signals = i8_to_signals(-1, Real(999.0), 0, None, Some(&legs));
    match &signals[0].signal_type {
        SignalType::OptionSpread { legs: spread_legs } => {
            assert!(matches!(spread_legs[0].signal_type, SignalType::SellOption { .. }));
            assert_eq!(spread_legs[0].ratio, -1);
            assert!(matches!(spread_legs[1].signal_type, SignalType::BuyOption { .. }));
            assert_eq!(spread_legs[1].ratio, 1);
        }
        other => panic!("expected OptionSpread, got {other:?}"),
    }
}

#[test]
fn i8_to_signals_option_spread_takes_precedence_over_option_instrument() {
    let legs = vertical_spread_legs();
    let single = test_call_instrument();
    let signals = i8_to_signals(1, Real(999.0), 0, Some(&single), Some(&legs));
    assert!(matches!(signals[0].signal_type, SignalType::OptionSpread { .. }));
}

#[test]
fn i8_to_signals_empty_option_spread_falls_back_to_single_leg_or_plain() {
    let empty: Vec<OptionSpreadLeg<Real>> = Vec::new();
    let signals = i8_to_signals(1, Real(100.0), 0, None, Some(&empty));
    assert_eq!(signals[0].signal_type, SignalType::Buy);
}

#[test]
fn to_directional_signal_maps_buy_option_to_buy() {
    let sig = SignalType::BuyOption { instrument: test_call_instrument(), premium: None };
    assert_eq!(to_directional_signal(&sig), Some(Direction::Buy));
}

#[test]
fn to_directional_signal_maps_sell_option_to_sell() {
    let sig = SignalType::SellOption { instrument: test_call_instrument(), premium: None };
    assert_eq!(to_directional_signal(&sig), Some(Direction::Sell));
}

#[test]
fn to_directional_signal_maps_exercise_option_to_sell() {
    let sig = SignalType::ExerciseOption { instrument: test_call_instrument() };
    assert_eq!(to_directional_signal(&sig), Some(Direction::Sell));
}

#[test]
fn extract_instrument_returns_none_for_plain_buy_sell() {
    assert!(extract_instrument(&SignalType::<Real>::Buy).is_none());
    assert!(extract_instrument(&SignalType::<Real>::Sell).is_none());
    assert!(extract_instrument(&SignalType::<Real>::Hold).is_none());
}

#[test]
fn extract_instrument_returns_metadata_for_option_signals() {
    let instrument = test_call_instrument();
    let buy = SignalType::BuyOption { instrument: instrument.clone(), premium: Some(Real(5.0)) };
    let sell = SignalType::SellOption { instrument: instrument.clone(), premium: None };
    let exercise = SignalType::ExerciseOption { instrument: instrument.clone() };
    assert_eq!(extract_instrument(&buy), Some(instrument.clone()));
    assert_eq!(extract_instrument(&sell), Some(instrument.clone()));
    assert_eq!(extract_instrument(&exercise), Some(instrument));
}

/// Per-contract fees of both sides, with the fees that only a sale pays.
fn option_fee(premium: f64, contracts: f64, multiplier: f64, is_buy: bool) -> f64 {
    let both_ways = (0.0 + 0.02575) * contracts;
    if is_buy {
        both_ways
    } else {
        both_ways + 0.0000278 * premium * contracts * multiplier + 0.00279 * contracts
    }
}

#[test]
fn compute_commission_option_buy_ignores_the_generic_percentage_fee_rate() {
    let instrument = test_call_instrument();
    let expected = option_fee(5.0, 1.0, 100.0, true);
    let commission = compute_commission(Real(5.0), Real(1.0), Some(&instrument), Real(expected), Real(0.10));
    assert!((commission.0 - expected).abs() < 1e-9, "commission={commission:?}, expected={expected}");
    assert!(commission.0 < 0.10, "must not be anywhere near the 10% generic rate: {commission:?}");
}

#[test]
fn compute_commission_option_sell_includes_sec_fee_and_taf() {
    let instrument = test_call_instrument();
    let buy_fee = Real(option_fee(5.0, 1.0, 100.0, true));
    let sell_fee = Real(option_fee(5.0, 1.0, 100.0, false));
    let buy_commission = compute_commission(Real(5.0), Real(1.0), Some(&instrument), buy_fee, Real(0.001));
    let sell_commission = compute_commission(Real(5.0), Real(1.0), Some(&instrument), sell_fee, Real(0.001));
    assert!(sell_commission.0 > buy_commission.0, "sell must add SEC fee + TAF on top of the both-ways fees");
}

#[test]
fn compute_commission_non_derivative_fill_uses_the_generic_rate_unscaled() {
    let commission = compute_commission(Real(100.0), Real(2.0), None, Real(77.0), Real(0.001));
    assert!((commission.0 - 100.0 * 2.0 * 0.001).abs() < 1e-9, "commission={commission:?}");
}

#[test]
fn compute_commission_non_option_derivative_still_scales_by_contract_multiplier() {
    let future = DerivativeMetadata {
        symbol: "TEST-FUT".to_string(),
        underlying: "BTC-USD".to_string(),
        instrument_kind: InstrumentKind::Future { expiry: now_ms() + 30 * 86_400_000 },
        contract_multiplier: Real(5.0),
    };
    let commission = compute_commission(Real(100.0), Real(2.0), Some(&future), Real(77.0), Real(0.001));
    assert!((commission.0 - 100.0 * 2.0 * 5.0 * 0.001).abs() < 1e-9, "commission={commission:?}");
}

#[test]
fn spread_leg_takes_its_own_price_and_the_last_one_past_the_end() {
    let legs = vertical_spread_legs();
    let call = test_call_instrument();
    assert_eq!(spread_leg_price_at(Some(&legs), Some(&call), 1, Real(9.0)), Real(5.5));
    assert_eq!(spread_leg_price_at(None, Some(&call), 1, Real(9.0)), Real(9.0));
    assert_eq!(spread_leg_price_at(Some(&legs), None, 1, Real(9.0)), Real(9.0));
}

#[test]
fn signal_codes_are_counted_by_kind() {
    let counts = count_signals(&[1, 1, -1, 0, 2, 7]);
    assert_eq!((counts.buy, counts.sell, counts.close), (2, 1, 1));
    assert_eq!(counts.buy + counts.sell + counts.hold + counts.close, 6);
}

#[test]
fn equity_is_sampled_at_every_tick_of_a_short_run() {
    assert_eq!(equity_sample_interval(1_000_000), 1);
    assert_eq!(equity_sample_interval(2_000_000), 200);
}

#[test]
fn size_of_a_tick_falls_back_past_the_end_of_the_series() {
    let sizes = reals(&[0.1, 0.2]);
    assert_eq!(effective_size_pct(Some(&sizes), 1, Real(0.5)), Real(0.2));
    assert_eq!(effective_size_pct(Some(&sizes), 2, Real(0.5)), Real(0.5));
    assert_eq!(effective_size_pct(None, 0, Real(0.5)), Real(0.5));
}

#[test]
fn position_size_comes_from_the_parameters_first() {
    let overrides = SizingKnobs { position_size_pct: Some(Some(Real(0.25))), risk_per_trade: None };
    let none: SizingKnobs<Real> = SizingKnobs { position_size_pct: None, risk_per_trade: None };
    let pct = resolve_position_size_pct(overrides, None, None);
    assert_eq!(pct, Real(0.25));
    let fallback = resolve_position_size_pct(none, None, None);
    assert!(fallback.0 > 0.0);
}

#[test]
fn exits_are_opposite_to_the_positions_they_close() {
    let positions = vec![
        test_position(PositionSide::Long, None, false),
        test_position(PositionSide::Short, None, false),
        test_position(PositionSide::Long, None, true),
    ];
    let exits = close_all_positions(&positions);
    assert_eq!(exits.len(), 2);
    assert_eq!(exits[0].direction, Direction::Sell);
    assert_eq!(exits[1].direction, Direction::Buy);
}

#[test]
fn only_expired_contracts_are_closed_at_expiry() {
    let positions = vec![
        test_position(PositionSide::Long, Some(test_call_instrument()), false),
        test_position(PositionSide::Long, None, false),
    ];
    assert!(close_expired_positions(&positions, fixed_expiry() - 1).is_empty());
    assert_eq!(close_expired_positions(&positions, fixed_expiry()).len(), 1);
}

#[test]
fn emergency_exit_flattens_the_net_position() {
    assert_eq!(emergency_exit(Real(2.0)), Some((Direction::Sell, Real(2.0))));
    assert_eq!(emergency_exit(Real(-3.0)), Some((Direction::Buy, Real(3.0))));
    assert_eq!(emergency_exit(Real(0.0)), None);
}

#[test]
fn legs_are_sized_by_the_size_of_their_ratio() {
    assert_eq!(leg_quantity(Real(2.0), -3), Real(6.0));
}

#[test]
fn liquidation_looks_at_the_worst_price_of_the_bar() {
    let candle = Some((Real(100.0), Real(110.0), Real(90.0), Real(105.0)));
    assert_eq!(liquidation_price(PositionSide::Long, candle, Real(105.0)), Real(90.0));
    assert_eq!(liquidation_price(PositionSide::Short, candle, Real(105.0)), Real(110.0));
    assert_eq!(liquidation_price(PositionSide::Short, None, Real(105.0)), Real(105.0));
}

#[test]
fn an_exempt_position_never_triggers_a_margin_call() {
    let option = test_position(PositionSide::Long, Some(test_call_instrument()), false);
    let plain = test_position(PositionSide::Long, None, false);
    assert!(!margin_call_triggered(&[option.clone()], &[true]));
    assert!(margin_call_triggered(&[option, plain], &[true, true]));
}

#[test]
fn signals_are_planned_by_their_kind() {
    assert_eq!(plan_signal(&SignalType::<Real>::Buy), SignalPlan::Order(Direction::Buy));
    assert_eq!(plan_signal(&SignalType::<Real>::Close), SignalPlan::CloseAll);
    assert_eq!(plan_signal(&SignalType::<Real>::Hold), SignalPlan::Ignore);
}

#[test]
fn a_spread_is_taken_whole_or_not_at_all() {
    let legs = vec![
        SpreadLeg {
            signal_type: SignalType::BuyOption { instrument: test_call_instrument(), premium: Some(Real(5.5)) },
            ratio: 1,
            limit_price: None,
        },
        SpreadLeg {
            signal_type: SignalType::SellOption { instrument: test_put_instrument(), premium: Some(Real(1.8)) },
            ratio: -1,
            limit_price: None,
        },
    ];
    let spread = vertical_spread_legs();
    let context = SpreadContext {
        signal_qty: Real(2.0),
        signal_price: Real(999.0),
        is_limit: false,
        tick_idx: 1,
        option_spread: Some(&spread),
    };
    let plan = plan_spread(&legs, &context, &vec![true, true]).unwrap();
    assert_eq!(plan.len(), 2);
    assert_eq!(plan[0].price, Real(5.5));
    assert_eq!(plan[1].direction, Direction::Sell);
    assert!(plan_spread(&legs, &context, &vec![true, false]).is_none());
}

#[test]
fn orders_are_sized_by_the_risk_answer() {
    let size = |action| size_order(Direction::Buy, Real(4.0), Some(action), Real(0.0));
    assert_eq!(size(RiskAction::Proceed), OrderSizing::Capped(Real(4.0)));
    assert_eq!(size(RiskAction::ReducePosition(Real(1.0))), OrderSizing::Capped(Real(1.0)));
    assert_eq!(size(RiskAction::ScalePosition(Real(0.5))), OrderSizing::Capped(Real(2.0)));
    assert_eq!(size(RiskAction::RejectOrder), OrderSizing::Dropped);
    assert_eq!(size(RiskAction::CloseAllPositions), OrderSizing::Halt);
    assert_eq!(size(RiskAction::HaltTrading), OrderSizing::Halt);
    assert_eq!(size_order(Direction::Buy, Real(0.0), None, Real(0.0)), OrderSizing::ZeroQuantity);
    assert_eq!(size_order(Direction::Sell, Real(4.0), None, Real(9.0)), OrderSizing::Ready(Real(4.0)));
    assert_eq!(after_cap(Real(0.0)), None);
    assert_eq!(after_cap(Real(1.0)), Some(Real(1.0)));
}

#[test]
fn every_fill_has_an_identifier_of_its_own() {
    let fill = |direction| {
        build_fill(direction, Real(10.0), Real(2.0), LiquidityType::Taker, 1_000, Some(Real(9.9)), Some(Real(3.0)))
    };
    let buy = fill(Direction::Buy);
    let sell = fill(Direction::Sell);
    assert_eq!(buy.order_id.len(), 36);
    assert_ne!(buy.order_id, sell.order_id);
    assert_eq!(buy.side, BookSide::Bid);
    assert_eq!(sell.side, BookSide::Ask);
    assert_eq!(buy.price, Real(10.0));
    assert_eq!(buy.timestamp, 1_000);
}

#[test]
fn slippage_moves_the_price_against_the_order() {
    let (bought, bps) = taker_price(Direction::Buy, Real(100.0), Real(1.0), Real(10.0), None, None);
    assert!((bought.0 - 100.1).abs() < 1e-9);
    assert_eq!(bps, Real(10.0));
    let (sold, _) = taker_price(Direction::Sell, Real(100.0), Real(1.0), Real(10.0), None, None);
    assert!((sold.0 - 99.9).abs() < 1e-9);
}

fn fill_of(direction: Direction, price: f64, quantity: f64, time: i64) -> ExecutedFill<Real> {
    ExecutedFill {
        direction,
        signal_price: Real(price),
        fill_price: Real(price),
        quantity: Real(quantity),
        commission: Real(0.0),
        entry_slippage: Real(0.0),
        exit_slippage: None,
        cash_share: Real(0.5),
        liquidity: LiquidityType::Taker,
        entry_time: time,
        exit_time: time,
        reason: "signal".to_string(),
        numbered: true,
    }
}

#[test]
fn a_round_trip_is_booked_with_its_profit() {
    let mut ledger: TradeLedger<Real> = TradeLedger::new(None);
    ledger.record_fill(fill_of(Direction::Buy, 100.0, 2.0, 0));
    assert_eq!(ledger.open_positions.len(), 1);
    ledger.mark(Real(90.0));
    ledger.record_fill(fill_of(Direction::Sell, 110.0, 2.0, 60_000));
    assert_eq!(ledger.open_positions.len(), 0);
    assert_eq!(ledger.trade_log.len(), 1);
    assert_eq!(ledger.trade_log[0].pnl, Some(Real(20.0)));
    assert_eq!(ledger.trade_log[0].side, "long");
    assert_eq!(ledger.trade_log[0].duration_secs, Some(60));
}

#[test]
fn open_positions_are_flushed_to_the_log_at_the_end() {
    let mut ledger: TradeLedger<Real> = TradeLedger::new(None);
    ledger.record_fill(fill_of(Direction::Sell, 100.0, 1.0, 0));
    ledger.flush_open_positions(Real(95.0));
    assert!(ledger.open_positions.is_empty());
    assert_eq!(ledger.trade_log.len(), 1);
    assert!(ledger.trade_log[0].exit_time.is_none());
    assert_eq!(ledger.trade_log[0].pnl, Some(Real(5.0)));
    assert_eq!(ledger.trade_log[0].side, "short");
}

#[test]
fn a_full_log_takes_no_further_trades() {
    let mut ledger: TradeLedger<Real> = TradeLedger::new(Some(1));
    for i in 0..2i64 {
        ledger.record_fill(fill_of(Direction::Buy, 100.0, 1.0, 2 * i));
        ledger.record_fill(fill_of(Direction::Sell, 101.0, 1.0, 2 * i + 1));
    }
    assert_eq!(ledger.trade_log.len(), 1);
    assert_eq!(ledger.num_trades, 4);
}

#[test]
fn a_taker_fill_of_nothing_books_nothing() {
    let mut ledger: TradeLedger<Real> = TradeLedger::new(None);
    let order = |direction| TakerOrder {
        direction,
        signal_price: Real(100.0),
        fill_price: Real(101.0),
        timestamp: 1_000,
        reason: "signal".to_string(),
        numbered: true,
    };
    let account = AccountValue { balance: Real(1_000.0), total_value: Real(1_000.0) };
    assert!(!settle_taker_fill(&mut ledger, order(Direction::Buy), Real(0.0), Real(0.0), account));
    assert_eq!(ledger.num_trades, 0);
    assert!(settle_taker_fill(&mut ledger, order(Direction::Buy), Real(1.0), Real(0.1), account));
    assert_eq!(ledger.open_positions.len(), 1);
    assert_eq!(ledger.open_positions[0].entry_fill_price, Real(101.0));
    assert_eq!(ledger.total_commission, Real(0.1));
}

#[test]
fn resting_orders_wait_for_latency_and_share_the_volume() {
    let order = |price: f64, placed_at: i64| PendingLimit {
        direction: Direction::Buy,
        price: Real(price),
        remaining_quantity: Real(6.0),
        placed_at,
        reason: "limit".to_string(),
        instrument: None,
    };
    let mut orders = vec![order(101.0, 0), order(101.0, 0), order(101.0, 990)];
    let market = TickMarket { price: Real(100.0), volume: Real(10.0), timestamp: 1_000 };
    let rules = FillRules { latency_ms: 50, adverse_selection: false, fill_volume_fraction: Real(1.0) };
    let mut pass: LimitPass<Real> = LimitPass::new();
    let first = pass.next_match(&orders, &market, &rules).unwrap();
    assert_eq!(first.index, 0);
    assert_eq!(first.quantity, Real(6.0));
    pass.finish_match(&mut orders, first);
    assert_eq!(orders.len(), 2);
    let second = pass.next_match(&orders, &market, &rules).unwrap();
    assert_eq!(second.index, 1);
    assert_eq!(second.quantity, Real(4.0));
    pass.finish_match(&mut orders, second);
    assert_eq!(orders.len(), 2);
    assert_eq!(orders[1].remaining_quantity, Real(2.0));
    assert!(pass.next_match(&orders, &market, &rules).is_none());
    let mut ledger: TradeLedger<Real> = TradeLedger::new(None);
    assert!(settle_maker_fill(&mut ledger, &orders[1], Real(4.0), Real(0.0), 1_000));
    assert_eq!(ledger.open_positions[0].entry_liquidity, LiquidityType::Maker);
    assert!(!settle_maker_fill(&mut ledger, &orders[1], Real(f64::NAN), Real(0.0), 1_000));
    assert!(!settle_maker_fill(&mut ledger, &orders[1], Real(1e-11), Real(0.0), 1_000));
    assert_eq!(ledger.num_trades, 1);
}

#[test]
fn small_settings_have_their_defaults() {
    assert_eq!(fee_rates::<Real>(None, None), (Real(0.0005), Real(0.001)));
    assert_eq!(fee_rates(Some(Real(0.1)), None), (Real(0.1), Real(0.001)));
    assert_eq!(display_name(Some(String::new())), None);
    assert_eq!(display_name(Some("PythonStrategy".to_string())), None);
    assert_eq!(display_name(Some("Mine".to_string())), Some("Mine".to_string()));
    assert_eq!(usable_at(Some(&reals(&[1.0, -1.0, f64::INFINITY])), 0), Some(Real(1.0)));
    assert_eq!(usable_at(Some(&reals(&[1.0, -1.0, f64::INFINITY])), 1), None);
    assert_eq!(usable_at(Some(&reals(&[1.0, -1.0, f64::INFINITY])), 2), None);
    assert_eq!(usable_at(Some(&reals(&[1.0])), 1), None);
    assert_eq!(liquidation_side(Real(1.0)), PositionSide::Long);
    assert_eq!(liquidation_side(Real(0.0)), PositionSide::Short);
}

#[test]
fn limit_orders_wait_and_others_go_ahead() {
    let mut run: DirectionalRun<Real> = DirectionalRun::new(1, None).unwrap();
    let signal = |is_limit: bool| Signal {
        signal_type: SignalType::BuyOption { instrument: test_call_instrument(), premium: None },
        price: None,
        quantity: None,
        is_limit,
        reason: "why".to_string(),
    };
    let order = run.route_order(&signal(false), Direction::Buy, Real(2.0), Real(10.0), 5).unwrap();
    assert_eq!(order.quantity, Real(2.0));
    assert_eq!(order.instrument, Some(test_call_instrument()));
    assert!(run.pending.is_empty());
    assert!(run.route_order(&signal(true), Direction::Buy, Real(2.0), Real(10.0), 5).is_none());
    assert_eq!(run.pending[0].price, Real(10.0));
    assert_eq!(run.pending[0].placed_at, 5);
    run.rest_quote((Real(9.0), Real(1.0)), (Real(11.0), Real(2.0)), 6, &"quote".to_string());
    assert_eq!(run.pending.len(), 3);
    assert_eq!(run.pending[2].direction, Direction::Sell);
    assert_eq!(run.pending[2].remaining_quantity, Real(2.0));
}

#[test]
fn signals_are_counted_one_by_one() {
    let mut counts = SignalCounts::default();
    count_signal(&mut counts, &SignalType::<Real>::ScaleIn);
    count_signal(&mut counts, &SignalType::<Real>::Close);
    count_signal(&mut counts, &SignalType::<Real>::CancelQuotes);
    count_signal(&mut counts, &SignalType::<Real>::StopLoss);
    assert_eq!((counts.buy, counts.sell, counts.close, counts.hold), (1, 0, 1, 1));
}

#[test]
fn sharpe_ratios_are_annualised_and_bounded() {
    let returns = reals(&[0.01, 0.03]);
    let expected = ((0.02 / ((2.0 * 0.01f64.powi(2)) / 1.0).sqrt()) * 4.0f64.sqrt()).clamp(-20.0, 20.0);
    assert!((sharpe_for(&returns, Real(4.0)).unwrap().0 - expected).abs() < 1e-9);
    assert_eq!(sharpe_for(&reals(&[0.01]), Real(4.0)), None);
    assert_eq!(sharpe_for(&reals(&[0.01, 0.01]), Real(4.0)), Some(Real(0.0)));
    assert_eq!(sharpe_for(&returns, Real(1_000_000.0)), Some(Real(20.0)));
}

#[test]
fn unusable_surface_reading_gives_way_to_the_fallback() {
    let instrument = test_call_instrument();
    assert_eq!(select_greeks_vol(Some(Real(0.0)), &instrument, Some(Real(0.3))), Some(Real(0.3)));
    assert_eq!(select_greeks_vol(Some(Real(f64::NAN)), &instrument, Some(Real(0.3))), Some(Real(0.3)));
    assert_eq!(select_greeks_vol(Some(Real(0.0)), &instrument, Some(Real(-1.0))), None);
}

#[test]
fn legs_of_a_spread_wait_or_go_ahead() {
    let leg = |is_limit: bool| LegOrder {
        direction: Direction::Sell,
        quantity: Real(3.0),
        price: Real(5.5),
        is_limit,
        instrument: Some(test_call_instrument()),
    };
    let mut run: DirectionalRun<Real> = DirectionalRun::new(1, None).unwrap();
    assert_eq!(run.route_leg(leg(false), &"why".to_string(), 5), Some(leg(false)));
    assert!(run.pending.is_empty());
    assert_eq!(run.route_leg(leg(true), &"why".to_string(), 5), None);
    assert_eq!(run.pending.len(), 1);
    assert_eq!(run.pending[0].remaining_quantity, Real(3.0));
    assert_eq!(run.pending[0].placed_at, 5);
    run.clear_pending();
    assert!(run.pending.is_empty());
    run.count_constrained(2);
    run.count_constrained(usize::MAX);
    assert_eq!(run.volume_constrained_fills, usize::MAX);
    assert!(!run.halted);
    run.halt();
    assert!(run.halted);
}

#[test]
fn open_positions_are_counted() {
    let positions = vec![
        test_position(PositionSide::Long, None, true),
        test_position(PositionSide::Short, None, false),
        test_position(PositionSide::Long, None, false),
    ];
    assert_eq!(count_open(&positions), 2);
}
