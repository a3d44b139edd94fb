//! Results and reports of a backtest. Times are in milliseconds since the
//! epoch.

use vstd::prelude::*;

use crate::ledger::TradeRecord;
use crate::number::Number;
use crate::signals::{DerivativeMetadata, InstrumentKind, OptionSpreadLeg, SignalCounts};

verus! {

/// Something that happened during a backtest.
#[derive(Debug, Clone, PartialEq)]
pub enum BacktestEvent<N> {
    MarketData { timestamp: i64 },
    OrderSubmitted { order_id: String, timestamp: i64 },
    OrderFilled { order_id: String, fill_price: N, quantity: N, timestamp: i64 },
}

/// Identity of an option contract that was traded.
#[derive(Debug, Clone, PartialEq)]
pub struct OptionContractInfo<N> {
    pub symbol: String,
    pub underlying: String,
    pub strike: Option<N>,
    pub expiry: Option<i64>,
    /// "call", "put" or "other".
    pub contract_type: String,
    pub contract_multiplier: N,
    /// Signed ratio of the leg.
    pub ratio: i32,
}

/// Sensitivities of an option book.
#[derive(Debug, Clone, Copy, PartialEq)]
pub struct Greeks<N> {
    pub delta: N,
    pub gamma: N,
    pub theta: N,
    pub vega: N,
    pub rho: N,
}

/// The option contracts of a run and the last sensitivities of its book.
#[derive(Debug, Clone, PartialEq)]
pub struct OptionResultSummary<N> {
    pub contracts: Vec<OptionContractInfo<N>>,
    pub final_greeks: Option<Greeks<N>>,
}

/// Results of a liquidity provision backtest.
#[derive(Debug, Clone, PartialEq)]
pub struct LpBacktestResult<N> {
    pub total_fees_earned_usd: N,
    pub total_impermanent_loss_usd: N,
    pub total_gas_costs_usd: N,
    pub net_pnl_usd: N,
    pub annualized_apr: N,
    pub time_in_range_pct: N,
    pub total_swaps_processed: u64,
    pub fee_earning_swaps: u64,
    pub avg_position_size_usd: N,
    pub max_drawdown_pct: N,
    pub equity_curve: Vec<(i64, N)>,
    pub hodl_comparison: N,
    pub rebalance_count: u32,
    pub positions_opened: u32,
    pub positions_closed: u32,
}

/// How serious a gap in the data is, by its length relative to the expected
/// spacing: under twice, two to five times, five to ten times, or more.
#[derive(Debug, Clone, Copy, PartialEq, Eq, Structural)]
pub enum GapSeverity {
    Minor,
    Moderate,
    Severe,
    Critical,
}

/// A gap in the data.
#[derive(Debug, Clone, PartialEq)]
pub struct DataGap {
    pub start_time: i64,
    pub end_time: i64,
    pub duration_seconds: i64,
    pub severity: GapSeverity,
}

/// A gap in the order stream.
#[derive(Debug, Clone, PartialEq)]
pub struct OrderGap {
    pub start_time: i64,
    pub end_time: i64,
    pub duration_seconds: i64,
    pub missing_quote_cycles: u64,
    pub severity: GapSeverity,
}

/// A quote without its counterpart.
#[derive(Debug, Clone, PartialEq)]
pub struct UnpairedQuote<N> {
    pub timestamp: i64,
    pub order_id: String,
    pub side: String,
    pub price: N,
}

/// Quality of the order stream of a market making strategy.
#[derive(Debug, Clone, PartialEq)]
pub struct OrderStreamQuality<N> {
    pub total_orders: usize,
    pub order_gaps: Vec<OrderGap>,
    pub unpaired_quotes: Vec<UnpairedQuote<N>>,
    pub expected_quote_interval_seconds: u64,
    pub avg_quote_interval_seconds: N,
    pub quote_consistency_score: N,
    pub missing_quote_cycles: u64,
    pub bid_ask_pair_ratio: N,
}

/// Quality of the market data.
#[derive(Debug, Clone, PartialEq)]
pub struct DataQualityReport<N> {
    pub overall_score: N,
    pub total_data_points: usize,
    pub time_span_seconds: i64,
    pub gaps_detected: Vec<DataGap>,
    pub average_gap_seconds: N,
    pub max_gap_seconds: i64,
    pub gap_ratio: N,
    pub outliers_detected: usize,
    pub data_completeness_score: N,
    pub timestamp_consistency_score: N,
    pub order_quality: Option<OrderStreamQuality<N>>,
}

/// Costs of trading.
#[derive(Debug, Clone, PartialEq)]
pub struct TransactionCostAnalysis<N> {
    pub total_commission: N,
    pub total_slippage: N,
    pub total_market_impact: N,
    pub total_transaction_costs: N,
    pub costs_as_percentage_of_pnl: N,
    pub avg_cost_per_trade: N,
    pub commission_by_exchange: Vec<(String, N)>,
    pub total_gas_costs_usd: N,
    pub avg_dex_slippage_bps: N,
}

/// A large order relative to the liquidity.
#[derive(Debug, Clone, PartialEq)]
pub struct LiquidityWarning<N> {
    pub timestamp: i64,
    pub order_size: N,
    pub available_liquidity: N,
    pub liquidity_ratio: N,
    pub message: String,
}

/// Market impact of the run's orders.
#[derive(Debug, Clone, PartialEq)]
pub struct MarketImpactAnalysis<N> {
    pub trades_with_impact: usize,
    pub avg_impact_bps: N,
    pub max_impact_bps: N,
    pub total_impact_cost: N,
    pub liquidity_warnings: Vec<LiquidityWarning<N>>,
}

/// Life cycle of orders and quality of execution.
#[derive(Debug, Clone, PartialEq)]
pub struct ExecutionMetrics<N> {
    pub orders_placed: usize,
    pub orders_filled: usize,
    pub orders_cancelled: usize,
    pub total_fills: usize,
    pub fill_rate: N,
    pub cancellation_rate: N,
    pub avg_fills_per_order: N,
    pub avg_time_to_fill_seconds: N,
    pub median_time_to_fill_seconds: N,
    pub bid_orders: usize,
    pub ask_orders: usize,
    pub bid_fills: usize,
    pub ask_fills: usize,
    pub bid_fill_rate: N,
    pub ask_fill_rate: N,
    pub avg_quote_spread_bps: N,
    pub round_trip_win_rate: Option<N>,
    pub total_round_trips: usize,
    pub profitable_round_trips: usize,
    pub spread_capture_rate: Option<N>,
    pub adverse_selection_rate: Option<N>,
    pub avg_pnl_per_round_trip: Option<N>,
}

/// Inventory of a market making strategy.
#[derive(Debug, Clone, PartialEq)]
pub struct InventoryMetrics<N> {
    pub total_volume_traded: N,
    pub avg_inventory_value: N,
    pub turnover_per_day: N,
    pub buy_fills: usize,
    pub sell_fills: usize,
    pub buy_volume: N,
    pub sell_volume: N,
    pub imbalance_ratio: N,
    pub starting_inventory: N,
    pub starting_inventory_value: N,
    pub starting_mark_price: N,
    pub ending_inventory: N,
    pub ending_inventory_value: N,
    pub ending_mark_price: N,
    pub starting_capital: N,
    pub ending_capital: N,
    pub final_equity: N,
}

/// How well a feature that a strategy declares foretells returns over the
/// strategy's own holding period.
#[derive(Debug, Clone, PartialEq)]
pub struct FeatureDiagnostic<N> {
    pub feature_name: String,
    /// Figures of the information coefficient, each under its name.
    pub ic: Vec<(String, N)>,
    /// Figures of each quantile bucket, from the lowest on.
    pub quantile_buckets: Vec<Vec<(String, N)>>,
}

/// Result of a backtest.
#[derive(Debug, Clone, PartialEq)]
pub struct BacktestResult<N> {
    pub total_pnl: N,
    pub num_trades: usize,
    pub closed_trades: usize,
    pub open_positions: usize,
    pub first_trade_timestamp: Option<i64>,
    pub last_trade_timestamp: Option<i64>,
    pub first_trade_price: Option<N>,
    pub last_trade_price: Option<N>,
    pub realized_pnl: Option<N>,
    pub unrealized_pnl: Option<N>,
    pub max_drawdown: N,
    pub sharpe_ratio: Option<N>,
    pub sortino_ratio: Option<N>,
    pub calmar_ratio: Option<N>,
    pub profit_factor: Option<N>,
    pub win_rate: Option<N>,
    pub avg_trade_return: Option<N>,
    pub median_trade_return: Option<N>,
    pub avg_trade_duration: Option<N>,
    pub volatility: Option<N>,
    pub gross_profit: Option<N>,
    pub gross_loss: Option<N>,
    pub net_profit: Option<N>,
    pub equity_curve: Vec<N>,
    pub equity_curve_timestamps: Vec<i64>,
    /// Profit of each closed trade in currency.
    pub trade_returns: Vec<N>,
    /// Profit of each closed trade relative to its cost.
    pub trade_pct_returns: Vec<N>,
    pub trade_maes: Vec<N>,
    pub initial_capital: N,
    pub data_quality: Option<DataQualityReport<N>>,
    pub transaction_costs: Option<TransactionCostAnalysis<N>>,
    pub market_impact: Option<MarketImpactAnalysis<N>>,
    /// Share of trades whose size was cut for want of volume.
    pub volume_constrained_pct: Option<N>,
    pub inventory_metrics: Option<InventoryMetrics<N>>,
    pub execution_metrics: Option<ExecutionMetrics<N>>,
    pub risk_halt_reason: Option<String>,
    pub sharpe_t_stat: Option<N>,
    pub significance_pvalue: Option<N>,
    pub deflated_sharpe: Option<N>,
    pub ulcer_index: Option<N>,
    pub pain_index: Option<N>,
    pub cdar_95: Option<N>,
    pub trade_log: Vec<TradeRecord<N>>,
    pub price_series: Vec<N>,
    pub signal_counts: Option<SignalCounts>,
    pub compute_signals_error: Option<String>,
    pub candle_interval_minutes: Option<i64>,
    pub python_source_code: Option<String>,
    pub strategy_display_name: Option<String>,
    pub lp_metrics: Option<LpBacktestResult<N>>,
    pub analysis_mode: Option<String>,
    pub ga_trial_count: Option<u32>,
    pub ga_is_sharpe_mean: Option<N>,
    pub ga_is_sharpe_std: Option<N>,
    pub ga_is_sharpe_pct_above_threshold: Option<N>,
    pub analysis_stages_run: Vec<String>,
    /// Diagnostics of the strategy's features, where any were computed.
    pub feature_diagnostics: Option<Vec<FeatureDiagnostic<N>>>,
    pub option_summary: Option<OptionResultSummary<N>>,
}

impl<N: Number> BacktestResult<N> {
    /// The reports that a result may carry beside its own figures are absent.
    pub open spec fn has_no_reports(self) -> bool {
        &&& self.has_no_reports_but_a_halt()
        &&& self.risk_halt_reason is None
    }

    /// The reports are absent, but for a reason for which trading stopped.
    pub open spec fn has_no_reports_but_a_halt(self) -> bool {
        &&& self.data_quality is None
        &&& self.market_impact is None
        &&& self.inventory_metrics is None
        &&& self.execution_metrics is None
        &&& self.candle_interval_minutes is None
        &&& self.python_source_code is None
        &&& self.lp_metrics is None
        &&& self.analysis_mode is None
        &&& self.ga_trial_count is None
        &&& self.ga_is_sharpe_mean is None
        &&& self.ga_is_sharpe_std is None
        &&& self.ga_is_sharpe_pct_above_threshold is None
        &&& self.analysis_stages_run@.len() == 0
    }

    /// Nothing is said of single trades, costs or signals.
    pub open spec fn has_no_details(self) -> bool {
        &&& self.first_trade_timestamp is None
        &&& self.last_trade_timestamp is None
        &&& self.first_trade_price is None
        &&& self.last_trade_price is None
        &&& self.trade_pct_returns@.len() == 0
        &&& self.trade_maes@.len() == 0
        &&& self.transaction_costs is None
        &&& self.volume_constrained_pct is None
        &&& self.sharpe_t_stat is None
        &&& self.significance_pvalue is None
        &&& self.deflated_sharpe is None
        &&& self.ulcer_index is None
        &&& self.pain_index is None
        &&& self.cdar_95 is None
        &&& self.trade_log@.len() == 0
        &&& self.price_series@.len() == 0
        &&& self.signal_counts is None
        &&& self.compute_signals_error is None
        &&& self.strategy_display_name is None
        &&& self.feature_diagnostics is None
        &&& self.option_summary is None
    }

    /// A result without any trade.
    pub open spec fn is_blank(self) -> bool {
        &&& self.has_no_reports()
        &&& self.has_no_details()
        &&& self.total_pnl == N::whole(0)
        &&& self.num_trades == 0
        &&& self.closed_trades == 0
        &&& self.open_positions == 0
        &&& self.realized_pnl is None
        &&& self.unrealized_pnl is None
        &&& self.max_drawdown == N::whole(0)
        &&& self.sharpe_ratio is None
        &&& self.sortino_ratio is None
        &&& self.calmar_ratio is None
        &&& self.profit_factor is None
        &&& self.win_rate is None
        &&& self.avg_trade_return is None
        &&& self.median_trade_return is None
        &&& self.avg_trade_duration is None
        &&& self.volatility is None
        &&& self.gross_profit is None
        &&& self.gross_loss is None
        &&& self.net_profit is None
        &&& self.equity_curve@.len() == 0
        &&& self.equity_curve_timestamps@.len() == 0
        &&& self.trade_returns@.len() == 0
    }
}

impl<N: Number> Default for BacktestResult<N> {
    fn default() -> (result: Self)
        ensures
            result.is_blank(),
            result.initial_capital == N::whole(0),
    {
        BacktestResult {
            total_pnl: N::of(0),
            num_trades: 0,
            closed_trades: 0,
            open_positions: 0,
            first_trade_timestamp: None,
            last_trade_timestamp: None,
            first_trade_price: None,
            last_trade_price: None,
            realized_pnl: None,
            unrealized_pnl: None,
            max_drawdown: N::of(0),
            sharpe_ratio: None,
            sortino_ratio: None,
            calmar_ratio: None,
            profit_factor: None,
            win_rate: None,
            avg_trade_return: None,
            median_trade_return: None,
            avg_trade_duration: None,
            volatility: None,
            gross_profit: None,
            gross_loss: None,
            net_profit: None,
            equity_curve: Vec::new(),
            equity_curve_timestamps: Vec::new(),
            trade_returns: Vec::new(),
            trade_pct_returns: Vec::new(),
            trade_maes: Vec::new(),
            initial_capital: N::of(0),
            data_quality: None,
            transaction_costs: None,
            market_impact: None,
            volume_constrained_pct: None,
            inventory_metrics: None,
            execution_metrics: None,
            risk_halt_reason: None,
            sharpe_t_stat: None,
            significance_pvalue: None,
            deflated_sharpe: None,
            ulcer_index: None,
            pain_index: None,
            cdar_95: None,
            trade_log: Vec::new(),
            price_series: Vec::new(),
            signal_counts: None,
            compute_signals_error: None,
            candle_interval_minutes: None,
            python_source_code: None,
            strategy_display_name: None,
            lp_metrics: None,
            analysis_mode: None,
            ga_trial_count: None,
            ga_is_sharpe_mean: None,
            ga_is_sharpe_std: None,
            ga_is_sharpe_pct_above_threshold: None,
            analysis_stages_run: Vec::new(),
            feature_diagnostics: None,
            option_summary: None,
        }
    }
}

impl<N: Number> Default for ExecutionMetrics<N> {
    fn default() -> (metrics: Self)
        ensures
            metrics.orders_placed == 0,
            metrics.orders_filled == 0,
            metrics.orders_cancelled == 0,
            metrics.total_fills == 0,
            metrics.fill_rate == N::whole(0),
            metrics.cancellation_rate == N::whole(0),
            metrics.avg_fills_per_order == N::whole(0),
            metrics.avg_time_to_fill_seconds == N::whole(0),
            metrics.median_time_to_fill_seconds == N::whole(0),
            metrics.bid_orders == 0,
            metrics.ask_orders == 0,
            metrics.bid_fills == 0,
            metrics.ask_fills == 0,
            metrics.bid_fill_rate == N::whole(0),
            metrics.ask_fill_rate == N::whole(0),
            metrics.avg_quote_spread_bps == N::whole(0),
            metrics.round_trip_win_rate is None,
            metrics.total_round_trips == 0,
            metrics.profitable_round_trips == 0,
            metrics.spread_capture_rate is None,
            metrics.adverse_selection_rate is None,
            metrics.avg_pnl_per_round_trip is None,
    {
        ExecutionMetrics {
            orders_placed: 0,
            orders_filled: 0,
            orders_cancelled: 0,
            total_fills: 0,
            fill_rate: N::of(0),
            cancellation_rate: N::of(0),
            avg_fills_per_order: N::of(0),
            avg_time_to_fill_seconds: N::of(0),
            median_time_to_fill_seconds: N::of(0),
            bid_orders: 0,
            ask_orders: 0,
            bid_fills: 0,
            ask_fills: 0,
            bid_fill_rate: N::of(0),
            ask_fill_rate: N::of(0),
            avg_quote_spread_bps: N::of(0),
            round_trip_win_rate: None,
            total_round_trips: 0,
            profitable_round_trips: 0,
            spread_capture_rate: None,
            adverse_selection_rate: None,
            avg_pnl_per_round_trip: None,
        }
    }
}

impl<N: Number> Default for InventoryMetrics<N> {
    fn default() -> (metrics: Self)
        ensures
            metrics.total_volume_traded == N::whole(0),
            metrics.avg_inventory_value == N::whole(0),
            metrics.turnover_per_day == N::whole(0),
            metrics.buy_fills == 0,
            metrics.sell_fills == 0,
            metrics.buy_volume == N::whole(0),
            metrics.sell_volume == N::whole(0),
            metrics.imbalance_ratio == N::whole(0),
            metrics.starting_inventory == N::whole(0),
            metrics.starting_inventory_value == N::whole(0),
            metrics.starting_mark_price == N::whole(0),
            metrics.ending_inventory == N::whole(0),
            metrics.ending_inventory_value == N::whole(0),
            metrics.ending_mark_price == N::whole(0),
            metrics.starting_capital == N::whole(0),
            metrics.ending_capital == N::whole(0),
            metrics.final_equity == N::whole(0),
    {
        InventoryMetrics {
            total_volume_traded: N::of(0),
            avg_inventory_value: N::of(0),
            turnover_per_day: N::of(0),
            buy_fills: 0,
            sell_fills: 0,
            buy_volume: N::of(0),
            sell_volume: N::of(0),
            imbalance_ratio: N::of(0),
            starting_inventory: N::of(0),
            starting_inventory_value: N::of(0),
            starting_mark_price: N::of(0),
            ending_inventory: N::of(0),
            ending_inventory_value: N::of(0),
            ending_mark_price: N::of(0),
            starting_capital: N::of(0),
            ending_capital: N::of(0),
            final_equity: N::of(0),
        }
    }
}

/// The identity of a contract, as a leg with this ratio.
pub open spec fn is_info_of<N: Number>(
    info: OptionContractInfo<N>,
    instrument: DerivativeMetadata<N>,
    ratio: i32,
) -> bool {
    &&& info.symbol == instrument.symbol
    &&& info.underlying == instrument.underlying
    &&& info.strike == instrument.instrument_kind.strike_price()
    &&& info.expiry == instrument.instrument_kind.expiry_ms()
    &&& info.contract_type@ == match instrument.instrument_kind {
        InstrumentKind::Call { .. } => "call"@,
        InstrumentKind::Put { .. } => "put"@,
        _ => "other"@,
    }
    &&& info.contract_multiplier == instrument.contract_multiplier
    &&& info.ratio == ratio
}

/// The identity of a contract.
pub fn option_contract_info<N: Number>(
    instrument: &DerivativeMetadata<N>,
    ratio: i32,
) -> (info: OptionContractInfo<N>)
    ensures
        is_info_of(info, *instrument, ratio),
{
    OptionContractInfo {
        symbol: instrument.symbol.clone(),
        underlying: instrument.underlying.clone(),
        strike: instrument.instrument_kind.strike(),
        expiry: instrument.instrument_kind.expiry(),
        contract_type: match instrument.instrument_kind {
            InstrumentKind::Call { .. } => "call".to_owned(),
            InstrumentKind::Put { .. } => "put".to_owned(),
            _ => "other".to_owned(),
        },
        contract_multiplier: instrument.contract_multiplier,
        ratio,
    }
}

/// The number is zero.
pub open spec fn is_zero<N: Number>(n: N) -> bool {
    n.at_most(N::whole(0)) && N::whole(0).at_most(n)
}

fn is_nothing<N: Number>(n: N) -> (zero: bool)
    ensures
        zero == is_zero(n),
{
    n.le(N::of(0)) && N::of(0).le(n)
}

/// Every one of the Greeks is zero, as they are before any is computed.
pub open spec fn are_unset<N: Number>(greeks: Greeks<N>) -> bool {
    is_zero(greeks.delta) && is_zero(greeks.gamma) && is_zero(greeks.theta) && is_zero(greeks.vega) && is_zero(
        greeks.rho,
    )
}

/// The option summary of a run: the legs of its spread, else its single
/// contract with ratio one; none for a run without options. The sensitivities
/// are those of the account, where it has any.
pub fn build_option_summary<N: Number>(
    option_instrument: Option<&DerivativeMetadata<N>>,
    option_spread: Option<&[OptionSpreadLeg<N>]>,
    greeks: Greeks<N>,
) -> (summary: Option<OptionResultSummary<N>>)
    ensures
        summary is None <==> option_instrument is None && option_spread is None,
        summary matches Some(found) ==> found.final_greeks == if are_unset(greeks) { None } else { Some(greeks) },
        summary matches Some(found) ==> match option_spread {
            Some(legs) => found.contracts@.len() == legs@.len() && forall|i: int|
                0 <= i < legs@.len() ==> is_info_of(
                    #[trigger] found.contracts@[i],
                    legs@[i].instrument,
                    legs@[i].ratio,
                ),
            None => found.contracts@.len() == 1 && is_info_of(found.contracts@[0], *option_instrument.unwrap(), 1),
        },
{
    let mut contracts: Vec<OptionContractInfo<N>> = Vec::new();
    match option_spread {
        Some(legs) => {
            let mut i: usize = 0;
            while i < legs.len()
                invariant
                    i <= legs@.len(),
                    contracts@.len() == i,
                    forall|k: int|
                        0 <= k < i ==> is_info_of(#[trigger] contracts@[k], legs@[k].instrument, legs@[k].ratio),
                decreases legs@.len() - i,
            {
                contracts.push(option_contract_info(&legs[i].instrument, legs[i].ratio));
                i = i + 1;
            }
        },
        None => match option_instrument {
            Some(contract) => contracts.push(option_contract_info(contract, 1)),
            None => {
                return None;
            },
        },
    }
    let unset: bool = is_nothing(greeks.delta) && is_nothing(greeks.gamma) && is_nothing(greeks.theta) && is_nothing(
        greeks.vega,
    ) && is_nothing(greeks.rho);
    Some(OptionResultSummary { contracts, final_greeks: if unset { None } else { Some(greeks) } })
}

} // verus!
