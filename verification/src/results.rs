//! The result of a directional run, made from its record.

use vstd::prelude::*;

use crate::clock::seconds_between;
use crate::directional_run::RunEnd;
use crate::ledger::{open_record, round_trips, LedgerState, RoundTrip, TradeRecord};
use crate::measures::{
    add_downside, add_squares, clamp, clamped, compute_max_drawdown, downside_sum, equity_returns, gains_and_losses,
    in_order, max_drawdown, mean, mean_of, one_sided_total, positive_base_returns, sort_values, square_sum, steps,
    steps_of, win_rate_with_fallback, win_share,
};
use crate::number::{add_up, cut_off, total, Number};
use crate::types::{BacktestResult, FeatureDiagnostic, OptionResultSummary, TransactionCostAnalysis};

verus! {

/// Number of closed round trips.
pub open spec fn closed_count<N>(log: Seq<RoundTrip<N>>) -> nat
    decreases log.len(),
{
    if log.len() == 0 {
        0
    } else {
        closed_count(log.drop_last()) + if log.last().exit_time is Some { 1nat } else { 0 }
    }
}

/// Relative profits of the closed round trips.
pub open spec fn closed_pct_returns<N>(log: Seq<RoundTrip<N>>) -> Seq<N>
    decreases log.len(),
{
    if log.len() == 0 {
        Seq::empty()
    } else {
        let before = closed_pct_returns(log.drop_last());
        if log.last().exit_time is Some && log.last().pnl_pct is Some {
            before.push(log.last().pnl_pct->0)
        } else {
            before
        }
    }
}

/// Profits of the closed round trips in currency.
pub open spec fn closed_pnls<N>(log: Seq<RoundTrip<N>>) -> Seq<N>
    decreases log.len(),
{
    if log.len() == 0 {
        Seq::empty()
    } else {
        let before = closed_pnls(log.drop_last());
        if log.last().exit_time is Some && log.last().pnl is Some {
            before.push(log.last().pnl->0)
        } else {
            before
        }
    }
}

/// Worst excursions of the closed round trips in currency.
pub open spec fn closed_maes<N: Number>(log: Seq<RoundTrip<N>>) -> Seq<N>
    decreases log.len(),
{
    if log.len() == 0 {
        Seq::empty()
    } else {
        let before = closed_maes(log.drop_last());
        let t = log.last();
        if t.exit_time is Some && t.pnl is Some {
            let excursion = match t.mae {
                Some(mae) => mae,
                None => N::whole(0),
            };
            before.push(excursion.magnitude().product(t.entry_fill_price).product(t.quantity))
        } else {
            before
        }
    }
}

/// Durations of the round trips that have one.
pub open spec fn trade_durations<N: Number>(log: Seq<RoundTrip<N>>) -> Seq<N>
    decreases log.len(),
{
    if log.len() == 0 {
        Seq::empty()
    } else {
        let before = trade_durations(log.drop_last());
        match log.last().duration_secs {
            Some(seconds) => before.push(N::whole(seconds)),
            None => before,
        }
    }
}

/// Only closed round trips are counted in what a result reports of trades.
pub proof fn law_open_positions_are_left_out_of_trade_returns<N: Number>(
    log: Seq<RoundTrip<N>>,
    record: RoundTrip<N>,
)
    requires
        record.exit_time is None,
    ensures
        closed_count(log.push(record)) == closed_count(log),
        closed_pct_returns(log.push(record)) == closed_pct_returns(log),
        closed_pnls(log.push(record)) == closed_pnls(log),
        closed_maes(log.push(record)) == closed_maes(log),
{
    assert(log.push(record).drop_last() =~= log);
}

/// Excursions and profits of the closed round trips go together one by one.
pub proof fn law_excursions_go_with_profits<N: Number>(log: Seq<RoundTrip<N>>)
    ensures
        closed_maes(log).len() == closed_pnls(log).len(),
        closed_pnls(log).len() <= closed_count(log),
    decreases log.len(),
{
    if log.len() > 0 {
        law_excursions_go_with_profits(log.drop_last());
    }
}

/// Moving the open positions to the trade log at the end of a run changes
/// nothing of what is reported of closed trades.
pub proof fn law_flushing_leaves_closed_trades_alone<N: Number>(ledger: LedgerState<N>, count: nat, last_price: N)
    ensures
        ({
            let log = ledger.flushed(count, last_price);
            &&& closed_count(log) == closed_count(ledger.trade_log)
            &&& closed_pct_returns(log) == closed_pct_returns(ledger.trade_log)
            &&& closed_pnls(log) == closed_pnls(ledger.trade_log)
            &&& closed_maes(log) == closed_maes(ledger.trade_log)
        }),
    decreases count,
{
    if count > 0 {
        law_flushing_leaves_closed_trades_alone(ledger, (count - 1) as nat, last_price);
        law_open_positions_are_left_out_of_trade_returns(
            ledger.flushed((count - 1) as nat, last_price),
            open_record(ledger.open_positions[count - 1], last_price),
        );
    }
}

/// What a trade log says of its closed round trips.
pub struct ClosedTrades<N> {
    pub count: usize,
    pub pct_returns: Vec<N>,
    pub pnls: Vec<N>,
    pub maes: Vec<N>,
    pub durations: Vec<N>,
}

/// Reads the closed round trips off a trade log.
pub fn closed_trades<N: Number>(trade_log: &[TradeRecord<N>]) -> (closed: ClosedTrades<N>)
    ensures
        closed.count == closed_count(round_trips(trade_log@)),
        closed.pct_returns@ == closed_pct_returns(round_trips(trade_log@)),
        closed.pnls@ == closed_pnls(round_trips(trade_log@)),
        closed.maes@ == closed_maes(round_trips(trade_log@)),
        closed.durations@ == trade_durations(round_trips(trade_log@)),
{
    let ghost log = round_trips(trade_log@);
    let mut closed: ClosedTrades<N> = ClosedTrades {
        count: 0,
        pct_returns: Vec::new(),
        pnls: Vec::new(),
        maes: Vec::new(),
        durations: Vec::new(),
    };
    let mut i: usize = 0;
    assert(log.take(0) =~= Seq::empty());
    while i < trade_log.len()
        invariant
            i <= trade_log@.len(),
            log == round_trips(trade_log@),
            closed.count <= i,
            closed.count == closed_count(log.take(i as int)),
            closed.pct_returns@ == closed_pct_returns(log.take(i as int)),
            closed.pnls@ == closed_pnls(log.take(i as int)),
            closed.maes@ == closed_maes(log.take(i as int)),
            closed.durations@ == trade_durations(log.take(i as int)),
        decreases trade_log@.len() - i,
    {
        assert(log.take(i as int + 1).drop_last() =~= log.take(i as int));
        assert(log.take(i as int + 1).last() == trade_log@[i as int]@);
        let t: &TradeRecord<N> = &trade_log[i];
        if t.exit_time.is_some() {
            closed.count = closed.count + 1;
            if let Some(pct) = t.pnl_pct {
                closed.pct_returns.push(pct);
            }
            if let Some(pnl) = t.pnl {
                closed.pnls.push(pnl);
                let excursion: N = match t.mae {
                    Some(mae) => mae,
                    None => N::of(0),
                };
                closed.maes.push(excursion.abs().times(t.entry_fill_price).times(t.quantity));
            }
        }
        if let Some(seconds) = t.duration_secs {
            closed.durations.push(N::of(seconds));
        }
        i = i + 1;
    }
    assert(log.take(i as int) =~= log);
    closed
}

/// Returns that the risk figures are made of: those of the closed round
/// trips, or the steps of the equity curve where none was closed.
pub open spec fn risk_returns<N: Number>(log: Seq<RoundTrip<N>>, equity: Seq<N>) -> Seq<N> {
    if closed_pct_returns(log).len() > 0 {
        closed_pct_returns(log)
    } else {
        positive_base_returns(equity)
    }
}

/// Gross profit and gross loss: of the closed round trips, or of the steps of
/// the equity curve where none was closed.
pub fn gross_profit_loss_with_fallback<N: Number>(
    trade_log: &[TradeRecord<N>],
    equity_curve: &[N],
) -> (sums: (N, N))
    ensures
        ({
            let log = round_trips(trade_log@);
            let values = if closed_count(log) > 0 { closed_pnls(log) } else { steps_of(equity_curve@) };
            sums == (one_sided_total(values, true), one_sided_total(values, false).magnitude())
        }),
{
    let closed = closed_trades(trade_log);
    if closed.count > 0 {
        gains_and_losses(closed.pnls.as_slice())
    } else {
        let deltas = steps(equity_curve);
        gains_and_losses(deltas.as_slice())
    }
}

/// When the first trade was entered.
pub open spec fn first_entry<N>(log: Seq<RoundTrip<N>>) -> Option<i64> {
    if log.len() > 0 {
        Some(log[0].entry_time)
    } else {
        None
    }
}

/// When the last trade was left, or entered where it is still open.
pub open spec fn last_activity<N>(log: Seq<RoundTrip<N>>) -> Option<i64> {
    if log.len() > 0 {
        match log.last().exit_time {
            Some(time) => Some(time),
            None => Some(log.last().entry_time),
        }
    } else {
        None
    }
}

fn activity<N: Number>(trade_log: &[TradeRecord<N>]) -> (times: (Option<i64>, Option<i64>))
    ensures
        times.0 == first_entry(round_trips(trade_log@)),
        times.1 == last_activity(round_trips(trade_log@)),
{
    if trade_log.len() == 0 {
        return (None, None);
    }
    let last: &TradeRecord<N> = &trade_log[trade_log.len() - 1];
    assert(round_trips(trade_log@).last() == last@);
    assert(round_trips(trade_log@)[0] == trade_log@[0]@);
    let end: Option<i64> = match last.exit_time {
        Some(time) => Some(time),
        None => Some(last.entry_time),
    };
    (Some(trade_log[0].entry_time), end)
}

/// Seconds that a trade log spans; none where it does not span any time.
pub fn trade_span_seconds<N: Number>(trade_log: &[TradeRecord<N>]) -> (span: Option<i64>)
    ensures
        span == match (first_entry(round_trips(trade_log@)), last_activity(round_trips(trade_log@))) {
            (Some(first), Some(last)) => if last > first {
                Some(cut_off(last - first, 1000) as i64)
            } else {
                None
            },
            _ => None,
        },
{
    let (first, last) = activity(trade_log);
    match (first, last) {
        (Some(a), Some(b)) => if b > a {
            Some(seconds_between(a, b))
        } else {
            None
        },
        _ => None,
    }
}

/// Returns that the risk figures are made of.
pub fn returns_for_risk<N: Number>(trade_log: &[TradeRecord<N>], equity_curve: &[N]) -> (values: Vec<N>)
    ensures
        values@ == risk_returns(round_trips(trade_log@), equity_curve@),
{
    let closed = closed_trades(trade_log);
    if closed.pct_returns.len() > 0 {
        closed.pct_returns
    } else {
        equity_returns(equity_curve)
    }
}

/// A ratio held within twenty of zero.
pub open spec fn bounded_ratio<N: Number>(ratio: N) -> N {
    clamped(ratio, N::whole(-20i64), N::whole(20))
}

/// Sharpe ratio, annualized and bounded; none for fewer than two returns.
pub open spec fn run_sharpe<N: Number>(values: Seq<N>, annual: N) -> Option<N> {
    if values.len() >= 2 {
        let centre = mean_of(values);
        let spread = square_sum(values, centre).quotient(N::counted((values.len() - 1) as usize)).root();
        Some(
            if N::whole(0).below(spread) {
                bounded_ratio(centre.quotient(spread).product(annual))
            } else {
                N::whole(0)
            },
        )
    } else {
        None
    }
}

/// Sortino ratio, annualized and bounded; none without returns.
pub open spec fn run_sortino<N: Number>(values: Seq<N>, annual: N) -> Option<N> {
    if values.len() > 0 {
        let spread = downside_sum(values).quotient(N::counted(values.len() as usize)).root();
        Some(
            if N::whole(0).below(spread) {
                bounded_ratio(mean_of(values).quotient(spread).product(annual))
            } else {
                N::whole(0)
            },
        )
    } else {
        None
    }
}

/// Volatility, annualized; none without returns.
pub open spec fn run_volatility<N: Number>(values: Seq<N>, annual: N) -> Option<N> {
    if values.len() > 0 {
        Some(
            square_sum(values, mean_of(values)).quotient(N::counted(values.len() as usize)).root().product(annual),
        )
    } else {
        None
    }
}

/// The median; none without values.
pub open spec fn median_of<N: Number>(values: Seq<N>) -> Option<N> {
    let sorted = in_order(values);
    let mid = (values.len() / 2) as int;
    if values.len() == 0 {
        None
    } else if values.len() % 2 == 0 {
        Some(sorted[mid - 1].sum(sorted[mid]).quotient(N::whole(2)))
    } else {
        Some(sorted[mid])
    }
}

/// Profit per unit of loss; unbounded without losses, zero without either.
pub open spec fn run_profit_factor<N: Number>(profit: N, loss: N) -> N {
    if N::whole(0).below(loss) {
        profit.quotient(loss)
    } else if N::whole(0).below(profit) {
        N::unbounded()
    } else {
        N::whole(0)
    }
}

/// Years that a trade log spans; one for an empty log.
pub open spec fn run_years<N: Number>(log: Seq<RoundTrip<N>>) -> N {
    match (first_entry(log), last_activity(log)) {
        (Some(first), Some(last)) => N::whole(cut_off(last - first, 1000) as i64).quotient(N::whole(31_557_600)),
        _ => N::whole(1),
    }
}

/// What is known of a run beside its own record.
pub struct RunContext<N> {
    pub initial_capital: N,
    /// Positions that are open in the account.
    pub open_positions: usize,
    pub unrealized_pnl: N,
    /// Returns per year, from which ratios are annualized.
    pub observations_per_year: N,
    pub sharpe_t_stat: Option<N>,
    pub significance_pvalue: Option<N>,
    pub deflated_sharpe: Option<N>,
    pub ulcer_index: Option<N>,
    pub pain_index: Option<N>,
    pub cdar_95: Option<N>,
    pub compute_signals_error: Option<String>,
    pub strategy_display_name: Option<String>,
    /// Diagnostics of the strategy's features, where any were computed.
    pub feature_diagnostics: Option<Vec<FeatureDiagnostic<N>>>,
    pub option_summary: Option<OptionResultSummary<N>>,
}

/// How long the closed trades took on average, in seconds.
pub open spec fn average_duration_of<N: Number>(log: Seq<RoundTrip<N>>) -> Option<N> {
    if trade_durations(log).len() > 0 {
        Some(mean_of(trade_durations(log)))
    } else {
        None
    }
}

/// How long the closed trades took on average, in seconds.
pub fn average_duration<N: Number>(trade_log: &[TradeRecord<N>]) -> (seconds: Option<N>)
    ensures
        seconds == average_duration_of(round_trips(trade_log@)),
{
    let closed = closed_trades(trade_log);
    if closed.durations.len() > 0 {
        Some(mean(closed.durations.as_slice()))
    } else {
        None
    }
}

/// The result of a run, apart from its Calmar ratio.
pub open spec fn is_result_of<N: Number>(end: RunEnd<N>, context: RunContext<N>, out: BacktestResult<N>) -> bool {
    let log = end.ledger@.trade_log;
    let closed = closed_pct_returns(log);
    let values = risk_returns(log, end.equity_curve@);
    let annual = context.observations_per_year.root();
    let gross = if closed_count(log) > 0 { closed_pnls(log) } else { steps_of(end.equity_curve@) };
    let profit = one_sided_total(gross, true);
    let loss = one_sided_total(gross, false).magnitude();
    let sharpe = run_sharpe(values, annual);
    &&& out.has_no_reports()
    &&& out.total_pnl == end.total_pnl
    &&& out.num_trades == end.ledger@.num_trades
    &&& out.closed_trades == closed_count(log)
    &&& out.open_positions == context.open_positions
    &&& out.sharpe_ratio == sharpe
    &&& out.sortino_ratio == run_sortino(values, annual)
    &&& out.volatility == run_volatility(values, annual)
    &&& out.avg_trade_return == if closed.len() > 0 { Some(mean_of(closed)) } else { None }
    &&& out.median_trade_return == median_of(closed)
    &&& out.avg_trade_duration == average_duration_of(log)
    &&& out.profit_factor == Some(run_profit_factor(profit, loss))
    &&& out.gross_profit == Some(profit)
    &&& out.gross_loss == Some(loss)
    &&& out.net_profit == Some(end.total_pnl)
    &&& out.max_drawdown == max_drawdown(end.equity_curve@)
    &&& out.win_rate == if values.len() > 0 { Some(win_share(values)) } else { None }
    &&& out.equity_curve == end.equity_curve
    &&& out.equity_curve_timestamps == end.equity_curve_timestamps
    &&& out.trade_returns@ == closed_pnls(log)
    &&& out.trade_pct_returns@ == closed
    &&& out.trade_maes@ == closed_maes(log)
    &&& out.initial_capital == context.initial_capital
    &&& out.realized_pnl == Some(total(closed_pnls(log)))
    &&& out.unrealized_pnl == Some(context.unrealized_pnl)
    &&& out.first_trade_price == end.first_price
    &&& out.last_trade_price == Some(end.last_price)
    &&& out.first_trade_timestamp == first_entry(log)
    &&& out.last_trade_timestamp == last_activity(log)
    &&& out.sharpe_t_stat == if sharpe is Some { context.sharpe_t_stat } else { None }
    &&& out.significance_pvalue == if sharpe is Some { context.significance_pvalue } else { None }
    &&& out.deflated_sharpe == if sharpe is Some { context.deflated_sharpe } else { None }
    &&& out.ulcer_index == context.ulcer_index
    &&& out.pain_index == context.pain_index
    &&& out.cdar_95 == context.cdar_95
    &&& round_trips(out.trade_log@) == log
    &&& out.price_series == end.price_series
    &&& out.signal_counts == Some(end.signal_counts)
    &&& out.compute_signals_error == context.compute_signals_error
    &&& out.strategy_display_name == context.strategy_display_name
    &&& out.feature_diagnostics == context.feature_diagnostics
    &&& out.option_summary == context.option_summary
    &&& out.volume_constrained_pct == if end.ledger@.num_trades > 0 {
        Some(
            N::counted(end.volume_constrained_fills).quotient(N::counted(end.ledger@.num_trades as usize)),
        )
    } else {
        None
    }
    &&& out.transaction_costs matches Some(costs) && are_run_costs(
        costs,
        end.ledger@.total_commission,
        end.total_pnl,
        end.ledger@.num_trades,
    )
}

/// The cost report of a run.
pub open spec fn are_run_costs<N: Number>(
    costs: TransactionCostAnalysis<N>,
    commission: N,
    pnl: N,
    num_trades: nat,
) -> bool {
    &&& costs.total_commission == commission
    &&& costs.total_slippage == N::whole(0)
    &&& costs.total_market_impact == N::whole(0)
    &&& costs.total_transaction_costs == commission
    &&& costs.costs_as_percentage_of_pnl == if N::whole(0).below(pnl.magnitude()) {
        commission.quotient(pnl.magnitude())
    } else {
        N::whole(0)
    }
    &&& costs.avg_cost_per_trade == if num_trades > 0 {
        commission.quotient(N::counted(num_trades as usize))
    } else {
        N::whole(0)
    }
    &&& costs.commission_by_exchange@.len() == 0
    &&& costs.total_gas_costs_usd == N::whole(0)
    &&& costs.avg_dex_slippage_bps == N::whole(0)
}

fn sharpe<N: Number>(values: &Vec<N>, annual: N) -> (r: Option<N>)
    ensures
        r == run_sharpe(values@, annual),
{
    if values.len() >= 2 {
        let centre: N = mean(values.as_slice());
        let spread: N = add_squares(values.as_slice(), centre).over(N::count(values.len() - 1)).sqrt();
        if N::of(0).lt(spread) {
            Some(clamp(centre.over(spread).times(annual), N::of(-20), N::of(20)))
        } else {
            Some(N::of(0))
        }
    } else {
        None
    }
}

/// Sharpe ratio of some returns, annualized by their number per year and
/// bounded.
pub fn sharpe_for<N: Number>(values: &Vec<N>, observations_per_year: N) -> (r: Option<N>)
    ensures
        r == run_sharpe(values@, observations_per_year.root()),
{
    sharpe(values, observations_per_year.sqrt())
}

fn sortino<N: Number>(values: &Vec<N>, annual: N) -> (r: Option<N>)
    ensures
        r == run_sortino(values@, annual),
{
    if values.len() > 0 {
        let spread: N = add_downside(values.as_slice()).over(N::count(values.len())).sqrt();
        if N::of(0).lt(spread) {
            Some(clamp(mean(values.as_slice()).over(spread).times(annual), N::of(-20), N::of(20)))
        } else {
            Some(N::of(0))
        }
    } else {
        None
    }
}

fn volatility<N: Number>(values: &Vec<N>, annual: N) -> (r: Option<N>)
    ensures
        r == run_volatility(values@, annual),
{
    if values.len() > 0 {
        let centre: N = mean(values.as_slice());
        Some(add_squares(values.as_slice(), centre).over(N::count(values.len())).sqrt().times(annual))
    } else {
        None
    }
}

fn median<N: Number>(values: &Vec<N>) -> (r: Option<N>)
    ensures
        r == median_of(values@),
{
    if values.len() == 0 {
        return None;
    }
    let sorted = sort_values(values.as_slice());
    let mid: usize = sorted.len() / 2;
    if sorted.len() % 2 == 0 {
        Some(sorted[mid - 1].plus(sorted[mid]).over(N::of(2)))
    } else {
        Some(sorted[mid])
    }
}

/// Makes the result of a run from its record.
///
/// Trade statistics are made of closed round trips only; positions that are
/// still open appear in the trade log but not among the returns. Where no
/// round trip was closed, risk figures, win rate and gross profit fall back
/// to the steps of the equity curve. `power` raises a number to a power; the
/// Calmar ratio annualizes with it.
pub fn build_backtest_result<N: Number, F: Fn(N, N) -> N>(
    end: RunEnd<N>,
    context: RunContext<N>,
    power: F,
) -> (out: BacktestResult<N>)
    requires
        forall|base: N, exponent: N| call_requires(power, (base, exponent)),
    ensures
        is_result_of(end, context, out),
        ({
            let log = end.ledger@.trade_log;
            let drawdown = max_drawdown(end.equity_curve@);
            let growth = end.equity_curve@.last().quotient(context.initial_capital);
            let span = run_years(log);
            if N::whole(0).below(drawdown) && end.equity_curve@.len() > 0 && N::whole(0).below(span)
                && N::whole(0).below(growth) {
                exists|grown: N|
                    #[trigger] call_ensures(power, (growth, N::whole(1).quotient(span)), grown) && out.calmar_ratio
                        == Some(grown.difference(N::whole(1)).quotient(drawdown))
            } else {
                out.calmar_ratio is None
            }
        }),
{
    let ledger = end.ledger;
    let closed = closed_trades(ledger.trade_log.as_slice());
    let values = returns_for_risk(ledger.trade_log.as_slice(), end.equity_curve.as_slice());
    let annual: N = context.observations_per_year.sqrt();
    let (first, last) = activity(ledger.trade_log.as_slice());
    let drawdown: N = compute_max_drawdown(end.equity_curve.as_slice());
    let (profit, loss) = gross_profit_loss_with_fallback(ledger.trade_log.as_slice(), end.equity_curve.as_slice());
    let sharpe_ratio: Option<N> = sharpe(&values, annual);
    let has_sharpe = sharpe_ratio.is_some();
    let calmar_ratio: Option<N> = if N::of(0).lt(drawdown) && end.equity_curve.len() > 0 {
        let growth: N = end.equity_curve[end.equity_curve.len() - 1].over(context.initial_capital);
        let span: N = match (first, last) {
            (Some(a), Some(b)) => N::of(seconds_between(a, b)).over(N::of(31_557_600)),
            _ => N::of(1),
        };
        if N::of(0).lt(span) && N::of(0).lt(growth) {
            let grown: N = power(growth, N::of(1).over(span));
            Some(grown.minus(N::of(1)).over(drawdown))
        } else {
            None
        }
    } else {
        None
    };
    let mut out: BacktestResult<N> = BacktestResult::default();
    out.total_pnl = end.total_pnl;
    out.num_trades = ledger.num_trades;
    out.closed_trades = closed.count;
    out.open_positions = context.open_positions;
    out.sharpe_ratio = sharpe_ratio;
    out.sortino_ratio = sortino(&values, annual);
    out.calmar_ratio = calmar_ratio;
    out.volatility = volatility(&values, annual);
    out.avg_trade_return = if closed.pct_returns.len() > 0 { Some(mean(closed.pct_returns.as_slice())) } else { None };
    out.median_trade_return = median(&closed.pct_returns);
    out.avg_trade_duration = average_duration(ledger.trade_log.as_slice());
    out.profit_factor = Some(
        if N::of(0).lt(loss) {
            profit.over(loss)
        } else if N::of(0).lt(profit) {
            N::infinity()
        } else {
            N::of(0)
        },
    );
    out.gross_profit = Some(profit);
    out.gross_loss = Some(loss);
    out.net_profit = Some(end.total_pnl);
    out.max_drawdown = drawdown;
    out.win_rate = win_rate_with_fallback(closed.pct_returns.as_slice(), values.as_slice());
    out.initial_capital = context.initial_capital;
    out.realized_pnl = Some(add_up(closed.pnls.as_slice()));
    out.unrealized_pnl = Some(context.unrealized_pnl);
    out.first_trade_price = end.first_price;
    out.last_trade_price = Some(end.last_price);
    out.first_trade_timestamp = first;
    out.last_trade_timestamp = last;
    out.sharpe_t_stat = if has_sharpe { context.sharpe_t_stat } else { None };
    out.significance_pvalue = if has_sharpe { context.significance_pvalue } else { None };
    out.deflated_sharpe = if has_sharpe { context.deflated_sharpe } else { None };
    out.ulcer_index = context.ulcer_index;
    out.pain_index = context.pain_index;
    out.cdar_95 = context.cdar_95;
    out.transaction_costs = Some(
        TransactionCostAnalysis {
            total_commission: ledger.total_commission,
            total_slippage: N::of(0),
            total_market_impact: N::of(0),
            total_transaction_costs: ledger.total_commission,
            costs_as_percentage_of_pnl: if N::of(0).lt(end.total_pnl.abs()) {
                ledger.total_commission.over(end.total_pnl.abs())
            } else {
                N::of(0)
            },
            avg_cost_per_trade: if ledger.num_trades > 0 {
                ledger.total_commission.over(N::count(ledger.num_trades))
            } else {
                N::of(0)
            },
            commission_by_exchange: Vec::new(),
            total_gas_costs_usd: N::of(0),
            avg_dex_slippage_bps: N::of(0),
        },
    );
    out.volume_constrained_pct = if ledger.num_trades > 0 {
        Some(N::count(end.volume_constrained_fills).over(N::count(ledger.num_trades)))
    } else {
        None
    };
    out.trade_returns = closed.pnls;
    out.trade_pct_returns = closed.pct_returns;
    out.trade_maes = closed.maes;
    out.equity_curve = end.equity_curve;
    out.equity_curve_timestamps = end.equity_curve_timestamps;
    out.trade_log = ledger.trade_log;
    out.price_series = end.price_series;
    out.signal_counts = Some(end.signal_counts);
    out.compute_signals_error = context.compute_signals_error;
    out.strategy_display_name = context.strategy_display_name;
    out.feature_diagnostics = context.feature_diagnostics;
    out.option_summary = context.option_summary;
    out
}

} // verus!
