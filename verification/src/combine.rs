//! The out-of-sample results of all walk-forward windows as one result.

use vstd::prelude::*;

use crate::clock::seconds_between;
use crate::ledger::{round_trips, RoundTrip, TradeRecord};
use crate::measures::{
    add_downside, add_squares, count_positive, downside_sum, in_order, mean, mean_of, running_peak, sort_values,
    square_sum, win_share,
};
use crate::number::{cut_off, ratio, ratio_of, total, Number};
use crate::types::{BacktestResult, TransactionCostAnalysis};

verus! {

/// The parts one after another.
pub open spec fn appended<T>(parts: Seq<Seq<T>>) -> Seq<T>
    decreases parts.len(),
{
    if parts.len() == 0 {
        Seq::empty()
    } else {
        appended(parts.drop_last()) + parts.last()
    }
}

/// Counts added up.
pub open spec fn count_total(counts: Seq<usize>) -> nat
    decreases counts.len(),
{
    if counts.len() == 0 {
        0
    } else {
        count_total(counts.drop_last()) + counts.last() as nat
    }
}

/// The value, or zero.
pub open spec fn or_zero<N: Number>(value: Option<N>) -> N {
    match value {
        Some(v) => v,
        None => N::whole(0),
    }
}

/// Commission of a window, or zero where it has no cost report.
pub open spec fn commission_in<N: Number>(result: BacktestResult<N>) -> N {
    match result.transaction_costs {
        Some(costs) => costs.total_commission,
        None => N::whole(0),
    }
}

/// Factor by which a window's curve is scaled to start where the one before
/// it ended.
pub open spec fn link_scale<N: Number>(curve: Seq<N>, start: N) -> N {
    if ratio_of::<N>(1, 1_000_000_000_000).below(curve[0].magnitude()) {
        start.quotient(curve[0])
    } else {
        N::whole(1)
    }
}

/// The windows' curves chained: each starts where the one before it ended.
pub open spec fn chained<N: Number>(curves: Seq<Seq<N>>, initial_capital: N) -> Seq<N>
    decreases curves.len(),
{
    if curves.len() == 0 {
        Seq::empty()
    } else {
        let before = chained(curves.drop_last(), initial_capital);
        let curve = curves.last();
        if curve.len() == 0 {
            before
        } else {
            let start = if before.len() > 0 { before.last() } else { initial_capital };
            let scale = link_scale(curve, start);
            before + curve.map_values(|v: N| v.product(scale))
        }
    }
}

/// Largest fall from a positive peak, relative to the peak.
pub open spec fn largest_fall<N: Number>(values: Seq<N>) -> N
    decreases values.len(),
{
    if values.len() == 0 {
        N::whole(0)
    } else {
        let before = largest_fall(values.drop_last());
        let peak = running_peak(values);
        let fall = if N::whole(0).below(peak) {
            peak.difference(values.last()).quotient(peak)
        } else {
            N::whole(0)
        };
        if before.below(fall) {
            fall
        } else {
            before
        }
    }
}

fn fall_from_peak<N: Number>(values: &Vec<N>) -> (worst: N)
    ensures
        worst == largest_fall(values@),
{
    let mut peak: N = N::of(0).minus(N::infinity());
    let mut worst: N = N::of(0);
    let mut i: usize = 0;
    assert(values@.take(0) =~= Seq::empty());
    while i < values.len()
        invariant
            i <= values@.len(),
            peak == running_peak(values@.take(i as int)),
            worst == largest_fall(values@.take(i as int)),
        decreases values@.len() - i,
    {
        assert(values@.take(i as int + 1).drop_last() =~= values@.take(i as int));
        let value: N = values[i];
        if peak.lt(value) {
            peak = value;
        }
        let fall: N = if N::of(0).lt(peak) { peak.minus(value).over(peak) } else { N::of(0) };
        if worst.lt(fall) {
            worst = fall;
        }
        i = i + 1;
    }
    assert(values@.take(i as int) =~= values@);
    worst
}

/// One trading year's factor for annualizing a ratio per trade.
pub open spec fn yearly_root<N: Number>() -> N {
    N::whole(252).root()
}

/// Values no larger than this are taken for zero.
pub open spec fn tiny<N: Number>() -> N {
    ratio_of::<N>(1, 1_000_000_000_000)
}

/// Sharpe ratio of returns per trade; zero for fewer than two or for returns
/// that do not vary.
pub open spec fn sharpe_of<N: Number>(values: Seq<N>) -> N {
    if values.len() > 1 {
        let centre = mean_of(values);
        let spread = square_sum(values, centre).quotient(N::counted((values.len() - 1) as usize)).root();
        if tiny::<N>().below(spread) {
            centre.quotient(spread).product(yearly_root())
        } else {
            N::whole(0)
        }
    } else {
        N::whole(0)
    }
}

/// Sortino ratio of returns per trade; zero for fewer than two or without
/// losses.
pub open spec fn sortino_of<N: Number>(values: Seq<N>) -> N {
    if values.len() > 1 {
        let spread = downside_sum(values).quotient(N::counted(values.len() as usize)).root();
        if tiny::<N>().below(spread) {
            mean_of(values).quotient(spread).product(yearly_root())
        } else {
            N::whole(0)
        }
    } else {
        N::whole(0)
    }
}

/// Annualized volatility of returns per trade.
pub open spec fn volatility_of<N: Number>(values: Seq<N>) -> Option<N> {
    if values.len() > 1 {
        Some(
            square_sum(values, mean_of(values)).quotient(N::counted((values.len() - 1) as usize)).root().product(
                yearly_root(),
            ),
        )
    } else {
        None
    }
}

/// Profit per unit of loss; unbounded without losses, zero without either.
pub open spec fn profit_factor_of<N: Number>(profit: N, loss: N) -> N {
    if tiny::<N>().below(loss.magnitude()) {
        profit.quotient(loss.magnitude())
    } else if N::whole(0).below(profit) {
        N::unbounded()
    } else {
        N::whole(0)
    }
}

/// Years between two points in time, at least a millionth; one where either
/// is unknown.
pub open spec fn years_between<N: Number>(first: Option<i64>, last: Option<i64>) -> N {
    match (first, last) {
        (Some(a), Some(b)) => N::whole(cut_off(b - a, 1000) as i64).quotient(N::whole(31_557_600)).larger(
            ratio_of::<N>(1, 1_000_000),
        ),
        _ => N::whole(1),
    }
}

/// The given durations.
pub open spec fn known_durations<N>(durations: Seq<Option<N>>) -> Seq<N>
    decreases durations.len(),
{
    if durations.len() == 0 {
        Seq::empty()
    } else {
        let before = known_durations(durations.drop_last());
        match durations.last() {
            Some(d) => before.push(d),
            None => before,
        }
    }
}

/// What is combined of the windows, part by part.
pub struct CombinedParts<N> {
    pub trade_returns: Seq<N>,
    pub trade_pct_returns: Seq<N>,
    pub trade_maes: Seq<N>,
    pub trade_log: Seq<RoundTrip<N>>,
    pub price_series: Seq<N>,
    pub equity: Seq<N>,
    pub additive_pnl: N,
    pub num_trades: nat,
    pub closed_trades: nat,
    pub open_positions: nat,
    pub gross_profit: N,
    pub gross_loss: N,
    pub commission: N,
    pub durations: Seq<N>,
}

/// The windows' parts put together: lists one after another, figures added
/// up, curves chained.
pub open spec fn parts_of<N: Number>(results: Seq<BacktestResult<N>>, initial_capital: N) -> CombinedParts<N> {
    CombinedParts {
        trade_returns: appended(results.map_values(|r: BacktestResult<N>| r.trade_returns@)),
        trade_pct_returns: appended(results.map_values(|r: BacktestResult<N>| r.trade_pct_returns@)),
        trade_maes: appended(results.map_values(|r: BacktestResult<N>| r.trade_maes@)),
        trade_log: appended(results.map_values(|r: BacktestResult<N>| round_trips(r.trade_log@))),
        price_series: appended(results.map_values(|r: BacktestResult<N>| r.price_series@)),
        equity: chained(results.map_values(|r: BacktestResult<N>| r.equity_curve@), initial_capital),
        additive_pnl: total(results.map_values(|r: BacktestResult<N>| r.total_pnl)),
        num_trades: count_total(results.map_values(|r: BacktestResult<N>| r.num_trades)),
        closed_trades: count_total(results.map_values(|r: BacktestResult<N>| r.closed_trades)),
        open_positions: count_total(results.map_values(|r: BacktestResult<N>| r.open_positions)),
        gross_profit: total(results.map_values(|r: BacktestResult<N>| or_zero(r.gross_profit))),
        gross_loss: total(results.map_values(|r: BacktestResult<N>| or_zero(r.gross_loss))),
        commission: total(results.map_values(|r: BacktestResult<N>| commission_in(r))),
        durations: known_durations(results.map_values(|r: BacktestResult<N>| r.avg_trade_duration)),
    }
}

/// Profit: by the end of the chained curve where there is one, else the sum
/// of the windows' profits.
pub open spec fn combined_pnl<N: Number>(parts: CombinedParts<N>, initial_capital: N) -> N {
    if parts.equity.len() > 0 {
        parts.equity.last().difference(initial_capital)
    } else {
        parts.additive_pnl
    }
}

/// Returns that the statistics are made of: relative ones where there are
/// any, else those in currency.
pub open spec fn statistic_returns<N>(parts: CombinedParts<N>) -> Seq<N> {
    if parts.trade_pct_returns.len() > 0 {
        parts.trade_pct_returns
    } else {
        parts.trade_returns
    }
}

/// The cost report of the combined result.
pub open spec fn are_combined_costs<N: Number>(
    costs: TransactionCostAnalysis<N>,
    commission: N,
    pnl: N,
    num_trades: nat,
) -> bool {
    &&& costs.total_commission == commission
    &&& costs.total_slippage == N::whole(0)
    &&& costs.total_market_impact == N::whole(0)
    &&& costs.total_transaction_costs == commission
    &&& costs.costs_as_percentage_of_pnl == if tiny::<N>().below(pnl.magnitude()) {
        commission.quotient(pnl.magnitude()).product(N::whole(100))
    } else {
        N::whole(0)
    }
    &&& costs.avg_cost_per_trade == if num_trades > 0 {
        commission.quotient(N::counted(num_trades as usize))
    } else {
        N::whole(0)
    }
    &&& costs.commission_by_exchange@.len() == 0
    &&& costs.total_gas_costs_usd == N::whole(0)
    &&& costs.avg_dex_slippage_bps == N::whole(0)
}

/// The combined result, apart from its Calmar ratio.
pub open spec fn is_combined<N: Number>(
    results: Seq<BacktestResult<N>>,
    initial_capital: N,
    out: BacktestResult<N>,
) -> bool {
    let parts = parts_of(results, initial_capital);
    let values = statistic_returns(parts);
    let pnl = combined_pnl(parts, initial_capital);
    &&& out.volume_constrained_pct is None
    &&& out.sharpe_t_stat is None
    &&& out.significance_pvalue is None
    &&& out.deflated_sharpe is None
    &&& out.ulcer_index is None
    &&& out.pain_index is None
    &&& out.cdar_95 is None
    &&& out.signal_counts is None
    &&& out.compute_signals_error is None
    &&& out.strategy_display_name is None
    &&& out.feature_diagnostics is None
    &&& out.option_summary is None
    &&& out.has_no_reports()
    &&& out.total_pnl == pnl
    &&& out.num_trades == parts.num_trades
    &&& out.closed_trades == parts.closed_trades
    &&& out.open_positions == parts.open_positions
    &&& out.first_trade_timestamp == results[0].first_trade_timestamp
    &&& out.last_trade_timestamp == results.last().last_trade_timestamp
    &&& out.first_trade_price == results[0].first_trade_price
    &&& out.last_trade_price == results.last().last_trade_price
    &&& out.realized_pnl == Some(pnl)
    &&& out.unrealized_pnl == Some(N::whole(0))
    &&& out.max_drawdown == largest_fall(parts.equity)
    &&& out.sharpe_ratio == Some(sharpe_of(values))
    &&& out.sortino_ratio == Some(sortino_of(values))
    &&& out.profit_factor == Some(profit_factor_of(parts.gross_profit, parts.gross_loss))
    &&& out.win_rate == Some(if values.len() > 0 { win_share(values) } else { N::whole(0) })
    &&& out.avg_trade_return == Some(if values.len() > 0 { mean_of(values) } else { N::whole(0) })
    &&& out.median_trade_return == if values.len() > 0 {
        Some(in_order(values)[(values.len() / 2) as int])
    } else {
        None
    }
    &&& out.avg_trade_duration == if parts.durations.len() > 0 { Some(mean_of(parts.durations)) } else { None }
    &&& out.volatility == volatility_of(values)
    &&& out.gross_profit == Some(parts.gross_profit)
    &&& out.gross_loss == Some(parts.gross_loss)
    &&& out.net_profit == if N::whole(0).below(initial_capital) {
        Some(pnl.quotient(initial_capital).product(N::whole(100)))
    } else {
        None
    }
    &&& out.equity_curve@ == parts.equity
    &&& out.equity_curve_timestamps@.len() == 0
    &&& out.price_series@ == parts.price_series
    &&& out.trade_returns@ == parts.trade_returns
    &&& out.trade_pct_returns@ == parts.trade_pct_returns
    &&& out.trade_maes@ == parts.trade_maes
    &&& out.initial_capital == initial_capital
    &&& round_trips(out.trade_log@) == parts.trade_log
    &&& out.transaction_costs matches Some(costs) && are_combined_costs(
        costs,
        parts.commission,
        pnl,
        parts.num_trades,
    )
}

/// The Calmar ratio applies: there is a drawdown, a curve and a capital.
pub open spec fn calmar_applies<N: Number>(equity: Seq<N>, drawdown: N, initial_capital: N) -> bool {
    tiny::<N>().below(drawdown) && equity.len() > 0 && N::whole(0).below(initial_capital)
}

/// The figures that are added up over the windows.
struct Sums<N> {
    pnl: N,
    num_trades: usize,
    closed_trades: usize,
    open_positions: usize,
    gross_profit: N,
    gross_loss: N,
    commission: N,
    durations: Vec<N>,
}

proof fn lemma_count_total_grows(counts: Seq<usize>, k: int)
    requires
        0 <= k <= counts.len(),
    ensures
        count_total(counts.take(k)) <= count_total(counts),
    decreases counts.len(),
{
    if k == counts.len() {
        assert(counts.take(k) =~= counts);
    } else {
        lemma_count_total_grows(counts.drop_last(), k);
        assert(counts.drop_last().take(k) =~= counts.take(k));
    }
}

/// The windows' counts can be added up.
pub open spec fn counts_fit<N: Number>(results: Seq<BacktestResult<N>>) -> bool {
    &&& count_total(results.map_values(|r: BacktestResult<N>| r.num_trades)) <= usize::MAX
    &&& count_total(results.map_values(|r: BacktestResult<N>| r.closed_trades)) <= usize::MAX
    &&& count_total(results.map_values(|r: BacktestResult<N>| r.open_positions)) <= usize::MAX
}

fn sum_windows<N: Number>(results: &[BacktestResult<N>], initial_capital: N) -> (sums: Sums<N>)
    requires
        counts_fit(results@),
    ensures
        ({
            let parts = parts_of(results@, initial_capital);
            &&& sums.pnl == parts.additive_pnl
            &&& sums.num_trades == parts.num_trades
            &&& sums.closed_trades == parts.closed_trades
            &&& sums.open_positions == parts.open_positions
            &&& sums.gross_profit == parts.gross_profit
            &&& sums.gross_loss == parts.gross_loss
            &&& sums.commission == parts.commission
            &&& sums.durations@ == parts.durations
        }),
{
    let ghost pnls = results@.map_values(|r: BacktestResult<N>| r.total_pnl);
    let ghost trades = results@.map_values(|r: BacktestResult<N>| r.num_trades);
    let ghost closed = results@.map_values(|r: BacktestResult<N>| r.closed_trades);
    let ghost open = results@.map_values(|r: BacktestResult<N>| r.open_positions);
    let ghost profits = results@.map_values(|r: BacktestResult<N>| or_zero(r.gross_profit));
    let ghost losses = results@.map_values(|r: BacktestResult<N>| or_zero(r.gross_loss));
    let ghost fees = results@.map_values(|r: BacktestResult<N>| commission_in(r));
    let ghost lengths = results@.map_values(|r: BacktestResult<N>| r.avg_trade_duration);
    let mut sums: Sums<N> = Sums {
        pnl: N::of(0),
        num_trades: 0,
        closed_trades: 0,
        open_positions: 0,
        gross_profit: N::of(0),
        gross_loss: N::of(0),
        commission: N::of(0),
        durations: Vec::new(),
    };
    let mut i: usize = 0;
    proof {
        assert(pnls.take(0) =~= Seq::empty());
        assert(trades.take(0) =~= Seq::empty());
        assert(closed.take(0) =~= Seq::empty());
        assert(open.take(0) =~= Seq::empty());
        assert(profits.take(0) =~= Seq::empty());
        assert(losses.take(0) =~= Seq::empty());
        assert(fees.take(0) =~= Seq::empty());
        assert(lengths.take(0) =~= Seq::empty());
    }
    while i < results.len()
        invariant
            i <= results@.len(),
            pnls == results@.map_values(|r: BacktestResult<N>| r.total_pnl),
            trades == results@.map_values(|r: BacktestResult<N>| r.num_trades),
            closed == results@.map_values(|r: BacktestResult<N>| r.closed_trades),
            open == results@.map_values(|r: BacktestResult<N>| r.open_positions),
            profits == results@.map_values(|r: BacktestResult<N>| or_zero(r.gross_profit)),
            losses == results@.map_values(|r: BacktestResult<N>| or_zero(r.gross_loss)),
            fees == results@.map_values(|r: BacktestResult<N>| commission_in(r)),
            lengths == results@.map_values(|r: BacktestResult<N>| r.avg_trade_duration),
            count_total(trades) <= usize::MAX,
            count_total(closed) <= usize::MAX,
            count_total(open) <= usize::MAX,
            sums.pnl == total(pnls.take(i as int)),
            sums.num_trades == count_total(trades.take(i as int)),
            sums.closed_trades == count_total(closed.take(i as int)),
            sums.open_positions == count_total(open.take(i as int)),
            sums.gross_profit == total(profits.take(i as int)),
            sums.gross_loss == total(losses.take(i as int)),
            sums.commission == total(fees.take(i as int)),
            sums.durations@ == known_durations(lengths.take(i as int)),
        decreases results@.len() - i,
    {
        proof {
            let next = i as int + 1;
            assert(pnls.take(next).drop_last() =~= pnls.take(i as int));
            assert(trades.take(next).drop_last() =~= trades.take(i as int));
            assert(closed.take(next).drop_last() =~= closed.take(i as int));
            assert(open.take(next).drop_last() =~= open.take(i as int));
            assert(profits.take(next).drop_last() =~= profits.take(i as int));
            assert(losses.take(next).drop_last() =~= losses.take(i as int));
            assert(fees.take(next).drop_last() =~= fees.take(i as int));
            assert(lengths.take(next).drop_last() =~= lengths.take(i as int));
            lemma_count_total_grows(trades, next);
            lemma_count_total_grows(closed, next);
            lemma_count_total_grows(open, next);
        }
        let r: &BacktestResult<N> = &results[i];
        sums.pnl = sums.pnl.plus(r.total_pnl);
        sums.num_trades = sums.num_trades + r.num_trades;
        sums.closed_trades = sums.closed_trades + r.closed_trades;
        sums.open_positions = sums.open_positions + r.open_positions;
        sums.gross_profit = sums.gross_profit.plus(
            match r.gross_profit {
                Some(v) => v,
                None => N::of(0),
            },
        );
        sums.gross_loss = sums.gross_loss.plus(
            match r.gross_loss {
                Some(v) => v,
                None => N::of(0),
            },
        );
        sums.commission = sums.commission.plus(
            match &r.transaction_costs {
                Some(costs) => costs.total_commission,
                None => N::of(0),
            },
        );
        if let Some(length) = r.avg_trade_duration {
            sums.durations.push(length);
        }
        i = i + 1;
    }
    proof {
        assert(pnls.take(i as int) =~= pnls);
        assert(trades.take(i as int) =~= trades);
        assert(closed.take(i as int) =~= closed);
        assert(open.take(i as int) =~= open);
        assert(profits.take(i as int) =~= profits);
        assert(losses.take(i as int) =~= losses);
        assert(fees.take(i as int) =~= fees);
        assert(lengths.take(i as int) =~= lengths);
    }
    sums
}

fn append_values<N: Number>(out: &mut Vec<N>, values: &Vec<N>)
    ensures
        final(out)@ == old(out)@ + values@,
{
    let ghost before = out@;
    let mut i: usize = 0;
    while i < values.len()
        invariant
            i <= values@.len(),
            out@ =~= before + values@.take(i as int),
        decreases values@.len() - i,
    {
        out.push(values[i]);
        i = i + 1;
    }
    assert(values@.take(i as int) =~= values@);
}

fn append_scaled<N: Number>(out: &mut Vec<N>, values: &Vec<N>, scale: N)
    ensures
        final(out)@ == old(out)@ + values@.map_values(|v: N| v.product(scale)),
{
    let ghost before = out@;
    let mut i: usize = 0;
    while i < values.len()
        invariant
            i <= values@.len(),
            out@ =~= before + values@.take(i as int).map_values(|v: N| v.product(scale)),
        decreases values@.len() - i,
    {
        out.push(values[i].times(scale));
        i = i + 1;
    }
    assert(values@.take(i as int) =~= values@);
}

fn append_records<N: Number>(out: &mut Vec<TradeRecord<N>>, records: &Vec<TradeRecord<N>>)
    ensures
        round_trips(final(out)@) == round_trips(old(out)@) + round_trips(records@),
{
    let ghost before = round_trips(out@);
    let mut i: usize = 0;
    assert(round_trips(records@).take(0) =~= Seq::empty());
    while i < records.len()
        invariant
            i <= records@.len(),
            round_trips(out@) =~= before + round_trips(records@).take(i as int),
        decreases records@.len() - i,
    {
        let ghost so_far = round_trips(out@);
        let copy = records[i].duplicate();
        out.push(copy);
        assert(round_trips(out@) =~= so_far.push(copy@));
        i = i + 1;
    }
    assert(round_trips(records@).take(i as int) =~= round_trips(records@));
}

/// The lists of the windows, one after another.
struct Lists<N> {
    trade_returns: Vec<N>,
    trade_pct_returns: Vec<N>,
    trade_maes: Vec<N>,
    trade_log: Vec<TradeRecord<N>>,
    price_series: Vec<N>,
    equity: Vec<N>,
}

fn join_windows<N: Number>(results: &[BacktestResult<N>], initial_capital: N) -> (lists: Lists<N>)
    ensures
        ({
            let parts = parts_of(results@, initial_capital);
            &&& lists.trade_returns@ == parts.trade_returns
            &&& lists.trade_pct_returns@ == parts.trade_pct_returns
            &&& lists.trade_maes@ == parts.trade_maes
            &&& round_trips(lists.trade_log@) == parts.trade_log
            &&& lists.price_series@ == parts.price_series
            &&& lists.equity@ == parts.equity
        }),
{
    let ghost dollars = results@.map_values(|r: BacktestResult<N>| r.trade_returns@);
    let ghost shares = results@.map_values(|r: BacktestResult<N>| r.trade_pct_returns@);
    let ghost maes = results@.map_values(|r: BacktestResult<N>| r.trade_maes@);
    let ghost logs = results@.map_values(|r: BacktestResult<N>| round_trips(r.trade_log@));
    let ghost prices = results@.map_values(|r: BacktestResult<N>| r.price_series@);
    let ghost curves = results@.map_values(|r: BacktestResult<N>| r.equity_curve@);
    let mut lists: Lists<N> = Lists {
        trade_returns: Vec::new(),
        trade_pct_returns: Vec::new(),
        trade_maes: Vec::new(),
        trade_log: Vec::new(),
        price_series: Vec::new(),
        equity: Vec::new(),
    };
    let mut i: usize = 0;
    proof {
        assert(dollars.take(0) =~= Seq::empty());
        assert(shares.take(0) =~= Seq::empty());
        assert(maes.take(0) =~= Seq::empty());
        assert(logs.take(0) =~= Seq::empty());
        assert(prices.take(0) =~= Seq::empty());
        assert(curves.take(0) =~= Seq::empty());
        assert(round_trips(lists.trade_log@) =~= Seq::empty());
    }
    while i < results.len()
        invariant
            i <= results@.len(),
            dollars == results@.map_values(|r: BacktestResult<N>| r.trade_returns@),
            shares == results@.map_values(|r: BacktestResult<N>| r.trade_pct_returns@),
            maes == results@.map_values(|r: BacktestResult<N>| r.trade_maes@),
            logs == results@.map_values(|r: BacktestResult<N>| round_trips(r.trade_log@)),
            prices == results@.map_values(|r: BacktestResult<N>| r.price_series@),
            curves == results@.map_values(|r: BacktestResult<N>| r.equity_curve@),
            lists.trade_returns@ == appended(dollars.take(i as int)),
            lists.trade_pct_returns@ == appended(shares.take(i as int)),
            lists.trade_maes@ == appended(maes.take(i as int)),
            round_trips(lists.trade_log@) == appended(logs.take(i as int)),
            lists.price_series@ == appended(prices.take(i as int)),
            lists.equity@ == chained(curves.take(i as int), initial_capital),
        decreases results@.len() - i,
    {
        proof {
            let next = i as int + 1;
            assert(dollars.take(next).drop_last() =~= dollars.take(i as int));
            assert(shares.take(next).drop_last() =~= shares.take(i as int));
            assert(maes.take(next).drop_last() =~= maes.take(i as int));
            assert(logs.take(next).drop_last() =~= logs.take(i as int));
            assert(prices.take(next).drop_last() =~= prices.take(i as int));
            assert(curves.take(next).drop_last() =~= curves.take(i as int));
        }
        let r: &BacktestResult<N> = &results[i];
        append_values(&mut lists.trade_returns, &r.trade_returns);
        append_values(&mut lists.trade_pct_returns, &r.trade_pct_returns);
        append_values(&mut lists.trade_maes, &r.trade_maes);
        append_records(&mut lists.trade_log, &r.trade_log);
        append_values(&mut lists.price_series, &r.price_series);
        if r.equity_curve.len() > 0 {
            let start: N = if lists.equity.len() > 0 {
                lists.equity[lists.equity.len() - 1]
            } else {
                initial_capital
            };
            let first: N = r.equity_curve[0];
            let scale: N = if ratio::<N>(1, 1_000_000_000_000).lt(first.abs()) {
                start.over(first)
            } else {
                N::of(1)
            };
            append_scaled(&mut lists.equity, &r.equity_curve, scale);
        }
        i = i + 1;
    }
    proof {
        assert(dollars.take(i as int) =~= dollars);
        assert(shares.take(i as int) =~= shares);
        assert(maes.take(i as int) =~= maes);
        assert(logs.take(i as int) =~= logs);
        assert(prices.take(i as int) =~= prices);
        assert(curves.take(i as int) =~= curves);
    }
    lists
}

fn sharpe_ratio<N: Number>(values: &Vec<N>) -> (r: N)
    ensures
        r == sharpe_of(values@),
{
    if values.len() > 1 {
        let centre: N = mean(values.as_slice());
        let spread: N = add_squares(values.as_slice(), centre).over(N::count(values.len() - 1)).sqrt();
        if ratio::<N>(1, 1_000_000_000_000).lt(spread) {
            centre.over(spread).times(N::of(252).sqrt())
        } else {
            N::of(0)
        }
    } else {
        N::of(0)
    }
}

fn sortino_ratio<N: Number>(values: &Vec<N>) -> (r: N)
    ensures
        r == sortino_of(values@),
{
    if values.len() > 1 {
        let spread: N = add_downside(values.as_slice()).over(N::count(values.len())).sqrt();
        if ratio::<N>(1, 1_000_000_000_000).lt(spread) {
            mean(values.as_slice()).over(spread).times(N::of(252).sqrt())
        } else {
            N::of(0)
        }
    } else {
        N::of(0)
    }
}

fn volatility<N: Number>(values: &Vec<N>) -> (r: Option<N>)
    ensures
        r == volatility_of(values@),
{
    if values.len() > 1 {
        let centre: N = mean(values.as_slice());
        let spread: N = add_squares(values.as_slice(), centre).over(N::count(values.len() - 1)).sqrt();
        Some(spread.times(N::of(252).sqrt()))
    } else {
        None
    }
}

fn profit_factor<N: Number>(profit: N, loss: N) -> (r: N)
    ensures
        r == profit_factor_of(profit, loss),
{
    if ratio::<N>(1, 1_000_000_000_000).lt(loss.abs()) {
        profit.over(loss.abs())
    } else if N::of(0).lt(profit) {
        N::infinity()
    } else {
        N::of(0)
    }
}

fn years<N: Number>(first: Option<i64>, last: Option<i64>) -> (r: N)
    ensures
        r == years_between::<N>(first, last),
{
    match (first, last) {
        (Some(a), Some(b)) => N::of(seconds_between(a, b)).over(N::of(31_557_600)).max(ratio(1, 1_000_000)),
        _ => N::of(1),
    }
}

/// Combines the out-of-sample results of all windows.
///
/// Trade lists are put one after another and figures added up. The equity
/// curves are chained, each starting where the one before it ended, and the
/// profit is that of the chained curve, so that profit, drawdown and curve
/// agree; without any curve it is the sum of the windows' profits. `power`
/// raises a number to a power; the Calmar ratio annualizes with it.
pub fn combine_oos_results<N: Number, F: Fn(N, N) -> N>(
    results: &[BacktestResult<N>],
    initial_capital: N,
    power: F,
) -> (out: BacktestResult<N>)
    requires
        counts_fit(results@),
        forall|base: N, exponent: N| call_requires(power, (base, exponent)),
    ensures
        results@.len() == 0 ==> out.is_blank() && out.initial_capital == initial_capital,
        results@.len() > 0 ==> is_combined(results@, initial_capital, out),
        results@.len() > 0 ==> ({
            let equity = parts_of(results@, initial_capital).equity;
            let drawdown = largest_fall(equity);
            let gain = equity.last().quotient(initial_capital).difference(N::whole(1));
            let span = years_between::<N>(results@[0].first_trade_timestamp, results@.last().last_trade_timestamp);
            if !calmar_applies(equity, drawdown, initial_capital) {
                out.calmar_ratio is None
            } else if N::whole(-1i64).below(gain) {
                exists|grown: N|
                    #[trigger] call_ensures(power, (N::whole(1).sum(gain), N::whole(1).quotient(span)), grown)
                        && out.calmar_ratio == Some(grown.difference(N::whole(1)).quotient(drawdown))
            } else {
                out.calmar_ratio == Some(gain.quotient(span).quotient(drawdown))
            }
        }),
{
    let mut out: BacktestResult<N> = BacktestResult::default();
    out.initial_capital = initial_capital;
    if results.len() == 0 {
        return out;
    }
    let sums = sum_windows(results, initial_capital);
    let lists = join_windows(results, initial_capital);
    let ghost parts = parts_of(results@, initial_capital);
    let total_pnl: N = if lists.equity.len() > 0 {
        lists.equity[lists.equity.len() - 1].minus(initial_capital)
    } else {
        sums.pnl
    };
    let values: &Vec<N> = if lists.trade_pct_returns.len() > 0 {
        &lists.trade_pct_returns
    } else {
        &lists.trade_returns
    };
    let max_drawdown: N = fall_from_peak(&lists.equity);
    let first_ts: Option<i64> = results[0].first_trade_timestamp;
    let last_ts: Option<i64> = results[results.len() - 1].last_trade_timestamp;
    out.calmar_ratio = if ratio::<N>(1, 1_000_000_000_000).lt(max_drawdown) && lists.equity.len() > 0 && N::of(0).lt(
        initial_capital,
    ) {
        let gain: N = lists.equity[lists.equity.len() - 1].over(initial_capital).minus(N::of(1));
        let span: N = years(first_ts, last_ts);
        let annualized: N = if N::of(-1).lt(gain) {
            power(N::of(1).plus(gain), N::of(1).over(span)).minus(N::of(1))
        } else {
            gain.over(span)
        };
        Some(annualized.over(max_drawdown))
    } else {
        None
    };
    out.total_pnl = total_pnl;
    out.num_trades = sums.num_trades;
    out.closed_trades = sums.closed_trades;
    out.open_positions = sums.open_positions;
    out.first_trade_timestamp = first_ts;
    out.last_trade_timestamp = last_ts;
    out.first_trade_price = results[0].first_trade_price;
    out.last_trade_price = results[results.len() - 1].last_trade_price;
    out.realized_pnl = Some(total_pnl);
    out.unrealized_pnl = Some(N::of(0));
    out.max_drawdown = max_drawdown;
    out.sharpe_ratio = Some(sharpe_ratio(values));
    out.sortino_ratio = Some(sortino_ratio(values));
    out.profit_factor = Some(profit_factor(sums.gross_profit, sums.gross_loss));
    out.volatility = volatility(values);
    if values.len() > 0 {
        out.win_rate = Some(N::count(count_positive(values.as_slice())).over(N::count(values.len())));
        out.avg_trade_return = Some(mean(values.as_slice()));
        let sorted = sort_values(values.as_slice());
        out.median_trade_return = Some(sorted[values.len() / 2]);
    } else {
        out.win_rate = Some(N::of(0));
        out.avg_trade_return = Some(N::of(0));
    }
    out.avg_trade_duration = if sums.durations.len() > 0 { Some(mean(sums.durations.as_slice())) } else { None };
    out.gross_profit = Some(sums.gross_profit);
    out.gross_loss = Some(sums.gross_loss);
    out.net_profit = if N::of(0).lt(initial_capital) {
        Some(total_pnl.over(initial_capital).times(N::of(100)))
    } else {
        None
    };
    out.transaction_costs = Some(
        TransactionCostAnalysis {
            total_commission: sums.commission,
            total_slippage: N::of(0),
            total_market_impact: N::of(0),
            total_transaction_costs: sums.commission,
            costs_as_percentage_of_pnl: if ratio::<N>(1, 1_000_000_000_000).lt(total_pnl.abs()) {
                sums.commission.over(total_pnl.abs()).times(N::of(100))
            } else {
                N::of(0)
            },
            avg_cost_per_trade: if sums.num_trades > 0 {
                sums.commission.over(N::count(sums.num_trades))
            } else {
                N::of(0)
            },
            commission_by_exchange: Vec::new(),
            total_gas_costs_usd: N::of(0),
            avg_dex_slippage_bps: N::of(0),
        },
    );
    out.equity_curve = lists.equity;
    out.price_series = lists.price_series;
    out.trade_returns = lists.trade_returns;
    out.trade_pct_returns = lists.trade_pct_returns;
    out.trade_maes = lists.trade_maes;
    out.trade_log = lists.trade_log;
    out
}

/// The headline profit of a combined result agrees with the end of its equity
/// curve wherever it has one, and so do realized and net profit.
pub proof fn law_combined_profit_matches_the_chained_curve<N: Number>(
    results: Seq<BacktestResult<N>>,
    initial_capital: N,
    out: BacktestResult<N>,
)
    requires
        is_combined(results, initial_capital, out),
        out.equity_curve@.len() > 0,
    ensures
        out.total_pnl == out.equity_curve@.last().difference(initial_capital),
        out.realized_pnl == Some(out.total_pnl),
        N::whole(0).below(initial_capital) ==> out.net_profit == Some(
            out.total_pnl.quotient(initial_capital).product(N::whole(100)),
        ),
{
}

proof fn lemma_chained_len<N: Number>(curves: Seq<Seq<N>>, initial_capital: N)
    ensures
        chained(curves, initial_capital).len() == appended(curves).len(),
    decreases curves.len(),
{
    if curves.len() > 0 {
        lemma_chained_len(curves.drop_last(), initial_capital);
    }
}

/// Chaining keeps every sample of every window, and a curve is missing only
/// where no window has one.
pub proof fn law_chaining_keeps_every_sample<N: Number>(curves: Seq<Seq<N>>, initial_capital: N)
    ensures
        chained(curves, initial_capital).len() == appended(curves).len(),
        chained(curves, initial_capital).len() == 0 <==> forall|i: int|
            0 <= i < curves.len() ==> (#[trigger] curves[i]).len() == 0,
    decreases curves.len(),
{
    lemma_chained_len(curves, initial_capital);
    if curves.len() > 0 {
        law_chaining_keeps_every_sample(curves.drop_last(), initial_capital);
        if forall|i: int| 0 <= i < curves.len() ==> (#[trigger] curves[i]).len() == 0 {
            assert forall|i: int| 0 <= i < curves.drop_last().len() implies (
            #[trigger] curves.drop_last()[i]).len() == 0 by {
                assert(curves[i].len() == 0);
            }
            assert(curves[curves.len() - 1].len() == 0);
        }
        if chained(curves, initial_capital).len() == 0 {
            assert forall|i: int| 0 <= i < curves.len() implies (#[trigger] curves[i]).len() == 0 by {
                if i < curves.len() - 1 {
                    assert(curves.drop_last()[i].len() == 0);
                }
            }
        }
    }
}

} // verus!
