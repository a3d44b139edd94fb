//! Rebalancing of a portfolio of equity curves towards target weights.

use vstd::prelude::*;

use crate::number::{add_up, ratio, ratio_of, total, Number};
use crate::text::{append_text, decimal, decimal_digits};

verus! {

/// When to rebalance.
#[derive(Debug, Clone, Copy)]
pub enum RebalanceStrategy<N> {
    /// The weights are left to drift.
    Never,
    Threshold { drift_pct: N },
    Calendar { frequency: RebalanceFreq },
    ThresholdOrCalendar { drift_pct: N, frequency: RebalanceFreq },
}

/// How often a calendar rebalance is due.
#[derive(Debug, Clone, Copy, PartialEq, Eq, Structural)]
pub enum RebalanceFreq {
    Daily,
    Weekly,
    Monthly,
    Quarterly,
}

/// What set off a rebalance.
#[derive(Debug, Clone, Copy, PartialEq, Eq, Structural)]
pub enum RebalanceTrigger {
    Drift,
    Calendar,
}

/// Direction of a rebalancing trade.
#[derive(Debug, Clone, Copy, PartialEq, Eq, Structural)]
pub enum RebalanceSide {
    Buy,
    Sell,
}

/// One trade of a rebalance.
#[derive(Debug, Clone)]
pub struct RebalanceTrade<N> {
    pub symbol: String,
    pub side: RebalanceSide,
    pub notional: N,
    pub price: N,
    pub commission: N,
    pub slippage: N,
}

/// One rebalance.
#[derive(Debug, Clone)]
pub struct RebalanceEvent<N> {
    pub timestamp_idx: usize,
    pub trigger: RebalanceTrigger,
    pub trades: Vec<RebalanceTrade<N>>,
    pub total_cost: N,
}

/// Outcome of a rebalancing simulation.
#[derive(Debug, Clone)]
pub struct RebalanceSimResult<N> {
    pub adjusted_equity_curve: Vec<N>,
    pub events: Vec<RebalanceEvent<N>>,
    pub total_rebalance_cost: N,
    pub num_rebalances: usize,
    pub weight_drift_series: Vec<Vec<N>>,
}

/// Model of a [`RebalanceTrade`].
pub struct TradeRow<N> {
    pub symbol: Seq<char>,
    pub side: RebalanceSide,
    pub notional: N,
    pub price: N,
    pub commission: N,
    pub slippage: N,
}

/// Model of a [`RebalanceEvent`].
pub struct EventRow<N> {
    pub timestamp_idx: nat,
    pub trigger: RebalanceTrigger,
    pub trades: Seq<TradeRow<N>>,
    pub total_cost: N,
}

impl<N> View for RebalanceTrade<N> {
    type V = TradeRow<N>;

    open spec fn view(&self) -> TradeRow<N> {
        TradeRow {
            symbol: self.symbol@,
            side: self.side,
            notional: self.notional,
            price: self.price,
            commission: self.commission,
            slippage: self.slippage,
        }
    }
}

/// Models of a list of trades.
pub open spec fn trade_rows<N>(trades: Seq<RebalanceTrade<N>>) -> Seq<TradeRow<N>> {
    trades.map_values(|t: RebalanceTrade<N>| t@)
}

impl<N> View for RebalanceEvent<N> {
    type V = EventRow<N>;

    open spec fn view(&self) -> EventRow<N> {
        EventRow {
            timestamp_idx: self.timestamp_idx as nat,
            trigger: self.trigger,
            trades: trade_rows(self.trades@),
            total_cost: self.total_cost,
        }
    }
}

/// Models of a list of events.
pub open spec fn event_rows<N>(events: Seq<RebalanceEvent<N>>) -> Seq<EventRow<N>> {
    events.map_values(|e: RebalanceEvent<N>| e@)
}

/// Contents of a list of curves.
pub open spec fn rows<N>(curves: Seq<Vec<N>>) -> Seq<Seq<N>> {
    curves.map_values(|c: Vec<N>| c@)
}

impl RebalanceFreq {
    /// Length of the interval in seconds.
    pub open spec fn seconds(self) -> int {
        match self {
            RebalanceFreq::Daily => 86_400,
            RebalanceFreq::Weekly => 604_800,
            RebalanceFreq::Monthly => 2_592_000,
            RebalanceFreq::Quarterly => 7_776_000,
        }
    }

    /// Seconds between two calendar rebalances.
    pub fn interval_seconds(&self) -> (seconds: i64)
        ensures
            seconds == self.seconds(),
    {
        match self {
            RebalanceFreq::Daily => 86_400,
            RebalanceFreq::Weekly => 604_800,
            RebalanceFreq::Monthly => 2_592_000,
            RebalanceFreq::Quarterly => 7_776_000,
        }
    }
}

impl<N> Default for RebalanceStrategy<N> {
    fn default() -> (strategy: Self)
        ensures
            strategy is Never,
    {
        RebalanceStrategy::Never
    }
}

impl<N: Number> RebalanceStrategy<N> {
    /// The calendar part of the strategy, if it has one.
    pub open spec fn calendar(self) -> Option<RebalanceFreq> {
        match self {
            RebalanceStrategy::Calendar { frequency } => Some(frequency),
            RebalanceStrategy::ThresholdOrCalendar { frequency, .. } => Some(frequency),
            _ => None,
        }
    }

    /// Samples between two calendar rebalances.
    pub open spec fn interval(self, timestamps_per_day: int) -> int {
        match self.calendar() {
            Some(frequency) => frequency.seconds() / (86_400int / if timestamps_per_day < 1 {
                1
            } else {
                timestamps_per_day
            }),
            None => usize::MAX as int,
        }
    }

    /// Drift at which a rebalance is due.
    pub open spec fn threshold(self) -> N {
        match self {
            RebalanceStrategy::Threshold { drift_pct } => drift_pct,
            RebalanceStrategy::ThresholdOrCalendar { drift_pct, .. } => drift_pct,
            _ => N::limit(),
        }
    }

    /// Whether a rebalance is due, given what has happened.
    pub open spec fn is_due(self, drifted: bool, elapsed: bool) -> bool {
        match self {
            RebalanceStrategy::Never => false,
            RebalanceStrategy::Threshold { .. } => drifted,
            RebalanceStrategy::Calendar { .. } => elapsed,
            RebalanceStrategy::ThresholdOrCalendar { .. } => drifted || elapsed,
        }
    }

    fn calendar_interval(&self, timestamps_per_day: usize) -> (interval: usize)
        requires
            self.calendar() is Some ==> timestamps_per_day <= 86_400,
        ensures
            interval == self.interval(timestamps_per_day as int),
    {
        let per_day: usize = if timestamps_per_day < 1 { 1 } else { timestamps_per_day };
        match self {
            RebalanceStrategy::Calendar { frequency } => samples_in(*frequency, per_day),
            RebalanceStrategy::ThresholdOrCalendar { frequency, .. } => samples_in(*frequency, per_day),
            _ => usize::MAX,
        }
    }

    fn drift_threshold(&self) -> (threshold: N)
        ensures
            threshold == self.threshold(),
    {
        match self {
            RebalanceStrategy::Threshold { drift_pct } => *drift_pct,
            RebalanceStrategy::ThresholdOrCalendar { drift_pct, .. } => *drift_pct,
            _ => N::largest(),
        }
    }

    fn due(&self, drifted: bool, elapsed: bool) -> (due: bool)
        ensures
            due == self.is_due(drifted, elapsed),
    {
        match self {
            RebalanceStrategy::Never => false,
            RebalanceStrategy::Threshold { .. } => drifted,
            RebalanceStrategy::Calendar { .. } => elapsed,
            RebalanceStrategy::ThresholdOrCalendar { .. } => drifted || elapsed,
        }
    }
}

fn samples_in(frequency: RebalanceFreq, per_day: usize) -> (samples: usize)
    requires
        1 <= per_day <= 86_400,
    ensures
        samples == frequency.seconds() / (86_400int / per_day as int),
{
    let spacing: usize = 86_400 / per_day;
    assert(spacing >= 1) by (nonlinear_arith)
        requires
            spacing == 86_400int / per_day as int,
            1 <= per_day <= 86_400,
    ;
    frequency.interval_seconds() as usize / spacing
}

/// Length of the longest curve.
pub open spec fn longest<N>(curves: Seq<Seq<N>>) -> nat
    decreases curves.len(),
{
    if curves.len() == 0 {
        0
    } else {
        let before = longest(curves.drop_last());
        if curves.last().len() > before {
            curves.last().len()
        } else {
            before
        }
    }
}

fn longest_len<N>(curves: &[Vec<N>]) -> (len: usize)
    ensures
        len == longest(rows(curves@)),
{
    let mut len: usize = 0;
    let mut i: usize = 0;
    assert(rows(curves@).take(0) =~= Seq::empty());
    while i < curves.len()
        invariant
            i <= curves@.len(),
            len == longest(rows(curves@).take(i as int)),
        decreases curves@.len() - i,
    {
        assert(rows(curves@).take(i as int + 1).drop_last() =~= rows(curves@).take(i as int));
        if curves[i].len() > len {
            len = curves[i].len();
        }
        i = i + 1;
    }
    assert(rows(curves@).take(i as int) =~= rows(curves@));
    len
}

/// Value of a curve at a sample; past its end, its last value. A curve
/// without samples adds nothing.
pub open spec fn held_value<N: Number>(curve: Seq<N>, at: int) -> Option<N> {
    if at < curve.len() {
        Some(curve[at])
    } else if curve.len() > 0 {
        Some(curve.last())
    } else {
        None
    }
}

/// The curves' values at a sample added up, each curve holding its last value
/// past its end.
pub open spec fn summed_at<N: Number>(curves: Seq<Seq<N>>, at: int) -> N
    decreases curves.len(),
{
    if curves.len() == 0 {
        N::whole(0)
    } else {
        let before = summed_at(curves.drop_last(), at);
        match held_value(curves.last(), at) {
            Some(value) => before.sum(value),
            None => before,
        }
    }
}

fn sum_at<N: Number>(curves: &[Vec<N>], at: usize) -> (r: N)
    ensures
        r == summed_at(rows(curves@), at as int),
{
    let mut r: N = N::of(0);
    let mut i: usize = 0;
    assert(rows(curves@).take(0) =~= Seq::empty());
    while i < curves.len()
        invariant
            i <= curves@.len(),
            r == summed_at(rows(curves@).take(i as int), at as int),
        decreases curves@.len() - i,
    {
        assert(rows(curves@).take(i as int + 1).drop_last() =~= rows(curves@).take(i as int));
        assert(rows(curves@).take(i as int + 1).last() == curves@[i as int]@);
        let len: usize = curves[i].len();
        if at < len {
            r = r.plus(curves[i][at]);
        } else if len > 0 {
            r = r.plus(curves[i][len - 1]);
        }
        i = i + 1;
    }
    assert(rows(curves@).take(i as int) =~= rows(curves@));
    r
}

/// Asset values before the first sample.
pub open spec fn first_values<N: Number>(curves: Seq<Seq<N>>) -> Seq<N> {
    Seq::new(curves.len(), |i: int| if curves[i].len() > 0 { curves[i][0] } else { N::whole(0) })
}

/// Asset values at a sample: those of the curves that reach it, else kept.
pub open spec fn refreshed<N>(curves: Seq<Seq<N>>, values: Seq<N>, at: int) -> Seq<N> {
    Seq::new(values.len(), |i: int| if at < curves[i].len() { curves[i][at] } else { values[i] })
}

/// Distance of each actual weight from its target.
pub open spec fn drifts_of<N: Number>(values: Seq<N>, whole: N, targets: Seq<N>) -> Seq<N> {
    Seq::new(
        (if values.len() <= targets.len() { values.len() } else { targets.len() }) as nat,
        |i: int| values[i].quotient(whole).difference(targets[i]).magnitude(),
    )
}

/// The largest of the numbers and zero.
pub open spec fn peak<N: Number>(values: Seq<N>) -> N
    decreases values.len(),
{
    if values.len() == 0 {
        N::whole(0)
    } else {
        peak(values.drop_last()).larger(values.last())
    }
}

/// The fees that trades pay.
#[derive(Debug, Clone, Copy)]
pub struct TradeCosts<N> {
    pub maker_fee: N,
    pub slippage_bps: N,
}

/// How far an asset is below its target value.
pub open spec fn shortfall<N: Number>(whole: N, target: N, value: N) -> N {
    whole.product(target).difference(value)
}

/// Differences under one currency unit are not traded.
pub open spec fn is_traded<N: Number>(whole: N, target: N, value: N) -> bool {
    !shortfall(whole, target, value).magnitude().below(N::whole(1))
}

/// The trade that brings one asset back to its target.
pub open spec fn trade_for<N: Number>(
    i: int,
    curve: Seq<N>,
    at: int,
    whole: N,
    target: N,
    value: N,
    costs: TradeCosts<N>,
) -> TradeRow<N> {
    let missing = shortfall(whole, target, value);
    let notional = missing.magnitude();
    TradeRow {
        symbol: "asset_"@ + decimal_digits(i as nat),
        side: if N::whole(0).below(missing) { RebalanceSide::Buy } else { RebalanceSide::Sell },
        notional,
        price: if at < curve.len() {
            curve[at].quotient(target.larger(ratio_of::<N>(1, 1000)))
        } else {
            N::whole(1)
        },
        commission: notional.product(costs.maker_fee),
        slippage: notional.product(costs.slippage_bps).quotient(N::whole(10_000)),
    }
}

/// Value of an asset after its trade: its target, less half the cost of a
/// purchase or plus half the cost of a sale.
pub open spec fn value_after<N: Number>(whole: N, target: N, trade: TradeRow<N>) -> N {
    let cost = trade.commission.sum(trade.slippage);
    let adjustment = if trade.side == RebalanceSide::Buy {
        cost.quotient(N::whole(2))
    } else {
        N::whole(0).difference(cost).quotient(N::whole(2))
    };
    whole.product(target).difference(adjustment)
}

/// Effect of one rebalance on the assets up to a given one.
pub struct Rebalanced<N> {
    pub trades: Seq<TradeRow<N>>,
    pub cost: N,
    pub values: Seq<N>,
}

/// The first `count` assets brought back to their targets.
pub open spec fn rebalanced<N: Number>(
    curves: Seq<Seq<N>>,
    targets: Seq<N>,
    values: Seq<N>,
    whole: N,
    at: int,
    costs: TradeCosts<N>,
    count: nat,
) -> Rebalanced<N>
    decreases count,
{
    if count == 0 {
        Rebalanced { trades: Seq::empty(), cost: N::whole(0), values }
    } else {
        let before = rebalanced(curves, targets, values, whole, at, costs, (count - 1) as nat);
        let i = count - 1;
        if is_traded(whole, targets[i], values[i]) {
            let trade = trade_for(i, curves[i], at, whole, targets[i], values[i], costs);
            Rebalanced {
                trades: before.trades.push(trade),
                cost: before.cost.sum(trade.commission.sum(trade.slippage)),
                values: before.values.update(i, value_after(whole, targets[i], trade)),
            }
        } else {
            before
        }
    }
}

/// State of the simulation between two samples.
pub struct RebalanceState<N> {
    pub values: Seq<N>,
    pub equity: Seq<N>,
    pub events: Seq<EventRow<N>>,
    pub cost: N,
    pub drifts: Seq<Seq<N>>,
    pub last_rebalance: nat,
}

/// The fixed inputs of a simulation.
pub struct RebalanceSetup<N> {
    pub curves: Seq<Seq<N>>,
    pub targets: Seq<N>,
    pub strategy: RebalanceStrategy<N>,
    pub costs: TradeCosts<N>,
    pub interval: int,
}

/// State after one more sample.
pub open spec fn advanced<N: Number>(setup: RebalanceSetup<N>, s: RebalanceState<N>, at: nat) -> RebalanceState<N> {
    let values = refreshed(setup.curves, s.values, at as int);
    let whole = total(values);
    if whole.at_most(N::whole(0)) {
        RebalanceState {
            values,
            equity: s.equity.push(whole),
            drifts: s.drifts.push(Seq::new(values.len(), |i: int| N::whole(0))),
            ..s
        }
    } else {
        let drifts = drifts_of(values, whole, setup.targets);
        let drifted = setup.strategy.threshold().at_most(peak(drifts));
        let elapsed = at - s.last_rebalance >= setup.interval;
        if at > 0 && setup.strategy.is_due(drifted, elapsed) {
            let done = rebalanced(
                setup.curves,
                setup.targets,
                values,
                whole,
                at as int,
                setup.costs,
                values.len(),
            );
            RebalanceState {
                values: done.values,
                equity: s.equity.push(total(done.values)),
                events: s.events.push(
                    EventRow {
                        timestamp_idx: at,
                        trigger: if drifted { RebalanceTrigger::Drift } else { RebalanceTrigger::Calendar },
                        trades: done.trades,
                        total_cost: done.cost,
                    },
                ),
                cost: s.cost.sum(done.cost),
                drifts: s.drifts.push(drifts),
                last_rebalance: at,
            }
        } else {
            RebalanceState { values, equity: s.equity.push(whole), drifts: s.drifts.push(drifts), ..s }
        }
    }
}

/// State after the first `samples` samples.
pub open spec fn state_after<N: Number>(setup: RebalanceSetup<N>, samples: nat) -> RebalanceState<N>
    decreases samples,
{
    if samples == 0 {
        RebalanceState {
            values: first_values(setup.curves),
            equity: Seq::empty(),
            events: Seq::empty(),
            cost: N::whole(0),
            drifts: Seq::empty(),
            last_rebalance: 0,
        }
    } else {
        let at = (samples - 1) as nat;
        advanced(setup, state_after(setup, at), at)
    }
}

/// Some sample is rebalanced, which takes a target weight for each curve.
pub open spec fn is_ever_rebalanced<N: Number>(setup: RebalanceSetup<N>) -> bool {
    state_after(setup, longest(setup.curves)).events.len() > 0
}

proof fn lemma_events_grow<N: Number>(setup: RebalanceSetup<N>, samples: nat, more: nat)
    requires
        samples <= more,
    ensures
        state_after(setup, samples).events.len() <= state_after(setup, more).events.len(),
    decreases more,
{
    if samples < more {
        lemma_events_grow(setup, samples, (more - 1) as nat);
    }
}

/// Inputs of a simulation as the models speak of them.
pub open spec fn setup_of<N: Number>(
    curves: Seq<Vec<N>>,
    targets: Seq<N>,
    strategy: RebalanceStrategy<N>,
    maker_fee: N,
    slippage_bps: N,
    timestamps_per_day: int,
) -> RebalanceSetup<N> {
    RebalanceSetup {
        curves: rows(curves),
        targets,
        strategy,
        costs: TradeCosts { maker_fee, slippage_bps },
        interval: strategy.interval(timestamps_per_day),
    }
}

/// Copies a curve's value into each asset that the curve still reaches.
fn refresh<N: Number>(curves: &[Vec<N>], values: &mut Vec<N>, at: usize)
    requires
        old(values)@.len() == curves@.len(),
    ensures
        final(values)@ == refreshed(rows(curves@), old(values)@, at as int),
{
    let ghost before = values@;
    let mut i: usize = 0;
    while i < curves.len()
        invariant
            i <= curves@.len(),
            values@.len() == before.len(),
            before.len() == curves@.len(),
            forall|k: int| 0 <= k < i ==> #[trigger] values@[k] == refreshed(rows(curves@), before, at as int)[k],
            forall|k: int| i <= k < before.len() ==> #[trigger] values@[k] == before[k],
        decreases curves@.len() - i,
    {
        if at < curves[i].len() {
            values.set(i, curves[i][at]);
        }
        i = i + 1;
    }
    assert(values@ =~= refreshed(rows(curves@), before, at as int));
}

fn weight_drifts<N: Number>(values: &Vec<N>, whole: N, targets: &[N]) -> (drifts: Vec<N>)
    ensures
        drifts@ == drifts_of(values@, whole, targets@),
{
    let mut drifts: Vec<N> = Vec::new();
    let mut i: usize = 0;
    while i < values.len() && i < targets.len()
        invariant
            i <= values@.len(),
            i <= targets@.len(),
            drifts@ =~= drifts_of(values@, whole, targets@).take(i as int),
        decreases values@.len() - i,
    {
        drifts.push(values[i].over(whole).minus(targets[i]).abs());
        i = i + 1;
    }
    assert(drifts@ =~= drifts_of(values@, whole, targets@));
    drifts
}

fn largest_of<N: Number>(values: &Vec<N>) -> (r: N)
    ensures
        r == peak(values@),
{
    let mut r: N = N::of(0);
    let mut i: usize = 0;
    assert(values@.take(0) =~= Seq::empty());
    while i < values.len()
        invariant
            i <= values@.len(),
            r == peak(values@.take(i as int)),
        decreases values@.len() - i,
    {
        assert(values@.take(i as int + 1).drop_last() =~= values@.take(i as int));
        r = r.max(values[i]);
        i = i + 1;
    }
    assert(values@.take(i as int) =~= values@);
    r
}

/// Trades every asset back to its target and returns the trades with their
/// total cost.
fn trade_to_targets<N: Number>(
    curves: &[Vec<N>],
    targets: &[N],
    values: &mut Vec<N>,
    whole: N,
    at: usize,
    costs: TradeCosts<N>,
) -> (done: (Vec<RebalanceTrade<N>>, N))
    requires
        old(values)@.len() == curves@.len(),
        targets@.len() >= curves@.len(),
    ensures
        ({
            let expected = rebalanced(
                rows(curves@),
                targets@,
                old(values)@,
                whole,
                at as int,
                costs,
                curves@.len(),
            );
            &&& trade_rows(done.0@) == expected.trades
            &&& done.1 == expected.cost
            &&& final(values)@ == expected.values
        }),
        final(values)@.len() == old(values)@.len(),
{
    let ghost start = values@;
    let mut trades: Vec<RebalanceTrade<N>> = Vec::new();
    let mut event_cost: N = N::of(0);
    let mut i: usize = 0;
    assert(trade_rows(trades@) =~= Seq::empty());
    while i < curves.len()
        invariant
            i <= curves@.len(),
            start.len() == curves@.len(),
            values@.len() == curves@.len(),
            targets@.len() >= curves@.len(),
            ({
                let expected = rebalanced(rows(curves@), targets@, start, whole, at as int, costs, i as nat);
                &&& trade_rows(trades@) == expected.trades
                &&& event_cost == expected.cost
                &&& values@ == expected.values
            }),
            forall|k: int| i <= k < start.len() ==> #[trigger] values@[k] == start[k],
        decreases curves@.len() - i,
    {
        let target: N = targets[i];
        let target_value: N = whole.times(target);
        let missing: N = target_value.minus(values[i]);
        if !missing.abs().lt(N::of(1)) {
            let is_buy = N::of(0).lt(missing);
            let notional: N = missing.abs();
            let price: N = if at < curves[i].len() {
                curves[i][at].over(target.max(ratio(1, 1000)))
            } else {
                N::of(1)
            };
            let commission: N = notional.times(costs.maker_fee);
            let slippage: N = notional.times(costs.slippage_bps).over(N::of(10_000));
            let cost: N = commission.plus(slippage);
            event_cost = event_cost.plus(cost);
            let mut symbol = "asset_".to_owned();
            append_text(&mut symbol, decimal(i).as_str());
            let ghost earlier = trade_rows(trades@);
            trades.push(
                RebalanceTrade {
                    symbol,
                    side: if is_buy {
                        RebalanceSide::Buy
                    } else {
                        RebalanceSide::Sell
                    },
                    notional,
                    price,
                    commission,
                    slippage,
                },
            );
            let adjustment: N = if is_buy { cost.over(N::of(2)) } else { N::of(0).minus(cost).over(N::of(2)) };
            values.set(i, target_value.minus(adjustment));
            assert(trade_rows(trades@) =~= earlier.push(
                trade_for(
                    i as int,
                    rows(curves@)[i as int],
                    at as int,
                    whole,
                    targets@[i as int],
                    start[i as int],
                    costs,
                ),
            ));
        }
        i = i + 1;
    }
    (trades, event_cost)
}

fn zeros<N: Number>(count: usize) -> (values: Vec<N>)
    ensures
        values@ == Seq::new(count as nat, |i: int| N::whole(0)),
{
    let mut values: Vec<N> = Vec::new();
    let mut i: usize = 0;
    while i < count
        invariant
            i <= count,
            values@ =~= Seq::new(i as nat, |k: int| N::whole(0)),
        decreases count - i,
    {
        values.push(N::of(0));
        i = i + 1;
    }
    values
}

/// Simulates rebalancing the curves' assets towards their target weights.
///
/// Without a strategy the curves are added up, each holding its last value
/// past its end. There is a target weight for each curve wherever a rebalance
/// comes due, and a calendar strategy has at most one sample per second.
pub fn simulate_rebalancing<N: Number>(
    equity_curves: &[Vec<N>],
    target_weights: &[N],
    strategy: &RebalanceStrategy<N>,
    maker_fee: N,
    slippage_bps: N,
    timestamps_per_day: usize,
) -> (result: RebalanceSimResult<N>)
    requires
        strategy is Never || target_weights@.len() >= equity_curves@.len() || !is_ever_rebalanced(
            setup_of(
                equity_curves@,
                target_weights@,
                *strategy,
                maker_fee,
                slippage_bps,
                timestamps_per_day as int,
            ),
        ),
        strategy.calendar() is Some && equity_curves@.len() > 0 ==> timestamps_per_day <= 86_400,
    ensures
        strategy is Never || equity_curves@.len() == 0 ==> {
            &&& result.adjusted_equity_curve@ == Seq::new(
                longest(rows(equity_curves@)),
                |at: int| summed_at(rows(equity_curves@), at),
            )
            &&& result.events@.len() == 0
            &&& result.total_rebalance_cost == N::whole(0)
            &&& result.num_rebalances == 0
            &&& result.weight_drift_series@.len() == 0
        },
        !(strategy is Never || equity_curves@.len() == 0) ==> {
            let setup = setup_of(
                equity_curves@,
                target_weights@,
                *strategy,
                maker_fee,
                slippage_bps,
                timestamps_per_day as int,
            );
            let end = state_after(setup, longest(setup.curves));
            &&& result.adjusted_equity_curve@ == end.equity
            &&& event_rows(result.events@) == end.events
            &&& result.total_rebalance_cost == end.cost
            &&& result.num_rebalances == end.events.len()
            &&& rows(result.weight_drift_series@) == end.drifts
        },
{
    let max_len: usize = longest_len(equity_curves);
    let unchanged = match strategy {
        RebalanceStrategy::Never => true,
        _ => equity_curves.len() == 0,
    };
    if unchanged {
        let mut combined: Vec<N> = Vec::new();
        let mut at: usize = 0;
        while at < max_len
            invariant
                at <= max_len,
                combined@ =~= Seq::new(at as nat, |k: int| summed_at(rows(equity_curves@), k)),
            decreases max_len - at,
        {
            combined.push(sum_at(equity_curves, at));
            at = at + 1;
        }
        return RebalanceSimResult {
            adjusted_equity_curve: combined,
            events: Vec::new(),
            total_rebalance_cost: N::of(0),
            num_rebalances: 0,
            weight_drift_series: Vec::new(),
        };
    }
    let ghost setup = setup_of(
        equity_curves@,
        target_weights@,
        *strategy,
        maker_fee,
        slippage_bps,
        timestamps_per_day as int,
    );
    let costs: TradeCosts<N> = TradeCosts { maker_fee, slippage_bps };
    let interval: usize = strategy.calendar_interval(timestamps_per_day);
    let threshold: N = strategy.drift_threshold();
    let mut values: Vec<N> = zeros(equity_curves.len());
    refresh(equity_curves, &mut values, 0);
    assert(values@ =~= first_values(setup.curves));
    let mut combined: Vec<N> = Vec::new();
    let mut events: Vec<RebalanceEvent<N>> = Vec::new();
    let mut drift_series: Vec<Vec<N>> = Vec::new();
    let mut total_cost: N = N::of(0);
    let mut last_rebalance: usize = 0;
    assert(event_rows(events@) =~= Seq::empty());
    assert(rows(drift_series@) =~= Seq::empty());
    let mut at: usize = 0;
    while at < max_len
        invariant
            at <= max_len,
            setup == setup_of(
                equity_curves@,
                target_weights@,
                *strategy,
                maker_fee,
                slippage_bps,
                timestamps_per_day as int,
            ),
            costs == setup.costs,
            interval == setup.interval,
            threshold == setup.strategy.threshold(),
            max_len == longest(setup.curves),
            target_weights@.len() >= equity_curves@.len() || !is_ever_rebalanced(setup),
            values@.len() == equity_curves@.len(),
            last_rebalance <= at,
            ({
                let s = state_after(setup, at as nat);
                &&& values@ == s.values
                &&& combined@ == s.equity
                &&& event_rows(events@) == s.events
                &&& total_cost == s.cost
                &&& rows(drift_series@) == s.drifts
                &&& last_rebalance == s.last_rebalance
            }),
        decreases max_len - at,
    {
        let ghost s = state_after(setup, at as nat);
        refresh(equity_curves, &mut values, at);
        let ghost fresh = values@;
        let whole: N = add_up(values.as_slice());
        let ghost earlier_drifts = rows(drift_series@);
        let ghost earlier_events = event_rows(events@);
        if whole.le(N::of(0)) {
            combined.push(whole);
            drift_series.push(zeros(equity_curves.len()));
            assert(rows(drift_series@) =~= earlier_drifts.push(Seq::new(fresh.len(), |i: int| N::whole(0))));
        } else {
            let drifts: Vec<N> = weight_drifts(&values, whole, target_weights);
            let drifted = threshold.le(largest_of(&drifts));
            let elapsed = at - last_rebalance >= interval;
            drift_series.push(drifts);
            assert(rows(drift_series@) =~= earlier_drifts.push(drifts_of(fresh, whole, target_weights@)));
            if at > 0 && strategy.due(drifted, elapsed) {
                let trigger = if drifted {
                    RebalanceTrigger::Drift
                } else {
                    RebalanceTrigger::Calendar
                };
                proof {
                    assert(state_after(setup, (at + 1) as nat) == advanced(setup, s, at as nat));
                    lemma_events_grow(setup, (at + 1) as nat, max_len as nat);
                }
                let (trades, event_cost) = trade_to_targets(
                    equity_curves,
                    target_weights,
                    &mut values,
                    whole,
                    at,
                    costs,
                );
                total_cost = total_cost.plus(event_cost);
                last_rebalance = at;
                events.push(RebalanceEvent { timestamp_idx: at, trigger, trades, total_cost: event_cost });
                combined.push(add_up(values.as_slice()));
                assert(event_rows(events@) =~= earlier_events.push(
                    EventRow {
                        timestamp_idx: at as nat,
                        trigger,
                        trades: trade_rows(trades@),
                        total_cost: event_cost,
                    },
                ));
            } else {
                combined.push(whole);
            }
        }
        at = at + 1;
    }
    let num_rebalances: usize = events.len();
    RebalanceSimResult {
        adjusted_equity_curve: combined,
        events,
        total_rebalance_cost: total_cost,
        num_rebalances,
        weight_drift_series: drift_series,
    }
}

/// Sample of the k-th rebalance; before the first one, the start.
pub open spec fn rebalance_time<N>(events: Seq<EventRow<N>>, k: int) -> int {
    if k < 0 {
        0
    } else {
        events[k].timestamp_idx as int
    }
}

/// Costs of the rebalances, in order.
pub open spec fn event_costs<N>(events: Seq<EventRow<N>>) -> Seq<N> {
    events.map_values(|e: EventRow<N>| e.total_cost)
}

proof fn lemma_state<N: Number>(setup: RebalanceSetup<N>, samples: nat)
    ensures
        ({
            let s = state_after(setup, samples);
            &&& s.equity.len() == samples
            &&& s.drifts.len() == samples
            &&& s.cost == total(event_costs(s.events))
            &&& s.last_rebalance == rebalance_time(s.events, s.events.len() - 1)
            &&& forall|k: int| 0 <= k < s.events.len() ==> (#[trigger] s.events[k]).timestamp_idx < samples
            &&& forall|k: int|
                0 <= k < s.events.len() ==> rebalance_time(s.events, k - 1) < (#[trigger] s.events[k]).timestamp_idx
            &&& setup.strategy is Calendar ==> forall|k: int|
                0 <= k < s.events.len() ==> (#[trigger] s.events[k]).timestamp_idx - rebalance_time(s.events, k - 1)
                    >= setup.interval
            &&& setup.strategy is Threshold ==> forall|k: int|
                0 <= k < s.events.len() ==> (#[trigger] s.events[k]).trigger == RebalanceTrigger::Drift
            &&& setup.strategy is Never ==> s.events.len() == 0
        }),
    decreases samples,
{
    let s = state_after(setup, samples);
    if samples == 0 {
        assert(event_costs(s.events) =~= Seq::empty());
    } else {
        let at = (samples - 1) as nat;
        lemma_state(setup, at);
        let before = state_after(setup, at);
        if s.events.len() > before.events.len() {
            let event = s.events.last();
            assert(s.events == before.events.push(event));
            assert(event_costs(s.events) =~= event_costs(before.events).push(event.total_cost));
            assert(event_costs(s.events).drop_last() =~= event_costs(before.events));
            assert forall|k: int| 0 <= k < s.events.len() implies rebalance_time(s.events, k - 1) < (
            #[trigger] s.events[k]).timestamp_idx && s.events[k].timestamp_idx < samples && (
            setup.strategy is Calendar ==> s.events[k].timestamp_idx - rebalance_time(s.events, k - 1)
                >= setup.interval) && (setup.strategy is Threshold ==> s.events[k].trigger
                == RebalanceTrigger::Drift) by {
                assert(rebalance_time(s.events, k - 1) == rebalance_time(before.events, k - 1));
                if k < before.events.len() {
                    assert(s.events[k] == before.events[k]);
                }
            }
        } else {
            assert(s.events == before.events);
            assert forall|k: int| 0 <= k < s.events.len() implies (#[trigger] s.events[k]).timestamp_idx < samples by {
                assert(before.events[k].timestamp_idx < at);
            }
        }
    }
}

/// What every simulated run keeps: one equity value and one row of drifts per
/// sample; rebalances come one after another, never at the first sample; the
/// total cost is the sum of theirs. Under a pure calendar strategy two
/// rebalances are at least an interval apart, and under a pure threshold
/// strategy every rebalance is set off by drift.
pub proof fn law_rebalances_follow_the_strategy<N: Number>(setup: RebalanceSetup<N>, samples: nat)
    ensures
        ({
            let s = state_after(setup, samples);
            &&& s.equity.len() == samples
            &&& s.drifts.len() == samples
            &&& s.cost == total(event_costs(s.events))
            &&& forall|k: int|
                0 <= k < s.events.len() ==> rebalance_time(s.events, k - 1) < (#[trigger] s.events[k]).timestamp_idx
            &&& setup.strategy is Calendar ==> forall|k: int|
                0 <= k < s.events.len() ==> (#[trigger] s.events[k]).timestamp_idx - rebalance_time(s.events, k - 1)
                    >= setup.interval
            &&& setup.strategy is Threshold ==> forall|k: int|
                0 <= k < s.events.len() ==> (#[trigger] s.events[k]).trigger == RebalanceTrigger::Drift
            &&& setup.strategy is Never ==> s.events.len() == 0
        }),
{
    lemma_state(setup, samples);
}

} // verus!
