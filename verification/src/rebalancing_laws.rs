//! What a rebalance does to the assets, and when one is due.

use vstd::prelude::*;

use crate::exact::{lemma_ratio_reads, lemma_total_reads, readings, reads_exactly, real_sum};
use crate::number::{ratio_of, total, Number};
use crate::rebalancing::{
    advanced, drifts_of, first_values, longest, is_traded, peak, rebalanced, refreshed, summed_at, trade_for,
    value_after, RebalanceFreq, RebalanceSetup, RebalanceSide, RebalanceState, RebalanceStrategy, RebalanceTrigger,
    TradeCosts,
};

verus! {

/// Every trade of a rebalance moves its asset to its target value: an asset
/// below it is bought and one above it is sold, by the distance.
pub proof fn law_trades_move_assets_to_their_targets<N: Number>(
    value: spec_fn(N) -> real,
    i: int,
    curve: Seq<N>,
    at: int,
    whole: N,
    target: N,
    held: N,
    costs: TradeCosts<N>,
)
    requires
        reads_exactly(value),
        is_traded(whole, target, held),
    ensures
        ({
            let trade = trade_for(i, curve, at, whole, target, held, costs);
            let goal = value(whole) * value(target);
            &&& value(held) < goal <==> trade.side == RebalanceSide::Buy
            &&& goal < value(held) <==> trade.side == RebalanceSide::Sell
            &&& trade.side == RebalanceSide::Buy ==> value(held) + value(trade.notional) == goal
            &&& trade.side == RebalanceSide::Sell ==> value(held) - value(trade.notional) == goal
            &&& value(trade.notional) >= 1real
        }),
{
    assert(value(N::whole(0)) == 0real);
    assert(value(N::whole(1)) == 1real);
}

/// An asset within one currency unit of its target is left alone, and every
/// other is traded.
pub proof fn law_assets_near_their_targets_are_left_alone<N: Number>(
    value: spec_fn(N) -> real,
    whole: N,
    target: N,
    held: N,
)
    requires
        reads_exactly(value),
    ensures
        ({
            let missing = value(whole) * value(target) - value(held);
            is_traded(whole, target, held) <==> missing >= 1real || missing <= -1real
        }),
{
    assert(value(N::whole(1)) == 1real);
}

/// A trade pays the fee rate and the slippage on its notional. A purchase
/// leaves the asset half the cost below its target and a sale half the cost
/// above it.
pub proof fn law_trades_pay_fee_and_slippage_on_the_notional<N: Number>(
    value: spec_fn(N) -> real,
    i: int,
    curve: Seq<N>,
    at: int,
    whole: N,
    target: N,
    held: N,
    costs: TradeCosts<N>,
)
    requires
        reads_exactly(value),
    ensures
        ({
            let trade = trade_for(i, curve, at, whole, target, held, costs);
            let cost = value(trade.commission) + value(trade.slippage);
            let left = value(value_after(whole, target, trade));
            let goal = value(whole) * value(target);
            &&& value(trade.commission) == value(trade.notional) * value(costs.maker_fee)
            &&& value(trade.slippage) * 10000real == value(trade.notional) * value(costs.slippage_bps)
            &&& trade.side == RebalanceSide::Buy ==> 2real * (goal - left) == cost
            &&& trade.side == RebalanceSide::Sell ==> 2real * (left - goal) == cost
        }),
{
    assert(value(N::whole(0)) == 0real);
    assert(value(N::whole(2)) == 2real);
    assert(value(N::whole(10_000)) == 10000real);
    let trade = trade_for(i, curve, at, whole, target, held, costs);
    let cost = trade.commission.sum(trade.slippage);
    let h = value(cost.quotient(N::whole(2)));
    assert(h * 2real == value(cost));
    let m = value(N::whole(0).difference(cost).quotient(N::whole(2)));
    assert(m * 2real == -value(cost));
}

/// A rebalance changes exactly the assets that are traded, one trade each in
/// their order, and its cost is what the trades cost together.
pub proof fn law_rebalance_trades_each_asset_once<N: Number>(
    value: spec_fn(N) -> real,
    curves: Seq<Seq<N>>,
    targets: Seq<N>,
    values: Seq<N>,
    whole: N,
    at: int,
    costs: TradeCosts<N>,
    count: nat,
)
    requires
        reads_exactly(value),
        count <= values.len(),
    ensures
        ({
            let done = rebalanced(curves, targets, values, whole, at, costs, count);
            &&& done.values.len() == values.len()
            &&& forall|i: int| count <= i < values.len() ==> #[trigger] done.values[i] == values[i]
            &&& forall|i: int|
                0 <= i < count ==> (#[trigger] done.values[i]) == if is_traded(whole, targets[i], values[i]) {
                    value_after(
                        whole,
                        targets[i],
                        trade_for(i, curves[i], at, whole, targets[i], values[i], costs),
                    )
                } else {
                    values[i]
                }
            &&& value(done.cost) == real_sum(
                done.trades.map_values(
                    |t: crate::rebalancing::TradeRow<N>| value(t.commission) + value(t.slippage),
                ),
            )
            &&& done.trades.len() <= count
        }),
    decreases count,
{
    assert(value(N::whole(0)) == 0real);
    let cost_of = |t: crate::rebalancing::TradeRow<N>| value(t.commission) + value(t.slippage);
    if count > 0 {
        law_rebalance_trades_each_asset_once(
            value,
            curves,
            targets,
            values,
            whole,
            at,
            costs,
            (count - 1) as nat,
        );
        let before = rebalanced(curves, targets, values, whole, at, costs, (count - 1) as nat);
        let done = rebalanced(curves, targets, values, whole, at, costs, count);
        if is_traded(whole, targets[count - 1], values[count - 1]) {
            assert(done.trades.map_values(cost_of).drop_last() =~= before.trades.map_values(cost_of));
            assert(done.trades.map_values(cost_of).last() == cost_of(done.trades.last()));
        }
    }
}

/// The drift of an asset is the distance of its share of the whole from its
/// target, and the largest drift is no less than any and one of them.
pub proof fn law_drift_is_the_distance_from_the_target_weight<N: Number>(
    value: spec_fn(N) -> real,
    values: Seq<N>,
    whole: N,
    targets: Seq<N>,
)
    requires
        reads_exactly(value),
        value(whole) > 0real,
        values.len() <= targets.len(),
    ensures
        ({
            let drifts = drifts_of(values, whole, targets);
            &&& drifts.len() == values.len()
            &&& forall|i: int| #![trigger drifts[i]]
                0 <= i < drifts.len() ==> {
                    let over = value(values[i]) - value(targets[i]) * value(whole);
                    value(drifts[i]) * value(whole) == if over < 0real { -over } else { over }
                }
            &&& forall|i: int| 0 <= i < drifts.len() ==> value(#[trigger] drifts[i]) <= value(peak(drifts))
            &&& drifts.len() > 0 ==> exists|i: int|
                0 <= i < drifts.len() && value(#[trigger] drifts[i]) == value(peak(drifts))
        }),
{
    let drifts = drifts_of(values, whole, targets);
    let w = value(whole);
    assert forall|i: int| #![trigger drifts[i]] 0 <= i < drifts.len() implies ({
        let over = value(values[i]) - value(targets[i]) * w;
        &&& value(drifts[i]) * w == if over < 0real { -over } else { over }
        &&& value(drifts[i]) >= 0real
    }) by {
        let q = value(values[i].quotient(whole));
        let t = value(targets[i]);
        let v = value(values[i]);
        let d = value(drifts[i]);
        assert(q * w == v);
        assert(d == if q - t < 0real { -(q - t) } else { q - t });
        assert((q - t) * w == v - t * w && ((q - t < 0real) <==> (v - t * w < 0real)) && -(q - t) * w == -(v - t * w))
            by (nonlinear_arith)
            requires
                q * w == v,
                w > 0real,
        ;
    }
    lemma_peak(value, drifts);
}

proof fn lemma_peak<N: Number>(value: spec_fn(N) -> real, drifts: Seq<N>)
    requires
        reads_exactly(value),
        forall|i: int| 0 <= i < drifts.len() ==> value(#[trigger] drifts[i]) >= 0real,
    ensures
        value(peak(drifts)) >= 0real,
        forall|i: int| 0 <= i < drifts.len() ==> value(#[trigger] drifts[i]) <= value(peak(drifts)),
        drifts.len() > 0 ==> exists|i: int|
            0 <= i < drifts.len() && value(#[trigger] drifts[i]) == value(peak(drifts)),
        drifts.len() == 0 ==> value(peak(drifts)) == 0real,
    decreases drifts.len(),
{
    assert(value(N::whole(0)) == 0real);
    if drifts.len() > 0 {
        let before = drifts.drop_last();
        assert forall|i: int| 0 <= i < before.len() implies value(#[trigger] before[i]) >= 0real by {
            assert(value(drifts[i]) >= 0real);
        }
        lemma_peak(value, before);
        assert(value(drifts[drifts.len() - 1]) >= 0real);
        assert forall|i: int| 0 <= i < drifts.len() implies value(#[trigger] drifts[i]) <= value(peak(drifts)) by {
            if i < before.len() {
                assert(value(before[i]) <= value(peak(before)));
            }
        }
        if value(peak(before)) < value(drifts.last()) || before.len() == 0 {
            assert(value(drifts[drifts.len() - 1]) == value(peak(drifts)));
        } else {
            let k = choose|k: int| 0 <= k < before.len() && value(#[trigger] before[k]) == value(peak(before));
            assert(value(drifts[k]) == value(peak(drifts)));
        }
    }
}

/// When a sample after the first is rebalanced, as long as the portfolio is
/// worth anything: under a threshold exactly where some asset has drifted as
/// far, under a calendar exactly where the interval has passed since the last
/// time, under both where either holds, and never otherwise.
pub proof fn law_rebalance_comes_due_as_the_strategy_says<N: Number>(
    value: spec_fn(N) -> real,
    setup: RebalanceSetup<N>,
    s: RebalanceState<N>,
    at: nat,
)
    requires
        reads_exactly(value),
        at > 0,
        value(total(refreshed(setup.curves, s.values, at as int))) > 0real,
    ensures
        ({
            let values = refreshed(setup.curves, s.values, at as int);
            let drift = value(peak(drifts_of(values, total(values), setup.targets)));
            let after = advanced(setup, s, at);
            let rebalances = after.events.len() == s.events.len() + 1;
            let elapsed = at - s.last_rebalance >= setup.interval;
            &&& !rebalances ==> after.events == s.events && after.values == values && after.last_rebalance
                == s.last_rebalance
            &&& rebalances ==> after.last_rebalance == at && after.events.last().timestamp_idx == at
            &&& match setup.strategy {
                RebalanceStrategy::Never => !rebalances,
                RebalanceStrategy::Threshold { drift_pct } => rebalances <==> drift >= value(drift_pct),
                RebalanceStrategy::Calendar { frequency } => rebalances <==> elapsed,
                RebalanceStrategy::ThresholdOrCalendar { drift_pct, frequency } => {
                    &&& rebalances <==> drift >= value(drift_pct) || elapsed
                    &&& rebalances ==> (after.events.last().trigger == RebalanceTrigger::Drift <==> drift >= value(
                        drift_pct,
                    ))
                },
            }
        }),
{
    assert(value(N::whole(0)) == 0real);
}

/// The first sample is never rebalanced, and neither is a portfolio that is
/// worth nothing; its equity is what its assets are worth.
pub proof fn law_first_and_worthless_samples_are_left_alone<N: Number>(
    value: spec_fn(N) -> real,
    setup: RebalanceSetup<N>,
    s: RebalanceState<N>,
    at: nat,
)
    requires
        reads_exactly(value),
        at == 0 || value(total(refreshed(setup.curves, s.values, at as int))) <= 0real,
    ensures
        ({
            let values = refreshed(setup.curves, s.values, at as int);
            let after = advanced(setup, s, at);
            &&& after.events == s.events
            &&& after.cost == s.cost
            &&& after.values == values
            &&& value(after.equity.last()) == real_sum(readings(value, values))
        }),
{
    assert(value(N::whole(0)) == 0real);
    lemma_total_reads(value, refreshed(setup.curves, s.values, at as int));
}

/// After a rebalance the equity is what the assets are worth after it.
pub proof fn law_equity_is_what_the_assets_are_worth<N: Number>(
    value: spec_fn(N) -> real,
    setup: RebalanceSetup<N>,
    s: RebalanceState<N>,
    at: nat,
)
    requires
        reads_exactly(value),
    ensures
        ({
            let after = advanced(setup, s, at);
            &&& after.equity.len() == s.equity.len() + 1
            &&& value(after.equity.last()) == real_sum(readings(value, after.values))
        }),
{
    lemma_total_reads(value, advanced(setup, s, at).values);
}

/// A curve that reaches a sample sets its asset's value; past its end the
/// asset keeps its value.
pub proof fn law_curves_set_the_values_they_reach<N: Number>(curves: Seq<Seq<N>>, values: Seq<N>, at: int, i: int)
    requires
        0 <= i < values.len(),
        0 <= at,
    ensures
        refreshed(curves, values, at).len() == values.len(),
        at < curves[i].len() ==> refreshed(curves, values, at)[i] == curves[i][at],
        at >= curves[i].len() ==> refreshed(curves, values, at)[i] == values[i],
{
}

/// Without rebalancing the curves are added up, each keeping its last value
/// past its end.
pub proof fn law_summed_curves_keep_their_last_values<N: Number>(
    value: spec_fn(N) -> real,
    curves: Seq<Seq<N>>,
    curve: Seq<N>,
    at: int,
)
    requires
        reads_exactly(value),
        0 <= at,
    ensures
        ({
            let before = value(summed_at(curves, at));
            let after = value(summed_at(curves.push(curve), at));
            &&& at < curve.len() ==> after == before + value(curve[at])
            &&& 0 < curve.len() <= at ==> after == before + value(curve[curve.len() - 1])
            &&& curve.len() == 0 ==> after == before
        }),
{
    assert(curves.push(curve).drop_last() =~= curves);
}

/// A week has seven days, a month thirty and a quarter ninety; a calendar
/// rebalance waits for as many samples as fit into that time.
pub proof fn law_calendar_intervals_are_days_long<N: Number>(frequency: RebalanceFreq, per_day: int)
    requires
        1 <= per_day <= 86_400,
    ensures
        frequency.seconds() == 86_400 * match frequency {
            RebalanceFreq::Daily => 1int,
            RebalanceFreq::Weekly => 7,
            RebalanceFreq::Monthly => 30,
            RebalanceFreq::Quarterly => 90,
        },
        ({
            let samples = RebalanceStrategy::<N>::Calendar { frequency }.interval(per_day);
            let spacing = 86_400int / per_day;
            samples * spacing <= frequency.seconds() < (samples + 1) * spacing
        }),
{
    let spacing = 86_400int / per_day;
    assert(spacing >= 1) by (nonlinear_arith)
        requires
            spacing == 86_400int / per_day,
            1 <= per_day <= 86_400,
    ;
    let s = frequency.seconds() as int;
    let q = s / spacing;
    assert(q * spacing <= s < (q + 1) * spacing) by (nonlinear_arith)
        requires
            q == s / spacing,
            spacing >= 1,
            s >= 0,
    ;
}

/// The longest curve has the most points: none has more, and some curve has
/// as many.
pub proof fn law_longest_curve_has_the_most_points<N>(curves: Seq<Seq<N>>)
    ensures
        forall|i: int| 0 <= i < curves.len() ==> (#[trigger] curves[i]).len() <= longest(curves),
        curves.len() > 0 ==> exists|i: int| 0 <= i < curves.len() && (#[trigger] curves[i]).len() == longest(curves),
        curves.len() == 0 ==> longest(curves) == 0,
    decreases curves.len(),
{
    if curves.len() > 0 {
        let before = curves.drop_last();
        law_longest_curve_has_the_most_points(before);
        assert(forall|i: int| 0 <= i < before.len() ==> #[trigger] curves[i] == before[i]);
        assert(curves[curves.len() - 1] == curves.last());
        if before.len() > 0 {
            let i = choose|i: int| 0 <= i < before.len() && (#[trigger] before[i]).len() == longest(before);
            assert(curves[i].len() == longest(before));
        }
    }
}

/// The assets start at the first points of their curves.
pub proof fn law_assets_start_where_their_curves_do<N: Number>(value: spec_fn(N) -> real, curves: Seq<Seq<N>>, i: int)
    requires
        reads_exactly(value),
        0 <= i < curves.len(),
    ensures
        first_values(curves).len() == curves.len(),
        curves[i].len() > 0 ==> first_values(curves)[i] == curves[i][0],
        curves[i].len() == 0 ==> value(first_values(curves)[i]) == 0real,
{
    assert(value(N::whole(0)) == 0real);
}

/// A trade is priced at the curve's point over the target, which counts as a
/// thousandth at least; past the end of the curve the price is one.
pub proof fn law_trades_are_priced_by_the_curve<N: Number>(
    value: spec_fn(N) -> real,
    i: int,
    curve: Seq<N>,
    at: int,
    whole: N,
    target: N,
    held: N,
    costs: TradeCosts<N>,
)
    requires
        reads_exactly(value),
        at >= 0,
    ensures
        ({
            let price = value(trade_for(i, curve, at, whole, target, held, costs).price);
            let least = 1real / 1000real;
            &&& at < curve.len() ==> price * (if value(target) < least { least } else { value(target) }) == value(curve[at])
            &&& at >= curve.len() ==> price == 1real
        }),
{
    assert(value(N::whole(1)) == 1real);
    lemma_ratio_reads(value, 1, 1000);
    let base = target.larger(ratio_of::<N>(1, 1000));
    assert(value(base) >= 1real / 1000real);
}

} // verus!
