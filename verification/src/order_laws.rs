//! Bounds that hold of every kind of number whose comparisons make a total
//! order. Fixed-point numbers are of that kind; floating-point numbers are as
//! long as none of them is undefined.

use vstd::prelude::*;

use crate::fills::{volume_left, FillRules, PendingLimit, TickMarket};
use crate::measures::{clamped, max_drawdown};
use crate::number::{ratio_of, Fixed, Number};
use crate::optimization::{cap_of, degradation_pct_of};
use crate::significance::metrics_of;
use crate::simulation::SimulationState;
use crate::wf_report::{evenness, test_sharpe_of};

verus! {

/// The comparisons make a total order, the larger and the smaller of two
/// numbers are what they are called, and whole numbers come in order.
pub open spec fn orders_well<N: Number>() -> bool {
    &&& forall|a: N, b: N| #[trigger] a.below(b) <==> !b.at_most(a)
    &&& forall|a: N, b: N| #[trigger] a.at_most(b) || b.at_most(a)
    &&& forall|a: N, b: N, c: N| #[trigger] a.at_most(b) && #[trigger] b.at_most(c) ==> a.at_most(c)
    &&& forall|a: N, b: N| (#[trigger] a.larger(b)) == if a.at_most(b) && !b.at_most(a) { b } else { a }
    &&& forall|a: N, b: N| (#[trigger] a.smaller(b)) == if b.at_most(a) && !a.at_most(b) { b } else { a }
    &&& forall|i: i64, j: i64| i <= j ==> (#[trigger] N::whole(i)).at_most(#[trigger] N::whole(j))
}

/// Fixed-point numbers are in order.
pub proof fn law_fixed_numbers_order_well()
    ensures
        orders_well::<Fixed>(),
{
}

/// A clamped value stays within its bounds.
pub proof fn law_clamped_value_is_within_bounds<N: Number>(value: N, low: N, high: N)
    requires
        orders_well::<N>(),
        low.at_most(high),
    ensures
        low.at_most(clamped(value, low, high)),
        clamped(value, low, high).at_most(high),
{
}

/// The leverage of a run is at least one, and a strategy's own cap never
/// raises it above what was configured.
pub proof fn law_leverage_is_only_ever_reduced<N: Number>(configured: N, cap: N)
    requires
        orders_well::<N>(),
    ensures
        ({
            let leverage = configured.smaller(cap).larger(N::whole(1));
            &&& N::whole(1).at_most(leverage)
            &&& leverage.at_most(configured) || leverage == N::whole(1)
            &&& leverage.at_most(cap) || leverage == N::whole(1)
        }),
{
    let leverage = configured.smaller(cap).larger(N::whole(1));
    assert(configured.at_most(configured) && cap.at_most(cap));
    assert(leverage.at_most(leverage));
}

/// The Sharpe ratio of a test slice lies between -20 and 20.
pub proof fn law_test_sharpe_is_bounded<N: Number>(curve: Seq<N>, reported: Option<N>, bars_per_year: N)
    requires
        orders_well::<N>(),
    ensures
        N::whole(-20i64).at_most(test_sharpe_of(curve, reported, bars_per_year)),
        test_sharpe_of(curve, reported, bars_per_year).at_most(N::whole(20)),
{
    assert(N::whole(-20i64).at_most(N::whole(20)));
    assert(N::whole(-20i64).at_most(N::whole(0)));
    assert(N::whole(0).at_most(N::whole(20)));
}

/// The evenness of some scores lies between zero and one.
pub proof fn law_consistency_is_between_zero_and_one<N: Number>(scores: Seq<N>)
    requires
        orders_well::<N>(),
    ensures
        N::whole(0).at_most(evenness(scores)),
        evenness(scores).at_most(N::whole(1)),
{
    assert(N::whole(0).at_most(N::whole(1)));
    assert(N::whole(1).at_most(N::whole(1)));
}

/// A loss of Sharpe ratio lies between -200 and 200 percent.
pub proof fn law_degradation_is_bounded<N: Number>(train: N, test: N)
    requires
        orders_well::<N>(),
    ensures
        N::whole(-200i64).at_most(degradation_pct_of(train, test)),
        degradation_pct_of(train, test).at_most(N::whole(200)),
{
    assert(N::whole(-200i64).at_most(N::whole(200)));
    assert(N::whole(-200i64).at_most(N::whole(0)));
    assert(N::whole(0).at_most(N::whole(200)));
}

/// The drawdown that a candidate may have lies between five and sixty
/// percent, whatever is asked for.
pub proof fn law_drawdown_cap_is_bounded<N: Number>(asked: Option<N>)
    requires
        orders_well::<N>(),
        ratio_of::<N>(1, 20).at_most(ratio_of::<N>(3, 5)),
    ensures
        ratio_of::<N>(1, 20).at_most(cap_of(asked)),
        cap_of(asked).at_most(ratio_of::<N>(3, 5)),
{
}

/// The thirty-day volume of an exchange is never negative after a trade.
pub proof fn law_own_volume_is_never_negative<N: Number>(
    state: SimulationState<N>,
    exchange: Seq<char>,
    timestamp: i64,
    value: N,
)
    requires
        orders_well::<N>(),
    ensures
        N::whole(0).at_most(state.with_own_trade(exchange, timestamp, value).volume_of(exchange)),
{
}

/// The profit factor of a resampled series is at most a hundred.
pub proof fn law_sample_profit_factor_is_bounded<N: Number>(changes: Seq<N>)
    requires
        orders_well::<N>(),
    ensures
        metrics_of(changes).profit_factor.at_most(N::whole(100)),
{
    assert(N::whole(0).at_most(N::whole(100)));
    assert(N::whole(100).at_most(N::whole(100)));
}

/// A drawdown is never negative.
pub proof fn law_drawdown_is_never_negative<N: Number>(equity: Seq<N>)
    requires
        orders_well::<N>(),
    ensures
        N::whole(0).at_most(max_drawdown(equity)),
    decreases equity.len(),
{
    assert(N::whole(0).at_most(N::whole(0)));
    if equity.len() > 0 {
        law_drawdown_is_never_negative(equity.drop_last());
    }
}

/// A resting order is never filled by more than is left of it, nor by more
/// than is left of the volume.
pub proof fn law_match_is_within_order_and_volume<N: Number>(
    order: PendingLimit<N>,
    market: TickMarket<N>,
    rules: FillRules<N>,
    used: N,
)
    requires
        orders_well::<N>(),
    ensures
        ({
            let quantity = order.remaining_quantity.smaller(volume_left(market, rules, used));
            &&& quantity.at_most(order.remaining_quantity)
            &&& quantity.at_most(volume_left(market, rules, used))
        }),
{
    let left = volume_left(market, rules, used);
    assert(order.remaining_quantity.at_most(order.remaining_quantity) && left.at_most(left));
}

/// The fills of one tick never take more than the share of its volume that
/// they may: what a match adds stays within it.
pub proof fn law_fills_stay_within_the_volume(
    order: PendingLimit<Fixed>,
    market: TickMarket<Fixed>,
    rules: FillRules<Fixed>,
    used: Fixed,
)
    requires
        0 <= used.units <= market.volume.product(rules.fill_volume_fraction).units,
        0 <= order.remaining_quantity.units,
    ensures
        ({
            let quantity = order.remaining_quantity.smaller(volume_left(market, rules, used));
            0 <= used.sum(quantity).units <= market.volume.product(rules.fill_volume_fraction).units
        }),
{
    let share = market.volume.product(rules.fill_volume_fraction);
    assert(share.difference(used).units == share.units - used.units);
    assert(Fixed::whole(0).units == 0);
}

} // verus!
