//! What the central figures come to in fixed-point arithmetic, rounding
//! and all.

use vstd::arithmetic::div_mod::{lemma_div_by_multiple, lemma_div_is_ordered};
use vstd::arithmetic::mul::{lemma_mul_inequality, lemma_mul_is_commutative};
use vstd::prelude::*;

use crate::combine::{sharpe_of, tiny, yearly_root};
use crate::measures::{mean_of, square_sum};
use crate::number::{cut_off, Fixed, Number};
use crate::rebalancing::{is_traded, trade_for, RebalanceSide, TradeCosts};

verus! {

/// An asset below its target value is bought, and one above it is sold, by
/// the distance between the two.
pub proof fn law_fixed_trades_move_assets_to_their_targets(
    i: int,
    curve: Seq<Fixed>,
    at: int,
    whole: Fixed,
    target: Fixed,
    held: Fixed,
    costs: TradeCosts<Fixed>,
)
    requires
        is_traded(whole, target, held),
    ensures
        ({
            let goal = whole.product(target).units as int;
            let trade = trade_for(i, curve, at, whole, target, held, costs);
            &&& trade.side == RebalanceSide::Buy <==> held.units < goal
            &&& trade.side == RebalanceSide::Sell <==> held.units > goal
            &&& trade.side == RebalanceSide::Buy && goal - held.units <= i64::MAX ==> held.units + trade.notional.units
                == goal
            &&& trade.side == RebalanceSide::Sell && held.units - goal <= i64::MAX ==> held.units - trade.notional.units
                == goal
        }),
{
}

proof fn lemma_share_of_scale(part: int, whole: int)
    requires
        0 <= part,
        0 < whole,
    ensures
        part * 1_000_000 / whole >= 0,
        part <= whole ==> part * 1_000_000 / whole <= 1_000_000,
        part >= whole ==> part * 1_000_000 / whole >= 1_000_000,
        part == 0 ==> part * 1_000_000 / whole == 0,
{
    lemma_div_by_multiple(1_000_000, whole);
    lemma_div_by_multiple(0, whole);
    lemma_mul_is_commutative(1_000_000, whole);
    assert(0 * whole == 0);
    assert(1_000_000 * whole == whole * 1_000_000);
    lemma_div_is_ordered(0, part * 1_000_000, whole);
    if part <= whole {
        lemma_div_is_ordered(part * 1_000_000, whole * 1_000_000, whole);
    }
    if part >= whole {
        lemma_div_is_ordered(whole * 1_000_000, part * 1_000_000, whole);
    }
}

/// The Sharpe ratio weighs the average by the deviation: returns whose average
/// reaches their deviation score at least the annual factor, and returns whose
/// average falls short of it at most that. It has the sign of the average.
pub proof fn law_fixed_sharpe_weighs_average_by_deviation(values: Seq<Fixed>, deviation: Fixed)
    requires
        values.len() > 1,
        deviation == square_sum(values, mean_of(values)).quotient(Fixed::counted((values.len() - 1) as usize)).root(),
        deviation.units > 0,
    ensures
        ({
            let average = mean_of(values).units;
            let sharpe = sharpe_of(values).units;
            let annual = yearly_root::<Fixed>().units;
            &&& average >= deviation.units ==> sharpe >= annual
            &&& 0 <= average <= deviation.units ==> 0 <= sharpe <= annual
            &&& average == 0 ==> sharpe == 0
            &&& average < 0 ==> sharpe <= 0
        }),
{
    let centre = mean_of(values);
    let c = centre.units as int;
    let d = deviation.units as int;
    let annual = yearly_root::<Fixed>();
    let r = annual.units as int;
    assert(r >= 0);
    assert(tiny::<Fixed>().units == 0) by {
        assert(Fixed::whole(1).units == 1_000_000);
        assert(Fixed::whole(1_000_000_000_000).units == 1_000_000_000_000_000_000);
    }
    let quotient = centre.quotient(deviation);
    let q = quotient.units as int;
    let size = if c < 0 { -c } else { c };
    lemma_share_of_scale(size, d);
    let share = size * 1_000_000 / d;
    assert(c >= 0 ==> (q == share || (q == i64::MAX && share > i64::MAX)));
    assert(c < 0 ==> q <= 0);
    let score = if q < 0 { -q } else { q };
    lemma_mul_inequality(0, score, r);
    assert((-score) * r == -(score * r)) by (nonlinear_arith);
    assert(0 * r == 0 && 1_000_000 * r / 1_000_000 == r);
    let product = q * r;
    assert(q >= 0 ==> product == score * r);
    assert(q < 0 ==> product == -(score * r));
    assert(sharpe_of(values) == quotient.product(annual));
    assert(product >= 0 ==> cut_off(product, 1_000_000) == product / 1_000_000);
    assert(product <= 0 ==> cut_off(product, 1_000_000) <= 0);
    if score <= 1_000_000 {
        lemma_mul_inequality(score, 1_000_000, r);
    }
    if score >= 1_000_000 {
        lemma_mul_inequality(1_000_000, score, r);
    }
}

} // verus!
