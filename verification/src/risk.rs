//! What the risk manager's answers do to an order.

use vstd::prelude::*;

use crate::exact::reads_exactly;
use crate::number::Number;
use crate::signals::Direction;

verus! {

/// The risk manager's answer to an order.
#[derive(Debug, Clone, Copy, PartialEq)]
pub enum RiskAction<N> {
    Proceed,
    /// Only this quantity is allowed.
    ReducePosition(N),
    /// The quantity is multiplied by this factor.
    ScalePosition(N),
    RejectOrder,
    CloseAllPositions,
    HaltTrading,
}

/// What becomes of an order after the risk check.
#[derive(Debug, Clone, Copy, PartialEq)]
pub enum OrderSizing<N> {
    /// The signal asks for nothing.
    ZeroQuantity,
    /// The order is dropped.
    Dropped,
    /// The order is dropped and trading stops.
    Halt,
    /// The order adds to the position, so its size is to be capped.
    Capped(N),
    /// The order goes ahead as it is.
    Ready(N),
}

/// Quantity that the risk manager leaves of an order; nothing where it drops
/// the order.
pub open spec fn allowed_quantity<N: Number>(quantity: N, action: RiskAction<N>) -> Option<N> {
    match action {
        RiskAction::Proceed => Some(quantity),
        RiskAction::ReducePosition(allowed) => if allowed.at_most(N::whole(0)) {
            None
        } else {
            Some(allowed)
        },
        RiskAction::ScalePosition(factor) => if quantity.product(factor).at_most(N::whole(0)) {
            None
        } else {
            Some(quantity.product(factor))
        },
        _ => None,
    }
}

/// The risk manager stops all trading.
pub open spec fn stops_trading<N>(action: RiskAction<N>) -> bool {
    action is CloseAllPositions || action is HaltTrading
}

/// The order opens a position or adds to it.
pub open spec fn is_increasing<N: Number>(direction: Direction, net_position: N) -> bool {
    match direction {
        Direction::Buy => N::whole(0).at_most(net_position),
        Direction::Sell => net_position.at_most(N::whole(0)),
    }
}

/// What becomes of an order.
pub open spec fn sizing_of<N: Number>(
    direction: Direction,
    quantity: N,
    risk: Option<RiskAction<N>>,
    net_position: N,
) -> OrderSizing<N> {
    if quantity.at_most(N::whole(0)) {
        OrderSizing::ZeroQuantity
    } else {
        let action = match risk {
            Some(answer) => answer,
            None => RiskAction::Proceed,
        };
        if stops_trading(action) {
            OrderSizing::Halt
        } else {
            match allowed_quantity(quantity, action) {
                None => OrderSizing::Dropped,
                Some(allowed) => if is_increasing(direction, net_position) {
                    OrderSizing::Capped(allowed)
                } else {
                    OrderSizing::Ready(allowed)
                },
            }
        }
    }
}

/// Sizes an order after the risk check, which may be absent. Only an order
/// that adds to the position is subject to the exposure cap.
pub fn size_order<N: Number>(
    direction: Direction,
    quantity: N,
    risk: Option<RiskAction<N>>,
    net_position: N,
) -> (sizing: OrderSizing<N>)
    ensures
        sizing == sizing_of(direction, quantity, risk, net_position),
{
    if quantity.le(N::of(0)) {
        return OrderSizing::ZeroQuantity;
    }
    let allowed: N = match risk {
        None => quantity,
        Some(RiskAction::Proceed) => quantity,
        Some(RiskAction::ReducePosition(limit)) => {
            if limit.le(N::of(0)) {
                return OrderSizing::Dropped;
            }
            limit
        },
        Some(RiskAction::ScalePosition(factor)) => {
            let scaled: N = quantity.times(factor);
            if scaled.le(N::of(0)) {
                return OrderSizing::Dropped;
            }
            scaled
        },
        Some(RiskAction::RejectOrder) => {
            return OrderSizing::Dropped;
        },
        Some(RiskAction::CloseAllPositions) => {
            return OrderSizing::Halt;
        },
        Some(RiskAction::HaltTrading) => {
            return OrderSizing::Halt;
        },
    };
    let increasing = match direction {
        Direction::Buy => N::of(0).le(net_position),
        Direction::Sell => net_position.le(N::of(0)),
    };
    if increasing {
        OrderSizing::Capped(allowed)
    } else {
        OrderSizing::Ready(allowed)
    }
}

/// Quantity that is left after the exposure cap, if any.
pub fn after_cap<N: Number>(capped: N) -> (quantity: Option<N>)
    ensures
        quantity == if capped.at_most(N::whole(0)) { None } else { Some(capped) },
        forall|value: spec_fn(N) -> real| #[trigger]
            reads_exactly(value) ==> (quantity is Some <==> value(capped) > 0real) && (quantity matches Some(left)
                ==> value(left) == value(capped)),
{
    proof {
        assert forall|value: spec_fn(N) -> real| #[trigger] reads_exactly(value) implies value(N::whole(0)) == 0real by {}
    }
    if capped.le(N::of(0)) {
        None
    } else {
        Some(capped)
    }
}

/// An order goes ahead only where it asks for something and the risk manager
/// neither drops it nor stops trading; trading stops only at the risk
/// manager's word.
pub proof fn law_only_allowed_orders_go_ahead<N: Number>(
    direction: Direction,
    quantity: N,
    action: RiskAction<N>,
    net_position: N,
)
    ensures
        ({
            let sizing = sizing_of(direction, quantity, Some(action), net_position);
            &&& (sizing is Ready || sizing is Capped) ==> !quantity.at_most(N::whole(0)) && allowed_quantity(
                quantity,
                action,
            ) is Some && !stops_trading(action)
            &&& sizing is Halt <==> !quantity.at_most(N::whole(0)) && stops_trading(action)
            &&& sizing is Capped ==> is_increasing(direction, net_position)
            &&& sizing is Ready ==> !is_increasing(direction, net_position)
        }),
{
}

} // verus!
