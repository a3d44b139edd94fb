//! What fills must satisfy: limits, latency, volume, slippage and fees.

use vstd::prelude::*;

use crate::exact::{lemma_ratio_reads, reads_exactly};
use crate::fills::{
    cash_share_of, commission_of, due_from, flat_slippage_price, is_due, is_executed, is_maker_executed, maker_report,
    next_due, side_of, taker_report, volume_left, AccountValue, FillRules, PendingLimit, TakerOrder, TickMarket,
};
use crate::ledger::LiquidityType;
use crate::number::{ratio_of, Number};
use crate::order_laws::orders_well;
use crate::signals::{DerivativeMetadata, Direction};
use crate::synthetic_book::BookSide;

verus! {

/// A limit order fills only where the market is at its limit or better for
/// the one who trades with it: never below the limit of a sale, never above
/// that of a purchase, and under adverse selection not at the limit either.
/// Conversely, an order that has rested for the latency and whose limit the
/// market has crossed fills.
pub proof fn law_limit_orders_fill_only_when_the_market_reaches_them<N: Number>(
    order: PendingLimit<N>,
    market: TickMarket<N>,
    rules: FillRules<N>,
)
    requires
        orders_well::<N>(),
    ensures
        is_due(order, market, rules) && order.direction == Direction::Sell ==> !market.price.below(order.price),
        is_due(order, market, rules) && order.direction == Direction::Buy ==> !order.price.below(market.price),
        is_due(order, market, rules) && order.direction == Direction::Sell && rules.adverse_selection
            ==> order.price.below(market.price),
        is_due(order, market, rules) && order.direction == Direction::Buy && rules.adverse_selection
            ==> market.price.below(order.price),
        is_due(order, market, rules) ==> market.timestamp - order.placed_at >= rules.latency_ms,
        market.timestamp - order.placed_at >= rules.latency_ms && order.direction == Direction::Sell
            && order.price.below(market.price) ==> is_due(order, market, rules),
        market.timestamp - order.placed_at >= rules.latency_ms && order.direction == Direction::Buy
            && market.price.below(order.price) ==> is_due(order, market, rules),
        market.timestamp - order.placed_at >= rules.latency_ms && !rules.adverse_selection && !order.price.below(
            market.price,
        ) && !market.price.below(order.price) ==> is_due(order, market, rules),
{
}

/// A sale that fills at a price fills at every higher one, and a purchase at
/// every lower one; an order that fills at one time fills at every later one.
pub proof fn law_better_markets_and_later_times_keep_an_order_due<N: Number>(
    order: PendingLimit<N>,
    market: TickMarket<N>,
    other: TickMarket<N>,
    rules: FillRules<N>,
)
    requires
        orders_well::<N>(),
        is_due(order, market, rules),
        market.timestamp <= other.timestamp,
        order.direction == Direction::Sell ==> market.price.at_most(other.price),
        order.direction == Direction::Buy ==> other.price.at_most(market.price),
    ensures
        is_due(order, other, rules),
{
}

/// A sale and a purchase at the same limit are never both due unless the
/// market stands at that limit and touching it is enough.
pub proof fn law_only_a_touched_limit_fills_both_ways<N: Number>(
    sale: PendingLimit<N>,
    purchase: PendingLimit<N>,
    market: TickMarket<N>,
    rules: FillRules<N>,
)
    requires
        orders_well::<N>(),
        sale.direction == Direction::Sell,
        purchase.direction == Direction::Buy,
        sale.price == purchase.price,
        is_due(sale, market, rules),
        is_due(purchase, market, rules),
    ensures
        !rules.adverse_selection,
        !market.price.below(sale.price) && !sale.price.below(market.price),
{
}

/// The next order to fill is the first one that is due.
pub proof fn law_next_match_is_the_first_due_order<N: Number>(
    orders: Seq<PendingLimit<N>>,
    from: int,
    market: TickMarket<N>,
    rules: FillRules<N>,
)
    requires
        0 <= from <= orders.len(),
    ensures
        ({
            let k = next_due(orders, from, market, rules);
            &&& from <= k <= orders.len()
            &&& k < orders.len() ==> is_due(orders[k], market, rules)
            &&& forall|i: int| from <= i < k ==> !is_due(#[trigger] orders[i], market, rules)
            &&& due_from(orders, from, market, rules) == 0 <==> k == orders.len()
        }),
    decreases orders.len() - from,
{
    if from < orders.len() {
        law_next_match_is_the_first_due_order(orders, from + 1, market, rules);
    }
}

/// What is left of a tick's volume and what was used of it make the share of
/// the volume that may be filled, until it is used up.
pub proof fn law_volume_left_and_used_make_the_share<N: Number>(
    value: spec_fn(N) -> real,
    market: TickMarket<N>,
    rules: FillRules<N>,
    used: N,
)
    requires
        reads_exactly(value),
    ensures
        ({
            let share = value(market.volume) * value(rules.fill_volume_fraction);
            &&& value(volume_left(market, rules, used)) >= 0real
            &&& value(used) <= share ==> value(volume_left(market, rules, used)) + value(used) == share
            &&& value(used) >= share ==> value(volume_left(market, rules, used)) == 0real
        }),
{
    assert(value(N::whole(0)) == 0real);
}

/// Slippage costs whoever trades: a purchase pays more than the price and a
/// sale gets less, by the given basis points of the price.
pub proof fn law_slippage_moves_the_price_against_the_order<N: Number>(
    value: spec_fn(N) -> real,
    price: N,
    slippage_bps: N,
)
    requires
        reads_exactly(value),
        value(price) >= 0real,
        value(slippage_bps) >= 0real,
    ensures
        ({
            let bought = value(flat_slippage_price(Direction::Buy, price, slippage_bps));
            let sold = value(flat_slippage_price(Direction::Sell, price, slippage_bps));
            &&& sold <= value(price) <= bought
            &&& (bought - value(price)) * 10000real == value(price) * value(slippage_bps)
            &&& (value(price) - sold) * 10000real == value(price) * value(slippage_bps)
        }),
{
    let factor = slippage_bps.quotient(N::whole(10_000));
    let f = value(factor);
    let p = value(price);
    let s = value(slippage_bps);
    assert(value(N::whole(10_000)) == 10000real);
    assert(value(N::whole(1)) == 1real);
    assert(f * 10000real == s);
    let bought = value(flat_slippage_price(Direction::Buy, price, slippage_bps));
    let sold = value(flat_slippage_price(Direction::Sell, price, slippage_bps));
    assert(bought == p * (1real + f));
    assert(sold == p * (1real - f));
    assert(sold <= p <= bought && (bought - p) * 10000real == p * s && (p - sold) * 10000real == p * s)
        by (nonlinear_arith)
        requires
            bought == p * (1real + f),
            sold == p * (1real - f),
            f * 10000real == s,
            p >= 0real,
            s >= 0real,
    ;
}

/// A plain asset pays the rate on what was traded, a contract on that times
/// its multiplier, and an option nothing but its own fee.
pub proof fn law_commission_is_the_rate_on_the_notional<N: Number>(
    value: spec_fn(N) -> real,
    price: N,
    qty: N,
    contract: DerivativeMetadata<N>,
    option_fee: N,
    rate: N,
)
    requires
        reads_exactly(value),
    ensures
        value(commission_of(price, qty, None, option_fee, rate)) == value(price) * value(qty) * value(rate),
        (contract.instrument_kind is Call || contract.instrument_kind is Put) ==> commission_of(
            price,
            qty,
            Some(contract),
            option_fee,
            rate,
        ) == option_fee,
        !(contract.instrument_kind is Call || contract.instrument_kind is Put) ==> value(
            commission_of(price, qty, Some(contract), option_fee, rate),
        ) == value(price) * value(qty) * value(contract.contract_multiplier) * value(rate),
{
}

/// A purchase takes cash and a sale brings it: the cash flow times the value
/// of the account is what was paid, with the sign of the direction.
pub proof fn law_cash_flows_out_of_purchases_and_into_sales<N: Number>(
    value: spec_fn(N) -> real,
    paid: N,
    account: AccountValue<N>,
)
    requires
        reads_exactly(value),
        value(account.total_value) != 0real,
        value(account.balance) > 0real,
    ensures
        value(cash_share_of(Direction::Buy, paid, account)) * value(account.total_value) == -value(paid),
        value(cash_share_of(Direction::Sell, paid, account)) * value(account.total_value) == value(paid),
{
    assert(value(N::whole(0)) == 0real);
    assert(value(N::whole(-1i64)) == -1real);
    assert(value(N::whole(1)) == 1real);
    assert(value(paid.product(N::whole(-1i64))) == -value(paid));
    assert(value(paid.product(N::whole(1))) == value(paid));
}

/// What the ledger books of a market order: what was executed, at the price
/// that was paid, with the distance from the price that the signal saw as
/// slippage on every unit.
pub proof fn law_market_orders_are_booked_as_executed<N: Number>(
    value: spec_fn(N) -> real,
    order: TakerOrder<N>,
    executed: N,
    commission: N,
    account: AccountValue<N>,
)
    requires
        reads_exactly(value),
    ensures
        ({
            let booked = taker_report(order, executed, commission, account);
            let moved = value(order.fill_price) - value(order.signal_price);
            &&& booked.direction == order.direction
            &&& booked.quantity == executed
            &&& booked.fill_price == order.fill_price
            &&& booked.signal_price == order.signal_price
            &&& booked.commission == commission
            &&& booked.liquidity == LiquidityType::Taker
            &&& booked.entry_time == order.timestamp && booked.exit_time == order.timestamp
            &&& value(booked.entry_slippage) == (if moved < 0real { -moved } else { moved }) * value(executed)
            &&& booked.exit_slippage == Some(booked.entry_slippage)
        }),
{
}

/// What the ledger books of a limit order: what was executed, at the limit
/// itself, without slippage; an entry counts from when the order was placed.
pub proof fn law_limit_orders_are_booked_at_their_limit<N: Number>(
    order: PendingLimit<N>,
    executed: N,
    commission: N,
    timestamp: i64,
)
    ensures
        ({
            let booked = maker_report(order, executed, commission, timestamp);
            &&& booked.direction == order.direction
            &&& booked.quantity == executed
            &&& booked.fill_price == order.price && booked.signal_price == order.price
            &&& booked.commission == commission
            &&& booked.liquidity == LiquidityType::Maker
            &&& booked.entry_time == order.placed_at && booked.exit_time == timestamp
            &&& booked.entry_slippage == N::whole(0) && booked.exit_slippage is None
            &&& booked.reason == order.reason
        }),
{
}

/// Something was executed where it is at least a ten-billionth, whichever
/// kind of order it was.
pub proof fn law_executed_means_at_least_a_ten_billionth<N: Number>(value: spec_fn(N) -> real, quantity: N)
    requires
        reads_exactly(value),
    ensures
        is_executed(quantity) <==> value(quantity) * 10000000000real >= 1real,
        is_maker_executed(quantity) <==> value(quantity) * 10000000000real >= 1real,
{
    lemma_ratio_reads(value, 1, 10_000_000_000);
    let q = value(quantity);
    let least = value(ratio_of::<N>(1, 10_000_000_000));
    assert(least * 10000000000real == 1real);
    assert(q >= least <==> q * 10000000000real >= 1real) by (nonlinear_arith)
        requires
            least * 10000000000real == 1real,
    ;
}

/// Purchases stand on the bid side of a book and sales on the ask side.
pub proof fn law_purchases_bid_and_sales_ask()
    ensures
        side_of(Direction::Buy) == BookSide::Bid,
        side_of(Direction::Sell) == BookSide::Ask,
{
}

} // verus!
