//! Fills: immediate ones at the market, and resting limit orders that fill
//! when the market crosses them.

use vstd::prelude::*;

use crate::exact::reads_exactly;
use crate::ledger::{ExecutedFill, LiquidityType, TradeLedger};
use crate::number::{ratio, ratio_of, Number};
use crate::signals::{DerivativeMetadata, Direction};
use crate::synthetic_book::{
    distance_bps, half_spread, order_cost, ask_level, bid_level, BookSide, SyntheticBookConfig, SyntheticOrderBook,
};

verus! {

/// A fill as the account takes it in.
#[derive(Debug, Clone, PartialEq)]
pub struct Fill<N> {
    pub order_id: String,
    pub side: BookSide,
    pub price: N,
    pub base_price: Option<N>,
    pub quantity: N,
    pub liquidity_type: LiquidityType,
    pub fee_rate: N,
    pub fee_amount: N,
    pub slippage_bps: Option<N>,
    pub timestamp: i64,
}

/// Calls `uuid::Uuid::new_v4` and writes the identifier with `to_string`. The
/// contract claims only that its hyphenated form has 36 characters: the
/// identifier is random.
#[verifier::external_body]
fn fresh_order_id() -> (id: String)
    ensures
        id@.len() == 36,
{
    uuid::Uuid::new_v4().to_string()
}

/// The side that a direction trades on.
pub open spec fn side_of(direction: Direction) -> BookSide {
    match direction {
        Direction::Buy => BookSide::Bid,
        Direction::Sell => BookSide::Ask,
    }
}

/// Builds a fill under a fresh identifier. Fees are booked separately, so the
/// fill carries none.
pub fn build_fill<N: Number>(
    direction: Direction,
    price: N,
    quantity: N,
    liquidity_type: LiquidityType,
    timestamp: i64,
    base_price: Option<N>,
    slippage_bps: Option<N>,
) -> (fill: Fill<N>)
    ensures
        fill.order_id@.len() == 36,
        fill.side == side_of(direction),
        fill.price == price,
        fill.base_price == base_price,
        fill.quantity == quantity,
        fill.liquidity_type == liquidity_type,
        fill.fee_rate == N::whole(0),
        fill.fee_amount == N::whole(0),
        fill.slippage_bps == slippage_bps,
        fill.timestamp == timestamp,
{
    Fill {
        order_id: fresh_order_id(),
        side: match direction {
            Direction::Buy => BookSide::Bid,
            Direction::Sell => BookSide::Ask,
        },
        price,
        base_price,
        quantity,
        liquidity_type,
        fee_rate: N::of(0),
        fee_amount: N::of(0),
        slippage_bps,
        timestamp,
    }
}

/// Commission of a fill. An option pays the fee of its own schedule, which is
/// given; any other contract pays the rate on its notional, and a plain asset
/// pays the rate on price times quantity.
pub open spec fn commission_of<N: Number>(
    price: N,
    qty: N,
    instrument: Option<DerivativeMetadata<N>>,
    option_fee: N,
    generic_fee_rate: N,
) -> N {
    match instrument {
        Some(contract) => if contract.instrument_kind.is_option_kind() {
            option_fee
        } else {
            price.product(qty).product(contract.contract_multiplier).product(generic_fee_rate)
        },
        None => price.product(qty).product(generic_fee_rate),
    }
}

/// Commission of a fill.
pub fn compute_commission<N: Number>(
    price: N,
    qty: N,
    instrument: Option<&DerivativeMetadata<N>>,
    option_fee: N,
    generic_fee_rate: N,
) -> (commission: N)
    ensures
        commission == commission_of(
            price,
            qty,
            match instrument {
                Some(contract) => Some(*contract),
                None => None,
            },
            option_fee,
            generic_fee_rate,
        ),
{
    match instrument {
        Some(contract) => if contract.instrument_kind.is_option() {
            option_fee
        } else {
            price.times(qty).times(contract.contract_multiplier).times(generic_fee_rate)
        },
        None => price.times(qty).times(generic_fee_rate),
    }
}

/// A fill price moved against the order by a flat number of basis points.
pub open spec fn flat_slippage_price<N: Number>(direction: Direction, price: N, slippage_bps: N) -> N {
    let factor = slippage_bps.quotient(N::whole(10_000));
    match direction {
        Direction::Buy => price.product(N::whole(1).sum(factor)),
        Direction::Sell => price.product(N::whole(1).difference(factor)),
    }
}

/// The result of walking the book that the candle implies.
pub open spec fn is_book_fill<N: Number>(
    direction: Direction,
    qty: N,
    candle: (N, N, N, N),
    config: SyntheticBookConfig<N>,
    result: (N, N),
) -> bool {
    let (close, high, low, volume) = candle;
    let spread = half_spread(close, high, low, config);
    let levels = match direction {
        Direction::Buy => Seq::new(
            config.depth_levels as nat,
            |i: int| ask_level(i as usize, close, high, low, volume, config),
        ),
        Direction::Sell => Seq::new(
            config.depth_levels as nat,
            |i: int| bid_level(i as usize, close, high, low, volume, config),
        ),
    };
    if levels.len() == 0 || qty.at_most(N::whole(0)) {
        result == (
            match direction {
                Direction::Buy => close.sum(spread),
                Direction::Sell => close.difference(spread),
            },
            N::whole(0),
        )
    } else {
        let price = order_cost(levels, qty).quotient(qty);
        result == (price, distance_bps(price, close))
    }
}

/// Price of a market order and the slippage it pays, in basis points: from
/// the book that the candle implies where both are given, else the flat
/// slippage.
pub fn taker_price<N: Number>(
    direction: Direction,
    price: N,
    qty: N,
    slippage_bps: N,
    candle: Option<(N, N, N, N)>,
    book: Option<&SyntheticBookConfig<N>>,
) -> (result: (N, N))
    requires
        book matches Some(config) ==> config.depth_levels <= i32::MAX,
    ensures
        match (candle, book) {
            (Some(bar), Some(config)) => is_book_fill(direction, qty, bar, *config, result),
            _ => result == (flat_slippage_price(direction, price, slippage_bps), slippage_bps),
        },
{
    match (candle, book) {
        (Some((close, high, low, volume)), Some(config)) => {
            let implied = SyntheticOrderBook::from_candle(close, high, low, volume, config);
            let side = match direction {
                Direction::Buy => BookSide::Bid,
                Direction::Sell => BookSide::Ask,
            };
            implied.calculate_slippage(qty, side)
        },
        _ => {
            let factor: N = slippage_bps.over(N::of(10_000));
            let moved: N = match direction {
                Direction::Buy => price.times(N::of(1).plus(factor)),
                Direction::Sell => price.times(N::of(1).minus(factor)),
            };
            (moved, slippage_bps)
        },
    }
}

/// A market order that was sent to the account.
#[derive(Debug, Clone, PartialEq)]
pub struct TakerOrder<N> {
    pub direction: Direction,
    /// Price that the signal saw.
    pub signal_price: N,
    /// Price after slippage.
    pub fill_price: N,
    pub timestamp: i64,
    pub reason: String,
    /// Whether an entry takes the next trade number, or zero.
    pub numbered: bool,
}

/// The account after it booked a fill and its commission.
#[derive(Debug, Clone, Copy, PartialEq)]
pub struct AccountValue<N> {
    pub balance: N,
    pub total_value: N,
}

/// The account executed something of a market order: quantities under 1e-10
/// count as nothing.
pub open spec fn is_executed<N: Number>(quantity: N) -> bool {
    !quantity.below(ratio_of::<N>(1, 10_000_000_000))
}

/// Whether the account executed something of a market order.
pub fn was_executed<N: Number>(quantity: N) -> (r: bool)
    ensures
        r == is_executed(quantity),
{
    !quantity.lt(ratio(1, 10_000_000_000))
}

/// The account executed something of a limit order: quantities from 1e-10 on
/// count. One that cannot be compared, which a market order would book, does
/// not.
pub open spec fn is_maker_executed<N: Number>(quantity: N) -> bool {
    ratio_of::<N>(1, 10_000_000_000).at_most(quantity)
}

/// Whether the account executed something of a limit order.
pub fn was_maker_executed<N: Number>(quantity: N) -> (r: bool)
    ensures
        r == is_maker_executed(quantity),
{
    ratio::<N>(1, 10_000_000_000).le(quantity)
}

/// Cash flow of a fill relative to the account's value: negative for a buy,
/// nothing for an account without balance.
pub open spec fn cash_share_of<N: Number>(direction: Direction, value: N, account: AccountValue<N>) -> N {
    if N::whole(0).below(account.balance) {
        value.product(
            match direction {
                Direction::Buy => N::whole(-1i64),
                Direction::Sell => N::whole(1),
            },
        ).quotient(account.total_value)
    } else {
        N::whole(0)
    }
}

/// What the ledger books for a market order.
pub open spec fn taker_report<N: Number>(
    order: TakerOrder<N>,
    executed: N,
    commission: N,
    account: AccountValue<N>,
) -> ExecutedFill<N> {
    let slippage = order.fill_price.difference(order.signal_price).magnitude().product(executed);
    ExecutedFill {
        direction: order.direction,
        signal_price: order.signal_price,
        fill_price: order.fill_price,
        quantity: executed,
        commission,
        entry_slippage: slippage,
        exit_slippage: Some(slippage),
        cash_share: cash_share_of(order.direction, order.fill_price.product(executed), account),
        liquidity: LiquidityType::Taker,
        entry_time: order.timestamp,
        exit_time: order.timestamp,
        reason: order.reason,
        numbered: order.numbered,
    }
}

/// Books a market order by the quantity that the account executed, never by
/// the quantity that was asked for. Nothing is booked, and no trade counted,
/// where nothing was executed.
pub fn settle_taker_fill<N: Number>(
    ledger: &mut TradeLedger<N>,
    order: TakerOrder<N>,
    executed: N,
    commission: N,
    account: AccountValue<N>,
) -> (booked: bool)
    requires
        old(ledger).num_trades < usize::MAX,
        old(ledger).next_trade_id < usize::MAX,
    ensures
        booked == is_executed(executed),
        booked ==> final(ledger)@ == old(ledger)@.after_fill(taker_report(order, executed, commission, account)),
        !booked ==> *final(ledger) == *old(ledger),
{
    if !was_executed(executed) {
        return false;
    }
    let value: N = order.fill_price.times(executed);
    let cash_share: N = if N::of(0).lt(account.balance) {
        let sign: N = match order.direction {
            Direction::Buy => N::of(-1),
            Direction::Sell => N::of(1),
        };
        value.times(sign).over(account.total_value)
    } else {
        N::of(0)
    };
    let slippage: N = order.fill_price.minus(order.signal_price).abs().times(executed);
    let report: ExecutedFill<N> = ExecutedFill {
        direction: order.direction,
        signal_price: order.signal_price,
        fill_price: order.fill_price,
        quantity: executed,
        commission,
        entry_slippage: slippage,
        exit_slippage: Some(slippage),
        cash_share,
        liquidity: LiquidityType::Taker,
        entry_time: order.timestamp,
        exit_time: order.timestamp,
        reason: order.reason,
        numbered: order.numbered,
    };
    ledger.record_fill(report);
    true
}

/// A limit order waiting for the market to cross its price.
#[derive(Debug, Clone, PartialEq)]
pub struct PendingLimit<N> {
    pub direction: Direction,
    pub price: N,
    pub remaining_quantity: N,
    pub placed_at: i64,
    pub reason: String,
    pub instrument: Option<DerivativeMetadata<N>>,
}

/// The market at a tick.
#[derive(Debug, Clone, Copy, PartialEq)]
pub struct TickMarket<N> {
    pub price: N,
    pub volume: N,
    pub timestamp: i64,
}

/// How realistic limit fills are.
#[derive(Debug, Clone, Copy, PartialEq)]
pub struct FillRules<N> {
    /// An order rests at least this long before it can fill.
    pub latency_ms: u64,
    /// The market must trade through the limit, not only touch it.
    pub adverse_selection: bool,
    /// Share of a tick's volume that may fill our orders.
    pub fill_volume_fraction: N,
}

/// The market crosses the order's limit.
pub open spec fn crosses<N: Number>(order: PendingLimit<N>, price: N, adverse_selection: bool) -> bool {
    match order.direction {
        Direction::Buy => if adverse_selection {
            price.below(order.price)
        } else {
            price.at_most(order.price)
        },
        Direction::Sell => if adverse_selection {
            order.price.below(price)
        } else {
            order.price.at_most(price)
        },
    }
}

/// The order has rested long enough and the market crosses its limit.
pub open spec fn is_due<N: Number>(order: PendingLimit<N>, market: TickMarket<N>, rules: FillRules<N>) -> bool {
    market.timestamp - order.placed_at >= rules.latency_ms && crosses(order, market.price, rules.adverse_selection)
}

/// Progress of one tick's pass over the pending orders.
pub struct LimitPass<N> {
    /// The order to look at next.
    pub next: usize,
    /// Volume that the pass has used up.
    pub used: N,
    /// Orders that were matched.
    pub filled: usize,
    /// Matches that were cut or skipped for want of volume.
    pub constrained: usize,
}

/// An order that the pass fills, and how much of it.
#[derive(Debug, Clone, Copy, PartialEq)]
pub struct LimitMatch<N> {
    pub index: usize,
    pub quantity: N,
}

/// Volume that is left for our orders at a tick.
pub open spec fn volume_left<N: Number>(market: TickMarket<N>, rules: FillRules<N>, used: N) -> N {
    market.volume.product(rules.fill_volume_fraction).difference(used).larger(N::whole(0))
}

/// The first order from `from` on that is due, or the number of orders.
pub open spec fn next_due<N: Number>(
    orders: Seq<PendingLimit<N>>,
    from: int,
    market: TickMarket<N>,
    rules: FillRules<N>,
) -> int
    decreases orders.len() - from,
{
    if from >= orders.len() {
        orders.len() as int
    } else if is_due(orders[from], market, rules) {
        from
    } else {
        next_due(orders, from + 1, market, rules)
    }
}

/// Number of orders from `from` on that are due.
pub open spec fn due_from<N: Number>(
    orders: Seq<PendingLimit<N>>,
    from: int,
    market: TickMarket<N>,
    rules: FillRules<N>,
) -> nat
    decreases orders.len() - from,
{
    if from >= orders.len() {
        0
    } else {
        due_from(orders, from + 1, market, rules) + if is_due(orders[from], market, rules) { 1nat } else { 0 }
    }
}

fn order_is_due<N: Number>(order: &PendingLimit<N>, market: &TickMarket<N>, rules: &FillRules<N>) -> (due: bool)
    ensures
        due == is_due(*order, *market, *rules),
{
    let rested: i128 = market.timestamp as i128 - order.placed_at as i128;
    if rested < rules.latency_ms as i128 {
        return false;
    }
    match order.direction {
        Direction::Buy => if rules.adverse_selection {
            market.price.lt(order.price)
        } else {
            market.price.le(order.price)
        },
        Direction::Sell => if rules.adverse_selection {
            order.price.lt(market.price)
        } else {
            order.price.le(market.price)
        },
    }
}

impl<N: Number> LimitPass<N> {
    /// Starts a pass at the first order.
    pub fn new() -> (pass: Self)
        ensures
            pass.next == 0,
            pass.used == N::whole(0),
            pass.filled == 0,
            pass.constrained == 0,
    {
        LimitPass { next: 0, used: N::of(0), filled: 0, constrained: 0 }
    }

    /// The next order to fill, if any. It is the next one that is due; where
    /// no volume is left, every order that is due counts as constrained and
    /// none is filled. The quantity is what remains of the order, cut to the
    /// volume that is left.
    pub fn next_match(
        &mut self,
        orders: &Vec<PendingLimit<N>>,
        market: &TickMarket<N>,
        rules: &FillRules<N>,
    ) -> (found: Option<LimitMatch<N>>)
        requires
            old(self).next <= orders@.len(),
            old(self).filled < usize::MAX,
            old(self).constrained + orders@.len() <= usize::MAX,
        ensures
            final(self).next <= orders@.len(),
            ({
                let left = volume_left(*market, *rules, old(self).used);
                let k = next_due(orders@, old(self).next as int, *market, *rules);
                if left.at_most(N::whole(0)) {
                    &&& found is None
                    &&& final(self).next == orders@.len()
                    &&& final(self).constrained == old(self).constrained + due_from(
                        orders@,
                        old(self).next as int,
                        *market,
                        *rules,
                    )
                    &&& final(self).used == old(self).used
                    &&& final(self).filled == old(self).filled
                } else if k == orders@.len() {
                    &&& found is None
                    &&& final(self).next == orders@.len()
                    &&& final(self).constrained == old(self).constrained
                    &&& final(self).used == old(self).used
                    &&& final(self).filled == old(self).filled
                } else {
                    let remaining = orders@[k].remaining_quantity;
                    let quantity = remaining.smaller(left);
                    &&& found == Some(LimitMatch { index: k as usize, quantity })
                    &&& final(self).next == k
                    &&& final(self).constrained == old(self).constrained + if quantity.below(remaining) {
                        1int
                    } else {
                        0
                    }
                    &&& final(self).used == old(self).used.sum(quantity)
                    &&& final(self).filled == old(self).filled + 1
                }
            }),
            found matches Some(m) ==> m.index < orders@.len(),
            found matches Some(m) ==> market.timestamp - orders@[m.index as int].placed_at >= rules.latency_ms,
            found matches Some(m) ==> (orders@[m.index as int].direction == Direction::Sell ==> if rules.adverse_selection {
                orders@[m.index as int].price.below(market.price)
            } else {
                orders@[m.index as int].price.at_most(market.price)
            }),
            found matches Some(m) ==> (orders@[m.index as int].direction == Direction::Buy ==> if rules.adverse_selection {
                market.price.below(orders@[m.index as int].price)
            } else {
                market.price.at_most(orders@[m.index as int].price)
            }),
    {
        let left: N = market.volume.times(rules.fill_volume_fraction).minus(self.used).max(N::of(0));
        let exhausted = left.le(N::of(0));
        let ghost start = self.next as int;
        let mut skipped: usize = 0;
        while self.next < orders.len()
            invariant
                start <= self.next <= orders@.len(),
                start == old(self).next,
                left == volume_left(*market, *rules, old(self).used),
                exhausted == left.at_most(N::whole(0)),
                self.used == old(self).used,
                self.filled == old(self).filled,
                self.constrained == old(self).constrained,
                old(self).filled < usize::MAX,
                old(self).constrained + orders@.len() <= usize::MAX,
                skipped <= self.next - start,
                exhausted ==> skipped + due_from(orders@, self.next as int, *market, *rules) == due_from(
                    orders@,
                    start,
                    *market,
                    *rules,
                ),
                !exhausted ==> skipped == 0 && next_due(orders@, self.next as int, *market, *rules) == next_due(
                    orders@,
                    start,
                    *market,
                    *rules,
                ),
            decreases orders@.len() - self.next,
        {
            let order: &PendingLimit<N> = &orders[self.next];
            if order_is_due(order, market, rules) {
                if exhausted {
                    skipped = skipped + 1;
                } else {
                    let quantity: N = order.remaining_quantity.min(left);
                    if quantity.lt(order.remaining_quantity) {
                        self.constrained = self.constrained + 1;
                    }
                    self.used = self.used.plus(quantity);
                    self.filled = self.filled + 1;
                    return Some(LimitMatch { index: self.next, quantity });
                }
            }
            self.next = self.next + 1;
        }
        self.constrained = self.constrained + skipped;
        None
    }

    /// Takes the matched quantity off the order. An order with no more than
    /// 1e-12 left is removed, the last order taking its place; any other
    /// keeps the rest, and the pass moves on.
    pub fn finish_match(&mut self, orders: &mut Vec<PendingLimit<N>>, m: LimitMatch<N>)
        requires
            m.index < old(orders)@.len(),
            old(self).next == m.index,
        ensures
            final(self).used == old(self).used,
            final(self).filled == old(self).filled,
            final(self).constrained == old(self).constrained,
            ({
                let k = m.index as int;
                let order = old(orders)@[k];
                let left = order.remaining_quantity.difference(m.quantity);
                if left.at_most(ratio_of::<N>(1, 1_000_000_000_000)) {
                    &&& final(orders)@ == old(orders)@.update(k, old(orders)@.last()).drop_last()
                    &&& final(self).next == k
                } else {
                    &&& final(orders)@ == old(orders)@.update(
                        k,
                        (PendingLimit { remaining_quantity: left, ..order }),
                    )
                    &&& final(self).next == k + 1
                }
            }),
            final(self).next <= final(orders)@.len(),
            final(orders)@.len() - final(self).next == old(orders)@.len() - m.index - 1,
            final(orders)@.len() == old(orders)@.len() ==> forall|value: spec_fn(N) -> real| #[trigger]
                reads_exactly(value) ==> value(final(orders)@[m.index as int].remaining_quantity) + value(m.quantity)
                    == value(old(orders)@[m.index as int].remaining_quantity),
    {
        let left: N = orders[m.index].remaining_quantity.minus(m.quantity);
        let ghost before = orders@;
        if left.le(ratio(1, 1_000_000_000_000)) {
            let removed = orders.swap_remove(m.index);
            assert(orders@ =~= before.update(m.index as int, before.last()).drop_last());
        } else {
            let order: &PendingLimit<N> = &orders[m.index];
            let kept: PendingLimit<N> = PendingLimit {
                direction: order.direction,
                price: order.price,
                remaining_quantity: left,
                placed_at: order.placed_at,
                reason: order.reason.clone(),
                instrument: match &order.instrument {
                    Some(contract) => Some(contract.duplicate()),
                    None => None,
                },
            };
            assert(orders@.len() == orders.len());
            orders.set(m.index, kept);
            self.next = m.index + 1;
        }
    }
}

/// What the ledger books for a limit order: its own price, no slippage, and
/// the time at which it was placed as the time of an entry.
pub open spec fn maker_report<N: Number>(
    order: PendingLimit<N>,
    executed: N,
    commission: N,
    timestamp: i64,
) -> ExecutedFill<N> {
    ExecutedFill {
        direction: order.direction,
        signal_price: order.price,
        fill_price: order.price,
        quantity: executed,
        commission,
        entry_slippage: N::whole(0),
        exit_slippage: None,
        cash_share: N::whole(0),
        liquidity: LiquidityType::Maker,
        entry_time: order.placed_at,
        exit_time: timestamp,
        reason: order.reason,
        numbered: true,
    }
}

/// Books the fill of a limit order by the quantity that the account executed;
/// nothing where nothing was executed.
pub fn settle_maker_fill<N: Number>(
    ledger: &mut TradeLedger<N>,
    order: &PendingLimit<N>,
    executed: N,
    commission: N,
    timestamp: i64,
) -> (booked: bool)
    requires
        old(ledger).num_trades < usize::MAX,
        old(ledger).next_trade_id < usize::MAX,
    ensures
        booked == is_maker_executed(executed),
        booked ==> final(ledger)@ == old(ledger)@.after_fill(maker_report(*order, executed, commission, timestamp)),
        !booked ==> *final(ledger) == *old(ledger),
{
    if !was_maker_executed(executed) {
        return false;
    }
    let report: ExecutedFill<N> = ExecutedFill {
        direction: order.direction,
        signal_price: order.price,
        fill_price: order.price,
        quantity: executed,
        commission,
        entry_slippage: N::of(0),
        exit_slippage: None,
        cash_share: N::of(0),
        liquidity: LiquidityType::Maker,
        entry_time: order.placed_at,
        exit_time: timestamp,
        reason: order.reason.clone(),
        numbered: true,
    };
    ledger.record_fill(report);
    true
}

} // verus!
