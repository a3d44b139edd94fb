//! A directional simulation run: what it asks of the strategy, what each
//! signal does, and how the run is recorded tick by tick.

use vstd::prelude::*;

use crate::exact::reads_exactly;
use crate::ledger::PositionSide;
use crate::number::{ratio, ratio_of, Number};
use crate::signals::{
    direction_of, extract_instrument, instrument_of, price_by_symbol, spread_leg_price_at, to_directional_signal,
    DerivativeMetadata, Direction, OptionSpreadLeg, SignalCounts, SignalType, SpreadLeg,
};
use crate::text::same_text;

verus! {

/// Ticks between two samples of the equity curve: every tick, or about ten
/// thousand samples for more than a million ticks.
pub open spec fn sample_interval_for(total: nat) -> int {
    if total > 1_000_000 {
        (total / 10_000) as int
    } else {
        1
    }
}

/// Ticks between two samples of the equity curve.
pub fn equity_sample_interval(total: usize) -> (interval: usize)
    ensures
        interval == sample_interval_for(total as nat),
        interval >= 1,
{
    if total > 1_000_000 {
        total / 10_000
    } else {
        1
    }
}

/// Leverage of a run: the lower of the configured one and the strategy's own
/// cap, and at least one.
pub fn effective_leverage<N: Number>(configured: N, strategy_declared_cap: N) -> (leverage: N)
    ensures
        leverage == configured.smaller(strategy_declared_cap).larger(N::whole(1)),
        forall|value: spec_fn(N) -> real| #[trigger]
            reads_exactly(value) ==> value(leverage) >= 1real && (value(leverage) > 1real ==> value(leverage) <= value(
                configured,
            ) && value(leverage) <= value(strategy_declared_cap)) && (value(configured) >= 1real && value(
                strategy_declared_cap,
            ) >= 1real ==> value(leverage) == value(configured) || value(leverage) == value(strategy_declared_cap)),
{
    proof {
        assert forall|value: spec_fn(N) -> real| #[trigger] reads_exactly(value) implies value(N::whole(1)) == 1real by {}
    }
    configured.min(strategy_declared_cap).max(N::of(1))
}

/// A sizing parameter that may be declared under two names. Each is absent,
/// or present with a value that may not be a number.
#[derive(Debug, Clone, Copy)]
pub struct SizingKnobs<N> {
    pub position_size_pct: Option<Option<N>>,
    pub risk_per_trade: Option<Option<N>>,
}

impl<N: Number> SizingKnobs<N> {
    /// The number under the first name that is present.
    pub open spec fn declared(self) -> Option<N> {
        match self.position_size_pct {
            Some(value) => value,
            None => match self.risk_per_trade {
                Some(value) => value,
                None => None,
            },
        }
    }

    fn first(&self) -> (value: Option<N>)
        ensures
            value == self.declared(),
    {
        match self.position_size_pct {
            Some(value) => value,
            None => match self.risk_per_trade {
                Some(value) => value,
                None => None,
            },
        }
    }
}

/// A number is positive and finite.
pub open spec fn is_usable<N: Number>(value: N) -> bool {
    N::whole(0).below(value) && value.at_most(N::limit())
}

fn usable<N: Number>(value: N) -> (r: bool)
    ensures
        r == is_usable(value),
{
    N::of(0).lt(value) && value.le(N::largest())
}

/// Share of equity per entry: the override, else the strategy's default
/// where it may be consulted, at most the whole; two percent where neither is
/// a positive number.
pub open spec fn position_size<N: Number>(
    overrides: SizingKnobs<N>,
    defaults: Option<SizingKnobs<N>>,
    log_is_capped: bool,
) -> N {
    let resolved = match overrides.declared() {
        Some(value) => Some(value),
        None => if log_is_capped {
            None
        } else {
            match defaults {
                Some(knobs) => knobs.declared(),
                None => None,
            }
        },
    };
    match resolved {
        Some(value) => if is_usable(value) {
            value.smaller(N::whole(1))
        } else {
            ratio_of::<N>(2, 100)
        },
        None => ratio_of::<N>(2, 100),
    }
}

/// Share of equity per entry for signals without a quantity. The strategy's
/// defaults are consulted only for runs whose trade log has no limit.
pub fn resolve_position_size_pct<N: Number>(
    overrides: SizingKnobs<N>,
    defaults: Option<SizingKnobs<N>>,
    max_trade_log_size: Option<usize>,
) -> (pct: N)
    ensures
        pct == position_size(overrides, defaults, max_trade_log_size is Some),
{
    let resolved: Option<N> = match overrides.first() {
        Some(value) => Some(value),
        None => match max_trade_log_size {
            Some(_) => None,
            None => match defaults {
                Some(knobs) => knobs.first(),
                None => None,
            },
        },
    };
    if let Some(value) = resolved {
        if usable(value) {
            return value.min(N::of(1));
        }
    }
    ratio(2, 100)
}

/// Share of equity for one tick: the strategy's own where it is above zero
/// and at most the whole, else the run's.
pub open spec fn tick_size<N: Number>(sizes: Option<Seq<N>>, tick_idx: int, fallback: N) -> N {
    match sizes {
        Some(series) => if tick_idx < series.len() && N::whole(0).below(series[tick_idx])
            && series[tick_idx].at_most(N::whole(1)) {
            series[tick_idx]
        } else {
            fallback
        },
        None => fallback,
    }
}

/// Share of equity for one tick.
pub fn effective_size_pct<N: Number>(sizes: Option<&[N]>, tick_idx: usize, fallback: N) -> (pct: N)
    ensures
        pct == tick_size(
            match sizes {
                Some(series) => Some(series@),
                None => None,
            },
            tick_idx as int,
            fallback,
        ),
{
    match sizes {
        Some(series) => if tick_idx < series.len() {
            let value: N = series[tick_idx];
            if N::of(0).lt(value) && value.le(N::of(1)) {
                value
            } else {
                fallback
            }
        } else {
            fallback
        },
        None => fallback,
    }
}

/// Volatility to price a contract's sensitivities with: that of the implied
/// surface for a contract with strike and expiry, else the fallback. Only a
/// positive finite one can be used; nothing where neither is.
pub open spec fn greeks_vol<N: Number>(
    surface_iv: Option<N>,
    contract: DerivativeMetadata<N>,
    fallback_vol: Option<N>,
) -> Option<N> {
    let has_point = contract.instrument_kind.strike_price() is Some && contract.instrument_kind.expiry_ms() is Some;
    if has_point && surface_iv is Some && is_usable(surface_iv->0) {
        surface_iv
    } else if fallback_vol is Some && is_usable(fallback_vol->0) {
        fallback_vol
    } else {
        None
    }
}

/// Volatility to price a contract's sensitivities with.
pub fn select_greeks_vol<N: Number>(
    surface_iv: Option<N>,
    instrument: &DerivativeMetadata<N>,
    fallback_vol: Option<N>,
) -> (vol: Option<N>)
    ensures
        vol == greeks_vol(surface_iv, *instrument, fallback_vol),
{
    if instrument.instrument_kind.strike().is_some() && instrument.instrument_kind.expiry().is_some() {
        if let Some(vol) = surface_iv {
            if usable(vol) {
                return Some(vol);
            }
        }
    }
    match fallback_vol {
        Some(vol) => if usable(vol) {
            Some(vol)
        } else {
            None
        },
        None => None,
    }
}

/// An account position as the run sees it.
#[derive(Debug, Clone, PartialEq)]
pub struct PositionSnapshot<N> {
    pub side: PositionSide,
    pub quantity: N,
    pub instrument: Option<DerivativeMetadata<N>>,
    pub is_closed: bool,
}

impl<N: Number> PositionSnapshot<N> {
    /// The margin call does not apply to the position.
    pub open spec fn is_exempt(self) -> bool {
        self.is_closed || match self.instrument {
            Some(contract) => contract.instrument_kind.is_option_kind(),
            None => false,
        }
    }

    /// The position is open and its contract has expired.
    pub open spec fn has_expired(self, now_ms: int) -> bool {
        !self.is_closed && match self.instrument {
            Some(contract) => match contract.instrument_kind.expiry_ms() {
                Some(expiry) => expiry <= now_ms,
                None => false,
            },
            None => false,
        }
    }

    fn expired(&self, now_ms: i64) -> (r: bool)
        ensures
            r == self.has_expired(now_ms as int),
    {
        if self.is_closed {
            return false;
        }
        match &self.instrument {
            Some(contract) => match contract.instrument_kind.expiry() {
                Some(expiry) => expiry <= now_ms,
                None => false,
            },
            None => false,
        }
    }
}

/// Whether the margin call does not apply to a position: closed positions and
/// options are exempt, futures are not.
pub fn is_exempt_from_leverage_liquidation_check<N: Number>(position: &PositionSnapshot<N>) -> (exempt: bool)
    ensures
        exempt == position.is_exempt(),
{
    position.is_closed || match &position.instrument {
        Some(contract) => contract.instrument_kind.is_option(),
        None => false,
    }
}

/// The price that a margin call looks at: the low of the candle for a long
/// position and the high for a short one, else the current price.
pub fn liquidation_price<N: Number>(
    side: PositionSide,
    candle: Option<(N, N, N, N)>,
    current_price: N,
) -> (price: N)
    ensures
        price == match candle {
            Some(bar) => match side {
                PositionSide::Long => bar.2,
                PositionSide::Short => bar.1,
            },
            None => current_price,
        },
{
    match candle {
        Some(bar) => match side {
            PositionSide::Long => bar.2,
            PositionSide::Short => bar.1,
        },
        None => current_price,
    }
}

/// Some position that the margin call applies to has been pushed through its
/// liquidation price.
pub open spec fn margin_called<N: Number>(positions: Seq<PositionSnapshot<N>>, breached: Seq<bool>) -> bool {
    exists|i: int|
        0 <= i < positions.len() && i < breached.len() && !(#[trigger] positions[i]).is_exempt() && breached[i]
}

/// Whether a margin call is triggered. `breached` tells for each position
/// whether the price went through its liquidation price.
pub fn margin_call_triggered<N: Number>(positions: &[PositionSnapshot<N>], breached: &[bool]) -> (triggered: bool)
    ensures
        triggered == margin_called(positions@, breached@),
{
    let mut i: usize = 0;
    while i < positions.len() && i < breached.len()
        invariant
            i <= positions@.len(),
            i <= breached@.len(),
            forall|k: int| 0 <= k < i ==> (#[trigger] positions@[k]).is_exempt() || !breached@[k],
        decreases positions@.len() - i,
    {
        if breached[i] && !is_exempt_from_leverage_liquidation_check(&positions[i]) {
            assert(!positions@[i as int].is_exempt());
            return true;
        }
        i = i + 1;
    }
    false
}

/// An order that closes a position.
#[derive(Debug, Clone, PartialEq)]
pub struct ExitOrder<N> {
    pub direction: Direction,
    pub quantity: N,
    pub instrument: Option<DerivativeMetadata<N>>,
}

/// The order that closes a position: the other way, in full, on the
/// position's own contract.
pub open spec fn exit_of<N>(position: PositionSnapshot<N>) -> ExitOrder<N> {
    ExitOrder {
        direction: match position.side {
            PositionSide::Long => Direction::Sell,
            PositionSide::Short => Direction::Buy,
        },
        quantity: position.quantity,
        instrument: position.instrument,
    }
}

/// Exits of the positions to be closed, in order. Either every open position
/// is closed, or only those that have expired.
pub open spec fn exits_of<N: Number>(positions: Seq<PositionSnapshot<N>>, expired_at: Option<int>) -> Seq<ExitOrder<N>>
    decreases positions.len(),
{
    if positions.len() == 0 {
        Seq::empty()
    } else {
        let before = exits_of(positions.drop_last(), expired_at);
        let position = positions.last();
        let closes = match expired_at {
            Some(now) => position.has_expired(now),
            None => !position.is_closed,
        };
        if closes {
            before.push(exit_of(position))
        } else {
            before
        }
    }
}

fn exit_order<N: Number>(position: &PositionSnapshot<N>) -> (order: ExitOrder<N>)
    ensures
        order == exit_of(*position),
{
    ExitOrder {
        direction: match position.side {
            PositionSide::Long => Direction::Sell,
            PositionSide::Short => Direction::Buy,
        },
        quantity: position.quantity,
        instrument: match &position.instrument {
            Some(contract) => Some(contract.duplicate()),
            None => None,
        },
    }
}

/// Positions that are open.
pub fn count_open<N: Number>(positions: &[PositionSnapshot<N>]) -> (count: usize)
    ensures
        count == exits_of(positions@, None).len(),
        count <= positions@.len(),
{
    let mut count: usize = 0;
    let mut i: usize = 0;
    assert(positions@.take(0) =~= Seq::empty());
    while i < positions.len()
        invariant
            i <= positions@.len(),
            count <= i,
            count == exits_of(positions@.take(i as int), None).len(),
        decreases positions@.len() - i,
    {
        assert(positions@.take(i as int + 1).drop_last() =~= positions@.take(i as int));
        if !positions[i].is_closed {
            count = count + 1;
        }
        i = i + 1;
    }
    assert(positions@.take(i as int) =~= positions@);
    count
}

/// Orders that close every open position, each on its own contract.
pub fn close_all_positions<N: Number>(positions: &[PositionSnapshot<N>]) -> (exits: Vec<ExitOrder<N>>)
    ensures
        exits@ == exits_of(positions@, None),
{
    let mut exits: Vec<ExitOrder<N>> = Vec::new();
    let mut i: usize = 0;
    assert(positions@.take(0) =~= Seq::empty());
    while i < positions.len()
        invariant
            i <= positions@.len(),
            exits@ == exits_of(positions@.take(i as int), None),
        decreases positions@.len() - i,
    {
        assert(positions@.take(i as int + 1).drop_last() =~= positions@.take(i as int));
        if !positions[i].is_closed {
            exits.push(exit_order(&positions[i]));
        }
        i = i + 1;
    }
    assert(positions@.take(i as int) =~= positions@);
    exits
}

/// Orders that close every open position whose contract has expired.
pub fn close_expired_positions<N: Number>(
    positions: &[PositionSnapshot<N>],
    now_ms: i64,
) -> (exits: Vec<ExitOrder<N>>)
    ensures
        exits@ == exits_of(positions@, Some(now_ms as int)),
{
    let mut exits: Vec<ExitOrder<N>> = Vec::new();
    let mut i: usize = 0;
    assert(positions@.take(0) =~= Seq::empty());
    while i < positions.len()
        invariant
            i <= positions@.len(),
            exits@ == exits_of(positions@.take(i as int), Some(now_ms as int)),
        decreases positions@.len() - i,
    {
        assert(positions@.take(i as int + 1).drop_last() =~= positions@.take(i as int));
        if positions[i].expired(now_ms) {
            exits.push(exit_order(&positions[i]));
        }
        i = i + 1;
    }
    assert(positions@.take(i as int) =~= positions@);
    exits
}

/// The order of an emergency exit: it takes the net position back to flat.
pub fn emergency_exit<N: Number>(net_position: N) -> (order: Option<(Direction, N)>)
    ensures
        order == if N::whole(0).below(net_position.magnitude()) {
            Some(
                (
                    if N::whole(0).below(net_position) { Direction::Sell } else { Direction::Buy },
                    net_position.magnitude(),
                ),
            )
        } else {
            None
        },
        forall|value: spec_fn(N) -> real| #[trigger]
            reads_exactly(value) ==> match order {
                Some((Direction::Sell, quantity)) => value(net_position) > 0real && value(net_position) - value(quantity)
                    == 0real,
                Some((Direction::Buy, quantity)) => value(net_position) < 0real && value(net_position) + value(quantity)
                    == 0real,
                None => value(net_position) == 0real,
            },
{
    proof {
        assert forall|value: spec_fn(N) -> real| #[trigger] reads_exactly(value) implies value(N::whole(0)) == 0real by {}
    }
    let quantity: N = net_position.abs();
    if N::of(0).lt(quantity) {
        let direction = if N::of(0).lt(net_position) {
            Direction::Sell
        } else {
            Direction::Buy
        };
        Some((direction, quantity))
    } else {
        None
    }
}

/// One leg of a spread, ready to be placed.
#[derive(Debug, Clone, PartialEq)]
pub struct LegOrder<N> {
    pub direction: Direction,
    pub quantity: N,
    pub price: N,
    pub is_limit: bool,
    pub instrument: Option<DerivativeMetadata<N>>,
}

/// Quantity of a leg: the signal's, times the size of its ratio.
pub open spec fn leg_quantity_of<N: Number>(signal_qty: N, ratio: int) -> N {
    signal_qty.product(N::whole((if ratio < 0 { -ratio } else { ratio }) as i64))
}

/// Quantity of a leg.
pub fn leg_quantity<N: Number>(signal_qty: N, leg_ratio: i32) -> (quantity: N)
    ensures
        quantity == leg_quantity_of(signal_qty, leg_ratio as int),
{
    let size: i64 = if leg_ratio < 0 { -(leg_ratio as i64) } else { leg_ratio as i64 };
    signal_qty.times(N::of(size))
}

/// What a spread signal is placed with.
pub struct SpreadContext<'a, N> {
    pub signal_qty: N,
    pub signal_price: N,
    pub is_limit: bool,
    pub tick_idx: usize,
    pub option_spread: Option<&'a [OptionSpreadLeg<N>]>,
}

/// A leg can be placed: it has a ratio, a direction and a positive quantity,
/// and the risk manager lets it proceed.
pub open spec fn leg_is_valid<N: Number>(leg: SpreadLeg<N>, signal_qty: N, proceeds: bool) -> bool {
    leg.ratio != 0 && direction_of(leg.signal_type) is Some && !leg_quantity_of(
        signal_qty,
        leg.ratio as int,
    ).at_most(N::whole(0)) && proceeds
}

/// The order of a leg. Its own limit price comes first, else the price of its
/// own contract at the tick.
pub open spec fn leg_order_of<'a, N: Number>(leg: SpreadLeg<N>, context: SpreadContext<'a, N>) -> LegOrder<N> {
    let instrument = instrument_of(leg.signal_type);
    LegOrder {
        direction: direction_of(leg.signal_type).unwrap(),
        quantity: leg_quantity_of(context.signal_qty, leg.ratio as int),
        price: match leg.limit_price {
            Some(price) => price,
            None => match (context.option_spread, instrument) {
                (Some(legs), Some(contract)) => price_by_symbol(
                    legs@,
                    contract.symbol@,
                    context.tick_idx as int,
                    context.signal_price,
                ),
                _ => context.signal_price,
            },
        },
        is_limit: leg.limit_price is Some || context.is_limit,
        instrument,
    }
}

/// Plans the orders of a spread, all or none: where any leg is invalid or the
/// risk manager holds it back, nothing is placed. `proceeds` holds the risk
/// manager's answer for each leg.
pub fn plan_spread<'a, N: Number>(
    legs: &Vec<SpreadLeg<N>>,
    context: &SpreadContext<'a, N>,
    proceeds: &Vec<bool>,
) -> (plan: Option<Vec<LegOrder<N>>>)
    requires
        proceeds@.len() == legs@.len(),
    ensures
        plan is Some <==> legs@.len() > 0 && forall|i: int|
            0 <= i < legs@.len() ==> leg_is_valid(#[trigger] legs@[i], context.signal_qty, proceeds@[i]),
        plan matches Some(orders) ==> orders@ == legs@.map_values(|leg: SpreadLeg<N>| leg_order_of(leg, *context)),
{
    if legs.len() == 0 {
        return None;
    }
    let mut orders: Vec<LegOrder<N>> = Vec::new();
    let mut i: usize = 0;
    while i < legs.len()
        invariant
            i <= legs@.len(),
            proceeds@.len() == legs@.len(),
            forall|k: int| 0 <= k < i ==> leg_is_valid(#[trigger] legs@[k], context.signal_qty, proceeds@[k]),
            orders@ =~= legs@.take(i as int).map_values(|leg: SpreadLeg<N>| leg_order_of(leg, *context)),
        decreases legs@.len() - i,
    {
        let leg: &SpreadLeg<N> = &legs[i];
        let quantity: N = leg_quantity(context.signal_qty, leg.ratio);
        let direction: Direction = match to_directional_signal(&leg.signal_type) {
            Some(direction) => direction,
            None => {
                assert(!leg_is_valid(legs@[i as int], context.signal_qty, proceeds@[i as int]));
                return None;
            },
        };
        if leg.ratio == 0 || quantity.le(N::of(0)) || !proceeds[i] {
            assert(!leg_is_valid(legs@[i as int], context.signal_qty, proceeds@[i as int]));
            return None;
        }
        let instrument = extract_instrument(&leg.signal_type);
        let price: N = match leg.limit_price {
            Some(price) => price,
            None => spread_leg_price_at(
                context.option_spread,
                instrument.as_ref(),
                context.tick_idx,
                context.signal_price,
            ),
        };
        let is_limit = leg.limit_price.is_some() || context.is_limit;
        orders.push(LegOrder { direction, quantity, price, is_limit, instrument });
        i = i + 1;
    }
    assert(legs@.take(i as int) =~= legs@);
    Some(orders)
}

/// What a signal makes the run do.
#[derive(Debug, Clone, Copy, PartialEq, Eq, Structural)]
pub enum SignalPlan {
    /// Send an order in a direction.
    Order(Direction),
    /// Place the legs of a spread.
    Spread,
    /// Close every open position.
    CloseAll,
    /// Take the net position back to flat.
    EmergencyExit,
    /// Drop the pending limit orders.
    ClearPending,
    /// Queue a bid and an ask.
    Quote,
    /// Nothing.
    Ignore,
}

/// What a signal makes the run do.
pub open spec fn plan_of<N: Number>(signal_type: SignalType<N>) -> SignalPlan {
    match signal_type {
        SignalType::OptionSpread { .. } => SignalPlan::Spread,
        SignalType::Close => SignalPlan::CloseAll,
        SignalType::StopLoss => SignalPlan::EmergencyExit,
        SignalType::TakeProfit => SignalPlan::EmergencyExit,
        SignalType::CancelQuotes => SignalPlan::ClearPending,
        SignalType::TwoSidedQuote { .. } => SignalPlan::Quote,
        _ => match direction_of(signal_type) {
            Some(direction) => SignalPlan::Order(direction),
            None => SignalPlan::Ignore,
        },
    }
}

/// What a signal makes the run do.
pub fn plan_signal<N: Number>(signal_type: &SignalType<N>) -> (plan: SignalPlan)
    ensures
        plan == plan_of(*signal_type),
{
    match signal_type {
        SignalType::OptionSpread { .. } => SignalPlan::Spread,
        SignalType::Close => SignalPlan::CloseAll,
        SignalType::StopLoss => SignalPlan::EmergencyExit,
        SignalType::TakeProfit => SignalPlan::EmergencyExit,
        SignalType::CancelQuotes => SignalPlan::ClearPending,
        SignalType::TwoSidedQuote { .. } => SignalPlan::Quote,
        _ => match to_directional_signal(signal_type) {
            Some(direction) => SignalPlan::Order(direction),
            None => SignalPlan::Ignore,
        },
    }
}

/// The counts with one more signal: exercises, hedges, spreads, exits and
/// quotes are not counted.
pub open spec fn counted_with<N>(counts: SignalCounts, signal_type: SignalType<N>) -> SignalCounts {
    match signal_type {
        SignalType::Buy => SignalCounts { buy: (counts.buy + 1) as usize, ..counts },
        SignalType::ScaleIn => SignalCounts { buy: (counts.buy + 1) as usize, ..counts },
        SignalType::BuyOption { .. } => SignalCounts { buy: (counts.buy + 1) as usize, ..counts },
        SignalType::BuyFuture { .. } => SignalCounts { buy: (counts.buy + 1) as usize, ..counts },
        SignalType::Sell => SignalCounts { sell: (counts.sell + 1) as usize, ..counts },
        SignalType::ScaleOut => SignalCounts { sell: (counts.sell + 1) as usize, ..counts },
        SignalType::SellOption { .. } => SignalCounts { sell: (counts.sell + 1) as usize, ..counts },
        SignalType::SellFuture { .. } => SignalCounts { sell: (counts.sell + 1) as usize, ..counts },
        SignalType::Close => SignalCounts { close: (counts.close + 1) as usize, ..counts },
        SignalType::Hold => SignalCounts { hold: (counts.hold + 1) as usize, ..counts },
        SignalType::CancelQuotes => SignalCounts { hold: (counts.hold + 1) as usize, ..counts },
        _ => counts,
    }
}

/// Counts a signal.
pub fn count_signal<N: Number>(counts: &mut SignalCounts, signal_type: &SignalType<N>)
    requires
        old(counts).buy < usize::MAX,
        old(counts).sell < usize::MAX,
        old(counts).close < usize::MAX,
        old(counts).hold < usize::MAX,
    ensures
        *final(counts) == counted_with(*old(counts), *signal_type),
{
    match signal_type {
        SignalType::Buy => counts.buy = counts.buy + 1,
        SignalType::ScaleIn => counts.buy = counts.buy + 1,
        SignalType::BuyOption { .. } => counts.buy = counts.buy + 1,
        SignalType::BuyFuture { .. } => counts.buy = counts.buy + 1,
        SignalType::Sell => counts.sell = counts.sell + 1,
        SignalType::ScaleOut => counts.sell = counts.sell + 1,
        SignalType::SellOption { .. } => counts.sell = counts.sell + 1,
        SignalType::SellFuture { .. } => counts.sell = counts.sell + 1,
        SignalType::Close => counts.close = counts.close + 1,
        SignalType::Hold => counts.hold = counts.hold + 1,
        SignalType::CancelQuotes => counts.hold = counts.hold + 1,
        _ => {},
    }
}

/// Volatility per year from that per bar, where it is known.
pub open spec fn per_year<N: Number>(readings: Seq<Option<N>>, bars_per_year: N) -> Seq<Option<N>> {
    readings.map_values(
        |reading: Option<N>|
            match reading {
                Some(deviation) => Some(deviation.product(bars_per_year.root())),
                None => None,
            },
    )
}

/// Volatility per year of an underlying, from its volatility per bar. The
/// bars per year follow from the times, through a function of their number
/// and of the seconds that they span; without two times there are 365. A
/// series without two prices has no volatility.
pub fn annualized_underlying_realized_vol<N: Number, F: Fn(usize, N) -> N>(
    series: &[N],
    timestamps_ms: &[i64],
    readings: &[Option<N>],
    observations_per_year: F,
) -> (volatilities: Vec<Option<N>>)
    requires
        timestamps_ms@.len() >= 2 ==> i64::MIN <= timestamps_ms@.last() - timestamps_ms@[0] <= i64::MAX,
        forall|n: usize, seconds: N| call_requires(observations_per_year, (n, seconds)),
    ensures
        series@.len() < 2 ==> volatilities@.len() == 0,
        series@.len() >= 2 && timestamps_ms@.len() < 2 ==> volatilities@ == per_year(readings@, N::whole(365)),
        series@.len() >= 2 && timestamps_ms@.len() >= 2 ==> exists|bars: N| #[trigger]
            call_ensures(
                observations_per_year,
                (
                    timestamps_ms@.len() as usize,
                    N::whole((timestamps_ms@.last() - timestamps_ms@[0]) as i64).quotient(N::whole(1000)),
                ),
                bars,
            ) && volatilities@ == per_year(readings@, bars),
{
    let mut volatilities: Vec<Option<N>> = Vec::new();
    if series.len() < 2 {
        return volatilities;
    }
    let count: usize = timestamps_ms.len();
    assert(timestamps_ms@.len() == count);
    let bars: N = if count >= 2 {
        let span: i64 = timestamps_ms[count - 1] - timestamps_ms[0];
        observations_per_year(count, N::of(span).over(N::of(1000)))
    } else {
        N::of(365)
    };
    let mut i: usize = 0;
    while i < readings.len()
        invariant
            i <= readings@.len(),
            volatilities@ =~= per_year(readings@.take(i as int), bars),
        decreases readings@.len() - i,
    {
        let reading: Option<N> = match readings[i] {
            Some(deviation) => Some(deviation.times(bars.sqrt())),
            None => None,
        };
        volatilities.push(reading);
        i = i + 1;
    }
    assert(readings@.take(i as int) =~= readings@);
    volatilities
}

/// Fee rates of resting and of market orders: five and ten basis points
/// unless they are given.
pub fn fee_rates<N: Number>(maker: Option<N>, taker: Option<N>) -> (rates: (N, N))
    ensures
        rates.0 == match maker {
            Some(rate) => rate,
            None => ratio_of::<N>(5, 10_000),
        },
        rates.1 == match taker {
            Some(rate) => rate,
            None => ratio_of::<N>(1, 1000),
        },
{
    let maker: N = match maker {
        Some(rate) => rate,
        None => ratio(5, 10_000),
    };
    let taker: N = match taker {
        Some(rate) => rate,
        None => ratio(1, 1000),
    };
    (maker, taker)
}

/// The name that a strategy gives itself, unless it is empty or the generic
/// one.
pub fn display_name(name: Option<String>) -> (shown: Option<String>)
    ensures
        shown == match name {
            Some(text) => if text@.len() == 0 || text@ == "PythonStrategy"@ {
                None
            } else {
                Some(text)
            },
            None => None,
        },
{
    match name {
        Some(text) => {
            proof {
                reveal_strlit("");
                assert(text@.len() == 0 <==> text@ =~= ""@);
            }
            if same_text(text.as_str(), "") || same_text(text.as_str(), "PythonStrategy") {
                None
            } else {
                Some(text)
            }
        },
        None => None,
    }
}

/// The reading of a series at a tick, where it is positive and finite.
pub fn usable_at<N: Number>(series: Option<&[N]>, tick_idx: usize) -> (reading: Option<N>)
    ensures
        reading == match series {
            Some(values) => if tick_idx < values@.len() && is_usable(values@[tick_idx as int]) {
                Some(values@[tick_idx as int])
            } else {
                None
            },
            None => None,
        },
{
    match series {
        Some(values) => if tick_idx < values.len() && usable(values[tick_idx]) {
            Some(values[tick_idx])
        } else {
            None
        },
        None => None,
    }
}

/// Side of the account as a whole, for a liquidation: long only where the
/// net position is positive.
pub fn liquidation_side<N: Number>(net_position: N) -> (side: PositionSide)
    ensures
        side == if N::whole(0).below(net_position) { PositionSide::Long } else { PositionSide::Short },
        forall|value: spec_fn(N) -> real| #[trigger]
            reads_exactly(value) ==> (side is Long <==> value(net_position) > 0real),
{
    proof {
        assert forall|value: spec_fn(N) -> real| #[trigger] reads_exactly(value) implies value(N::whole(0)) == 0real by {}
    }
    if N::of(0).lt(net_position) {
        PositionSide::Long
    } else {
        PositionSide::Short
    }
}

} // verus!
