//! What signals, orders and exits of a directional run come to.

use vstd::prelude::*;

use crate::directional::{
    counted_with, exit_of, exits_of, greeks_vol, is_usable, leg_is_valid, leg_order_of, leg_quantity_of,
    margin_called, per_year, plan_of, position_size, sample_interval_for, tick_size, ExitOrder, PositionSnapshot, SignalPlan,
    SizingKnobs, SpreadContext,
};
use crate::exact::{lemma_ratio_reads, reads_exactly};
use crate::ledger::PositionSide;
use crate::number::Number;
use crate::risk::{allowed_quantity, is_increasing, sizing_of, OrderSizing, RiskAction};
use crate::signals::{
    counts_of, codes_where, direction_of, instrument_of, is_bulk_signal, leg_price, price_by_symbol, signal_leg,
    DerivativeMetadata, Direction, InstrumentKind, OptionSpreadLeg, SignalCounts, SignalType, SpreadLeg,
};

verus! {

/// One for a purchase, minus one for a sale.
pub open spec fn order_sign(direction: Direction) -> int {
    match direction {
        Direction::Buy => 1,
        Direction::Sell => -1,
    }
}

/// One for a long position, minus one for a short one.
pub open spec fn position_sign(side: PositionSide) -> int {
    match side {
        PositionSide::Long => 1,
        PositionSide::Short => -1,
    }
}

/// The exit of a position takes it back to nothing: the same quantity of the
/// same contract, the other way.
pub proof fn law_exit_takes_the_position_back_to_nothing<N: Number>(position: PositionSnapshot<N>)
    ensures
        order_sign(exit_of(position).direction) + position_sign(position.side) == 0,
        exit_of(position).quantity == position.quantity,
        exit_of(position).instrument == position.instrument,
{
}

/// The contract of an open position has an expiry that is not after the time.
pub open spec fn is_past_its_expiry<N>(position: PositionSnapshot<N>, now: int) -> bool {
    &&& !position.is_closed
    &&& position.instrument matches Some(contract) && match contract.instrument_kind {
        InstrumentKind::Call { expiry, .. } => expiry <= now,
        InstrumentKind::Put { expiry, .. } => expiry <= now,
        InstrumentKind::Future { expiry } => expiry <= now,
        InstrumentKind::Perpetual => false,
    }
}

/// The exits close the positions at these places, in order.
pub open spec fn closes_at<N>(
    positions: Seq<PositionSnapshot<N>>,
    expired_at: Option<int>,
    orders: Seq<ExitOrder<N>>,
    places: Seq<int>,
) -> bool {
    &&& places.len() == orders.len()
    &&& forall|j: int, k: int| 0 <= j < k < places.len() ==> (#[trigger] places[j]) < (#[trigger] places[k])
    &&& forall|j: int|
        0 <= j < places.len() ==> 0 <= (#[trigger] places[j]) < positions.len() && orders[j].quantity
            == positions[places[j]].quantity && orders[j].instrument == positions[places[j]].instrument && order_sign(
            orders[j].direction,
        ) == -position_sign(positions[places[j]].side)
    &&& forall|i: int|
        0 <= i < positions.len() ==> (places.contains(i) <==> match expired_at {
            Some(now) => is_past_its_expiry(#[trigger] positions[i], now),
            None => !positions[i].is_closed,
        })
}

/// Every open position, or every expired one, is closed once and in order;
/// no other position is touched.
pub proof fn law_exits_close_each_position_once<N: Number>(
    positions: Seq<PositionSnapshot<N>>,
    expired_at: Option<int>,
) -> (places: Seq<int>)
    ensures
        closes_at(positions, expired_at, exits_of(positions, expired_at), places),
    decreases positions.len(),
{
    if positions.len() == 0 {
        Seq::empty()
    } else {
        let before = law_exits_close_each_position_once(positions.drop_last(), expired_at);
        let last = positions.len() - 1;
        let closes = match expired_at {
            Some(now) => positions.last().has_expired(now),
            None => !positions.last().is_closed,
        };
        assert(forall|i: int| 0 <= i < last ==> positions.drop_last()[i] == #[trigger] positions[i]);
        assert(forall|i: int| before.contains(i) ==> 0 <= i < last);
        if closes {
            let places = before.push(last);
            assert(forall|i: int| places.contains(i) <==> before.contains(i) || i == last) by {
                assert(places[before.len() as int] == last);
                assert(forall|i: int| before.contains(i) ==> places[before.index_of(i)] == i);
            }
            assert(closes_at(positions, expired_at, exits_of(positions, expired_at), places));
            places
        } else {
            assert(closes_at(positions, expired_at, exits_of(positions, expired_at), before));
            before
        }
    }
}

/// A margin call needs an open position that is no option and that the price
/// went through; one such position is enough.
pub proof fn law_margin_calls_need_an_open_position_without_an_option<N: Number>(
    positions: Seq<PositionSnapshot<N>>,
    breached: Seq<bool>,
)
    requires
        positions.len() == breached.len(),
    ensures
        margin_called(positions, breached) <==> exists|i: int|
            0 <= i < positions.len() && !(#[trigger] positions[i]).is_closed && breached[i]
                && match positions[i].instrument {
                Some(contract) => !(contract.instrument_kind is Call) && !(contract.instrument_kind is Put),
                None => true,
            },
{
    if margin_called(positions, breached) {
        let i = choose|i: int|
            0 <= i < positions.len() && i < breached.len() && !(#[trigger] positions[i]).is_exempt() && breached[i];
        assert(!positions[i].is_closed);
    }
    if exists|i: int|
        0 <= i < positions.len() && !(#[trigger] positions[i]).is_closed && breached[i]
            && match positions[i].instrument {
            Some(contract) => !(contract.instrument_kind is Call) && !(contract.instrument_kind is Put),
            None => true,
        } {
        let i = choose|i: int|
            0 <= i < positions.len() && !(#[trigger] positions[i]).is_closed && breached[i]
                && match positions[i].instrument {
                Some(contract) => !(contract.instrument_kind is Call) && !(contract.instrument_kind is Put),
                None => true,
            };
        assert(!positions[i].is_exempt());
    }
}

/// A leg trades as many times the signal's quantity as its ratio is large,
/// whichever its sign.
pub proof fn law_leg_quantity_is_the_ratio_of_the_signal<N: Number>(value: spec_fn(N) -> real, quantity: N, ratio: i32)
    requires
        reads_exactly(value),
    ensures
        ratio >= 0 ==> value(leg_quantity_of(quantity, ratio as int)) == value(quantity) * (ratio as int as real),
        ratio < 0 ==> value(leg_quantity_of(quantity, ratio as int)) == value(quantity) * ((-ratio) as real),
        leg_quantity_of(quantity, ratio as int) == leg_quantity_of(quantity, -ratio),
{
    let size: int = if ratio < 0 { -ratio } else { ratio as int };
    assert(value(N::whole(size as i64)) == (size as i64) as int as real);
}

/// Only a leg that trades something, in a direction, and that is let through
/// is placed.
pub proof fn law_placed_legs_trade_something<N: Number>(
    value: spec_fn(N) -> real,
    leg: SpreadLeg<N>,
    quantity: N,
    proceeds: bool,
)
    requires
        reads_exactly(value),
    ensures
        leg_is_valid(leg, quantity, proceeds) <==> proceeds && leg.ratio != 0 && value(quantity) > 0real && direction_of(
            leg.signal_type,
        ) is Some,
{
    law_leg_quantity_is_the_ratio_of_the_signal(value, quantity, leg.ratio);
    assert(value(N::whole(0)) == 0real);
    let size: int = if leg.ratio < 0 { -leg.ratio } else { leg.ratio as int };
    let s = size as real;
    let q = value(quantity);
    let t = value(leg_quantity_of(quantity, leg.ratio as int));
    assert(t == q * s);
    if leg.ratio != 0 {
        assert(s >= 1real);
        assert(t > 0real <==> q > 0real) by (nonlinear_arith)
            requires
                t == q * s,
                s >= 1real,
        ;
    }
}

/// A leg with a limit is placed at it; without one, at the price of its own
/// contract where the run has that, else at the signal's.
pub proof fn law_leg_orders_are_priced_by_their_own_contract<'a, N: Number>(
    leg: SpreadLeg<N>,
    context: SpreadContext<'a, N>,
    at: int,
)
    ensures
        ({
            let order = leg_order_of(leg, context);
            &&& leg.limit_price matches Some(price) ==> order.price == price && order.is_limit
            &&& leg.limit_price is None ==> order.is_limit == context.is_limit
            &&& leg.limit_price is None && (context.option_spread is None || instrument_of(leg.signal_type) is None)
                ==> order.price == context.signal_price
            &&& order.instrument == instrument_of(leg.signal_type)
            &&& leg.limit_price is None && context.option_spread is Some && instrument_of(leg.signal_type) is Some && 0
                <= at < context.option_spread.unwrap()@.len() && (forall|i: int|
                0 <= i < at ==> (#[trigger] context.option_spread.unwrap()@[i]).instrument.symbol@ != instrument_of(
                    leg.signal_type,
                ).unwrap().symbol@) && context.option_spread.unwrap()@[at].instrument.symbol@ == instrument_of(
                leg.signal_type,
            ).unwrap().symbol@ && context.tick_idx < context.option_spread.unwrap()@[at].prices@.len() ==> order.price
                == context.option_spread.unwrap()@[at].prices@[context.tick_idx as int]
        }),
{
    if context.option_spread is Some && instrument_of(leg.signal_type) is Some {
        let legs = context.option_spread.unwrap()@;
        let symbol = instrument_of(leg.signal_type).unwrap().symbol@;
        if 0 <= at < legs.len() && (forall|i: int| 0 <= i < at ==> (#[trigger] legs[i]).instrument.symbol@ != symbol)
            && legs[at].instrument.symbol@ == symbol {
            law_prices_are_those_of_the_first_leg_with_the_symbol(
                legs,
                symbol,
                context.tick_idx as int,
                context.signal_price,
                at,
            );
        }
    }
}

/// The price by symbol is that of the first leg with it, and the fallback
/// where no leg has it or its series has ended.
pub proof fn law_prices_are_those_of_the_first_leg_with_the_symbol<N>(
    legs: Seq<OptionSpreadLeg<N>>,
    symbol: Seq<char>,
    tick: int,
    fallback: N,
    at: int,
)
    requires
        0 <= at <= legs.len(),
        forall|i: int| 0 <= i < at ==> (#[trigger] legs[i]).instrument.symbol@ != symbol,
        at < legs.len() ==> legs[at].instrument.symbol@ == symbol,
    ensures
        at == legs.len() ==> price_by_symbol(legs, symbol, tick, fallback) == fallback,
        at < legs.len() && tick < legs[at].prices@.len() ==> price_by_symbol(legs, symbol, tick, fallback)
            == legs[at].prices@[tick],
        at < legs.len() && tick >= legs[at].prices@.len() ==> price_by_symbol(legs, symbol, tick, fallback) == fallback,
    decreases legs.len(),
{
    if legs.len() > 0 && at > 0 {
        assert(legs[0].instrument.symbol@ != symbol);
        assert(forall|i: int| 0 <= i < at - 1 ==> #[trigger] legs.skip(1)[i] == legs[i + 1]);
        law_prices_are_those_of_the_first_leg_with_the_symbol(legs.skip(1), symbol, tick, fallback, at - 1);
    }
}

/// What buys is bought: entries, additions and purchases of contracts buy;
/// their opposites and exercises sell; the rest trade in no direction.
pub proof fn law_signals_trade_the_way_they_are_called<N: Number>(signal: SignalType<N>)
    ensures
        signal is Buy || signal is ScaleIn || signal is BuyOption || signal is BuyFuture ==> direction_of(signal)
            == Some(Direction::Buy),
        signal is Sell || signal is ScaleOut || signal is SellOption || signal is SellFuture || signal is ExerciseOption
            ==> direction_of(signal) == Some(Direction::Sell),
        signal is Close || signal is Hold || signal is CancelQuotes || signal is StopLoss || signal is TakeProfit
            || signal is TwoSidedQuote || signal is OptionSpread || signal is Unsupported ==> direction_of(signal) is None,
{
}

/// A hedge trades towards its target: it sells where there is too much delta
/// and buys where there is too little.
pub proof fn law_hedges_trade_towards_their_target<N: Number>(value: spec_fn(N) -> real, target: N, current: N)
    requires
        reads_exactly(value),
    ensures
        ({
            let traded = direction_of(SignalType::HedgeDelta { target_delta: target, current_delta: current });
            &&& value(current) > value(target) ==> traded == Some(Direction::Sell)
            &&& value(current) < value(target) ==> traded == Some(Direction::Buy)
        }),
{
}

/// A signal that trades in a direction is ordered in it; stops and targets
/// flatten the account, a close closes every position, and a signal that is
/// not served does nothing.
pub proof fn law_signals_do_what_they_are_called<N: Number>(signal: SignalType<N>)
    ensures
        direction_of(signal) matches Some(direction) ==> plan_of(signal) == SignalPlan::Order(direction),
        signal is StopLoss || signal is TakeProfit <==> plan_of(signal) == SignalPlan::EmergencyExit,
        signal is Close <==> plan_of(signal) == SignalPlan::CloseAll,
        signal is OptionSpread <==> plan_of(signal) == SignalPlan::Spread,
        signal is CancelQuotes <==> plan_of(signal) == SignalPlan::ClearPending,
        signal is TwoSidedQuote <==> plan_of(signal) == SignalPlan::Quote,
        signal is Hold || signal is Unsupported <==> plan_of(signal) == SignalPlan::Ignore,
{
}

/// A signal is counted at most once, and where it counts as a purchase or a
/// sale it trades that way.
pub proof fn law_signals_are_counted_the_way_they_trade<N: Number>(counts: SignalCounts, signal: SignalType<N>)
    requires
        counts.buy < usize::MAX,
        counts.sell < usize::MAX,
        counts.hold < usize::MAX,
        counts.close < usize::MAX,
    ensures
        ({
            let after = counted_with(counts, signal);
            &&& after.buy == counts.buy + if direction_of(signal) == Some(Direction::Buy) && !(signal is HedgeDelta) {
                1int
            } else {
                0
            }
            &&& after.sell == counts.sell + if direction_of(signal) == Some(Direction::Sell) && !(signal is HedgeDelta)
                && !(signal is ExerciseOption) {
                1int
            } else {
                0
            }
            &&& after.close == counts.close + if signal is Close { 1int } else { 0 }
            &&& after.hold == counts.hold + if signal is Hold || signal is CancelQuotes { 1int } else { 0 }
        }),
{
}

/// One more code raises its own count by one and no other: one is a purchase,
/// minus one a sale, two a close, the rest are holds.
pub proof fn law_codes_are_counted_by_what_they_ask(codes: Seq<i8>, code: i8)
    requires
        codes.len() < usize::MAX,
    ensures
        counts_of(Seq::empty()) == (SignalCounts { buy: 0, sell: 0, hold: 0, close: 0 }),
        ({
            let before = counts_of(codes);
            let after = counts_of(codes.push(code));
            &&& after.buy == before.buy + if code == 1 { 1int } else { 0 }
            &&& after.sell == before.sell + if code == -1 { 1int } else { 0 }
            &&& after.close == before.close + if code == 2 { 1int } else { 0 }
            &&& after.hold == before.hold + if code == 1 || code == -1 || code == 2 { 0int } else { 1 }
        }),
{
    assert(codes.push(code).drop_last() =~= codes);
    lemma_no_more_codes_than_there_are(codes, |c: i8| c == 1);
    lemma_no_more_codes_than_there_are(codes, |c: i8| c == -1);
    lemma_no_more_codes_than_there_are(codes, |c: i8| c == 2);
    lemma_no_more_codes_than_there_are(codes, |c: i8| c != 1 && c != -1 && c != 2);
}

proof fn lemma_no_more_codes_than_there_are(codes: Seq<i8>, is_counted: spec_fn(i8) -> bool)
    ensures
        codes_where(codes, is_counted) <= codes.len(),
    decreases codes.len(),
{
    if codes.len() > 0 {
        lemma_no_more_codes_than_there_are(codes.drop_last(), is_counted);
    }
}

/// A bulk code of one buys and of minus one sells, on the run's contract
/// where it has one; two closes whatever is traded.
pub proof fn law_bulk_codes_buy_sell_and_close<N: Number>(
    signal: SignalType<N>,
    code: i8,
    price: N,
    tick: int,
    instrument: Option<&DerivativeMetadata<N>>,
    spread: Option<&[OptionSpreadLeg<N>]>,
)
    requires
        code == 1 || code == -1 || code == 2,
        is_bulk_signal(signal, code, price, tick, instrument, spread),
    ensures
        code == 2 <==> signal is Close,
        code != 2 && (spread matches Some(legs) && legs@.len() > 0) ==> signal is OptionSpread,
        code != 2 && !(spread matches Some(legs) && legs@.len() > 0) ==> direction_of(signal) == Some(
            if code == 1 {
                Direction::Buy
            } else {
                Direction::Sell
            },
        ) && instrument_of(signal) == match instrument {
            Some(contract) => Some(*contract),
            None => None,
        },
{
}

/// The legs of a spread are bought where their ratio is positive and sold
/// where it is negative, on the way in; on the way out it is the reverse.
/// Each is paid at its own contract's price.
pub proof fn law_spread_legs_trade_by_the_sign_of_their_ratio<N: Number>(
    leg: OptionSpreadLeg<N>,
    entering: bool,
    tick: int,
    price: N,
)
    requires
        leg.ratio > i32::MIN,
        leg.ratio != 0,
        tick >= 0,
    ensures
        ({
            let built = signal_leg(leg, entering, tick, price);
            &&& direction_of(built.signal_type) == Some(
                if (leg.ratio > 0) == entering {
                    Direction::Buy
                } else {
                    Direction::Sell
                },
            )
            &&& instrument_of(built.signal_type) == Some(leg.instrument)
            &&& built.ratio == if entering { leg.ratio as int } else { -leg.ratio }
            &&& tick < leg.prices@.len() ==> leg_price(leg, tick, price) == leg.prices@[tick]
            &&& tick >= leg.prices@.len() ==> leg_price(leg, tick, price) == price
            &&& match built.signal_type {
                SignalType::BuyOption { premium, .. } => premium == Some(leg_price(leg, tick, price)),
                SignalType::SellOption { premium, .. } => premium == Some(leg_price(leg, tick, price)),
                _ => false,
            }
        }),
{
}

/// The risk manager's word on a quantity: as it is, at what is allowed,
/// scaled, or nothing; what is left is always positive.
pub proof fn law_risk_manager_bounds_the_quantity<N: Number>(value: spec_fn(N) -> real, quantity: N, action: RiskAction<N>)
    requires
        reads_exactly(value),
        value(quantity) > 0real,
    ensures
        allowed_quantity(quantity, action) matches Some(left) ==> value(left) > 0real,
        action is Proceed ==> allowed_quantity(quantity, action) == Some(quantity),
        action matches RiskAction::ReducePosition(limit) ==> allowed_quantity(quantity, action) == if value(limit)
            > 0real {
            Some(limit)
        } else {
            None
        },
        action matches RiskAction::ScalePosition(factor) ==> (allowed_quantity(quantity, action) is Some <==> value(
            factor,
        ) > 0real) && (allowed_quantity(quantity, action) matches Some(left) ==> value(left) == value(quantity) * value(
            factor,
        )),
        action is RejectOrder || action is CloseAllPositions || action is HaltTrading ==> allowed_quantity(
            quantity,
            action,
        ) is None,
{
    assert(value(N::whole(0)) == 0real);
    if let RiskAction::ScalePosition(factor) = action {
        let q = value(quantity);
        let f = value(factor);
        assert(q * f > 0real <==> f > 0real) by (nonlinear_arith)
            requires
                q > 0real,
        ;
    }
}

/// An order is capped where it takes the account further from flat, and goes
/// ahead as it is where it takes the account towards flat.
pub proof fn law_orders_that_add_exposure_are_capped<N: Number>(
    value: spec_fn(N) -> real,
    direction: Direction,
    quantity: N,
    net: N,
)
    requires
        reads_exactly(value),
        value(quantity) > 0real,
    ensures
        is_increasing(direction, net) <==> match direction {
            Direction::Buy => value(net) >= 0real,
            Direction::Sell => value(net) <= 0real,
        },
        ({
            let sizing = sizing_of(direction, quantity, None, net);
            let after = value(net) + (order_sign(direction) as real) * value(quantity);
            let further = if value(net) >= 0real { after > value(net) } else { after < value(net) };
            &&& value(net) != 0real ==> (sizing == OrderSizing::Capped(quantity) <==> further)
            &&& value(net) != 0real ==> (sizing == OrderSizing::Ready(quantity) <==> !further)
            &&& value(net) == 0real ==> sizing == OrderSizing::Capped(quantity)
        }),
{
    assert(value(N::whole(0)) == 0real);
    let q = value(quantity);
    match direction {
        Direction::Buy => {
            assert(order_sign(direction) as real == 1real);
            assert(1real * q == q);
        },
        Direction::Sell => {
            assert(order_sign(direction) as real == -1real);
            assert((-1real) * q == -q) by (nonlinear_arith);
        },
    }
}

/// The share of equity per entry is positive and at most the whole, whatever
/// was declared; two percent where nothing usable was.
pub proof fn law_entry_share_is_positive_and_at_most_the_whole<N: Number>(
    value: spec_fn(N) -> real,
    overrides: SizingKnobs<N>,
    defaults: Option<SizingKnobs<N>>,
    log_is_capped: bool,
)
    requires
        reads_exactly(value),
    ensures
        0real < value(position_size(overrides, defaults, log_is_capped)) <= 1real,
        overrides.position_size_pct matches Some(Some(share)) ==> (0real < value(share) <= 1real && value(share)
            <= value(N::limit()) ==> value(position_size(overrides, defaults, log_is_capped)) == value(share)),
        overrides.position_size_pct is None && (overrides.risk_per_trade matches Some(Some(share)) && 0real < value(
            share,
        ) <= 1real && value(share) <= value(N::limit())) ==> value(
            position_size(overrides, defaults, log_is_capped),
        ) == value(overrides.risk_per_trade->0->0),
        overrides.position_size_pct is None && overrides.risk_per_trade is None && (log_is_capped || defaults is None)
            ==> value(position_size(overrides, defaults, log_is_capped)) * 50real == 1real,
        overrides.position_size_pct matches Some(None) && (log_is_capped || defaults is None) ==> value(
            position_size(overrides, defaults, log_is_capped),
        ) * 50real == 1real,
        overrides.position_size_pct is None && overrides.risk_per_trade is None && !log_is_capped && (defaults matches Some(
            knobs,
        ) && knobs.position_size_pct matches Some(Some(share)) && 0real < value(share) <= 1real && value(share)
            <= value(N::limit())) ==> value(position_size(overrides, defaults, log_is_capped)) == value(
            defaults->0.position_size_pct->0->0,
        ),
{
    assert(value(N::whole(0)) == 0real && value(N::whole(1)) == 1real);
    lemma_ratio_reads(value, 2, 100);
}

/// A number is usable where it is positive and not beyond the largest.
pub proof fn law_usable_numbers_are_positive<N: Number>(value: spec_fn(N) -> real, number: N)
    requires
        reads_exactly(value),
    ensures
        is_usable(number) <==> 0real < value(number) <= value(N::limit()),
{
    assert(value(N::whole(0)) == 0real);
}

/// The share for a tick is the strategy's own where that is a positive share
/// of at most the whole, else the run's.
pub proof fn law_tick_share_is_a_share<N: Number>(value: spec_fn(N) -> real, sizes: Seq<N>, tick: int, fallback: N)
    requires
        reads_exactly(value),
        tick >= 0,
    ensures
        tick_size(None, tick, fallback) == fallback,
        tick >= sizes.len() ==> tick_size(Some(sizes), tick, fallback) == fallback,
        tick < sizes.len() ==> tick_size(Some(sizes), tick, fallback) == if 0real < value(sizes[tick]) <= 1real {
            sizes[tick]
        } else {
            fallback
        },
{
    assert(value(N::whole(0)) == 0real && value(N::whole(1)) == 1real);
}

/// Sensitivities are priced with the implied volatility of an option where
/// that is usable, else with the fallback where that is, and never with one
/// that is not.
pub proof fn law_implied_volatility_comes_before_the_fallback<N: Number>(
    surface: Option<N>,
    contract: DerivativeMetadata<N>,
    fallback: Option<N>,
)
    ensures
        ({
            let chosen = greeks_vol(surface, contract, fallback);
            let is_option = contract.instrument_kind is Call || contract.instrument_kind is Put;
            &&& chosen matches Some(vol) ==> is_usable(vol)
            &&& is_option && (surface matches Some(vol) && is_usable(vol)) ==> chosen == surface
            &&& !is_option && (fallback matches Some(vol) && is_usable(vol)) ==> chosen == fallback
            &&& !is_option && !(fallback matches Some(vol) && is_usable(vol)) ==> chosen is None
            &&& !(surface matches Some(vol) && is_usable(vol)) && (fallback matches Some(vol) && is_usable(vol))
                ==> chosen == fallback
            &&& !(surface matches Some(vol) && is_usable(vol)) && !(fallback matches Some(vol) && is_usable(vol))
                ==> chosen is None
        }),
{
}

/// Variance per year is the variance per bar times the bars of a year.
pub proof fn law_yearly_variance_is_that_of_all_bars<N: Number>(
    value: spec_fn(N) -> real,
    readings: Seq<Option<N>>,
    bars: N,
    i: int,
)
    requires
        reads_exactly(value),
        value(bars) >= 0real,
        0 <= i < readings.len(),
    ensures
        per_year(readings, bars).len() == readings.len(),
        readings[i] is None <==> per_year(readings, bars)[i] is None,
        readings[i] matches Some(deviation) ==> (per_year(readings, bars)[i] matches Some(yearly) && value(yearly)
            * value(yearly) == value(deviation) * value(deviation) * value(bars) && (value(deviation) >= 0real ==> value(
            yearly,
        ) >= 0real)),
{
    if let Some(deviation) = readings[i] {
        let d = value(deviation);
        let r = value(bars.root());
        let y = value(deviation.product(bars.root()));
        assert(r >= 0real && r * r == value(bars));
        assert(y == d * r);
        assert(y * y == d * d * (r * r)) by (nonlinear_arith)
            requires
                y == d * r,
        ;
        assert(d >= 0real ==> y >= 0real) by (nonlinear_arith)
            requires
                y == d * r,
                r >= 0real,
        ;
    }
}

/// The equity curve takes every tick of a short run, and of a run with more
/// than a million ticks about ten thousand samples.
pub proof fn law_equity_curve_stays_readable(total: nat)
    ensures
        total <= 1_000_000 ==> sample_interval_for(total) == 1,
        total > 1_000_000 ==> sample_interval_for(total) * 10_000 <= total < (sample_interval_for(total) + 1) * 10_000,
        sample_interval_for(total) >= 1,
{
}

} // verus!
