//! Fees, market impact and quotes of the quoting simulation.

use vstd::prelude::*;

use crate::exact::reads_exactly;
use crate::market_data::Side;
use crate::number::{total, Number};
use crate::risk::{allowed_quantity, stops_trading, RiskAction};
use crate::signals::{Signal, SignalType};
use crate::simulation::{is_fresh, missed_by, SimulationLoop, SimulationState};
use crate::simulation_run::SimulationRun;
use crate::synthetic_book::BookSide;
use crate::text::{lowercase, lowercase_of, same_text};

verus! {

/// Where the fee rate of a trade comes from.
#[derive(Debug, Clone, Copy, PartialEq)]
pub enum FeeSource<N> {
    /// The flat commission rate.
    Flat,
    /// The configured schedule, at this thirty-day volume.
    Configured(N),
    /// The exchange's own schedule, at this thirty-day volume.
    OfExchange(N),
}

/// Where the fee rate comes from: the configured schedule counts for its own
/// exchange only, whatever the case of its name.
pub open spec fn fee_source_of<N: Number>(configured: Option<Seq<char>>, exchange: Seq<char>, volume: N) -> FeeSource<N> {
    match configured {
        None => FeeSource::Flat,
        Some(name) => if name == exchange {
            FeeSource::Configured(volume)
        } else {
            FeeSource::OfExchange(volume)
        },
    }
}

/// Where the fee rate comes from, given both names in lower case.
pub fn choose_fee_source<N: Number>(configured: Option<&str>, exchange: &str, volume: N) -> (source: FeeSource<N>)
    ensures
        source == fee_source_of(
            match configured {
                Some(name) => Some(name@),
                None => None,
            },
            exchange@,
            volume,
        ),
{
    match configured {
        None => FeeSource::Flat,
        Some(name) => if same_text(name, exchange) {
            FeeSource::Configured(volume)
        } else {
            FeeSource::OfExchange(volume)
        },
    }
}

/// The name, in lower case, is that of a decentralised exchange.
pub open spec fn is_dex(lower: Seq<char>) -> bool {
    lower == "cetus"@ || lower == "deepbook"@ || lower == "cetus_amm"@ || lower == "deepbookv2"@ || lower
        == "deep_book"@
}

/// Whether a name in lower case is that of a decentralised exchange.
pub fn is_dex_name(lower: &str) -> (dex: bool)
    ensures
        dex == is_dex(lower@),
{
    same_text(lower, "cetus") || same_text(lower, "deepbook") || same_text(lower, "cetus_amm") || same_text(
        lower,
        "deepbookv2",
    ) || same_text(lower, "deep_book")
}

/// How a market fill is charged.
#[derive(Debug, Clone, Copy, PartialEq)]
pub enum CostModel<N> {
    /// Gas, and slippage that the price does not hold yet.
    Dex { slippage_bps: N, gas: N },
    /// A fee; the slippage is part of the price already.
    Exchange { fee_rate: N, slippage_bps: Option<N> },
}

/// What a market fill costs.
#[derive(Debug, Clone, Copy, PartialEq)]
pub struct FillCost<N> {
    pub commission: N,
    pub slippage: N,
    /// What the portfolio is charged.
    pub fee_amount: N,
}

/// So many basis points of a value.
pub open spec fn basis_points_of<N: Number>(value: N, bps: N) -> N {
    value.product(bps.quotient(N::whole(10_000)))
}

/// Share of the market impact that falls on a fill of this value.
pub open spec fn impact_share<N: Number>(impact_cost: N, value: N, total_value: N) -> N {
    if N::whole(0).below(total_value) {
        impact_cost.product(value.quotient(total_value))
    } else {
        N::whole(0)
    }
}

/// What a market fill costs: the portfolio is charged the commission, the
/// share of the market impact and, on a decentralised exchange, the slippage.
pub open spec fn cost_of<N: Number>(value: N, model: CostModel<N>, impact: N) -> FillCost<N> {
    match model {
        CostModel::Dex { slippage_bps, gas } => {
            let slippage = basis_points_of(value, slippage_bps);
            FillCost { commission: gas, slippage, fee_amount: gas.sum(impact).sum(slippage) }
        },
        CostModel::Exchange { fee_rate, slippage_bps } => {
            let commission = value.product(fee_rate);
            FillCost {
                commission,
                slippage: match slippage_bps {
                    Some(bps) => basis_points_of(value, bps),
                    None => N::whole(0),
                },
                fee_amount: commission.sum(impact).sum(N::whole(0)),
            }
        },
    }
}

/// What a market fill costs.
pub fn market_fill_cost<N: Number>(
    price: N,
    quantity: N,
    model: CostModel<N>,
    impact_cost: N,
    total_fill_value: N,
) -> (cost: FillCost<N>)
    ensures
        cost == cost_of(
            price.product(quantity),
            model,
            impact_share(impact_cost, price.product(quantity), total_fill_value),
        ),
{
    let value: N = price.times(quantity);
    let impact: N = if N::of(0).lt(total_fill_value) {
        impact_cost.times(value.over(total_fill_value))
    } else {
        N::of(0)
    };
    match model {
        CostModel::Dex { slippage_bps, gas } => {
            let (slippage, commission): (N, N) = SimulationLoop::<N>::calculate_dex_costs(value, slippage_bps, gas);
            FillCost { commission, slippage, fee_amount: commission.plus(impact).plus(slippage) }
        },
        CostModel::Exchange { fee_rate, slippage_bps } => {
            let commission: N = value.times(fee_rate);
            let slippage: N = match slippage_bps {
                Some(bps) => value.times(bps.over(N::of(10_000))),
                None => N::of(0),
            };
            FillCost { commission, slippage, fee_amount: commission.plus(impact).plus(N::of(0)) }
        },
    }
}

/// The values of some fills, each of them a price and a quantity.
pub open spec fn fill_values<N: Number>(fills: Seq<(N, N)>) -> Seq<N> {
    fills.map_values(|fill: (N, N)| fill.0.product(fill.1))
}

/// Value of some fills taken together, each of them a price and a quantity.
pub fn total_fill_value<N: Number>(fills: &[(N, N)]) -> (value: N)
    ensures
        value == total(fill_values(fills@)),
{
    let mut value: N = N::of(0);
    let mut i: usize = 0;
    let ghost values = fill_values(fills@);
    assert(values.take(0) =~= Seq::empty());
    while i < fills.len()
        invariant
            i <= fills@.len(),
            values == fill_values(fills@),
            value == total(values.take(i as int)),
        decreases fills@.len() - i,
    {
        assert(values.take(i as int + 1).drop_last() =~= values.take(i as int));
        value = value.plus(fills[i].0.times(fills[i].1));
        i = i + 1;
    }
    assert(values.take(i as int) =~= values);
    value
}

/// Fee of a fill of a resting order.
pub fn resting_fill_fee<N: Number>(price: N, quantity: N, fee_rate: N) -> (fee: N)
    ensures
        fee == price.product(quantity).product(fee_rate),
        forall|value: spec_fn(N) -> real| #[trigger]
            reads_exactly(value) ==> value(fee) == value(price) * value(quantity) * value(fee_rate),
{
    price.times(quantity).times(fee_rate)
}

impl<N: Number> SimulationLoop<N> {
    /// Where the fee rate of a trade on an exchange comes from. The names are
    /// compared in lower case; the volume is looked up under the name as it
    /// stands.
    pub fn fee_source(&self, configured: Option<&str>, exchange: &str) -> (source: FeeSource<N>)
        requires
            self.wf(),
        ensures
            source == fee_source_of(
                match configured {
                    Some(name) => Some(lowercase_of(name@)),
                    None => None,
                },
                lowercase_of(exchange@),
                self@.volume_of(exchange@),
            ),
    {
        let volume: N = self.thirty_day_volume(exchange);
        let lower: String = lowercase(exchange);
        match configured {
            None => choose_fee_source(None, lower.as_str(), volume),
            Some(name) => {
                let name: String = lowercase(name);
                choose_fee_source(Some(name.as_str()), lower.as_str(), volume)
            },
        }
    }

    /// Whether an exchange is a decentralised one, whatever the case of its
    /// name.
    pub fn is_dex_exchange(exchange: &str) -> (dex: bool)
        ensures
            dex == is_dex(lowercase_of(exchange@)),
    {
        is_dex_name(lowercase(exchange).as_str())
    }

    /// Slippage and gas of a fill on a decentralised exchange.
    pub fn calculate_dex_costs(fill_value: N, slippage_bps: N, gas: N) -> (costs: (N, N))
        ensures
            costs == (basis_points_of(fill_value, slippage_bps), gas),
    {
        (fill_value.times(slippage_bps.over(N::of(10_000))), gas)
    }

    /// Cost of moving the market by this many basis points; nothing where the
    /// impact model does not apply.
    pub fn calculate_market_impact(order_size: N, price: N, impact_bps: Option<N>) -> (cost: N)
        ensures
            cost == match impact_bps {
                Some(bps) => bps.quotient(N::whole(10_000)).product(price).product(order_size),
                None => N::whole(0),
            },
            forall|value: spec_fn(N) -> real| #[trigger]
                reads_exactly(value) ==> value(cost) * 10000real == match impact_bps {
                    Some(bps) => value(bps) * value(price) * value(order_size),
                    None => 0real,
                },
    {
        proof {
            assert forall|value: spec_fn(N) -> real| #[trigger] reads_exactly(value) implies value(N::whole(10_000))
                == 10000real && value(N::whole(0)) == 0real && (impact_bps matches Some(bps) ==> value(
                bps.quotient(N::whole(10_000)).product(price).product(order_size),
            ) * 10000real == value(bps) * value(price) * value(order_size)) by {
                assert(value(N::whole(10_000)) == 10000real);
                if let Some(bps) = impact_bps {
                    let q = value(bps.quotient(N::whole(10_000)));
                    let p = value(price);
                    let s = value(order_size);
                    assert(q * p * s * 10000real == q * 10000real * p * s) by (nonlinear_arith);
                }
            }
        }
        match impact_bps {
            Some(bps) => bps.over(N::of(10_000)).times(price).times(order_size),
            None => N::of(0),
        }
    }

    /// Takes in the price that a signal quotes. When a bid and an ask have
    /// come together, and both are positive, their spread is recorded and the
    /// next pair begins.
    pub fn on_quote(&mut self, pair: QuotePair<N>, side: Option<BookSide>, price: N) -> (next: QuotePair<N>)
        requires
            old(self).wf(),
        ensures
            final(self).wf(),
            ({
                let quoted = with_quote(pair, side, price);
                &&& next == if is_complete(quoted) { QuotePair { bid: None, ask: None } } else { quoted }
                &&& final(self)@ == if is_complete(quoted) {
                    SimulationState {
                        spreads: old(self)@.spreads.push(spread_bps(quoted.bid->0, quoted.ask->0)),
                        ..old(self)@
                    }
                } else {
                    old(self)@
                }
            }),
    {
        let quoted: QuotePair<N> = match side {
            Some(BookSide::Bid) => QuotePair { bid: Some(price), ask: pair.ask },
            Some(BookSide::Ask) => QuotePair { bid: pair.bid, ask: Some(price) },
            None => pair,
        };
        match (quoted.bid, quoted.ask) {
            (Some(bid), Some(ask)) => if N::of(0).lt(bid) && N::of(0).lt(ask) {
                let mid: N = bid.plus(ask).over(N::of(2));
                let spread: N = ask.minus(bid).over(mid).times(N::of(10_000));
                self.quote_spreads_bps.push(spread);
                QuotePair { bid: None, ask: None }
            } else {
                quoted
            },
            _ => quoted,
        }
    }
}

/// The quotes of a pair that have come in.
#[derive(Debug, Clone, Copy, PartialEq)]
pub struct QuotePair<N> {
    pub bid: Option<N>,
    pub ask: Option<N>,
}

/// The pair with one more quote, if there is one.
pub open spec fn with_quote<N>(pair: QuotePair<N>, side: Option<BookSide>, price: N) -> QuotePair<N> {
    match side {
        Some(BookSide::Bid) => QuotePair { bid: Some(price), ask: pair.ask },
        Some(BookSide::Ask) => QuotePair { bid: pair.bid, ask: Some(price) },
        None => pair,
    }
}

/// Both quotes have come in, and both are positive.
pub open spec fn is_complete<N: Number>(pair: QuotePair<N>) -> bool {
    pair.bid matches Some(bid) && pair.ask matches Some(ask) && N::whole(0).below(bid) && N::whole(0).below(ask)
}

/// Spread between a bid and an ask, in basis points of the middle price.
pub open spec fn spread_bps<N: Number>(bid: N, ask: N) -> N {
    ask.difference(bid).quotient(bid.sum(ask).quotient(N::whole(2))).product(N::whole(10_000))
}

/// Side that a signal quotes, if it quotes one.
pub fn quoted_side<N>(signal_type: &SignalType<N>) -> (side: Option<BookSide>)
    ensures
        side == side_quoted(*signal_type),
{
    match signal_type {
        SignalType::Buy | SignalType::ScaleIn => Some(BookSide::Bid),
        SignalType::Sell | SignalType::ScaleOut => Some(BookSide::Ask),
        _ => None,
    }
}

/// Side of the order that a signal places.
pub fn order_side<N>(signal_type: &SignalType<N>) -> (side: BookSide)
    ensures
        side == side_placed(*signal_type),
{
    match signal_type {
        SignalType::Buy | SignalType::ScaleIn => BookSide::Bid,
        _ => BookSide::Ask,
    }
}

/// What becomes of a quote after the risk check.
#[derive(Debug, Clone, Copy, PartialEq)]
pub enum QuoteSizing<N> {
    Skip,
    /// Skipped, and trading halts after this tick.
    Halt,
    Place(N),
}

/// What becomes of a quote after the risk check. A quote that the risk
/// manager lets pass keeps its size, whatever that is.
pub fn size_quote<N: Number>(order_size: N, action: RiskAction<N>) -> (sizing: QuoteSizing<N>)
    ensures
        sizing == if stops_trading(action) {
            QuoteSizing::Halt
        } else {
            match allowed_quantity(order_size, action) {
                Some(size) => QuoteSizing::Place(size),
                None => QuoteSizing::Skip,
            }
        },
{
    match action {
        RiskAction::Proceed => QuoteSizing::Place(order_size),
        RiskAction::ReducePosition(allowed) => if allowed.le(N::of(0)) {
            QuoteSizing::Skip
        } else {
            QuoteSizing::Place(allowed)
        },
        RiskAction::ScalePosition(factor) => {
            let scaled: N = order_size.times(factor);
            if scaled.le(N::of(0)) {
                QuoteSizing::Skip
            } else {
                QuoteSizing::Place(scaled)
            }
        },
        RiskAction::RejectOrder => QuoteSizing::Skip,
        RiskAction::CloseAllPositions => QuoteSizing::Halt,
        RiskAction::HaltTrading => QuoteSizing::Halt,
    }
}

/// Side of the book that the aggressor of a market trade is on: a buyer takes
/// asks and a seller takes bids.
pub fn aggressor_side(side: Side) -> (aggressor: BookSide)
    ensures
        aggressor == match side {
            Side::Buy => BookSide::Bid,
            Side::Sell => BookSide::Ask,
        },
{
    match side {
        Side::Buy => BookSide::Bid,
        Side::Sell => BookSide::Ask,
    }
}

/// What came of a quote.
#[derive(Debug, Clone, Copy, PartialEq)]
pub enum QuoteOutcome<N> {
    Skipped,
    /// Skipped, and trading halts after this tick.
    Halted,
    /// Followed as an order. One with a limit rests on the book; any other
    /// sweeps it at once.
    Placed { side: BookSide, price: N, size: N, spread_bps: N, rests: bool },
}

/// Price that a signal quotes; zero where it has none.
pub open spec fn quoted_price<N: Number>(signal: Signal<N>) -> N {
    match signal.price {
        Some(price) => price,
        None => N::whole(0),
    }
}

/// Size that a signal asks for; zero where it has none.
pub open spec fn wanted_size<N: Number>(signal: Signal<N>) -> N {
    match signal.quantity {
        Some(quantity) => quantity,
        None => N::whole(0),
    }
}

/// Side that a signal quotes, if it quotes one.
pub open spec fn side_quoted<N>(signal_type: SignalType<N>) -> Option<BookSide> {
    match signal_type {
        SignalType::Buy | SignalType::ScaleIn => Some(BookSide::Bid),
        SignalType::Sell | SignalType::ScaleOut => Some(BookSide::Ask),
        _ => None,
    }
}

/// Side of the order that a signal places.
pub open spec fn side_placed<N>(signal_type: SignalType<N>) -> BookSide {
    match signal_type {
        SignalType::Buy | SignalType::ScaleIn => BookSide::Bid,
        _ => BookSide::Ask,
    }
}

impl<N: Number> SimulationState<N> {
    /// After the price of a quote came in.
    pub open spec fn with_quoted(self, quoted: QuotePair<N>) -> Self {
        if is_complete(quoted) {
            SimulationState { spreads: self.spreads.push(spread_bps(quoted.bid->0, quoted.ask->0)), ..self }
        } else {
            self
        }
    }

    /// Spread of the last pair of quotes; zero where there is none.
    pub open spec fn last_spread(self) -> N {
        if self.spreads.len() > 0 {
            self.spreads.last()
        } else {
            N::whole(0)
        }
    }
}

impl<N: Number> SimulationLoop<N> {
    /// Takes in a trade of the market, and says how far it missed the run's
    /// best quote, if it did.
    pub fn on_market_trade(&mut self, side: Side, price: N, value: N, timestamp: i64) -> (missed: Option<(BookSide, N)>)
        requires
            old(self).wf(),
        ensures
            final(self).wf(),
            final(self)@ == old(self)@.with_market_trade(timestamp, value),
            final(self).order_trackers == old(self).order_trackers,
            missed == missed_by(
                old(self).order_trackers.listed(),
                match side {
                    Side::Buy => BookSide::Bid,
                    Side::Sell => BookSide::Ask,
                },
                price,
            ),
    {
        self.update_market_volume(timestamp, value);
        self.missed_fill(aggressor_side(side), price)
    }

    /// Takes in a signal of a quoting strategy and what the risk manager said
    /// of it: the quote is paired, the order sized, and what is left of it
    /// followed. The order itself is for the book to take.
    pub fn take_quote(
        &mut self,
        run: &mut SimulationRun<N>,
        pair: QuotePair<N>,
        id: &str,
        signal: &Signal<N>,
        action: RiskAction<N>,
        reason: String,
        timestamp: i64,
    ) -> (taken: (QuotePair<N>, QuoteOutcome<N>))
        requires
            old(self).wf(),
            old(run).wf(),
        ensures
            final(self).wf(),
            final(run).wf(),
            ({
                let price = quoted_price(*signal);
                let quoted = with_quote(pair, side_quoted(signal.signal_type), price);
                let after_quote = old(self)@.with_quoted(quoted);
                let side = side_placed(signal.signal_type);
                &&& taken.0 == if is_complete(quoted) { QuotePair { bid: None, ask: None } } else { quoted }
                &&& if stops_trading(action) {
                    &&& taken.1 == QuoteOutcome::<N>::Halted
                    &&& final(self)@ == after_quote
                    &&& *final(run) == (SimulationRun { halt_reason: Some(reason), ..*old(run) })
                } else {
                    &&& *final(run) == *old(run)
                    &&& match allowed_quantity(wanted_size(*signal), action) {
                        None => taken.1 == QuoteOutcome::<N>::Skipped && final(self)@ == after_quote,
                        Some(size) => {
                            let tracker = final(self)@.trackers[id@];
                            &&& taken.1 == (QuoteOutcome::Placed {
                                side,
                                price,
                                size,
                                spread_bps: after_quote.last_spread(),
                                rests: signal.price is Some,
                            })
                            &&& final(self)@.trackers.contains_key(id@)
                            &&& is_fresh(tracker, id@, side, timestamp, price)
                            &&& final(self)@ == after_quote.with_order(tracker)
                        },
                    }
                }
            }),
    {
        let price: N = match signal.price {
            Some(price) => price,
            None => N::of(0),
        };
        let wanted: N = match signal.quantity {
            Some(quantity) => quantity,
            None => N::of(0),
        };
        let next: QuotePair<N> = self.on_quote(pair, quoted_side(&signal.signal_type), price);
        match size_quote(wanted, action) {
            QuoteSizing::Skip => (next, QuoteOutcome::Skipped),
            QuoteSizing::Halt => {
                run.halt(reason);
                (next, QuoteOutcome::Halted)
            },
            QuoteSizing::Place(size) => {
                let side: BookSide = order_side(&signal.signal_type);
                let spread_bps: N = self.place_order(id, side, timestamp, price);
                (next, QuoteOutcome::Placed { side, price, size, spread_bps, rests: signal.price.is_some() })
            },
        }
    }
}

} // verus!
