//! An order book implied by a candle, for data without a real one.

use vstd::prelude::*;

use crate::number::{ratio, ratio_of, Number};

verus! {

/// Side of an order: a bid buys, an ask sells.
#[derive(Debug, Clone, Copy, PartialEq, Eq, Structural)]
pub enum BookSide {
    Bid,
    Ask,
}

/// How a book is derived from a candle.
#[derive(Debug, Clone, Copy)]
pub struct SyntheticBookConfig<N> {
    /// Base half-spread in basis points.
    pub spread_bps: N,
    /// Levels on each side.
    pub depth_levels: usize,
    /// Share of a level's volume that the next level has.
    pub depth_decay: N,
    /// How much the range of the bar widens the spread.
    pub volatility_multiplier: N,
    /// Most basis points that the range may add to half the spread.
    pub max_volatility_widening_bps: N,
}

/// One level of depth.
#[derive(Debug, Clone, Copy)]
pub struct DepthLevel<N> {
    pub price: N,
    pub volume: N,
}

/// The book implied by one candle.
pub struct SyntheticOrderBook<N> {
    pub mid_price: N,
    pub best_bid: N,
    pub best_ask: N,
    pub bid_levels: Vec<DepthLevel<N>>,
    pub ask_levels: Vec<DepthLevel<N>>,
}

impl<N: Number> Default for SyntheticBookConfig<N> {
    /// Five basis points of half-spread, five levels that halve in volume, twice
    /// the range, and at most fifty basis points of widening.
    fn default() -> (config: Self)
        ensures
            config.spread_bps == N::whole(5),
            config.depth_levels == 5,
            config.depth_decay == ratio_of::<N>(1, 2),
            config.volatility_multiplier == N::whole(2),
            config.max_volatility_widening_bps == N::whole(50),
    {
        SyntheticBookConfig {
            spread_bps: N::of(5),
            depth_levels: 5,
            depth_decay: ratio(1, 2),
            volatility_multiplier: N::of(2),
            max_volatility_widening_bps: N::of(50),
        }
    }
}

/// Range of the bar relative to its close; none for a close that is not
/// positive.
pub open spec fn range_ratio<N: Number>(close: N, high: N, low: N) -> N {
    if N::whole(0).below(close) {
        high.difference(low).quotient(close)
    } else {
        N::whole(0)
    }
}

/// Half the spread: the base half-spread, widened by the range up to the cap.
pub open spec fn half_spread<N: Number>(close: N, high: N, low: N, config: SyntheticBookConfig<N>) -> N {
    let base = close.product(config.spread_bps).quotient(N::whole(10_000));
    let widening = close.product(range_ratio(close, high, low)).product(config.volatility_multiplier).quotient(
        N::whole(2),
    );
    let cap = close.product(config.max_volatility_widening_bps).quotient(N::whole(10_000));
    base.sum(widening.smaller(cap))
}

/// The levels' volumes added up, in units of the first level's volume.
pub open spec fn geometric_sum<N: Number>(decay: N, levels: usize) -> N {
    if decay.difference(N::whole(1)).magnitude().below(ratio_of::<N>(1, 1_000_000_000_000)) {
        N::counted(levels)
    } else {
        N::whole(1).difference(decay.raised(levels as u32)).quotient(N::whole(1).difference(decay))
    }
}

/// Volume of the first level: the levels of a side share half the volume.
pub open spec fn first_level_volume<N: Number>(volume: N, config: SyntheticBookConfig<N>) -> N {
    let half = volume.quotient(N::whole(2));
    let parts = geometric_sum(config.depth_decay, config.depth_levels);
    if N::whole(0).below(parts) {
        half.quotient(parts)
    } else {
        half
    }
}

/// Distance between levels: half the spread, at least one basis point.
pub open spec fn level_spacing<N: Number>(close: N, spread: N) -> N {
    spread.larger(close.product(ratio_of::<N>(1, 10_000)))
}

/// A level of the bid side.
pub open spec fn bid_level<N: Number>(
    i: usize,
    close: N,
    high: N,
    low: N,
    volume: N,
    config: SyntheticBookConfig<N>,
) -> DepthLevel<N> {
    let spread = half_spread(close, high, low, config);
    DepthLevel {
        price: close.difference(spread).difference(level_spacing(close, spread).product(N::counted(i))),
        volume: first_level_volume(volume, config).product(config.depth_decay.raised(i as u32)),
    }
}

/// A level of the ask side.
pub open spec fn ask_level<N: Number>(
    i: usize,
    close: N,
    high: N,
    low: N,
    volume: N,
    config: SyntheticBookConfig<N>,
) -> DepthLevel<N> {
    let spread = half_spread(close, high, low, config);
    DepthLevel {
        price: close.sum(spread).sum(level_spacing(close, spread).product(N::counted(i))),
        volume: first_level_volume(volume, config).product(config.depth_decay.raised(i as u32)),
    }
}

/// What an order has paid and what is left of it.
pub struct Walk<N> {
    pub cost: N,
    pub remaining: N,
}

/// An order taken through the first levels of a side.
pub open spec fn walked<N: Number>(levels: Seq<DepthLevel<N>>, order_size: N) -> Walk<N>
    decreases levels.len(),
{
    if levels.len() == 0 {
        Walk { cost: N::whole(0), remaining: order_size }
    } else {
        let before = walked(levels.drop_last(), order_size);
        if before.remaining.at_most(N::whole(0)) {
            before
        } else {
            let level = levels.last();
            let taken = before.remaining.smaller(level.volume);
            Walk {
                cost: before.cost.sum(taken.product(level.price)),
                remaining: before.remaining.difference(taken),
            }
        }
    }
}

/// Cost of an order that takes the levels in turn; what exceeds them is paid
/// at the price of the last.
pub open spec fn order_cost<N: Number>(levels: Seq<DepthLevel<N>>, order_size: N) -> N {
    let walk = walked(levels, order_size);
    if N::whole(0).below(walk.remaining) {
        walk.cost.sum(walk.remaining.product(levels.last().price))
    } else {
        walk.cost
    }
}

/// Distance of a price from the reference in basis points.
pub open spec fn distance_bps<N: Number>(price: N, reference: N) -> N {
    if N::whole(0).below(reference) {
        price.difference(reference).magnitude().quotient(reference).product(N::whole(10_000))
    } else {
        N::whole(0)
    }
}

impl<N: Number> SyntheticOrderBook<N> {
    /// The levels that an order of this side takes.
    pub open spec fn taken_side(&self, side: BookSide) -> Seq<DepthLevel<N>> {
        match side {
            BookSide::Bid => self.ask_levels@,
            BookSide::Ask => self.bid_levels@,
        }
    }

    /// Derives the book from a candle.
    ///
    /// The close is the middle price; a wider range widens the spread, up to
    /// the cap; the volume is shared out over the levels of both sides.
    pub fn from_candle(close: N, high: N, low: N, volume: N, config: &SyntheticBookConfig<N>) -> (book: Self)
        requires
            config.depth_levels <= i32::MAX,
        ensures
            book.mid_price == close,
            book.best_bid == close.difference(half_spread(close, high, low, *config)),
            book.best_ask == close.sum(half_spread(close, high, low, *config)),
            book.bid_levels@ == Seq::new(
                config.depth_levels as nat,
                |i: int| bid_level(i as usize, close, high, low, volume, *config),
            ),
            book.ask_levels@ == Seq::new(
                config.depth_levels as nat,
                |i: int| ask_level(i as usize, close, high, low, volume, *config),
            ),
    {
        let range: N = if N::of(0).lt(close) { high.minus(low).over(close) } else { N::of(0) };
        let base: N = close.times(config.spread_bps).over(N::of(10_000));
        let widening: N = close.times(range).times(config.volatility_multiplier).over(N::of(2));
        let cap: N = close.times(config.max_volatility_widening_bps).over(N::of(10_000));
        let spread: N = base.plus(widening.min(cap));
        let best_bid: N = close.minus(spread);
        let best_ask: N = close.plus(spread);
        let half: N = volume.over(N::of(2));
        let decay: N = config.depth_decay;
        let parts: N = if decay.minus(N::of(1)).abs().lt(ratio(1, 1_000_000_000_000)) {
            N::count(config.depth_levels)
        } else {
            N::of(1).minus(decay.power(config.depth_levels as u32)).over(N::of(1).minus(decay))
        };
        let first: N = if N::of(0).lt(parts) { half.over(parts) } else { half };
        let spacing: N = spread.max(close.times(ratio(1, 10_000)));
        let mut bid_levels: Vec<DepthLevel<N>> = Vec::new();
        let mut ask_levels: Vec<DepthLevel<N>> = Vec::new();
        let mut i: usize = 0;
        while i < config.depth_levels
            invariant
                i <= config.depth_levels <= i32::MAX,
                spread == half_spread(close, high, low, *config),
                best_bid == close.difference(spread),
                best_ask == close.sum(spread),
                decay == config.depth_decay,
                first == first_level_volume(volume, *config),
                spacing == level_spacing(close, spread),
                bid_levels@ =~= Seq::new(
                    i as nat,
                    |k: int| bid_level(k as usize, close, high, low, volume, *config),
                ),
                ask_levels@ =~= Seq::new(
                    i as nat,
                    |k: int| ask_level(k as usize, close, high, low, volume, *config),
                ),
            decreases config.depth_levels - i,
        {
            let level_volume: N = first.times(decay.power(i as u32));
            bid_levels.push(DepthLevel { price: best_bid.minus(spacing.times(N::count(i))), volume: level_volume });
            ask_levels.push(DepthLevel { price: best_ask.plus(spacing.times(N::count(i))), volume: level_volume });
            i = i + 1;
        }
        SyntheticOrderBook { mid_price: close, best_bid, best_ask, bid_levels, ask_levels }
    }

    /// Average price and slippage, in basis points, of a market order that
    /// takes the levels of the other side in turn.
    pub fn calculate_slippage(&self, order_size: N, side: BookSide) -> (fill: (N, N))
        ensures
            ({
                let levels = self.taken_side(side);
                if levels.len() == 0 || order_size.at_most(N::whole(0)) {
                    fill == (
                        if side == BookSide::Bid { self.best_ask } else { self.best_bid },
                        N::whole(0),
                    )
                } else {
                    let price = order_cost(levels, order_size).quotient(order_size);
                    fill == (price, distance_bps(price, self.mid_price))
                }
            }),
    {
        let buying = match side {
            BookSide::Bid => true,
            BookSide::Ask => false,
        };
        let levels: &Vec<DepthLevel<N>> = if buying { &self.ask_levels } else { &self.bid_levels };
        if levels.len() == 0 || order_size.le(N::of(0)) {
            let price: N = if buying { self.best_ask } else { self.best_bid };
            return (price, N::of(0));
        }
        let mut cost: N = N::of(0);
        let mut remaining: N = order_size;
        let mut i: usize = 0;
        assert(levels@.take(0) =~= Seq::empty());
        while i < levels.len()
            invariant
                i <= levels@.len(),
                cost == walked(levels@.take(i as int), order_size).cost,
                remaining == walked(levels@.take(i as int), order_size).remaining,
            decreases levels@.len() - i,
        {
            assert(levels@.take(i as int + 1).drop_last() =~= levels@.take(i as int));
            if !remaining.le(N::of(0)) {
                let taken: N = remaining.min(levels[i].volume);
                cost = cost.plus(taken.times(levels[i].price));
                remaining = remaining.minus(taken);
            }
            i = i + 1;
        }
        assert(levels@.take(i as int) =~= levels@);
        if N::of(0).lt(remaining) {
            cost = cost.plus(remaining.times(levels[levels.len() - 1].price));
        }
        let price: N = cost.over(order_size);
        let slippage: N = if N::of(0).lt(self.mid_price) {
            price.minus(self.mid_price).abs().over(self.mid_price).times(N::of(10_000))
        } else {
            N::of(0)
        };
        (price, slippage)
    }

    /// Market impact in basis points: half the spread times the square root
    /// of the order's share of the bar's volume.
    pub fn calculate_market_impact(&self, order_size: N, bar_volume: N) -> (impact_bps: N)
        ensures
            impact_bps == if bar_volume.at_most(N::whole(0)) || order_size.at_most(N::whole(0)) {
                N::whole(0)
            } else {
                let half_bps = if N::whole(0).below(self.mid_price) {
                    self.best_ask.difference(self.best_bid).quotient(N::whole(2).product(self.mid_price)).product(
                        N::whole(10_000),
                    )
                } else {
                    N::whole(0)
                };
                half_bps.product(order_size.quotient(bar_volume).root())
            },
    {
        if bar_volume.le(N::of(0)) || order_size.le(N::of(0)) {
            return N::of(0);
        }
        let half_bps: N = if N::of(0).lt(self.mid_price) {
            self.best_ask.minus(self.best_bid).over(N::of(2).times(self.mid_price)).times(N::of(10_000))
        } else {
            N::of(0)
        };
        half_bps.times(order_size.over(bar_volume).sqrt())
    }
}

} // verus!
