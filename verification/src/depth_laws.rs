//! What the book that a candle implies says about prices and depth.

use vstd::prelude::*;

use crate::exact::{lemma_ratio_reads, reads_exactly, real_sum};
use crate::fills::is_book_fill;
use crate::number::{ratio_of, Number};
use crate::signals::Direction;
use crate::synthetic_book::{
    ask_level, bid_level, distance_bps, first_level_volume, geometric_sum, half_spread, order_cost, walked, DepthLevel,
    SyntheticBookConfig,
};

verus! {

proof fn lemma_scaled_order(factor: real, low: real, high: real)
    requires
        factor >= 0real,
        low <= high,
    ensures
        factor * low <= factor * high,
{
    let gap = high - low;
    assert(factor * gap >= 0real) by (nonlinear_arith)
        requires
            factor >= 0real,
            gap >= 0real,
    ;
    assert(factor * (high - low) == factor * high - factor * low) by (nonlinear_arith);
}

proof fn lemma_unscaled_order(factor: real, low: real, high: real)
    requires
        factor > 0real,
        low * factor <= high * factor,
    ensures
        low <= high,
{
    if high < low {
        let gap = low - high;
        assert(gap * factor > 0real) by (nonlinear_arith)
            requires
                factor > 0real,
                gap > 0real,
        ;
        assert((low - high) * factor == low * factor - high * factor) by (nonlinear_arith);
    }
}

/// Half the spread is the base of so many basis points of the close, and half
/// the range times its multiplier on top, up to the cap: the spread never
/// narrows as the range widens.
pub proof fn law_wider_ranges_widen_the_spread<N: Number>(
    value: spec_fn(N) -> real,
    close: N,
    high: N,
    low: N,
    config: SyntheticBookConfig<N>,
)
    requires
        reads_exactly(value),
        value(close) > 0real,
    ensures
        ({
            let h = value(half_spread(close, high, low, config));
            let widening = 10000real * (value(high) - value(low)) * value(config.volatility_multiplier);
            let cap = 2real * value(close) * value(config.max_volatility_widening_bps);
            h * 20000real == 2real * value(close) * value(config.spread_bps) + if widening < cap {
                widening
            } else {
                cap
            }
        }),
{
    assert(value(N::whole(0)) == 0real && value(N::whole(2)) == 2real && value(N::whole(10_000)) == 10000real);
    let c = value(close);
    let m = value(config.volatility_multiplier);
    let g = value(high) - value(low);
    let range = high.difference(low).quotient(close);
    let r = value(range);
    assert(r * c == g);
    let base = value(close.product(config.spread_bps).quotient(N::whole(10_000)));
    assert(base * 10000real == c * value(config.spread_bps));
    let w = value(close.product(range).product(config.volatility_multiplier).quotient(N::whole(2)));
    assert(w * 2real == c * r * m);
    let cap = value(close.product(config.max_volatility_widening_bps).quotient(N::whole(10_000)));
    assert(cap * 10000real == c * value(config.max_volatility_widening_bps));
    assert(c * r == r * c) by (nonlinear_arith);
    assert(c * r * m == g * m);
    assert(10000real * g * m == 10000real * (g * m)) by (nonlinear_arith);
    assert(2real * c * value(config.max_volatility_widening_bps) == 2real * (c * value(
        config.max_volatility_widening_bps,
    ))) by (nonlinear_arith);
    assert(2real * c * value(config.spread_bps) == 2real * (c * value(config.spread_bps))) by (nonlinear_arith);
}

/// The book lies evenly about the close: each bid is as far below it as the
/// ask of the same level is above, with the same volume.
pub proof fn law_levels_mirror_each_other<N: Number>(
    value: spec_fn(N) -> real,
    i: usize,
    close: N,
    high: N,
    low: N,
    volume: N,
    config: SyntheticBookConfig<N>,
)
    requires
        reads_exactly(value),
    ensures
        value(bid_level(i, close, high, low, volume, config).price) + value(
            ask_level(i, close, high, low, volume, config).price,
        ) == 2real * value(close),
        bid_level(i, close, high, low, volume, config).volume == ask_level(i, close, high, low, volume, config).volume,
{
}

/// The best levels lie half the spread from the close. Each further level
/// lies half the spread further out, at least a basis point of the close, and
/// holds the decayed volume of the one before.
pub proof fn law_levels_recede_from_the_close<N: Number>(
    value: spec_fn(N) -> real,
    i: usize,
    close: N,
    high: N,
    low: N,
    volume: N,
    config: SyntheticBookConfig<N>,
)
    requires
        reads_exactly(value),
        i < u32::MAX,
    ensures
        ({
            let h = value(half_spread(close, high, low, config));
            let tick = value(close) / 10000real;
            let here = ask_level(i, close, high, low, volume, config);
            let next = ask_level((i + 1) as usize, close, high, low, volume, config);
            let below = bid_level(i, close, high, low, volume, config);
            let lower = bid_level((i + 1) as usize, close, high, low, volume, config);
            &&& i == 0 ==> value(here.price) == value(close) + h && value(below.price) == value(close) - h
            &&& value(next.price) - value(here.price) == if h < tick { tick } else { h }
            &&& value(below.price) - value(lower.price) == if h < tick { tick } else { h }
            &&& value(next.volume) == value(here.volume) * value(config.depth_decay)
            &&& value(lower.volume) == value(below.volume) * value(config.depth_decay)
            &&& i == 0 ==> value(here.volume) == value(first_level_volume(volume, config))
        }),
{
    lemma_ratio_reads(value, 1, 10_000);
    let h = value(half_spread(close, high, low, config));
    let spread = half_spread(close, high, low, config);
    let spacing = spread.larger(close.product(ratio_of::<N>(1, 10_000)));
    let s = value(spacing);
    let c = value(close);
    assert(c * (1real / 10000real) == c / 10000real);
    assert(s == if h < c / 10000real { c / 10000real } else { h });
    let j = (i + 1) as usize;
    assert(value(N::counted(i)) == i as int as real);
    assert(value(N::counted(j)) == j as int as real);
    let x = i as int as real;
    let y = j as int as real;
    assert(y == x + 1real);
    assert(s * (x + 1real) == s * x + s) by (nonlinear_arith);
    if i == 0 {
        assert(s * x == 0real) by (nonlinear_arith)
            requires
                x == 0real,
        ;
    }
    let d = config.depth_decay;
    let first = first_level_volume(volume, config);
    assert(value(d.raised(j as u32)) == value(d.raised(i as u32)) * value(d));
    let v = value(first);
    let p = value(d.raised(i as u32));
    let q = value(d);
    assert(v * (p * q) == (v * p) * q) by (nonlinear_arith);
    if i == 0 {
        assert(value(d.raised(0)) == 1real);
        assert(v * 1real == v);
    }
}

/// Volumes of the levels of one side of the book.
pub open spec fn side_volumes<N: Number>(
    value: spec_fn(N) -> real,
    count: nat,
    volume: N,
    config: SyntheticBookConfig<N>,
) -> Seq<real> {
    Seq::new(count, |i: int| value(first_level_volume(volume, config)) * value(config.depth_decay.raised(i as u32)))
}

proof fn lemma_volumes_add_up<N: Number>(value: spec_fn(N) -> real, count: nat, volume: N, config: SyntheticBookConfig<N>)
    requires
        reads_exactly(value),
        count <= u32::MAX,
    ensures
        real_sum(side_volumes(value, count, volume, config)) * (1real - value(config.depth_decay)) == value(
            first_level_volume(volume, config),
        ) * (1real - value(config.depth_decay.raised(count as u32))),
        value(config.depth_decay) == 1real ==> real_sum(side_volumes(value, count, volume, config)) == value(
            first_level_volume(volume, config),
        ) * (count as int as real) && value(config.depth_decay.raised(count as u32)) == 1real,
        value(config.depth_decay) >= 0real ==> value(config.depth_decay.raised(count as u32)) >= 0real,
    decreases count,
{
    let d = config.depth_decay;
    let q = value(d);
    let v = value(first_level_volume(volume, config));
    let all = side_volumes(value, count, volume, config);
    assert(value(d.raised(0)) == 1real);
    if count == 0 {
        assert(all =~= Seq::empty());
        assert(0real * (1real - q) == 0real) by (nonlinear_arith);
        assert(v * (1real - 1real) == 0real) by (nonlinear_arith);
        assert(v * 0real == 0real) by (nonlinear_arith);
    } else {
        let fewer = (count - 1) as nat;
        lemma_volumes_add_up(value, fewer, volume, config);
        let before = side_volumes(value, fewer, volume, config);
        assert(all.drop_last() =~= before);
        let p = value(d.raised(fewer as u32));
        let n = value(d.raised(count as u32));
        assert(n == p * q);
        assert(all.last() == v * p);
        let s = real_sum(before);
        let t = real_sum(all);
        assert(t == s + v * p);
        assert((s + v * p) * (1real - q) == s * (1real - q) + (v * p) * (1real - q)) by (nonlinear_arith);
        assert(v * (1real - p) + (v * p) * (1real - q) == v * (1real - p * q)) by (nonlinear_arith);
        let k = fewer as int as real;
        let l = count as int as real;
        assert(l == k + 1real);
        if q == 1real {
            assert(p * q == 1real * 1real);
            assert(v * p == v * 1real);
            assert(v * (k + 1real) == v * k + v) by (nonlinear_arith);
        }
        if q >= 0real {
            assert(n >= 0real) by (nonlinear_arith)
                requires
                    n == p * q,
                    q >= 0real,
                    p >= 0real,
            ;
        }
    }
}

/// The levels of a side share half the volume of the candle, for every decay
/// below one that is told apart from one, and for levels of equal volume.
pub proof fn law_levels_of_a_side_share_half_the_volume<N: Number>(
    value: spec_fn(N) -> real,
    volume: N,
    config: SyntheticBookConfig<N>,
)
    requires
        reads_exactly(value),
        0 < config.depth_levels <= i32::MAX,
        0real <= value(config.depth_decay) <= 1real,
        value(config.depth_decay) == 1real || value(config.depth_decay) <= 1real - 1real / 1000000000000real,
    ensures
        real_sum(side_volumes(value, config.depth_levels as nat, volume, config)) * 2real == value(volume),
{
    let n = config.depth_levels as nat;
    let d = config.depth_decay;
    let q = value(d);
    lemma_volumes_add_up(value, n, volume, config);
    lemma_ratio_reads(value, 1, 1_000_000_000_000);
    assert(value(N::whole(0)) == 0real && value(N::whole(1)) == 1real && value(N::whole(2)) == 2real);
    assert(value(N::counted(config.depth_levels)) == config.depth_levels as int as real);
    let half = volume.quotient(N::whole(2));
    assert(value(half) * 2real == value(volume));
    let parts = geometric_sum(d, config.depth_levels);
    let p = value(parts);
    let t = real_sum(side_volumes(value, n, volume, config));
    let v = value(first_level_volume(volume, config));
    let e = value(d.raised(n as u32));
    if q == 1real {
        assert(value(d.difference(N::whole(1)).magnitude()) == 0real);
        assert(p == n as int as real);
        assert(v * p == value(half));
    } else {
        assert(p * (1real - q) == 1real - e);
        lemma_power_below_one(value, d, n);
        let a = 1real - q;
        assert(0real * a == 0real) by (nonlinear_arith);
        lemma_unscaled_order(a, 0real, p);
        assert(p != 0real) by {
            if p == 0real {
                assert(p * a == 0real * a);
            }
        }
        assert(v * p == value(half));
        assert(v * (p * a) == (v * p) * a) by (nonlinear_arith);
        assert(t * a == (v * p) * a);
        lemma_unscaled_order(a, t, v * p);
        lemma_unscaled_order(a, v * p, t);
    }
}

proof fn lemma_power_below_one<N: Number>(value: spec_fn(N) -> real, d: N, count: nat)
    requires
        reads_exactly(value),
        0real <= value(d) < 1real,
        0 < count <= u32::MAX,
    ensures
        0real <= value(d.raised(count as u32)) < 1real,
    decreases count,
{
    let q = value(d);
    let p = value(d.raised((count - 1) as u32));
    let n = value(d.raised(count as u32));
    assert(n == p * q);
    if count == 1 {
        assert(p == 1real);
    } else {
        lemma_power_below_one(value, d, (count - 1) as nat);
    }
    lemma_scaled_order(q, 0real, p);
    lemma_scaled_order(q, p, 1real);
    assert(p * q == q * p) by (nonlinear_arith);
    assert(q * 0real == 0real && q * 1real == q);
}

/// Volume of the levels together.
pub open spec fn real_depth<N>(value: spec_fn(N) -> real, levels: Seq<DepthLevel<N>>) -> real
    decreases levels.len(),
{
    if levels.len() == 0 {
        0real
    } else {
        real_depth(value, levels.drop_last()) + value(levels.last().volume)
    }
}

/// What an order pays that takes of each level what the levels before it have
/// left of the order, as far as the level goes.
pub open spec fn real_paid<N>(value: spec_fn(N) -> real, levels: Seq<DepthLevel<N>>, size: real) -> real
    decreases levels.len(),
{
    if levels.len() == 0 {
        0real
    } else {
        let reached = real_depth(value, levels.drop_last());
        let volume = value(levels.last().volume);
        let taken = if size <= reached {
            0real
        } else if size < reached + volume {
            size - reached
        } else {
            volume
        };
        real_paid(value, levels.drop_last(), size) + taken * value(levels.last().price)
    }
}

proof fn lemma_walk_pays_level_by_level<N: Number>(value: spec_fn(N) -> real, levels: Seq<DepthLevel<N>>, size: N)
    requires
        reads_exactly(value),
        value(size) >= 0real,
        forall|i: int| 0 <= i < levels.len() ==> value((#[trigger] levels[i]).volume) >= 0real,
    ensures
        ({
            let walk = walked(levels, size);
            let depth = real_depth(value, levels);
            &&& value(walk.remaining) == if value(size) <= depth { 0real } else { value(size) - depth }
            &&& value(walk.cost) == real_paid(value, levels, value(size))
            &&& depth >= 0real
        }),
    decreases levels.len(),
{
    assert(value(N::whole(0)) == 0real);
    if levels.len() > 0 {
        let shorter = levels.drop_last();
        assert(forall|i: int| 0 <= i < shorter.len() ==> #[trigger] shorter[i] == levels[i]);
        lemma_walk_pays_level_by_level(value, shorter, size);
        let volume = value(levels[levels.len() - 1].volume);
        assert(levels.last() == levels[levels.len() - 1]);
        assert(volume >= 0real);
        let price = value(levels.last().price);
        assert(0real * price == 0real) by (nonlinear_arith);
    }
}

/// An order takes the levels in turn, each as far as it goes, and pays the
/// price of the last level for what the book does not hold.
pub proof fn law_orders_take_the_levels_in_turn<N: Number>(value: spec_fn(N) -> real, levels: Seq<DepthLevel<N>>, size: N)
    requires
        reads_exactly(value),
        levels.len() > 0,
        value(size) >= 0real,
        forall|i: int| 0 <= i < levels.len() ==> value((#[trigger] levels[i]).volume) >= 0real,
    ensures
        value(order_cost(levels, size)) == real_paid(value, levels, value(size)) + if value(size) > real_depth(
            value,
            levels,
        ) {
            (value(size) - real_depth(value, levels)) * value(levels.last().price)
        } else {
            0real
        },
{
    assert(value(N::whole(0)) == 0real);
    lemma_walk_pays_level_by_level(value, levels, size);
}

proof fn lemma_walk_pays_within_the_prices<N: Number>(
    value: spec_fn(N) -> real,
    levels: Seq<DepthLevel<N>>,
    size: N,
    bound: real,
    is_floor: bool,
)
    requires
        reads_exactly(value),
        value(size) >= 0real,
        forall|i: int| 0 <= i < levels.len() ==> value((#[trigger] levels[i]).volume) >= 0real,
        forall|i: int|
            0 <= i < levels.len() ==> if is_floor {
                value((#[trigger] levels[i]).price) >= bound
            } else {
                value(levels[i].price) <= bound
            },
    ensures
        ({
            let walk = walked(levels, size);
            let bought = value(size) - value(walk.remaining);
            &&& 0real <= value(walk.remaining) <= value(size)
            &&& is_floor ==> value(walk.cost) >= bought * bound
            &&& !is_floor ==> value(walk.cost) <= bought * bound
        }),
    decreases levels.len(),
{
    assert(value(N::whole(0)) == 0real);
    if levels.len() == 0 {
        assert(0real * bound == 0real) by (nonlinear_arith);
    } else {
        let shorter = levels.drop_last();
        assert(forall|i: int| 0 <= i < shorter.len() ==> #[trigger] shorter[i] == levels[i]);
        lemma_walk_pays_within_the_prices(value, shorter, size, bound, is_floor);
        let level = levels[levels.len() - 1];
        assert(levels.last() == level);
        let before = walked(shorter, size);
        let walk = walked(levels, size);
        let taken = value(before.remaining.smaller(level.volume));
        let price = value(level.price);
        let had = value(size) - value(before.remaining);
        let has = value(size) - value(walk.remaining);
        if value(before.remaining) > 0real {
            assert(value(level.volume) >= 0real);
            assert(has == had + taken);
            assert(taken >= 0real);
            assert(value(walk.cost) == value(before.cost) + taken * price);
            assert((had + taken) * bound == had * bound + taken * bound) by (nonlinear_arith);
            if is_floor {
                lemma_scaled_order(taken, bound, price);
            } else {
                lemma_scaled_order(taken, price, bound);
            }
        }
    }
}

/// An order pays no less than the lowest price of the levels and no more than
/// the highest.
pub proof fn law_orders_pay_within_the_prices_of_the_levels<N: Number>(
    value: spec_fn(N) -> real,
    levels: Seq<DepthLevel<N>>,
    size: N,
    lowest: real,
    highest: real,
)
    requires
        reads_exactly(value),
        levels.len() > 0,
        value(size) > 0real,
        forall|i: int| 0 <= i < levels.len() ==> value((#[trigger] levels[i]).volume) >= 0real,
        forall|i: int| 0 <= i < levels.len() ==> lowest <= value((#[trigger] levels[i]).price) <= highest,
    ensures
        value(size) * lowest <= value(order_cost(levels, size)) <= value(size) * highest,
{
    assert(value(N::whole(0)) == 0real);
    lemma_walk_pays_within_the_prices(value, levels, size, lowest, true);
    lemma_walk_pays_within_the_prices(value, levels, size, highest, false);
    let walk = walked(levels, size);
    let left = value(walk.remaining);
    let cost = value(walk.cost);
    let s = value(size);
    assert(levels.last() == levels[levels.len() - 1]);
    let price = value(levels.last().price);
    let total = value(order_cost(levels, size));
    if left > 0real {
        assert(total == cost + left * price);
        lemma_scaled_order(left, lowest, price);
        lemma_scaled_order(left, price, highest);
        assert((s - left) * lowest == s * lowest - left * lowest) by (nonlinear_arith);
        assert((s - left) * highest == s * highest - left * highest) by (nonlinear_arith);
    } else {
        assert(left == 0real);
        assert(total == cost);
    }
}

/// The distance in basis points is ten thousand times the distance relative
/// to the reference, whichever side the price lies on.
pub proof fn law_distance_is_relative_to_the_reference<N: Number>(value: spec_fn(N) -> real, price: N, reference: N)
    requires
        reads_exactly(value),
        value(reference) > 0real,
    ensures
        ({
            let gap = value(price) - value(reference);
            value(distance_bps(price, reference)) * value(reference) == 10000real * if gap < 0real { -gap } else { gap }
        }),
{
    assert(value(N::whole(0)) == 0real && value(N::whole(10_000)) == 10000real);
    let r = value(reference);
    let g = value(price.difference(reference).magnitude());
    let q = value(price.difference(reference).magnitude().quotient(reference));
    assert(q * r == g);
    assert(q * 10000real * r == 10000real * (q * r)) by (nonlinear_arith);
}

/// A market order bought through the book pays at least the best ask, and one
/// sold through it gets at most the best bid: never better than the close.
pub proof fn law_market_orders_pay_the_spread<N: Number>(
    value: spec_fn(N) -> real,
    direction: Direction,
    qty: N,
    candle: (N, N, N, N),
    config: SyntheticBookConfig<N>,
    result: (N, N),
)
    requires
        reads_exactly(value),
        value(qty) > 0real,
        value(candle.0) > 0real,
        config.depth_levels <= i32::MAX,
        value(half_spread(candle.0, candle.1, candle.2, config)) >= 0real,
        value(first_level_volume(candle.3, config)) >= 0real,
        value(config.depth_decay) >= 0real,
        is_book_fill(direction, qty, candle, config, result),
    ensures
        ({
            let half = value(half_spread(candle.0, candle.1, candle.2, config));
            match direction {
                Direction::Buy => value(result.0) >= value(candle.0) + half,
                Direction::Sell => value(result.0) <= value(candle.0) - half,
            }
        }),
{
    let (close, high, low, volume) = candle;
    let half = value(half_spread(close, high, low, config));
    assert(value(N::whole(0)) == 0real);
    let n = config.depth_levels as nat;
    if n > 0 {
        let levels = match direction {
            Direction::Buy => Seq::new(n, |i: int| ask_level(i as usize, close, high, low, volume, config)),
            Direction::Sell => Seq::new(n, |i: int| bid_level(i as usize, close, high, low, volume, config)),
        };
        let best = match direction {
            Direction::Buy => value(close) + half,
            Direction::Sell => value(close) - half,
        };
        let is_floor = direction is Buy;
        lemma_ratio_reads(value, 1, 10_000);
        let spread = half_spread(close, high, low, config);
        let spacing = value(spread.larger(close.product(ratio_of::<N>(1, 10_000))));
        assert(spacing >= 0real);
        assert forall|i: int| 0 <= i < levels.len() implies value((#[trigger] levels[i]).volume) >= 0real && if is_floor {
            value(levels[i].price) >= best
        } else {
            value(levels[i].price) <= best
        } by {
            lemma_volumes_add_up(value, i as nat, volume, config);
            let p = value(config.depth_decay.raised(i as u32));
            let v = value(first_level_volume(volume, config));
            assert(v * p >= 0real) by (nonlinear_arith)
                requires
                    v >= 0real,
                    p >= 0real,
            ;
            assert((i as usize) as u32 == i as u32);
            assert(value(N::counted(i as usize)) == (i as usize) as int as real);
            let x = i as real;
            assert(x >= 0real);
            assert(spacing * x >= 0real) by (nonlinear_arith)
                requires
                    spacing >= 0real,
                    x >= 0real,
            ;
        }
        lemma_walk_pays_within_the_prices(value, levels, qty, best, is_floor);
        let walk = walked(levels, qty);
        let left = value(walk.remaining);
        let cost = value(walk.cost);
        let s = value(qty);
        assert(levels.last() == levels[levels.len() - 1]);
        let price = value(levels.last().price);
        let total = value(order_cost(levels, qty));
        let paid = value(order_cost(levels, qty).quotient(qty));
        assert(paid * s == total);
        if left > 0real {
            assert(total == cost + left * price);
        } else {
            assert(left == 0real);
            assert(total == cost);
            assert(left * price == 0real) by (nonlinear_arith)
                requires
                    left == 0real,
            ;
        }
        assert((s - left) * best == best * s - left * best) by (nonlinear_arith);
        if is_floor {
            lemma_scaled_order(left, best, price);
            lemma_unscaled_order(s, best, paid);
        } else {
            lemma_scaled_order(left, price, best);
            lemma_unscaled_order(s, paid, best);
        }
    }
}

} // verus!
