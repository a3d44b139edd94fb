//! Values as they were known at a point in time.

use vstd::prelude::*;

use crate::clock::is_representable;
use crate::number::{add_up, total, Number};

verus! {

/// A value with the time from which it is known.
#[derive(Debug, Clone, PartialEq)]
pub struct Stamped<T> {
    pub timestamp: i64,
    pub value: T,
}

/// One price level of a book.
#[derive(Debug, Clone, Copy, PartialEq)]
pub struct OrderBookLevel<N> {
    pub price: N,
    pub amount: N,
}

/// A book snapshot, best levels first, with its time in microseconds.
#[derive(Debug, Clone, PartialEq)]
pub struct BookSnapshot<N> {
    pub timestamp_us: i64,
    pub bids: Vec<OrderBookLevel<N>>,
    pub asks: Vec<OrderBookLevel<N>>,
}

/// A book as the strategy sees it.
#[derive(Debug, Clone, PartialEq)]
pub struct OrderbookSnapshot<N> {
    pub bids: Vec<OrderBookLevel<N>>,
    pub asks: Vec<OrderBookLevel<N>>,
    pub spread: N,
    pub mid_price: N,
    pub bid_depth: N,
    pub ask_depth: N,
    pub imbalance: N,
}

/// In ascending order of time.
pub open spec fn in_time_order(times: Seq<i64>) -> bool {
    forall|i: int, j: int| 0 <= i <= j < times.len() ==> times[i] <= times[j]
}

/// Entries up to the last one that is at or before the time.
pub open spec fn known_by(times: Seq<i64>, time: int) -> int
    decreases times.len(),
{
    if times.len() == 0 {
        0
    } else if times.last() <= time {
        times.len() as int
    } else {
        known_by(times.drop_last(), time)
    }
}

/// `k` entries of the series are at or before the time, and no others.
pub open spec fn splits_at(times: Seq<i64>, time: int, k: int) -> bool {
    &&& 0 <= k <= times.len()
    &&& forall|i: int| 0 <= i < k ==> #[trigger] times[i] <= time
    &&& forall|i: int| k <= i < times.len() ==> #[trigger] times[i] > time
}

/// Times of a series of points.
pub open spec fn point_times<N>(series: Seq<(i64, N)>) -> Seq<i64> {
    series.map_values(|p: (i64, N)| p.0)
}

/// Times of a series of stamped values.
pub open spec fn stamps<T>(series: Seq<Stamped<T>>) -> Seq<i64> {
    series.map_values(|s: Stamped<T>| s.timestamp)
}

/// Times of a series of book snapshots.
pub open spec fn snapshot_times<N>(series: Seq<BookSnapshot<N>>) -> Seq<i64> {
    series.map_values(|s: BookSnapshot<N>| s.timestamp_us)
}

/// The value of a series at a time: the last one at or before it, never a
/// later one. The series is in order of time.
pub fn find_asof_value<N: Number>(series: &[(i64, N)], timestamp: i64) -> (value: Option<N>)
    requires
        in_time_order(point_times(series@)),
    ensures
        ({
            let k = known_by(point_times(series@), timestamp as int);
            value == if k == 0 { None } else { Some(series@[k - 1].1) }
        }),
{
    let ghost times = point_times(series@);
    let mut low: usize = 0;
    let mut high: usize = series.len();
    while low < high
        invariant
            low <= high <= series@.len(),
            times == point_times(series@),
            in_time_order(times),
            forall|i: int| 0 <= i < low ==> #[trigger] times[i] <= timestamp,
            forall|i: int| high <= i < times.len() ==> #[trigger] times[i] > timestamp,
        decreases high - low,
    {
        let middle: usize = low + (high - low) / 2;
        assert(times[middle as int] == series@[middle as int].0);
        if series[middle].0 <= timestamp {
            low = middle + 1;
        } else {
            high = middle;
        }
    }
    proof {
        lemma_known_by(times, timestamp as int, low as int);
    }
    if low == 0 {
        None
    } else {
        Some(series[low - 1].1)
    }
}

proof fn lemma_known_by(times: Seq<i64>, time: int, k: int)
    requires
        splits_at(times, time, k),
    ensures
        known_by(times, time) == k,
    decreases times.len(),
{
    if times.len() > k {
        let shorter = times.drop_last();
        assert(times[times.len() - 1] > time);
        assert forall|i: int| 0 <= i < k implies #[trigger] shorter[i] <= time by {
            assert(times[i] <= time);
        }
        assert forall|i: int| k <= i < shorter.len() implies #[trigger] shorter[i] > time by {
            assert(times[i] > time);
        }
        lemma_known_by(shorter, time, k);
    } else if k > 0 {
        assert(times[k - 1] <= time);
    }
}

proof fn lemma_known_by_splits(times: Seq<i64>, time: int)
    requires
        in_time_order(times),
    ensures
        splits_at(times, time, known_by(times, time)),
    decreases times.len(),
{
    if times.len() > 0 {
        if times.last() <= time {
            assert forall|i: int| 0 <= i < times.len() implies #[trigger] times[i] <= time by {
                assert(times[i] <= times[times.len() - 1]);
            }
        } else {
            let shorter = times.drop_last();
            assert forall|i: int, j: int| 0 <= i <= j < shorter.len() implies shorter[i] <= shorter[j] by {
                assert(times[i] <= times[j]);
            }
            lemma_known_by_splits(shorter, time);
            let k = known_by(shorter, time);
            assert forall|i: int| 0 <= i < k implies #[trigger] times[i] <= time by {
                assert(shorter[i] <= time);
            }
            assert forall|i: int| k <= i < times.len() implies #[trigger] times[i] > time by {
                if i < shorter.len() {
                    assert(shorter[i] > time);
                }
            }
        }
    }
}

/// No lookahead: the entry that a series gives for a time was known at or
/// before it, and every entry behind that one lies in the future. Where there
/// is none, the whole series lies in the future.
pub proof fn law_asof_value_is_never_from_the_future(times: Seq<i64>, time: int)
    requires
        in_time_order(times),
    ensures
        ({
            let k = known_by(times, time);
            &&& 0 <= k <= times.len()
            &&& k > 0 ==> times[k - 1] <= time
            &&& forall|i: int| k <= i < times.len() ==> #[trigger] times[i] > time
        }),
{
    lemma_known_by_splits(times, time);
}

/// The stamped value that is in force at a time, if any is yet. The series is
/// in order of time.
pub fn find_nearest_iv_surface<'a, T>(surfaces: &'a [Stamped<T>], timestamp: i64) -> (value: Option<&'a T>)
    requires
        in_time_order(stamps(surfaces@)),
    ensures
        ({
            let k = known_by(stamps(surfaces@), timestamp as int);
            value == if k == 0 { None } else { Some(&surfaces@[k - 1].value) }
        }),
{
    let ghost times = stamps(surfaces@);
    let mut low: usize = 0;
    let mut high: usize = surfaces.len();
    while low < high
        invariant
            low <= high <= surfaces@.len(),
            times == stamps(surfaces@),
            in_time_order(times),
            forall|i: int| 0 <= i < low ==> #[trigger] times[i] <= timestamp,
            forall|i: int| high <= i < times.len() ==> #[trigger] times[i] > timestamp,
        decreases high - low,
    {
        let middle: usize = low + (high - low) / 2;
        assert(times[middle as int] == surfaces@[middle as int].timestamp);
        if surfaces[middle].timestamp <= timestamp {
            low = middle + 1;
        } else {
            high = middle;
        }
    }
    proof {
        lemma_known_by(times, timestamp as int, low as int);
    }
    if low == 0 {
        None
    } else {
        Some(&surfaces[low - 1].value)
    }
}

/// The levels with a positive price, in order.
pub open spec fn real_levels<N: Number>(levels: Seq<OrderBookLevel<N>>) -> Seq<OrderBookLevel<N>>
    decreases levels.len(),
{
    if levels.len() == 0 {
        Seq::empty()
    } else {
        let before = real_levels(levels.drop_last());
        if N::whole(0).below(levels.last().price) {
            before.push(levels.last())
        } else {
            before
        }
    }
}

/// Amounts of the levels, in order.
pub open spec fn amounts<N>(levels: Seq<OrderBookLevel<N>>) -> Seq<N> {
    levels.map_values(|l: OrderBookLevel<N>| l.amount)
}

/// Price of the best level, or nothing for an empty side.
pub open spec fn best_price<N: Number>(levels: Seq<OrderBookLevel<N>>) -> N {
    if levels.len() > 0 {
        levels[0].price
    } else {
        N::whole(0)
    }
}

/// The strategy's book is derived from the snapshot: levels without a
/// positive price are dropped, and the rest gives spread, middle price, depth
/// and imbalance.
pub open spec fn is_strategy_book<N: Number>(snap: BookSnapshot<N>, book: OrderbookSnapshot<N>) -> bool {
    let bids = real_levels(snap.bids@);
    let asks = real_levels(snap.asks@);
    let bid_depth = total(amounts(bids));
    let ask_depth = total(amounts(asks));
    let depth = bid_depth.sum(ask_depth);
    &&& book.bids@ == bids
    &&& book.asks@ == asks
    &&& book.spread == best_price(asks).difference(best_price(bids))
    &&& book.mid_price == best_price(bids).sum(best_price(asks)).quotient(N::whole(2))
    &&& book.bid_depth == bid_depth
    &&& book.ask_depth == ask_depth
    &&& book.imbalance == if N::whole(0).below(depth) {
        bid_depth.difference(ask_depth).quotient(depth)
    } else {
        N::whole(0)
    }
}

fn keep_real<N: Number>(levels: &Vec<OrderBookLevel<N>>) -> (kept: Vec<OrderBookLevel<N>>)
    ensures
        kept@ == real_levels(levels@),
{
    let mut kept: Vec<OrderBookLevel<N>> = Vec::new();
    let mut i: usize = 0;
    assert(levels@.take(0) =~= Seq::empty());
    while i < levels.len()
        invariant
            i <= levels@.len(),
            kept@ == real_levels(levels@.take(i as int)),
        decreases levels@.len() - i,
    {
        assert(levels@.take(i as int + 1).drop_last() =~= levels@.take(i as int));
        if N::of(0).lt(levels[i].price) {
            kept.push(levels[i]);
        }
        i = i + 1;
    }
    assert(levels@.take(i as int) =~= levels@);
    kept
}

fn depth_of<N: Number>(levels: &Vec<OrderBookLevel<N>>) -> (depth: N)
    ensures
        depth == total(amounts(levels@)),
{
    let mut values: Vec<N> = Vec::new();
    let mut i: usize = 0;
    while i < levels.len()
        invariant
            i <= levels@.len(),
            values@ =~= amounts(levels@).take(i as int),
        decreases levels@.len() - i,
    {
        values.push(levels[i].amount);
        i = i + 1;
    }
    assert(values@ =~= amounts(levels@));
    add_up(values.as_slice())
}

fn best<N: Number>(levels: &Vec<OrderBookLevel<N>>) -> (price: N)
    ensures
        price == best_price(levels@),
{
    if levels.len() > 0 {
        levels[0].price
    } else {
        N::of(0)
    }
}

/// The strategy's view of a book snapshot.
pub fn tardis_to_orderbook<N: Number>(snap: &BookSnapshot<N>) -> (book: OrderbookSnapshot<N>)
    ensures
        is_strategy_book(*snap, book),
{
    let bids = keep_real(&snap.bids);
    let asks = keep_real(&snap.asks);
    let best_bid: N = best(&bids);
    let best_ask: N = best(&asks);
    let bid_depth: N = depth_of(&bids);
    let ask_depth: N = depth_of(&asks);
    let depth: N = bid_depth.plus(ask_depth);
    let imbalance: N = if N::of(0).lt(depth) { bid_depth.minus(ask_depth).over(depth) } else { N::of(0) };
    OrderbookSnapshot {
        bids,
        asks,
        spread: best_ask.minus(best_bid),
        mid_price: best_bid.plus(best_ask).over(N::of(2)),
        bid_depth,
        ask_depth,
        imbalance,
    }
}

/// The book at a time: the last snapshot at or before it, or the earliest
/// where all are later. The snapshots are in order of time.
pub fn find_nearest_snapshot<N: Number>(
    snapshots: &[BookSnapshot<N>],
    timestamp_ms: i64,
) -> (book: Option<OrderbookSnapshot<N>>)
    requires
        in_time_order(snapshot_times(snapshots@)),
        is_representable(timestamp_ms as int),
    ensures
        book is Some <==> snapshots@.len() > 0,
        book matches Some(found) ==> {
            let k = known_by(snapshot_times(snapshots@), timestamp_ms * 1000);
            is_strategy_book(snapshots@[if k == 0 { 0 } else { k - 1 }], found)
        },
{
    let ghost times = snapshot_times(snapshots@);
    let time: i64 = timestamp_ms * 1000;
    let mut low: usize = 0;
    let mut high: usize = snapshots.len();
    while low < high
        invariant
            low <= high <= snapshots@.len(),
            times == snapshot_times(snapshots@),
            in_time_order(times),
            forall|i: int| 0 <= i < low ==> #[trigger] times[i] <= time,
            forall|i: int| high <= i < times.len() ==> #[trigger] times[i] > time,
        decreases high - low,
    {
        let middle: usize = low + (high - low) / 2;
        assert(times[middle as int] == snapshots@[middle as int].timestamp_us);
        if snapshots[middle].timestamp_us <= time {
            low = middle + 1;
        } else {
            high = middle;
        }
    }
    proof {
        lemma_known_by(times, time as int, low as int);
    }
    if snapshots.len() == 0 {
        None
    } else if low == 0 {
        Some(tardis_to_orderbook(&snapshots[0]))
    } else {
        Some(tardis_to_orderbook(&snapshots[low - 1]))
    }
}

} // verus!
