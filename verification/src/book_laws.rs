//! What quotes and recorded books say about prices and depth.

use vstd::prelude::*;

use crate::asof::{
    amounts, best_price, is_strategy_book, real_levels, BookSnapshot, OrderBookLevel, OrderbookSnapshot,
};
use crate::exact::{lemma_total_reads, readings, reads_exactly, real_sum};
use crate::number::Number;
use crate::order_laws::orders_well;
use crate::simulation::{best_quote, is_executed, missed_by, trimmed, OrderTracker, SimulationState};
use crate::synthetic_book::BookSide;

verus! {

/// The best quote of a side is a price that the side quotes, and none of its
/// orders quotes a higher bid or a lower ask; there is none only where the
/// side has no order.
pub proof fn law_best_quote_is_the_highest_bid_or_the_lowest_ask<N: Number>(trackers: Seq<OrderTracker<N>>, side: BookSide)
    requires
        orders_well::<N>(),
    ensures
        best_quote(trackers, side) is None <==> forall|i: int| 0 <= i < trackers.len() ==> (#[trigger] trackers[i]).side != side,
        best_quote(trackers, side) matches Some(best) ==> exists|i: int|
            0 <= i < trackers.len() && (#[trigger] trackers[i]).side == side && trackers[i].price == best,
        best_quote(trackers, side) matches Some(best) ==> forall|i: int|
            0 <= i < trackers.len() && (#[trigger] trackers[i]).side == side ==> match side {
                BookSide::Bid => trackers[i].price.at_most(best),
                BookSide::Ask => best.at_most(trackers[i].price),
            },
    decreases trackers.len(),
{
    if trackers.len() > 0 {
        let shorter = trackers.drop_last();
        let last = trackers.len() - 1;
        law_best_quote_is_the_highest_bid_or_the_lowest_ask(shorter, side);
        assert(forall|i: int| 0 <= i < last ==> #[trigger] trackers[i] == shorter[i]);
        assert(trackers.last() == trackers[last]);
        assert(trackers[last].price.at_most(trackers[last].price));
        if let Some(best) = best_quote(shorter, side) {
            let i = choose|i: int|
                0 <= i < shorter.len() && (#[trigger] shorter[i]).side == side && shorter[i].price == best;
            assert(trackers[i] == shorter[i]);
            assert(best.at_most(best));
        }
    }
}

/// A market trade misses where it stops short of the best quote that it runs
/// into: a sale above the best bid, or a purchase below the best ask. It
/// misses by the distance between the two.
pub proof fn law_missed_trades_stop_short_of_the_quote<N: Number>(
    value: spec_fn(N) -> real,
    trackers: Seq<OrderTracker<N>>,
    price: N,
)
    requires
        reads_exactly(value),
    ensures
        missed_by(trackers, BookSide::Ask, price) is Some <==> best_quote(trackers, BookSide::Bid) is Some && value(price)
            > value(best_quote(trackers, BookSide::Bid)->0),
        missed_by(trackers, BookSide::Bid, price) is Some <==> best_quote(trackers, BookSide::Ask) is Some && value(price)
            < value(best_quote(trackers, BookSide::Ask)->0),
        missed_by(trackers, BookSide::Ask, price) matches Some(miss) ==> miss.0 == BookSide::Bid && value(miss.1) + value(
            best_quote(trackers, BookSide::Bid)->0,
        ) == value(price),
        missed_by(trackers, BookSide::Bid, price) matches Some(miss) ==> miss.0 == BookSide::Ask && value(miss.1) + value(
            price,
        ) == value(best_quote(trackers, BookSide::Ask)->0),
{
}

/// An order was executed where something was asked for and something came.
pub proof fn law_executed_orders_have_a_quantity<N: Number>(value: spec_fn(N) -> real, requested: N, executed: N)
    requires
        reads_exactly(value),
    ensures
        is_executed(requested, executed) <==> value(requested) > 0real && value(executed) > 0real,
{
    assert(value(N::whole(0)) == 0real);
}

/// After a market trade the window begins within an hour of it, and after an
/// own trade the history of its exchange begins within thirty days; the other
/// exchanges keep theirs.
pub proof fn law_windows_reach_back_an_hour_and_thirty_days<N: Number>(
    state: SimulationState<N>,
    exchange: Seq<char>,
    timestamp: i64,
    amount: N,
    other: Seq<char>,
)
    requires
        other != exchange,
    ensures
        ({
            let window = state.with_market_trade(timestamp, amount).market_trades;
            window.len() > 0 && timestamp - window[0].0 <= 3_600_000 && window.last() == (timestamp, amount)
        }),
        ({
            let history = state.with_own_trade(exchange, timestamp, amount).history_of(exchange);
            history.len() > 0 && timestamp - history[0].0 <= 2_592_000_000 && history.last() == (timestamp, amount)
        }),
        state.with_own_trade(exchange, timestamp, amount).history_of(other) == state.history_of(other),
        state.with_own_trade(exchange, timestamp, amount).volume_of(other) == state.volume_of(other),
{
    lemma_trimming_keeps_the_newest(
        state.market_trades,
        timestamp,
        amount,
        state.market_volume_sum.sum(amount),
        3_600_000,
    );
    lemma_trimming_keeps_the_newest(
        state.history_of(exchange),
        timestamp,
        amount,
        state.volume_of(exchange).sum(amount),
        2_592_000_000,
    );
}

proof fn lemma_trimming_keeps_the_newest<N: Number>(
    window: Seq<(i64, N)>,
    timestamp: i64,
    amount: N,
    volume: N,
    span: int,
)
    requires
        span >= 0,
    ensures
        ({
            let kept = trimmed(window.push((timestamp, amount)), volume, timestamp, span).0;
            kept.len() > 0 && timestamp - kept[0].0 <= span && kept.last() == (timestamp, amount)
        }),
    decreases window.len(),
{
    let whole = window.push((timestamp, amount));
    if window.len() == 0 {
        assert(whole[0] == (timestamp, amount));
    } else if timestamp - whole[0].0 > span {
        let rest = window.subrange(1, window.len() as int);
        assert(whole.subrange(1, whole.len() as int) =~= rest.push((timestamp, amount)));
        lemma_trimming_keeps_the_newest(rest, timestamp, amount, volume.difference(whole[0].1), span);
    }
}

/// Levels without a positive price are dropped; the others stay, in order.
pub proof fn law_levels_without_a_price_are_dropped<N: Number>(
    value: spec_fn(N) -> real,
    levels: Seq<OrderBookLevel<N>>,
    level: OrderBookLevel<N>,
)
    requires
        reads_exactly(value),
    ensures
        real_levels(Seq::<OrderBookLevel<N>>::empty()) == Seq::<OrderBookLevel<N>>::empty(),
        value(level.price) > 0real ==> real_levels(levels.push(level)) == real_levels(levels).push(level),
        value(level.price) <= 0real ==> real_levels(levels.push(level)) == real_levels(levels),
{
    assert(value(N::whole(0)) == 0real);
    assert(levels.push(level).drop_last() =~= levels);
}

/// A book as the strategy sees it: the spread takes the best bid to the best
/// ask, the middle lies halfway between them, each depth is that of its own
/// side, and the imbalance is positive where the bids are deeper.
pub proof fn law_strategy_book_measures_its_own_sides<N: Number>(
    value: spec_fn(N) -> real,
    snap: BookSnapshot<N>,
    book: OrderbookSnapshot<N>,
)
    requires
        reads_exactly(value),
        is_strategy_book(snap, book),
    ensures
        book.bids@.len() > 0 && book.asks@.len() > 0 ==> value(book.bids@[0].price) + value(book.spread) == value(
            book.asks@[0].price,
        ) && value(book.mid_price) * 2real == value(book.bids@[0].price) + value(book.asks@[0].price),
        book.bids@ == real_levels(snap.bids@),
        book.asks@ == real_levels(snap.asks@),
        value(book.bid_depth) == real_sum(book.bids@.map_values(|l: OrderBookLevel<N>| value(l.amount))),
        value(book.ask_depth) == real_sum(book.asks@.map_values(|l: OrderBookLevel<N>| value(l.amount))),
        value(book.bid_depth) + value(book.ask_depth) > 0real ==> value(book.imbalance) * (value(book.bid_depth) + value(
            book.ask_depth,
        )) == value(book.bid_depth) - value(book.ask_depth),
        value(book.bid_depth) + value(book.ask_depth) <= 0real ==> value(book.imbalance) == 0real,
{
    assert(value(N::whole(0)) == 0real && value(N::whole(2)) == 2real);
    lemma_total_reads(value, amounts(book.bids@));
    lemma_total_reads(value, amounts(book.asks@));
    assert(readings(value, amounts(book.bids@)) =~= book.bids@.map_values(|l: OrderBookLevel<N>| value(l.amount)));
    assert(readings(value, amounts(book.asks@)) =~= book.asks@.map_values(|l: OrderBookLevel<N>| value(l.amount)));
    assert(best_price(book.bids@) == if book.bids@.len() > 0 { book.bids@[0].price } else { N::whole(0) });
    let middle = best_price(book.bids@).sum(best_price(book.asks@)).quotient(N::whole(2));
    assert(value(middle) * 2real == value(best_price(book.bids@)) + value(best_price(book.asks@)));
}

} // verus!
