//! Order book of the quoting simulation: its resting orders, its traded
//! volumes and the costs of its fills.

use std::collections::VecDeque;
use vstd::prelude::*;

use crate::id_map::IdMap;
use crate::number::Number;
use crate::simulation_costs::FillCost;
use crate::synthetic_book::BookSide;

verus! {

/// An hour in milliseconds.
pub const HOUR_MS: i64 = 3_600_000;

/// Thirty days in milliseconds.
pub const MONTH_MS: i64 = 2_592_000_000;

/// Life of one order.
#[derive(Debug)]
pub struct OrderTracker<N> {
    pub order_id: String,
    pub side: BookSide,
    /// When it was placed, in milliseconds since the epoch.
    pub placed_at: i64,
    pub price: N,
    pub filled: bool,
    pub fill_count: usize,
    pub first_fill_at: Option<i64>,
}

/// What is recorded along a run.
#[derive(Debug, Clone, Copy, PartialEq)]
pub enum Collector<N> {
    TransactionCosts,
    Inventory,
    ExecutionQuality,
    MissedOpportunities,
    /// Round trips, net of fees at this rate.
    RoundTrips(N),
    Timestamps,
}

/// The recorders of a full evaluation.
pub open spec fn full_set<N>(fee_rate: N) -> Seq<Collector<N>> {
    seq![
        Collector::TransactionCosts,
        Collector::Inventory,
        Collector::ExecutionQuality,
        Collector::MissedOpportunities,
        Collector::RoundTrips(fee_rate),
        Collector::Timestamps,
    ]
}

/// Fee rate of the first recorder of round trips; the flat rate where round
/// trips are not recorded.
pub open spec fn round_trip_rate<N>(collectors: Seq<Collector<N>>, flat_rate: N) -> N
    decreases collectors.len(),
{
    if collectors.len() == 0 {
        flat_rate
    } else {
        match collectors[0] {
            Collector::RoundTrips(rate) => rate,
            _ => round_trip_rate(collectors.skip(1), flat_rate),
        }
    }
}

/// Orders, volumes and quotes of a run.
pub struct SimulationLoop<N> {
    /// Trades of the last thirty days, by exchange: time and value.
    pub trade_history_by_exchange: IdMap<VecDeque<(i64, N)>>,
    /// Value traded in the last thirty days, by exchange.
    pub current_30d_volume_by_exchange: IdMap<N>,
    /// Orders that rest on the book.
    pub active_order_ids: IdMap<()>,
    /// Market trades of the last hour: time and value.
    pub market_volume_window: VecDeque<(i64, N)>,
    pub market_volume_sum: N,
    /// Market volume per minute, over the last hour.
    pub rolling_avg_volume: N,
    /// Orders that are neither filled nor cancelled.
    pub order_trackers: IdMap<OrderTracker<N>>,
    pub orders_filled_count: usize,
    pub bid_orders_filled_count: usize,
    pub ask_orders_filled_count: usize,
    /// Spread of each pair of quotes, in basis points.
    pub quote_spreads_bps: Vec<N>,
    /// Ticks on which the strategy was not asked.
    pub stable_region_skips: usize,
    pub collectors: Vec<Collector<N>>,
}

/// What a [`SimulationLoop`] holds.
#[verifier::ext_equal]
pub struct SimulationState<N> {
    pub histories: Map<Seq<char>, Seq<(i64, N)>>,
    pub volumes: Map<Seq<char>, N>,
    pub active: Map<Seq<char>, ()>,
    pub market_trades: Seq<(i64, N)>,
    pub market_volume_sum: N,
    pub average_volume: N,
    pub trackers: Map<Seq<char>, OrderTracker<N>>,
    pub orders_filled: nat,
    pub bids_filled: nat,
    pub asks_filled: nat,
    pub spreads: Seq<N>,
    pub skips: nat,
    pub collectors: Seq<Collector<N>>,
}

/// A window of trades and its volume, without the trades at its front that
/// are more than a span older than the newest.
pub open spec fn trimmed<N: Number>(window: Seq<(i64, N)>, volume: N, newest: i64, span: int) -> (Seq<(i64, N)>, N)
    decreases window.len(),
{
    if window.len() == 0 || newest - window[0].0 <= span {
        (window, volume)
    } else {
        trimmed(window.subrange(1, window.len() as int), volume.difference(window[0].1), newest, span)
    }
}

/// The tracker after one more fill.
pub open spec fn after_fill<N>(tracker: OrderTracker<N>, fill_time: i64) -> OrderTracker<N> {
    OrderTracker {
        filled: true,
        first_fill_at: if tracker.filled { tracker.first_fill_at } else { Some(fill_time) },
        fill_count: (tracker.fill_count + 1) as usize,
        ..tracker
    }
}

/// A fresh order.
pub open spec fn is_fresh<N>(tracker: OrderTracker<N>, id: Seq<char>, side: BookSide, placed_at: i64, price: N) -> bool {
    &&& tracker.order_id@ == id
    &&& tracker.side == side
    &&& tracker.placed_at == placed_at
    &&& tracker.price == price
    &&& !tracker.filled
    &&& tracker.fill_count == 0
    &&& tracker.first_fill_at is None
}

/// What a fill of the book is to the run.
#[derive(Debug, Clone, Copy, PartialEq, Eq, Structural)]
pub enum FillScreen {
    /// Not an order of the run.
    Foreign,
    /// An order of this side that had not yet reached the exchange.
    TooEarly(BookSide),
    Ours,
}

impl<N: Number> SimulationState<N> {
    /// The resting orders are those that are tracked, and every filled order
    /// was a bid or an ask.
    pub open spec fn consistent(self) -> bool {
        &&& self.active.dom() == self.trackers.dom()
        &&& self.orders_filled == self.bids_filled + self.asks_filled
    }

    /// After a trade in the market.
    pub open spec fn with_market_trade(self, timestamp: i64, value: N) -> Self {
        let (window, volume) = trimmed(
            self.market_trades.push((timestamp, value)),
            self.market_volume_sum.sum(value),
            timestamp,
            HOUR_MS as int,
        );
        SimulationState {
            market_trades: window,
            market_volume_sum: volume,
            average_volume: if window.len() > 0 {
                volume.larger(N::whole(0)).quotient(N::whole(60))
            } else {
                self.average_volume
            },
            ..self
        }
    }

    /// After a trade of the run's own on an exchange.
    pub open spec fn with_own_trade(self, exchange: Seq<char>, timestamp: i64, value: N) -> Self {
        let (history, volume) = trimmed(
            self.history_of(exchange).push((timestamp, value)),
            self.volume_of(exchange).sum(value),
            timestamp,
            MONTH_MS as int,
        );
        SimulationState {
            histories: self.histories.insert(exchange, history),
            volumes: self.volumes.insert(exchange, volume.larger(N::whole(0))),
            ..self
        }
    }

    /// Trades of the last thirty days on an exchange.
    pub open spec fn history_of(self, exchange: Seq<char>) -> Seq<(i64, N)> {
        if self.histories.contains_key(exchange) {
            self.histories[exchange]
        } else {
            Seq::empty()
        }
    }

    /// Value traded in the last thirty days on an exchange.
    pub open spec fn volume_of(self, exchange: Seq<char>) -> N {
        if self.volumes.contains_key(exchange) {
            self.volumes[exchange]
        } else {
            N::whole(0)
        }
    }

    /// After a fill of an order; nothing changes where it is not tracked.
    pub open spec fn with_fill(self, id: Seq<char>, fill_time: i64) -> Self {
        if self.trackers.contains_key(id) {
            let tracker = self.trackers[id];
            let first: nat = if tracker.filled { 0 } else { 1 };
            SimulationState {
                trackers: self.trackers.insert(id, after_fill(tracker, fill_time)),
                orders_filled: self.orders_filled + first,
                bids_filled: self.bids_filled + if tracker.side == BookSide::Bid { first } else { 0 },
                asks_filled: self.asks_filled + if tracker.side == BookSide::Ask { first } else { 0 },
                ..self
            }
        } else {
            self
        }
    }

    /// One more fill of the order can be counted.
    pub open spec fn has_room_for_fill(self, id: Seq<char>) -> bool {
        self.trackers.contains_key(id) ==> {
            &&& self.trackers[id].fill_count < usize::MAX
            &&& self.orders_filled < usize::MAX
            &&& self.bids_filled < usize::MAX
            &&& self.asks_filled < usize::MAX
        }
    }

    /// Without an order.
    pub open spec fn without_order(self, id: Seq<char>) -> Self {
        SimulationState { active: self.active.remove(id), trackers: self.trackers.remove(id), ..self }
    }

    /// With a fresh order, in place of any of the same identifier.
    pub open spec fn with_order(self, tracker: OrderTracker<N>) -> Self {
        SimulationState {
            active: self.active.insert(tracker.order_id@, ()),
            trackers: self.trackers.insert(tracker.order_id@, tracker),
            ..self
        }
    }

    /// Without any resting order.
    pub open spec fn without_resting_orders(self) -> Self {
        SimulationState {
            active: Map::empty(),
            trackers: self.trackers.remove_keys(self.active.dom()),
            ..self
        }
    }

    /// What a fill of an order is: an order that was placed less than the
    /// latency before the trade could not have been filled by it.
    pub open spec fn screened(self, id: Seq<char>, trade_time: i64, latency_ms: u64) -> FillScreen {
        if !self.active.contains_key(id) || !self.trackers.contains_key(id) {
            FillScreen::Foreign
        } else if self.trackers[id].placed_at > trade_time - latency_ms {
            FillScreen::TooEarly(self.trackers[id].side)
        } else {
            FillScreen::Ours
        }
    }

    /// Without the first so many of some orders, as far as their fills came
    /// too early.
    pub open spec fn without_early(self, ids: Seq<Seq<char>>, trade_time: i64, latency_ms: u64, n: nat) -> Self
        decreases n,
    {
        if n == 0 {
            self
        } else {
            let before = self.without_early(ids, trade_time, latency_ms, (n - 1) as nat);
            if self.screened(ids[n - 1], trade_time, latency_ms) is TooEarly {
                before.without_order(ids[n - 1])
            } else {
                before
            }
        }
    }
}

/// Drops the trades at the front of a window that are more than a span older
/// than the newest, and returns the volume that is left.
fn trim<N: Number>(window: &mut VecDeque<(i64, N)>, volume: N, newest: i64, span: i64) -> (left: N)
    ensures
        (final(window)@, left) == trimmed(old(window)@, volume, newest, span as int),
{
    let mut left: N = volume;
    while window.len() > 0 && newest as i128 - window[0].0 as i128 > span as i128
        invariant
            trimmed(window@, left, newest, span as int) == trimmed(old(window)@, volume, newest, span as int),
        decreases window@.len(),
    {
        let oldest = window.pop_front();
        if let Some(trade) = oldest {
            left = left.minus(trade.1);
        }
    }
    left
}

impl<N: Number> View for SimulationLoop<N> {
    type V = SimulationState<N>;

    open spec fn view(&self) -> SimulationState<N> {
        SimulationState {
            histories: self.trade_history_by_exchange@.map_values(|history: VecDeque<(i64, N)>| history@),
            volumes: self.current_30d_volume_by_exchange@,
            active: self.active_order_ids@,
            market_trades: self.market_volume_window@,
            market_volume_sum: self.market_volume_sum,
            average_volume: self.rolling_avg_volume,
            trackers: self.order_trackers@,
            orders_filled: self.orders_filled_count as nat,
            bids_filled: self.bid_orders_filled_count as nat,
            asks_filled: self.ask_orders_filled_count as nat,
            spreads: self.quote_spreads_bps@,
            skips: self.stable_region_skips as nat,
            collectors: self.collectors@,
        }
    }
}

impl<N: Number> SimulationLoop<N> {
    /// The maps are well formed.
    pub open spec fn wf(&self) -> bool {
        &&& self.trade_history_by_exchange.wf()
        &&& self.current_30d_volume_by_exchange.wf()
        &&& self.active_order_ids.wf()
        &&& self.order_trackers.wf()
    }

    fn with_collectors(collectors: Vec<Collector<N>>) -> (sim: Self)
        ensures
            sim.wf(),
            sim@ == fresh_state(collectors@),
    {
        let sim = SimulationLoop {
            trade_history_by_exchange: IdMap::new(),
            current_30d_volume_by_exchange: IdMap::new(),
            active_order_ids: IdMap::new(),
            market_volume_window: VecDeque::new(),
            market_volume_sum: N::of(0),
            rolling_avg_volume: N::of(0),
            order_trackers: IdMap::new(),
            orders_filled_count: 0,
            bid_orders_filled_count: 0,
            ask_orders_filled_count: 0,
            quote_spreads_bps: Vec::new(),
            stable_region_skips: 0,
            collectors,
        };
        assert(sim@ =~= fresh_state(collectors@));
        sim
    }

    /// Nothing placed or traded yet; everything is recorded, round trips
    /// without fees.
    pub fn new() -> (sim: Self)
        ensures
            sim.wf(),
            sim@ == fresh_state(full_set(N::whole(0))),
    {
        Self::new_full(N::of(0))
    }

    /// Nothing placed or traded yet; only timestamps are recorded.
    pub fn new_lean() -> (sim: Self)
        ensures
            sim.wf(),
            sim@ == fresh_state(seq![Collector::<N>::Timestamps]),
    {
        let mut collectors: Vec<Collector<N>> = Vec::new();
        collectors.push(Collector::Timestamps);
        assert(collectors@ =~= seq![Collector::<N>::Timestamps]);
        Self::with_collectors(collectors)
    }

    /// Nothing placed or traded yet; everything is recorded, round trips net
    /// of fees at this rate.
    pub fn new_full(fee_rate: N) -> (sim: Self)
        ensures
            sim.wf(),
            sim@ == fresh_state(full_set(fee_rate)),
    {
        let mut collectors: Vec<Collector<N>> = Vec::new();
        collectors.push(Collector::TransactionCosts);
        collectors.push(Collector::Inventory);
        collectors.push(Collector::ExecutionQuality);
        collectors.push(Collector::MissedOpportunities);
        collectors.push(Collector::RoundTrips(fee_rate));
        collectors.push(Collector::Timestamps);
        assert(collectors@ =~= full_set(fee_rate));
        Self::with_collectors(collectors)
    }

    /// Credits the configured exchange with the volume that the run starts
    /// from, where that is positive.
    pub fn initialize_starting_volume(&mut self, configured: Option<(&str, N)>)
        requires
            old(self).wf(),
        ensures
            final(self).wf(),
            final(self)@ == match configured {
                Some((exchange, volume)) => if N::whole(0).below(volume) {
                    SimulationState { volumes: old(self)@.volumes.insert(exchange@, volume), ..old(self)@ }
                } else {
                    old(self)@
                },
                None => old(self)@,
            },
    {
        if let Some((exchange, volume)) = configured {
            if N::of(0).lt(volume) {
                self.current_30d_volume_by_exchange.insert(exchange.to_owned(), volume);
            }
        }
    }

    /// Takes in a trade of the market. The volume per minute is that of the
    /// hour up to it.
    pub fn update_market_volume(&mut self, timestamp: i64, trade_value: N)
        requires
            old(self).wf(),
        ensures
            final(self).wf(),
            final(self)@ == old(self)@.with_market_trade(timestamp, trade_value),
            final(self).order_trackers == old(self).order_trackers,
    {
        self.market_volume_window.push_back((timestamp, trade_value));
        let volume: N = self.market_volume_sum.plus(trade_value);
        self.market_volume_sum = trim(&mut self.market_volume_window, volume, timestamp, 3_600_000);
        if self.market_volume_window.len() > 0 {
            self.rolling_avg_volume = self.market_volume_sum.max(N::of(0)).over(N::of(60));
        }
    }

    /// Counts a tick on which the strategies were not asked, as the price had
    /// hardly moved.
    pub fn skip_stable_region(&mut self)
        requires
            old(self).wf(),
            old(self).stable_region_skips < usize::MAX,
        ensures
            final(self).wf(),
            final(self)@ == (SimulationState { skips: old(self)@.skips + 1, ..old(self)@ }),
    {
        self.stable_region_skips = self.stable_region_skips + 1;
    }

    /// Fee rate that round trips are charged.
    pub fn round_trip_fee_rate(&self, flat_rate: N) -> (rate: N)
        ensures
            rate == round_trip_rate(self@.collectors, flat_rate),
    {
        let mut i: usize = 0;
        assert(self.collectors@.skip(0) =~= self.collectors@);
        while i < self.collectors.len()
            invariant
                i <= self.collectors@.len(),
                round_trip_rate(self.collectors@.skip(i as int), flat_rate) == round_trip_rate(
                    self.collectors@,
                    flat_rate,
                ),
            decreases self.collectors@.len() - i,
        {
            assert(self.collectors@.skip(i as int).skip(1) =~= self.collectors@.skip(i as int + 1));
            if let Collector::RoundTrips(rate) = self.collectors[i] {
                return rate;
            }
            i = i + 1;
        }
        flat_rate
    }

    /// Volume of the market per minute; a hundred thousand while there is
    /// none.
    pub fn get_avg_volume(&self) -> (volume: N)
        ensures
            volume == if N::whole(0).below(self@.average_volume) {
                self@.average_volume
            } else {
                N::whole(100_000)
            },
    {
        if N::of(0).lt(self.rolling_avg_volume) {
            self.rolling_avg_volume
        } else {
            N::of(100_000)
        }
    }

    /// Takes in a trade of the run's own on an exchange. The volume of the
    /// exchange is that of the thirty days up to it, and never negative.
    pub fn update_30d_volume(&mut self, exchange: &str, timestamp: i64, trade_value: N)
        requires
            old(self).wf(),
        ensures
            final(self).wf(),
            final(self)@ == old(self)@.with_own_trade(exchange@, timestamp, trade_value),
    {
        let mut history: VecDeque<(i64, N)> = match self.trade_history_by_exchange.remove(exchange) {
            Some(history) => history,
            None => VecDeque::new(),
        };
        assert(history@ =~= old(self)@.history_of(exchange@));
        history.push_back((timestamp, trade_value));
        let volume: N = self.thirty_day_volume(exchange).plus(trade_value);
        let volume: N = trim(&mut history, volume, timestamp, 2_592_000_000);
        self.trade_history_by_exchange.insert(exchange.to_owned(), history);
        self.current_30d_volume_by_exchange.insert(exchange.to_owned(), volume.max(N::of(0)));
        assert(self@ =~= old(self)@.with_own_trade(exchange@, timestamp, trade_value));
    }

    /// Value traded in the last thirty days on an exchange.
    pub fn thirty_day_volume(&self, exchange: &str) -> (volume: N)
        requires
            self.wf(),
        ensures
            volume == self@.volume_of(exchange@),
    {
        match self.current_30d_volume_by_exchange.get(exchange) {
            Some(volume) => *volume,
            None => N::of(0),
        }
    }
}

/// Nothing placed or traded yet.
pub open spec fn fresh_state<N: Number>(collectors: Seq<Collector<N>>) -> SimulationState<N> {
    SimulationState {
        histories: Map::empty(),
        volumes: Map::empty(),
        active: Map::empty(),
        market_trades: Seq::empty(),
        market_volume_sum: N::whole(0),
        average_volume: N::whole(0),
        trackers: Map::empty(),
        orders_filled: 0,
        bids_filled: 0,
        asks_filled: 0,
        spreads: Seq::empty(),
        skips: 0,
        collectors,
    }
}

/// The trackers of the other orders.
spec fn without_ids<N>(trackers: Map<Seq<char>, OrderTracker<N>>, ids: Seq<Seq<char>>) -> Map<Seq<char>, OrderTracker<N>> {
    Map::new(|id: Seq<char>| trackers.contains_key(id) && !ids.contains(id), |id: Seq<char>| trackers[id])
}

/// An order as it was placed.
fn fresh_tracker<N: Number>(id: String, side: BookSide, placed_at: i64, price: N) -> (tracker: OrderTracker<N>)
    ensures
        is_fresh(tracker, id@, side, placed_at, price),
        tracker.order_id == id,
{
    OrderTracker { order_id: id, side, placed_at, price, filled: false, fill_count: 0, first_fill_at: None }
}

/// A resting order that was taken off the book.
#[derive(Debug)]
pub struct CancelledOrder {
    pub id: String,
    /// It had never been filled.
    pub unfilled: bool,
}

/// What a fill came to.
#[derive(Debug, Clone, Copy, PartialEq)]
pub struct ExecutedTrade<N> {
    pub quantity: N,
    pub value: N,
    pub commission: N,
    pub slippage: N,
}

/// The fill was carried out, in part at least.
pub open spec fn is_executed<N: Number>(requested: N, executed: N) -> bool {
    !executed.at_most(N::whole(0)) && !requested.at_most(N::whole(0))
}

/// The best price that the tracked orders of a side quote: the highest bid or
/// the lowest ask.
pub open spec fn best_quote<N: Number>(trackers: Seq<OrderTracker<N>>, side: BookSide) -> Option<N>
    decreases trackers.len(),
{
    if trackers.len() == 0 {
        None
    } else {
        let before = best_quote(trackers.drop_last(), side);
        let tracker = trackers.last();
        if tracker.side != side {
            before
        } else {
            match before {
                None => Some(tracker.price),
                Some(best) => Some(
                    match side {
                        BookSide::Bid => best.larger(tracker.price),
                        BookSide::Ask => best.smaller(tracker.price),
                    },
                ),
            }
        }
    }
}

/// How far a market trade missed the best quote that it could have filled: a
/// sale above the best bid, or a purchase below the best ask.
pub open spec fn missed_by<N: Number>(
    trackers: Seq<OrderTracker<N>>,
    aggressor: BookSide,
    trade_price: N,
) -> Option<(BookSide, N)> {
    match aggressor {
        BookSide::Ask => match best_quote(trackers, BookSide::Bid) {
            Some(bid) => if bid.below(trade_price) {
                Some((BookSide::Bid, trade_price.difference(bid)))
            } else {
                None
            },
            None => None,
        },
        BookSide::Bid => match best_quote(trackers, BookSide::Ask) {
            Some(ask) => if trade_price.below(ask) {
                Some((BookSide::Ask, ask.difference(trade_price)))
            } else {
                None
            },
            None => None,
        },
    }
}

impl<N: Number> SimulationLoop<N> {
    /// Takes in a fill of an order. The lifetime counts go up at its first
    /// fill; an order that is not tracked is passed over.
    pub fn track_fill(&mut self, order_id: &str, fill_time: i64)
        requires
            old(self).wf(),
            old(self)@.has_room_for_fill(order_id@),
        ensures
            final(self).wf(),
            final(self)@ == old(self)@.with_fill(order_id@, fill_time),
    {
        if let Some(tracker) = self.order_trackers.remove(order_id) {
            let mut tracker: OrderTracker<N> = tracker;
            if !tracker.filled {
                tracker.filled = true;
                tracker.first_fill_at = Some(fill_time);
                self.orders_filled_count = self.orders_filled_count + 1;
                match tracker.side {
                    BookSide::Bid => {
                        self.bid_orders_filled_count = self.bid_orders_filled_count + 1;
                    },
                    BookSide::Ask => {
                        self.ask_orders_filled_count = self.ask_orders_filled_count + 1;
                    },
                }
            }
            tracker.fill_count = tracker.fill_count + 1;
            self.order_trackers.insert(order_id.to_owned(), tracker);
            assert(tracker == after_fill(old(self)@.trackers[order_id@], fill_time));
        }
        assert(self@ =~= old(self)@.with_fill(order_id@, fill_time));
    }

    /// Stops following an order.
    fn drop_order(&mut self, order_id: &str)
        requires
            old(self).wf(),
        ensures
            final(self).wf(),
            final(self)@ == old(self)@.without_order(order_id@),
    {
        self.active_order_ids.remove(order_id);
        self.order_trackers.remove(order_id);
        assert(self@ =~= old(self)@.without_order(order_id@));
    }

    /// Sorts the fills of a market trade into those of the run's orders,
    /// those that came before the order could have reached the exchange, and
    /// the rest. The book has used up the orders that were filled too early,
    /// so the run drops them.
    pub fn screen_fills(&mut self, order_ids: &Vec<String>, trade_time: i64, latency_ms: u64) -> (screens: Vec<
        FillScreen,
    >)
        requires
            old(self).wf(),
        ensures
            final(self).wf(),
            screens@.len() == order_ids@.len(),
            forall|i: int|
                #![trigger screens@[i]]
                0 <= i < order_ids@.len() ==> screens@[i] == old(self)@.screened(
                    order_ids@[i]@,
                    trade_time,
                    latency_ms,
                ),
            final(self)@ == old(self)@.without_early(
                crate::text::texts(order_ids@),
                trade_time,
                latency_ms,
                order_ids@.len(),
            ),
    {
        let mut screens: Vec<FillScreen> = Vec::new();
        let mut i: usize = 0;
        while i < order_ids.len()
            invariant
                i <= order_ids@.len(),
                screens@.len() == i,
                self.wf(),
                self@ == old(self)@,
                forall|k: int|
                    #![trigger screens@[k]]
                    0 <= k < i ==> screens@[k] == old(self)@.screened(order_ids@[k]@, trade_time, latency_ms),
            decreases order_ids@.len() - i,
        {
            let id = order_ids[i].as_str();
            let mut screen = FillScreen::Foreign;
            if self.active_order_ids.contains(id) {
                if let Some(tracker) = self.order_trackers.get(id) {
                    if tracker.placed_at as i128 > trade_time as i128 - latency_ms as i128 {
                        screen = FillScreen::TooEarly(tracker.side);
                    } else {
                        screen = FillScreen::Ours;
                    }
                }
            }
            screens.push(screen);
            i = i + 1;
        }
        let ghost ids = crate::text::texts(order_ids@);
        let mut j: usize = 0;
        while j < order_ids.len()
            invariant
                j <= order_ids@.len(),
                screens@.len() == order_ids@.len(),
                ids == crate::text::texts(order_ids@),
                self.wf(),
                self@ == old(self)@.without_early(ids, trade_time, latency_ms, j as nat),
                forall|k: int|
                    #![trigger screens@[k]]
                    0 <= k < screens@.len() ==> screens@[k] == old(self)@.screened(
                        order_ids@[k]@,
                        trade_time,
                        latency_ms,
                    ),
            decreases order_ids@.len() - j,
        {
            assert(ids[j as int] == order_ids@[j as int]@);
            if let FillScreen::TooEarly(_) = screens[j] {
                self.drop_order(order_ids[j].as_str());
            }
            j = j + 1;
        }
        screens
    }

    /// Takes in how much the portfolio carried out of a fill of a resting
    /// order. The order is gone from the book either way; what was carried
    /// out counts towards the volume of the exchange, and the fee falls in
    /// proportion.
    pub fn on_resting_fill(
        &mut self,
        order_id: &str,
        exchange: &str,
        trade_time: i64,
        price: N,
        requested: N,
        executed: N,
        fee_amount: N,
    ) -> (trade: Option<ExecutedTrade<N>>)
        requires
            old(self).wf(),
            old(self)@.has_room_for_fill(order_id@),
        ensures
            final(self).wf(),
            trade is Some == is_executed(requested, executed),
            trade matches Some(t) ==> t == (ExecutedTrade {
                quantity: executed,
                value: price.product(executed),
                commission: fee_amount.product(executed.quotient(requested)),
                slippage: N::whole(0),
            }),
            final(self)@ == if is_executed(requested, executed) {
                old(self)@.with_fill(order_id@, trade_time).without_order(order_id@).with_own_trade(
                    exchange@,
                    trade_time,
                    price.product(executed),
                )
            } else {
                old(self)@.without_order(order_id@)
            },
    {
        if executed.le(N::of(0)) || requested.le(N::of(0)) {
            self.drop_order(order_id);
            None
        } else {
            let ratio: N = executed.over(requested);
            let value: N = price.times(executed);
            self.track_fill(order_id, trade_time);
            self.drop_order(order_id);
            self.update_30d_volume(exchange, trade_time, value);
            Some(
                ExecutedTrade {
                    quantity: executed,
                    value,
                    commission: fee_amount.times(ratio),
                    slippage: N::of(0),
                },
            )
        }
    }

    /// Takes in how much the portfolio carried out of a fill of a market
    /// order. The order stays active and tracked until it is cancelled.
    pub fn on_market_fill(
        &mut self,
        exchange: &str,
        timestamp: i64,
        price: N,
        requested: N,
        executed: N,
        cost: &FillCost<N>,
    ) -> (trade: Option<ExecutedTrade<N>>)
        requires
            old(self).wf(),
        ensures
            final(self).wf(),
            trade is Some == is_executed(requested, executed),
            trade matches Some(t) ==> t == (ExecutedTrade {
                quantity: executed,
                value: price.product(executed),
                commission: cost.commission.product(executed.quotient(requested)),
                slippage: cost.slippage.product(executed.quotient(requested)),
            }),
            final(self)@ == if is_executed(requested, executed) {
                old(self)@.with_own_trade(exchange@, timestamp, price.product(executed))
            } else {
                old(self)@
            },
    {
        if executed.le(N::of(0)) || requested.le(N::of(0)) {
            None
        } else {
            let ratio: N = executed.over(requested);
            let value: N = price.times(executed);
            self.update_30d_volume(exchange, timestamp, value);
            Some(
                ExecutedTrade {
                    quantity: executed,
                    value,
                    commission: cost.commission.times(ratio),
                    slippage: cost.slippage.times(ratio),
                },
            )
        }
    }

    /// Follows an order that is about to be placed, and returns the spread of
    /// the last pair of quotes, zero where there is none.
    pub fn place_order(&mut self, order_id: &str, side: BookSide, placed_at: i64, price: N) -> (spread_bps: N)
        requires
            old(self).wf(),
        ensures
            final(self).wf(),
            final(self)@.trackers.contains_key(order_id@),
            ({
                let tracker = final(self)@.trackers[order_id@];
                &&& is_fresh(tracker, order_id@, side, placed_at, price)
                &&& final(self)@ == old(self)@.with_order(tracker)
            }),
            spread_bps == if old(self)@.spreads.len() > 0 { old(self)@.spreads.last() } else { N::whole(0) },
    {
        let tracker: OrderTracker<N> = fresh_tracker(order_id.to_owned(), side, placed_at, price);
        self.active_order_ids.insert(order_id.to_owned(), ());
        self.order_trackers.insert(order_id.to_owned(), tracker);
        assert(self@ =~= old(self)@.with_order(tracker));
        if self.quote_spreads_bps.len() > 0 {
            self.quote_spreads_bps[self.quote_spreads_bps.len() - 1]
        } else {
            N::of(0)
        }
    }

    /// Takes every resting order off, and lists them, each once and in no
    /// particular order.
    pub fn cancel_orders(&mut self) -> (cancelled: Vec<CancelledOrder>)
        requires
            old(self).wf(),
        ensures
            final(self).wf(),
            final(self)@ == old(self)@.without_resting_orders(),
            forall|i: int|
                #![trigger cancelled@[i]]
                0 <= i < cancelled@.len() ==> {
                    let id = cancelled@[i].id@;
                    &&& old(self)@.active.contains_key(id)
                    &&& cancelled@[i].unfilled == (old(self)@.trackers.contains_key(id)
                        && !old(self)@.trackers[id].filled)
                },
            forall|i: int, j: int|
                0 <= i < j < cancelled@.len() ==> cancelled@[i].id@ != cancelled@[j].id@,
            forall|id: Seq<char>| #[trigger]
                old(self)@.active.contains_key(id) ==> exists|i: int|
                    0 <= i < cancelled@.len() && #[trigger] cancelled@[i].id@ == id,
    {
        let mut cancelled: Vec<CancelledOrder> = Vec::new();
        let count: usize = self.active_order_ids.len();
        let ghost ids = self.active_order_ids.listed_ids();
        let ghost before = self@;
        proof {
            self.active_order_ids.lemma_listed();
        }
        let mut i: usize = 0;
        while i < count
            invariant
                i <= count,
                count == ids.len(),
                ids.no_duplicates(),
                before == old(self)@,
                self.wf(),
                self.active_order_ids == old(self).active_order_ids,
                ids == self.active_order_ids.listed_ids(),
                count == self.active_order_ids.listed().len(),
                forall|k: int| #![trigger ids[k]] 0 <= k < ids.len() ==> before.active.contains_key(ids[k]),
                self.trade_history_by_exchange == old(self).trade_history_by_exchange,
                self.current_30d_volume_by_exchange == old(self).current_30d_volume_by_exchange,
                self.market_volume_window == old(self).market_volume_window,
                self.market_volume_sum == old(self).market_volume_sum,
                self.rolling_avg_volume == old(self).rolling_avg_volume,
                self.orders_filled_count == old(self).orders_filled_count,
                self.bid_orders_filled_count == old(self).bid_orders_filled_count,
                self.ask_orders_filled_count == old(self).ask_orders_filled_count,
                self.quote_spreads_bps == old(self).quote_spreads_bps,
                self.stable_region_skips == old(self).stable_region_skips,
                self.collectors == old(self).collectors,
                cancelled@.len() == i,
                forall|k: int|
                    #![trigger cancelled@[k]]
                    0 <= k < i ==> {
                        &&& cancelled@[k].id@ == ids[k]
                        &&& cancelled@[k].unfilled == (before.trackers.contains_key(ids[k])
                            && !before.trackers[ids[k]].filled)
                    },
                self.order_trackers@ =~= without_ids(before.trackers, ids.take(i as int)),
            decreases count - i,
        {
            let id: String = self.active_order_ids.at(i).0.clone();
            let unfilled: bool = match self.order_trackers.get(id.as_str()) {
                Some(tracker) => !tracker.filled,
                None => false,
            };
            proof {
                assert(id@ == ids[i as int]);
                assert(!ids.take(i as int).contains(ids[i as int]));
                assert(ids.take(i as int + 1) =~= ids.take(i as int).push(ids[i as int]));
                assert forall|other: Seq<char>|
                    ids.take(i as int + 1).contains(other) <==> (ids.take(i as int).contains(other) || other
                        == ids[i as int]) by {
                    let longer = ids.take(i as int + 1);
                    if ids.take(i as int).contains(other) {
                        let k = choose|k: int| 0 <= k < i && ids.take(i as int)[k] == other;
                        assert(longer[k] == other);
                    }
                    if other == ids[i as int] {
                        assert(longer[i as int] == other);
                    }
                }
            }
            let ghost left = self.order_trackers@;
            proof {
                assert(left.contains_key(id@) == before.trackers.contains_key(id@));
            }
            self.order_trackers.remove(id.as_str());
            assert(self.order_trackers@ =~= without_ids(before.trackers, ids.take(i as int + 1)));
            cancelled.push(CancelledOrder { id, unfilled });
            i = i + 1;
        }
        proof {
            assert(ids.take(i as int) =~= ids);
            assert forall|id: Seq<char>| #[trigger] before.active.contains_key(id) implies exists|k: int|
                0 <= k < cancelled@.len() && #[trigger] cancelled@[k].id@ == id by {
                old(self).active_order_ids.lemma_listed();
                let k = choose|k: int| 0 <= k < ids.len() && ids[k] == id;
                assert(cancelled@[k].id@ == id);
            }
            assert forall|id: Seq<char>| ids.contains(id) <==> before.active.contains_key(id) by {
                old(self).active_order_ids.lemma_listed();
            }
        }
        self.active_order_ids.clear();
        assert(self.order_trackers@ =~= before.trackers.remove_keys(before.active.dom()));
        assert(self@ =~= before.without_resting_orders());
        cancelled
    }

    /// How far a market trade missed the run's best quote, if it did.
    pub fn missed_fill(&self, aggressor: BookSide, trade_price: N) -> (missed: Option<(BookSide, N)>)
        requires
            self.wf(),
        ensures
            missed == missed_by(self.order_trackers.listed(), aggressor, trade_price),
    {
        match aggressor {
            BookSide::Ask => match self.best_own_quote(BookSide::Bid) {
                Some(bid) => if bid.lt(trade_price) {
                    Some((BookSide::Bid, trade_price.minus(bid)))
                } else {
                    None
                },
                None => None,
            },
            BookSide::Bid => match self.best_own_quote(BookSide::Ask) {
                Some(ask) => if trade_price.lt(ask) {
                    Some((BookSide::Ask, ask.minus(trade_price)))
                } else {
                    None
                },
                None => None,
            },
        }
    }

    /// The run's best quote on a side, if it has one there.
    pub fn best_own_quote(&self, side: BookSide) -> (best: Option<N>)
        requires
            self.wf(),
        ensures
            best == best_quote(self.order_trackers.listed(), side),
    {
        let mut best: Option<N> = None;
        let mut i: usize = 0;
        let ghost trackers = self.order_trackers.listed();
        assert(trackers.take(0) =~= Seq::empty());
        while i < self.order_trackers.len()
            invariant
                self.wf(),
                trackers == self.order_trackers.listed(),
                i <= trackers.len(),
                best == best_quote(trackers.take(i as int), side),
            decreases trackers.len() - i,
        {
            assert(trackers.take(i as int + 1).drop_last() =~= trackers.take(i as int));
            let tracker = self.order_trackers.at(i).1;
            if tracker.side == side {
                best = match best {
                    None => Some(tracker.price),
                    Some(other) => Some(
                        match side {
                            BookSide::Bid => other.max(tracker.price),
                            BookSide::Ask => other.min(tracker.price),
                        },
                    ),
                };
            }
            i = i + 1;
        }
        assert(trackers.take(i as int) =~= trackers);
        best
    }
}

/// Placing an order, taking in fills and cancelling all keep the resting
/// orders and the tracked ones the same, and the counts of filled orders in
/// step.
pub proof fn law_resting_orders_stay_tracked<N: Number>(
    state: SimulationState<N>,
    tracker: OrderTracker<N>,
    id: Seq<char>,
    ids: Seq<Seq<char>>,
    time: i64,
    latency_ms: u64,
    exchange: Seq<char>,
    value: N,
)
    requires
        state.consistent(),
    ensures
        state.with_order(tracker).consistent(),
        state.with_fill(id, time).consistent(),
        state.without_order(id).consistent(),
        state.without_early(ids, time, latency_ms, ids.len()).consistent(),
        state.without_resting_orders().consistent(),
        state.with_market_trade(time, value).consistent(),
        state.with_own_trade(exchange, time, value).consistent(),
{
    assert(state.with_order(tracker).active.dom() =~= state.with_order(tracker).trackers.dom());
    assert(state.with_fill(id, time).active.dom() =~= state.with_fill(id, time).trackers.dom());
    assert(state.without_order(id).active.dom() =~= state.without_order(id).trackers.dom());
    assert(state.without_resting_orders().active.dom() =~= state.without_resting_orders().trackers.dom());
    lemma_early_orders_leave_both(state, ids, time, latency_ms, ids.len());
}

proof fn lemma_early_orders_leave_both<N: Number>(
    state: SimulationState<N>,
    ids: Seq<Seq<char>>,
    time: i64,
    latency_ms: u64,
    n: nat,
)
    requires
        state.consistent(),
    ensures
        state.without_early(ids, time, latency_ms, n).consistent(),
    decreases n,
{
    if n > 0 {
        lemma_early_orders_leave_both(state, ids, time, latency_ms, (n - 1) as nat);
        let before = state.without_early(ids, time, latency_ms, (n - 1) as nat);
        let after = state.without_early(ids, time, latency_ms, n);
        assert(before.without_order(ids[n - 1]).active.dom() =~= before.without_order(ids[n - 1]).trackers.dom());
    }
}

/// An order that is placed, and whose fill passes the screen, is gone from
/// both lists once the fill is taken in, and counts as filled once.
pub proof fn law_a_filled_order_is_counted_once<N: Number>(
    state: SimulationState<N>,
    tracker: OrderTracker<N>,
    fill_time: i64,
)
    requires
        state.consistent(),
        !tracker.filled,
    ensures
        ({
            let id = tracker.order_id@;
            let after = state.with_order(tracker).with_fill(id, fill_time).without_order(id);
            &&& !after.active.contains_key(id)
            &&& !after.trackers.contains_key(id)
            &&& after.orders_filled == state.orders_filled + 1
            &&& after.with_fill(id, fill_time) == after
        }),
{
}

/// After all orders are cancelled none rests and none is tracked.
pub proof fn law_cancelling_leaves_no_order<N: Number>(state: SimulationState<N>)
    requires
        state.consistent(),
    ensures
        state.without_resting_orders().active =~= Map::<Seq<char>, ()>::empty(),
        state.without_resting_orders().trackers =~= Map::<Seq<char>, OrderTracker<N>>::empty(),
{
}

/// The times of the trades do not go back.
pub open spec fn in_time_order<N>(window: Seq<(i64, N)>) -> bool {
    forall|i: int, j: int| 0 <= i <= j < window.len() ==> (#[trigger] window[i]).0 <= (#[trigger] window[j]).0
}

/// A window of trades in time order keeps exactly those that are at most a
/// span older than the newest.
pub proof fn law_window_keeps_the_recent_trades<N: Number>(
    window: Seq<(i64, N)>,
    volume: N,
    newest: i64,
    span: int,
)
    requires
        in_time_order(window),
    ensures
        trimmed(window, volume, newest, span).0 == window.filter(|trade: (i64, N)| newest - trade.0 <= span),
    decreases window.len(),
{
    let recent = |trade: (i64, N)| newest - trade.0 <= span;
    if window.len() == 0 {
        reveal(Seq::filter);
    } else if newest - window[0].0 <= span {
        lemma_all_recent(window, newest, span);
    } else {
        let rest = window.subrange(1, window.len() as int);
        law_window_keeps_the_recent_trades(rest, volume.difference(window[0].1), newest, span);
        assert(window =~= seq![window[0]] + rest);
        assert(seq![window[0]].filter(recent) =~= Seq::empty()) by {
            reveal(Seq::filter);
            assert(seq![window[0]].drop_last() =~= Seq::empty());
            assert(seq![window[0]].drop_last().filter(recent) =~= Seq::empty());
        }
        Seq::filter_distributes_over_add(seq![window[0]], rest, recent);
        assert(Seq::<(i64, N)>::empty() + rest.filter(recent) =~= rest.filter(recent));
    }
}

proof fn lemma_all_recent<N: Number>(window: Seq<(i64, N)>, newest: i64, span: int)
    requires
        forall|i: int| 0 <= i < window.len() ==> newest - (#[trigger] window[i]).0 <= span,
    ensures
        window.filter(|trade: (i64, N)| newest - trade.0 <= span) == window,
    decreases window.len(),
{
    reveal(Seq::filter);
    if window.len() > 0 {
        assert forall|i: int| 0 <= i < window.drop_last().len() implies newest - (#[trigger] window.drop_last()[i]).0
            <= span by {
            assert(window.drop_last()[i] == window[i]);
        }
        lemma_all_recent(window.drop_last(), newest, span);
        assert(window.drop_last().push(window.last()) =~= window);
    }
}

} // verus!
