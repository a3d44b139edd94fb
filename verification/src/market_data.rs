//! Market data points and what the simulations read from them.

use vstd::prelude::*;

use crate::clock::{is_representable, timestamp_or, timestamp_or_now};
use crate::number::Number;

verus! {

/// Side of the aggressor in a trade.
#[derive(Debug, Clone, Copy, PartialEq, Eq, Structural)]
pub enum Side {
    Buy,
    Sell,
}

/// One trade.
#[derive(Debug, Clone, PartialEq)]
pub struct TradeData<N> {
    pub timestamp_ms: i64,
    pub symbol: String,
    pub exchange: String,
    pub price: N,
    pub quantity: N,
    pub side: Side,
    pub trade_id: u64,
    pub value: N,
}

/// One candle.
#[derive(Debug, Clone, PartialEq)]
pub struct Candle<N> {
    pub timestamp_ms: i64,
    pub symbol: String,
    pub exchange: String,
    pub open: N,
    pub high: N,
    pub low: N,
    pub close: N,
    pub volume: N,
}

/// One swap in a liquidity pool.
#[derive(Debug, Clone, Copy, PartialEq)]
pub struct PoolSwap<N> {
    pub timestamp_ms: i64,
    pub price: N,
    pub amount_in: N,
}

/// One row of uploaded data; only some columns are always there.
#[derive(Debug, Clone, Copy, PartialEq)]
pub struct GenericTick<N> {
    pub timestamp_ms: i64,
    pub price: N,
    pub quantity: N,
    pub open: Option<N>,
    pub high: Option<N>,
    pub low: Option<N>,
    pub close: Option<N>,
    pub volume: Option<N>,
}

/// One candle of an option contract.
#[derive(Debug, Clone, Copy, PartialEq)]
pub struct OptionCandle<N> {
    pub timestamp_ms: i64,
    pub open: N,
    pub high: N,
    pub low: N,
    pub close: N,
    pub volume: N,
}

/// One market data point.
#[derive(Debug, Clone, PartialEq)]
pub enum MarketData<N> {
    Trade(TradeData<N>),
    Candle(Candle<N>),
    PoolSwap(PoolSwap<N>),
    Generic(GenericTick<N>),
    OptionCandle(OptionCandle<N>),
}

/// One compact simulation tick; side one is a sell, any other a buy.
#[derive(Debug, Clone, Copy, PartialEq)]
pub struct SimulationTick<N> {
    pub timestamp_ms: i64,
    pub price: N,
    pub quantity: N,
    pub side: u8,
}

/// Market data as the simulation loops take it: data points, or compact
/// ticks that share one symbol and one exchange.
pub enum MarketDataInput<'a, N> {
    Slice(&'a [MarketData<N>]),
    SimTicks { ticks: &'a [SimulationTick<N>], symbol: String, exchange: String },
}

/// Open, high, low, close and volume with the timestamp.
#[derive(Debug, Clone, Copy, PartialEq)]
pub struct Bar<N> {
    pub open: N,
    pub high: N,
    pub low: N,
    pub close: N,
    pub volume: N,
    pub timestamp_ms: i64,
}

/// The value where there is one, else the fallback.
pub open spec fn value_or<N>(value: Option<N>, fallback: N) -> N {
    match value {
        Some(v) => v,
        None => fallback,
    }
}

impl<N: Number> MarketData<N> {
    /// The stored timestamp.
    pub open spec fn raw_timestamp(self) -> i64 {
        match self {
            MarketData::Trade(t) => t.timestamp_ms,
            MarketData::Candle(c) => c.timestamp_ms,
            MarketData::PoolSwap(s) => s.timestamp_ms,
            MarketData::Generic(g) => g.timestamp_ms,
            MarketData::OptionCandle(c) => c.timestamp_ms,
        }
    }

    /// The timestamp is a date: always so for venue data, and for uploaded
    /// data where its column is in range.
    pub open spec fn has_date(self) -> bool {
        self is Generic ==> is_representable(self.raw_timestamp() as int)
    }

    /// The data point may count as happening at this time: at its stored
    /// timestamp where that is a date, else at some date.
    pub open spec fn may_happen_at(self, timestamp: i64) -> bool {
        &&& self.has_date() ==> timestamp == self.raw_timestamp()
        &&& !self.has_date() ==> is_representable(timestamp as int)
    }

    /// The stored timestamp, or the fallback for an uploaded row whose
    /// timestamp is out of range.
    pub open spec fn timestamp_with(self, fallback_ms: i64) -> i64 {
        if self.has_date() {
            self.raw_timestamp()
        } else {
            fallback_ms
        }
    }

    /// Reference price: the traded price or the close.
    pub open spec fn reference_price(self) -> N {
        match self {
            MarketData::Trade(t) => t.price,
            MarketData::Candle(c) => c.close,
            MarketData::PoolSwap(s) => s.price,
            MarketData::Generic(g) => g.price,
            MarketData::OptionCandle(c) => c.close,
        }
    }

    /// Traded quantity or volume.
    pub open spec fn traded_volume(self) -> N {
        match self {
            MarketData::Trade(t) => t.quantity,
            MarketData::Candle(c) => c.volume,
            MarketData::PoolSwap(s) => s.amount_in,
            MarketData::Generic(g) => g.quantity,
            MarketData::OptionCandle(c) => c.volume,
        }
    }

    /// A copy of the data point.
    pub fn duplicate(&self) -> (copy: Self)
        ensures
            copy == *self,
    {
        match self {
            MarketData::Trade(t) => MarketData::Trade(
                TradeData {
                    timestamp_ms: t.timestamp_ms,
                    symbol: t.symbol.clone(),
                    exchange: t.exchange.clone(),
                    price: t.price,
                    quantity: t.quantity,
                    side: t.side,
                    trade_id: t.trade_id,
                    value: t.value,
                },
            ),
            MarketData::Candle(c) => MarketData::Candle(
                Candle {
                    timestamp_ms: c.timestamp_ms,
                    symbol: c.symbol.clone(),
                    exchange: c.exchange.clone(),
                    open: c.open,
                    high: c.high,
                    low: c.low,
                    close: c.close,
                    volume: c.volume,
                },
            ),
            MarketData::PoolSwap(s) => MarketData::PoolSwap(
                PoolSwap { timestamp_ms: s.timestamp_ms, price: s.price, amount_in: s.amount_in },
            ),
            MarketData::Generic(g) => MarketData::Generic(
                GenericTick {
                    timestamp_ms: g.timestamp_ms,
                    price: g.price,
                    quantity: g.quantity,
                    open: g.open,
                    high: g.high,
                    low: g.low,
                    close: g.close,
                    volume: g.volume,
                },
            ),
            MarketData::OptionCandle(c) => MarketData::OptionCandle(
                OptionCandle {
                    timestamp_ms: c.timestamp_ms,
                    open: c.open,
                    high: c.high,
                    low: c.low,
                    close: c.close,
                    volume: c.volume,
                },
            ),
        }
    }
}

fn pick<N: Number>(value: Option<N>, fallback: N) -> (r: N)
    ensures
        r == value_or(value, fallback),
{
    match value {
        Some(v) => v,
        None => fallback,
    }
}

/// The timestamp of a data point, with a fallback for an uploaded row whose
/// timestamp is out of range.
pub fn timestamp_with_fallback<N: Number>(md: &MarketData<N>, fallback_ms: i64) -> (timestamp: i64)
    ensures
        timestamp == md.timestamp_with(fallback_ms),
{
    match md {
        MarketData::Trade(t) => t.timestamp_ms,
        MarketData::Candle(c) => c.timestamp_ms,
        MarketData::PoolSwap(s) => s.timestamp_ms,
        MarketData::Generic(g) => timestamp_or(g.timestamp_ms, fallback_ms),
        MarketData::OptionCandle(c) => c.timestamp_ms,
    }
}

/// The timestamp of a data point; an uploaded row whose timestamp is out of
/// range counts as happening now.
pub fn market_data_timestamp<N: Number>(md: &MarketData<N>) -> (timestamp: i64)
    ensures
        md.may_happen_at(timestamp),
{
    match md {
        MarketData::Trade(t) => t.timestamp_ms,
        MarketData::Candle(c) => c.timestamp_ms,
        MarketData::PoolSwap(s) => s.timestamp_ms,
        MarketData::Generic(g) => timestamp_or_now(g.timestamp_ms),
        MarketData::OptionCandle(c) => c.timestamp_ms,
    }
}

/// The closing or last price of a data point, as [`extract_price_volume_ts`]
/// gives it.
pub fn market_data_close_price<N: Number>(md: &MarketData<N>) -> (price: N)
    ensures
        price == md.reference_price(),
{
    match md {
        MarketData::Trade(t) => t.price,
        MarketData::Candle(c) => c.close,
        MarketData::PoolSwap(s) => s.price,
        MarketData::Generic(g) => g.price,
        MarketData::OptionCandle(c) => c.close,
    }
}

/// Symbol and exchange of a data point. Pool swaps, uploaded rows and option
/// candles have none.
pub fn market_data_symbol_exchange<N: Number>(md: &MarketData<N>) -> (identity: Option<(String, String)>)
    ensures
        match *md {
            MarketData::Trade(t) => identity == Some((t.symbol, t.exchange)),
            MarketData::Candle(c) => identity == Some((c.symbol, c.exchange)),
            _ => identity is None,
        },
{
    match md {
        MarketData::Candle(c) => Some((c.symbol.clone(), c.exchange.clone())),
        MarketData::Trade(t) => Some((t.symbol.clone(), t.exchange.clone())),
        MarketData::PoolSwap(_) => None,
        MarketData::Generic(_) => None,
        MarketData::OptionCandle(_) => None,
    }
}

/// Reference prices of a series, in order.
pub fn close_prices_from_market_data<N: Number>(data: &[MarketData<N>]) -> (prices: Vec<N>)
    ensures
        prices@ == data@.map_values(|d: MarketData<N>| d.reference_price()),
{
    let mut prices: Vec<N> = Vec::new();
    let mut i: usize = 0;
    while i < data.len()
        invariant
            i <= data@.len(),
            prices@ =~= data@.take(i as int).map_values(|d: MarketData<N>| d.reference_price()),
        decreases data@.len() - i,
    {
        let (price, _, _) = extract_price_volume_ts(&data[i]);
        prices.push(price);
        i = i + 1;
    }
    assert(data@.take(i as int) =~= data@);
    prices
}

/// Price, volume and timestamp of a data point.
pub fn extract_price_volume_ts<N: Number>(data: &MarketData<N>) -> (values: (N, N, i64))
    ensures
        values.0 == data.reference_price(),
        values.1 == data.traded_volume(),
        data.may_happen_at(values.2),
{
    let timestamp: i64 = market_data_timestamp(data);
    match data {
        MarketData::Trade(t) => (t.price, t.quantity, timestamp),
        MarketData::Candle(c) => (c.close, c.volume, timestamp),
        MarketData::PoolSwap(s) => (s.price, s.amount_in, timestamp),
        MarketData::Generic(g) => (g.price, g.quantity, timestamp),
        MarketData::OptionCandle(c) => (c.close, c.volume, timestamp),
    }
}

/// The bar of a data point at a given timestamp. Data without a candle gives
/// a bar at its price; an uploaded row without some column takes its close.
pub open spec fn bar_of<N: Number>(data: MarketData<N>, timestamp_ms: i64) -> Bar<N> {
    match data {
        MarketData::Trade(t) => Bar {
            open: t.price,
            high: t.price,
            low: t.price,
            close: t.price,
            volume: t.quantity,
            timestamp_ms,
        },
        MarketData::Candle(c) => Bar {
            open: c.open,
            high: c.high,
            low: c.low,
            close: c.close,
            volume: c.volume,
            timestamp_ms,
        },
        MarketData::PoolSwap(s) => Bar {
            open: s.price,
            high: s.price,
            low: s.price,
            close: s.price,
            volume: s.amount_in,
            timestamp_ms,
        },
        MarketData::Generic(g) => {
            let close = value_or(g.close, g.price);
            Bar {
                open: value_or(g.open, close),
                high: value_or(g.high, close),
                low: value_or(g.low, close),
                close,
                volume: value_or(g.volume, g.quantity),
                timestamp_ms,
            }
        },
        MarketData::OptionCandle(c) => Bar {
            open: c.open,
            high: c.high,
            low: c.low,
            close: c.close,
            volume: c.volume,
            timestamp_ms,
        },
    }
}

/// The bar of a data point.
pub fn extract_ohlcv_ts<N: Number>(data: &MarketData<N>) -> (bar: Bar<N>)
    ensures
        bar == bar_of(*data, bar.timestamp_ms),
        data.may_happen_at(bar.timestamp_ms),
{
    let timestamp_ms: i64 = market_data_timestamp(data);
    match data {
        MarketData::Trade(t) => Bar {
            open: t.price,
            high: t.price,
            low: t.price,
            close: t.price,
            volume: t.quantity,
            timestamp_ms,
        },
        MarketData::Candle(c) => Bar {
            open: c.open,
            high: c.high,
            low: c.low,
            close: c.close,
            volume: c.volume,
            timestamp_ms,
        },
        MarketData::PoolSwap(s) => Bar {
            open: s.price,
            high: s.price,
            low: s.price,
            close: s.price,
            volume: s.amount_in,
            timestamp_ms,
        },
        MarketData::Generic(g) => {
            let close: N = pick(g.close, g.price);
            Bar {
                open: pick(g.open, close),
                high: pick(g.high, close),
                low: pick(g.low, close),
                close,
                volume: pick(g.volume, g.quantity),
                timestamp_ms,
            }
        },
        MarketData::OptionCandle(c) => Bar {
            open: c.open,
            high: c.high,
            low: c.low,
            close: c.close,
            volume: c.volume,
            timestamp_ms,
        },
    }
}

/// Close, high, low and volume of a venue candle; nothing for other data.
pub fn extract_candle_ohlcv<N: Number>(data: &MarketData<N>) -> (candle: Option<(N, N, N, N)>)
    ensures
        candle == match *data {
            MarketData::Candle(c) => Some((c.close, c.high, c.low, c.volume)),
            _ => None,
        },
{
    match data {
        MarketData::Candle(c) => Some((c.close, c.high, c.low, c.volume)),
        _ => None,
    }
}

/// The trade that a compact tick stands for. A tick whose timestamp is out
/// of range is placed at the epoch.
pub open spec fn trade_of<N: Number>(tick: SimulationTick<N>, symbol: String, exchange: String) -> MarketData<N> {
    MarketData::Trade(
        TradeData {
            timestamp_ms: if is_representable(tick.timestamp_ms as int) { tick.timestamp_ms } else { 0 },
            symbol,
            exchange,
            price: tick.price,
            quantity: tick.quantity,
            side: if tick.side == 1 { Side::Sell } else { Side::Buy },
            trade_id: 0,
            value: tick.price.product(tick.quantity),
        },
    )
}

impl<'a, N: Number> MarketDataInput<'a, N> {
    /// The data points, in order.
    pub open spec fn points(self) -> Seq<MarketData<N>> {
        match self {
            MarketDataInput::Slice(data) => data@,
            MarketDataInput::SimTicks { ticks, symbol, exchange } => Seq::new(
                ticks@.len(),
                |i: int| trade_of(ticks@[i], symbol, exchange),
            ),
        }
    }

    /// Number of data points.
    pub fn len(&self) -> (n: usize)
        ensures
            n == self.points().len(),
    {
        match self {
            MarketDataInput::Slice(data) => data.len(),
            MarketDataInput::SimTicks { ticks, .. } => ticks.len(),
        }
    }

    /// Whether there is no data point.
    pub fn is_empty(&self) -> (empty: bool)
        ensures
            empty == (self.points().len() == 0),
    {
        self.len() == 0
    }

    /// The data point at an index.
    pub fn get(&self, i: usize) -> (point: MarketData<N>)
        requires
            i < self.points().len(),
        ensures
            point == self.points()[i as int],
    {
        match self {
            MarketDataInput::Slice(data) => data[i].duplicate(),
            MarketDataInput::SimTicks { ticks, symbol, exchange } => {
                let tick: SimulationTick<N> = ticks[i];
                MarketData::Trade(
                    TradeData {
                        timestamp_ms: timestamp_or(tick.timestamp_ms, 0),
                        symbol: symbol.clone(),
                        exchange: exchange.clone(),
                        price: tick.price,
                        quantity: tick.quantity,
                        side: if tick.side == 1 {
                            Side::Sell
                        } else {
                            Side::Buy
                        },
                        trade_id: 0,
                        value: tick.price.times(tick.quantity),
                    },
                )
            },
        }
    }

    /// All data points, in order.
    pub fn iter(&self) -> (points: Vec<MarketData<N>>)
        ensures
            points@ == self.points(),
    {
        let mut points: Vec<MarketData<N>> = Vec::new();
        let mut i: usize = 0;
        while i < self.len()
            invariant
                i <= self.points().len(),
                points@ =~= self.points().take(i as int),
            decreases self.points().len() - i,
        {
            points.push(self.get(i));
            i = i + 1;
        }
        points
    }
}

/// Every so many points, from the first on.
pub open spec fn every_nth<T>(points: Seq<T>, step: nat) -> Seq<T> {
    Seq::new((points.len() + step - 1) as nat / step, |i: int| points[i * step])
}

/// Step that thins a series of this length to about `target` points.
pub open spec fn thinning_step(len: nat, target: nat) -> nat {
    if len / target >= 1 {
        len / target
    } else {
        1
    }
}

/// Step that thins a series to about `target` points.
pub fn subsample_step(len: usize, target: usize) -> (step: usize)
    requires
        target > 0,
    ensures
        step == thinning_step(len as nat, target as nat),
        step >= 1,
{
    let step: usize = len / target;
    if step >= 1 {
        step
    } else {
        1
    }
}

/// Thins a series to about `target` points by taking every so many, from the
/// first on. A series that is short enough is kept whole.
pub fn subsample<N: Number>(data: &[MarketData<N>], target: usize) -> (thinned: Vec<MarketData<N>>)
    requires
        target > 0,
    ensures
        thinned@ == every_nth(data@, thinning_step(data@.len(), target as nat)),
{
    let step: usize = subsample_step(data.len(), target);
    let mut thinned: Vec<MarketData<N>> = Vec::new();
    let ghost whole = every_nth(data@, step as nat);
    let mut at: usize = 0;
    let len: usize = data.len();
    assert(0 * step == 0) by (nonlinear_arith);
    while at < len
        invariant
            len == data@.len(),
            step >= 1,
            whole == every_nth(data@, step as nat),
            at == thinned@.len() * step || (at == len && thinned@.len() == whole.len()),
            thinned@.len() <= whole.len(),
            thinned@ =~= whole.take(thinned@.len() as int),
        decreases len - at,
    {
        let ghost k = thinned@.len();
        proof {
            assert(k < (len + step - 1) / (step as int)) by (nonlinear_arith)
                requires
                    k * step < len,
                    step >= 1,
            ;
        }
        thinned.push(data[at].duplicate());
        proof {
            assert((k + 1) * step == k * step + step) by (nonlinear_arith);
        }
        if step <= len - at {
            at = at + step;
        } else {
            proof {
                assert((len + step - 1) / (step as int) == k + 1) by (nonlinear_arith)
                    requires
                        k * step < len,
                        len < (k + 1) * step,
                        step >= 1,
                ;
            }
            at = len;
        }
    }
    proof {
        if thinned@.len() != whole.len() {
            let k = thinned@.len();
            assert((len + step - 1) / (step as int) <= k) by (nonlinear_arith)
                requires
                    k * step >= len,
                    step >= 1,
            ;
        }
        assert(thinned@ =~= whole);
    }
    thinned
}

} // verus!
