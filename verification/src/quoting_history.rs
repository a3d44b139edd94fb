//! What a quoting strategy is shown of the past: the market price and the
//! latest prices and volumes.

use vstd::prelude::*;

use crate::market_data::MarketData;
use crate::number::Number;
use crate::rolling_window::{pushed, room_for, RollingWindow};

verus! {

/// The market price and the latest prices and volumes.
pub struct QuotingHistory<N: Number> {
    pub market_price: Option<N>,
    pub prices: RollingWindow<N>,
    pub volumes: RollingWindow<N>,
}

/// What a [`QuotingHistory`] holds.
#[verifier::ext_equal]
pub struct HistoryState<N> {
    pub market_price: Option<N>,
    pub prices: Seq<N>,
    pub volumes: Seq<N>,
    /// Prices, and volumes, that are kept at most.
    pub lookback: nat,
}

/// The price that a data point sets the market price to: that of a trade or
/// the close of a candle.
pub open spec fn quoted_price<N>(data: MarketData<N>) -> Option<N> {
    match data {
        MarketData::Trade(t) => Some(t.price),
        MarketData::Candle(c) => Some(c.close),
        _ => None,
    }
}

/// The volume that a data point adds: the quantity of a trade or the volume
/// of a candle.
pub open spec fn quoted_volume<N>(data: MarketData<N>) -> Option<N> {
    match data {
        MarketData::Trade(t) => Some(t.quantity),
        MarketData::Candle(c) => Some(c.volume),
        _ => None,
    }
}

/// A window after a value that may be missing.
pub open spec fn pushed_if_any<N>(held: Seq<N>, capacity: nat, value: Option<N>) -> Seq<N> {
    match value {
        Some(item) => pushed(held, capacity, item),
        None => held,
    }
}

impl<N: Number> View for QuotingHistory<N> {
    type V = HistoryState<N>;

    open spec fn view(&self) -> HistoryState<N> {
        HistoryState {
            market_price: self.market_price,
            prices: self.prices@,
            volumes: self.volumes@,
            lookback: self.prices.limit(),
        }
    }
}

impl<N: Number> QuotingHistory<N> {
    /// Both windows are well formed and equally long.
    pub open spec fn wf(&self) -> bool {
        self.prices.wf() && self.volumes.wf() && self.prices.limit() == self.volumes.limit()
    }

    /// Nothing seen yet.
    pub fn new(lookback: usize) -> (history: Self)
        ensures
            history.wf(),
            history@ == (HistoryState {
                market_price: None,
                prices: Seq::<N>::empty(),
                volumes: Seq::<N>::empty(),
                lookback: room_for(lookback),
            }),
    {
        QuotingHistory {
            market_price: None,
            prices: RollingWindow::new(lookback),
            volumes: RollingWindow::new(lookback),
        }
    }

    /// Takes in the market price of a data point; one that sets none leaves
    /// it.
    pub fn see(&mut self, data: &MarketData<N>)
        requires
            old(self).wf(),
        ensures
            final(self).wf(),
            final(self)@ == (HistoryState {
                market_price: match quoted_price(*data) {
                    Some(price) => Some(price),
                    None => old(self)@.market_price,
                },
                ..old(self)@
            }),
    {
        match data {
            MarketData::Trade(t) => {
                self.market_price = Some(t.price);
            },
            MarketData::Candle(c) => {
                self.market_price = Some(c.close);
            },
            _ => {},
        }
    }

    /// Adds the market price, and the volume of the data point where it has
    /// any, to what is remembered.
    pub fn remember(&mut self, data: &MarketData<N>)
        requires
            old(self).wf(),
        ensures
            final(self).wf(),
            final(self)@ == (HistoryState {
                prices: pushed_if_any(old(self)@.prices, old(self)@.lookback, old(self)@.market_price),
                volumes: pushed_if_any(old(self)@.volumes, old(self)@.lookback, quoted_volume(*data)),
                ..old(self)@
            }),
    {
        if let Some(price) = self.market_price {
            self.prices.push(price);
        }
        match data {
            MarketData::Trade(t) => self.volumes.push(t.quantity),
            MarketData::Candle(c) => self.volumes.push(c.volume),
            _ => {},
        }
    }
}

} // verus!
