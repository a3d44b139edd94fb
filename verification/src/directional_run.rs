//! The record of a directional simulation run, from the first tick to the
//! result.

use vstd::prelude::*;

use crate::directional::{equity_sample_interval, sample_interval_for, LegOrder};
use crate::fills::PendingLimit;
use crate::ledger::{fresh_ledger, marked, LedgerState, OpenPosition, TradeLedger};
use crate::number::Number;
use crate::signals::{
    count_signals, counts_of, extract_instrument, instrument_of, DerivativeMetadata, Direction, Signal, SignalCounts,
};
use crate::text::{append_text, decimal, decimal_digits};

verus! {

/// Why a run has no result.
#[derive(Debug, Clone, PartialEq)]
pub enum RunError {
    /// There is no market data.
    NoData,
    /// The strategy's bulk signals could not be used.
    SignalsFailed { message: String },
    /// The strategy failed on every tick that it was asked about.
    EveryTickFailed { errors: usize, attempts: usize, message: String },
}

/// Text of an error.
pub open spec fn error_text(error: RunError) -> Seq<char> {
    match error {
        RunError::NoData => "No market data provided for Python simulation"@,
        RunError::SignalsFailed { message } => "Strategy compute_signals() failed: "@ + message@
            + ". Fix the error in your strategy code."@,
        RunError::EveryTickFailed { errors, attempts, message } => "Strategy execution failed on every attempted tick ("@
            + decimal_digits(errors as nat) + " of "@ + decimal_digits(attempts as nat) + "): "@ + message@
            + ". Fix the error in your strategy code."@,
    }
}

impl RunError {
    /// Text of the error.
    pub fn message(&self) -> (text: String)
        ensures
            text@ == error_text(*self),
    {
        match self {
            RunError::NoData => "No market data provided for Python simulation".to_owned(),
            RunError::SignalsFailed { message } => {
                let mut text = "Strategy compute_signals() failed: ".to_owned();
                append_text(&mut text, message.as_str());
                append_text(&mut text, ". Fix the error in your strategy code.");
                text
            },
            RunError::EveryTickFailed { errors, attempts, message } => {
                let mut text = "Strategy execution failed on every attempted tick (".to_owned();
                append_text(&mut text, decimal(*errors).as_str());
                append_text(&mut text, " of ");
                append_text(&mut text, decimal(*attempts).as_str());
                append_text(&mut text, "): ");
                append_text(&mut text, message.as_str());
                append_text(&mut text, ". Fix the error in your strategy code.");
                text
            },
        }
    }
}

/// What is said of bulk signals of the wrong length.
pub open spec fn length_complaint(found: nat, expected: nat) -> Seq<char> {
    "compute_signals() returned "@ + decimal_digits(found) + " signals but expected "@ + decimal_digits(expected)
        + ". The array must have exactly one entry per tick. Common fix: return sig (full-length zeros array) instead of sig[warmup:]."@
}

/// Whether bulk signals drive the run. They do where there is one code per
/// tick; codes of another number, or an error without codes, end the run.
/// Neither codes nor an error means that the strategy is asked tick by tick.
pub fn resolve_bulk_signals(
    codes: Option<Vec<i8>>,
    error: Option<String>,
    total_ticks: usize,
) -> (resolved: Result<Option<Vec<i8>>, RunError>)
    ensures
        match codes {
            Some(found) => if found@.len() == total_ticks {
                resolved == Ok::<Option<Vec<i8>>, RunError>(Some(found))
            } else {
                resolved matches Err(RunError::SignalsFailed { message }) && message@ == length_complaint(
                    found@.len(),
                    total_ticks as nat,
                )
            },
            None => match error {
                Some(message) => resolved == Err::<Option<Vec<i8>>, RunError>(RunError::SignalsFailed { message }),
                None => resolved == Ok::<Option<Vec<i8>>, RunError>(None),
            },
        },
{
    match codes {
        Some(found) => if found.len() == total_ticks {
            Ok(Some(found))
        } else {
            let mut message = "compute_signals() returned ".to_owned();
            append_text(&mut message, decimal(found.len()).as_str());
            append_text(&mut message, " signals but expected ");
            append_text(&mut message, decimal(total_ticks).as_str());
            append_text(
                &mut message,
                ". The array must have exactly one entry per tick. Common fix: return sig (full-length zeros array) instead of sig[warmup:].",
            );
            Err(RunError::SignalsFailed { message })
        },
        None => match error {
            Some(message) => Err(RunError::SignalsFailed { message }),
            None => Ok(None),
        },
    }
}

/// Position sizes drive the run only where there is one per tick.
pub fn resolve_position_sizes<N: Number>(sizes: Option<Vec<N>>, total_ticks: usize) -> (resolved: Option<Vec<N>>)
    ensures
        resolved == match sizes {
            Some(series) => if series@.len() == total_ticks {
                Some(series)
            } else {
                None
            },
            None => None,
        },
{
    match sizes {
        Some(series) => if series.len() == total_ticks {
            Some(series)
        } else {
            None
        },
        None => None,
    }
}

/// Whether progress is reported at a tick: every thousand ticks and at the
/// last.
pub fn reports_progress(tick_idx: usize, total_ticks: usize) -> (r: bool)
    requires
        tick_idx < total_ticks,
    ensures
        r == (tick_idx % 1000 == 0 || tick_idx + 1 == total_ticks),
{
    tick_idx % 1000 == 0 || tick_idx == total_ticks - 1
}

/// The record of a run in progress.
pub struct DirectionalRun<N> {
    pub ledger: TradeLedger<N>,
    pub pending: Vec<PendingLimit<N>>,
    pub equity_curve: Vec<N>,
    pub equity_curve_timestamps: Vec<i64>,
    pub price_series: Vec<N>,
    pub first_price: Option<N>,
    pub last_price: N,
    pub halted: bool,
    pub volume_constrained_fills: usize,
    /// Signals counted one by one.
    pub counts: SignalCounts,
    pub tick_attempts: usize,
    pub error_ticks: usize,
    pub first_error: Option<String>,
    /// Ticks in the run.
    pub total_ticks: usize,
    /// Ticks between two samples of equity.
    pub sample_interval: usize,
}

/// What a run leaves.
pub struct RunEnd<N> {
    pub ledger: TradeLedger<N>,
    pub equity_curve: Vec<N>,
    pub equity_curve_timestamps: Vec<i64>,
    pub price_series: Vec<N>,
    pub first_price: Option<N>,
    pub last_price: N,
    pub final_equity: N,
    pub total_pnl: N,
    pub signal_counts: SignalCounts,
    pub pending_limits_at_end: usize,
    pub volume_constrained_fills: usize,
}

impl<N: Number> DirectionalRun<N> {
    /// Equity is sampled along with its time, and every failed tick was
    /// attempted.
    pub open spec fn wf(&self) -> bool {
        &&& self.total_ticks >= 1
        &&& self.sample_interval == sample_interval_for(self.total_ticks as nat)
        &&& self.equity_curve@.len() == self.equity_curve_timestamps@.len()
        &&& self.error_ticks <= self.tick_attempts
        &&& self.error_ticks > 0 ==> self.first_error is Some
    }

    /// Starts a run; there must be something to run on.
    pub fn new(total_ticks: usize, max_trade_log_size: Option<usize>) -> (run: Result<Self, RunError>)
        ensures
            total_ticks == 0 ==> run == Err::<Self, RunError>(RunError::NoData),
            total_ticks > 0 ==> (run matches Ok(r) && {
                &&& r.wf()
                &&& r.total_ticks == total_ticks
                &&& r.ledger@ == fresh_ledger::<N>(max_trade_log_size)
                &&& r.pending@.len() == 0
                &&& r.equity_curve@.len() == 0
                &&& r.price_series@.len() == 0
                &&& r.first_price is None
                &&& r.last_price == N::whole(0)
                &&& !r.halted
                &&& r.volume_constrained_fills == 0
                &&& r.counts == (SignalCounts { buy: 0, sell: 0, hold: 0, close: 0 })
                &&& r.tick_attempts == 0
                &&& r.error_ticks == 0
                &&& r.first_error is None
            }),
    {
        if total_ticks == 0 {
            return Err(RunError::NoData);
        }
        Ok(
            DirectionalRun {
                ledger: TradeLedger::new(max_trade_log_size),
                pending: Vec::new(),
                equity_curve: Vec::new(),
                equity_curve_timestamps: Vec::new(),
                price_series: Vec::new(),
                first_price: None,
                last_price: N::of(0),
                halted: false,
                volume_constrained_fills: 0,
                counts: SignalCounts { buy: 0, sell: 0, hold: 0, close: 0 },
                tick_attempts: 0,
                error_ticks: 0,
                first_error: None,
                total_ticks,
                sample_interval: equity_sample_interval(total_ticks),
            },
        )
    }

    /// Takes in the price of a tick and marks the open positions with it. A
    /// tick whose price is not positive is skipped altogether.
    pub fn on_price(&mut self, price: N) -> (processed: bool)
        requires
            old(self).wf(),
        ensures
            processed == !price.at_most(N::whole(0)),
            !processed ==> *final(self) == *old(self),
            processed ==> {
                &&& final(self).wf()
                &&& final(self).total_ticks == old(self).total_ticks
                &&& final(self).first_price == match old(self).first_price {
                    Some(first) => Some(first),
                    None => Some(price),
                }
                &&& final(self).last_price == price
                &&& final(self).price_series@ == old(self).price_series@.push(price)
                &&& final(self).ledger@ == (LedgerState {
                    open_positions: old(self).ledger@.open_positions.map_values(
                        |p: OpenPosition<N>| marked(p, price),
                    ),
                    ..old(self).ledger@
                })
                &&& final(self).pending == old(self).pending
                &&& final(self).equity_curve == old(self).equity_curve
                &&& final(self).equity_curve_timestamps == old(self).equity_curve_timestamps
                &&& final(self).halted == old(self).halted
                &&& final(self).counts == old(self).counts
                &&& final(self).tick_attempts == old(self).tick_attempts
                &&& final(self).error_ticks == old(self).error_ticks
                &&& final(self).first_error == old(self).first_error
                &&& final(self).volume_constrained_fills == old(self).volume_constrained_fills
            },
    {
        if price.le(N::of(0)) {
            return false;
        }
        if self.first_price.is_none() {
            self.first_price = Some(price);
        }
        self.last_price = price;
        self.price_series.push(price);
        self.ledger.mark(price);
        true
    }

    /// Takes in how the strategy fared on a tick that it was asked about. The
    /// first error is kept.
    pub fn on_strategy_tick(&mut self, error: Option<String>)
        requires
            old(self).wf(),
            old(self).tick_attempts < usize::MAX,
        ensures
            final(self).wf(),
            final(self).total_ticks == old(self).total_ticks,
            final(self).tick_attempts == old(self).tick_attempts + 1,
            final(self).error_ticks == old(self).error_ticks + if error is Some { 1int } else { 0 },
            final(self).first_error == if old(self).first_error is Some { old(self).first_error } else { error },
            final(self).ledger == old(self).ledger,
            final(self).pending == old(self).pending,
            final(self).equity_curve == old(self).equity_curve,
            final(self).equity_curve_timestamps == old(self).equity_curve_timestamps,
            final(self).price_series == old(self).price_series,
            final(self).first_price == old(self).first_price,
            final(self).last_price == old(self).last_price,
            final(self).halted == old(self).halted,
            final(self).counts == old(self).counts,
            final(self).volume_constrained_fills == old(self).volume_constrained_fills,
    {
        self.tick_attempts = self.tick_attempts + 1;
        if let Some(message) = error {
            self.error_ticks = self.error_ticks + 1;
            if self.first_error.is_none() {
                self.first_error = Some(message);
            }
        }
    }

    /// Whether equity is sampled at a tick: at every so many ticks and, where
    /// signals were taken on it, at the last.
    pub open spec fn is_sampled(&self, tick_idx: int, took_signals: bool) -> bool {
        tick_idx % sample_interval_for(self.total_ticks as nat) == 0 || (took_signals && tick_idx == self.total_ticks
            - 1)
    }

    /// Records the equity of a tick where it is due.
    pub fn record_equity(&mut self, tick_idx: usize, value: N, timestamp: i64, took_signals: bool)
        requires
            old(self).wf(),
            tick_idx < old(self).total_ticks,
        ensures
            final(self).wf(),
            final(self).total_ticks == old(self).total_ticks,
            final(self).equity_curve@ == if old(self).is_sampled(tick_idx as int, took_signals) {
                old(self).equity_curve@.push(value)
            } else {
                old(self).equity_curve@
            },
            final(self).equity_curve_timestamps@ == if old(self).is_sampled(tick_idx as int, took_signals) {
                old(self).equity_curve_timestamps@.push(timestamp)
            } else {
                old(self).equity_curve_timestamps@
            },
            final(self).ledger == old(self).ledger,
            final(self).pending == old(self).pending,
            final(self).price_series == old(self).price_series,
            final(self).first_price == old(self).first_price,
            final(self).last_price == old(self).last_price,
            final(self).halted == old(self).halted,
            final(self).counts == old(self).counts,
            final(self).tick_attempts == old(self).tick_attempts,
            final(self).error_ticks == old(self).error_ticks,
            final(self).first_error == old(self).first_error,
            final(self).volume_constrained_fills == old(self).volume_constrained_fills,
    {
        if tick_idx % self.sample_interval == 0 || (took_signals && tick_idx == self.total_ticks - 1) {
            self.equity_curve.push(value);
            self.equity_curve_timestamps.push(timestamp);
        }
    }

    /// Ends the run.
    ///
    /// A run in which the strategy failed on every tick that it was asked
    /// about, and nothing was traded, is an error. Otherwise the positions
    /// still open go to the trade log, and the signals are those of the bulk
    /// codes where there are any, else those counted one by one.
    pub fn finish(self, bulk_codes: Option<&[i8]>, initial_capital: N) -> (end: Result<RunEnd<N>, RunError>)
        requires
            self.wf(),
        ensures
            ({
                let failed = self.tick_attempts > 0 && self.error_ticks == self.tick_attempts
                    && self.ledger.num_trades == 0;
                &&& failed ==> (end matches Err(RunError::EveryTickFailed { errors, attempts, message }) && errors
                    == self.error_ticks && attempts == self.tick_attempts && Some(message) == self.first_error)
                &&& !failed ==> (end matches Ok(e) && {
                    let final_equity = if self.equity_curve@.len() > 0 {
                        self.equity_curve@.last()
                    } else {
                        initial_capital
                    };
                    &&& e.ledger@ == (LedgerState {
                        trade_log: self.ledger@.flushed(self.ledger@.open_positions.len(), self.last_price),
                        open_positions: Seq::empty(),
                        ..self.ledger@
                    })
                    &&& e.equity_curve == self.equity_curve
                    &&& e.equity_curve_timestamps == self.equity_curve_timestamps
                    &&& e.price_series == self.price_series
                    &&& e.first_price == self.first_price
                    &&& e.last_price == self.last_price
                    &&& e.final_equity == final_equity
                    &&& e.total_pnl == final_equity.difference(initial_capital)
                    &&& e.signal_counts == match bulk_codes {
                        Some(codes) => counts_of(codes@),
                        None => self.counts,
                    }
                    &&& e.pending_limits_at_end == self.pending@.len()
                    &&& e.volume_constrained_fills == self.volume_constrained_fills
                })
            }),
    {
        if self.tick_attempts > 0 && self.error_ticks == self.tick_attempts && self.ledger.num_trades == 0 {
            let message = match self.first_error {
                Some(message) => message,
                None => "unknown error".to_owned(),
            };
            return Err(
                RunError::EveryTickFailed { errors: self.error_ticks, attempts: self.tick_attempts, message },
            );
        }
        let final_equity: N = if self.equity_curve.len() > 0 {
            self.equity_curve[self.equity_curve.len() - 1]
        } else {
            initial_capital
        };
        let signal_counts = match bulk_codes {
            Some(codes) => count_signals(codes),
            None => self.counts,
        };
        let mut ledger = self.ledger;
        ledger.flush_open_positions(self.last_price);
        Ok(
            RunEnd {
                ledger,
                equity_curve: self.equity_curve,
                equity_curve_timestamps: self.equity_curve_timestamps,
                price_series: self.price_series,
                first_price: self.first_price,
                last_price: self.last_price,
                final_equity,
                total_pnl: final_equity.minus(initial_capital),
                signal_counts,
                pending_limits_at_end: self.pending.len(),
                volume_constrained_fills: self.volume_constrained_fills,
            },
        )
    }
}

/// A market order that an order of a signal comes to.
#[derive(Debug, PartialEq)]
pub struct ImmediateOrder<N> {
    pub direction: Direction,
    pub quantity: N,
    pub instrument: Option<DerivativeMetadata<N>>,
}

/// The limit order of a signal.
pub open spec fn resting_order<N>(
    direction: Direction,
    price: N,
    quantity: N,
    placed_at: i64,
    reason: String,
    instrument: Option<DerivativeMetadata<N>>,
) -> PendingLimit<N> {
    PendingLimit { direction, price, remaining_quantity: quantity, placed_at, reason, instrument }
}

impl<N: Number> DirectionalRun<N> {
    /// Routes an order of a signal that the risk check let through: a limit
    /// order waits for the market, any other is to be executed at once.
    pub fn route_order(
        &mut self,
        signal: &Signal<N>,
        direction: Direction,
        quantity: N,
        market_price: N,
        timestamp: i64,
    ) -> (order: Option<ImmediateOrder<N>>)
        requires
            old(self).wf(),
        ensures
            final(self).wf(),
            signal.is_limit ==> order is None && *final(self) == (DirectionalRun {
                pending: final(self).pending,
                ..*old(self)
            }) && final(self).pending@ == old(self).pending@.push(
                resting_order(
                    direction,
                    match signal.price {
                        Some(price) => price,
                        None => market_price,
                    },
                    quantity,
                    timestamp,
                    signal.reason,
                    instrument_of(signal.signal_type),
                ),
            ),
            !signal.is_limit ==> *final(self) == *old(self) && order == Some(
                ImmediateOrder { direction, quantity, instrument: instrument_of(signal.signal_type) },
            ),
    {
        let instrument: Option<DerivativeMetadata<N>> = extract_instrument(&signal.signal_type);
        if signal.is_limit {
            let price: N = match signal.price {
                Some(price) => price,
                None => market_price,
            };
            self.pending.push(
                PendingLimit {
                    direction,
                    price,
                    remaining_quantity: quantity,
                    placed_at: timestamp,
                    reason: signal.reason.clone(),
                    instrument,
                },
            );
            None
        } else {
            Some(ImmediateOrder { direction, quantity, instrument })
        }
    }

    /// Routes the order of a spread's leg: a limit order waits for the
    /// market, any other is handed back to be executed at once.
    pub fn route_leg(&mut self, leg: LegOrder<N>, reason: &String, timestamp: i64) -> (order: Option<LegOrder<N>>)
        requires
            old(self).wf(),
        ensures
            final(self).wf(),
            leg.is_limit ==> order is None && *final(self) == (DirectionalRun {
                pending: final(self).pending,
                ..*old(self)
            }) && final(self).pending@ == old(self).pending@.push(
                resting_order(leg.direction, leg.price, leg.quantity, timestamp, *reason, leg.instrument),
            ),
            !leg.is_limit ==> *final(self) == *old(self) && order == Some(leg),
    {
        if leg.is_limit {
            self.pending.push(
                PendingLimit {
                    direction: leg.direction,
                    price: leg.price,
                    remaining_quantity: leg.quantity,
                    placed_at: timestamp,
                    reason: reason.clone(),
                    instrument: leg.instrument,
                },
            );
            None
        } else {
            Some(leg)
        }
    }

    /// Drops the orders that wait for the market.
    pub fn clear_pending(&mut self)
        requires
            old(self).wf(),
        ensures
            final(self).wf(),
            *final(self) == (DirectionalRun { pending: final(self).pending, ..*old(self) }),
            final(self).pending@.len() == 0,
    {
        self.pending = Vec::new();
    }

    /// Halts trading for the rest of the run.
    pub fn halt(&mut self)
        requires
            old(self).wf(),
        ensures
            final(self).wf(),
            *final(self) == (DirectionalRun { halted: true, ..*old(self) }),
    {
        self.halted = true;
    }

    /// Counts the fills of a tick that the volume held back.
    pub fn count_constrained(&mut self, fills: usize)
        requires
            old(self).wf(),
        ensures
            final(self).wf(),
            *final(self) == (DirectionalRun {
                volume_constrained_fills: if old(self).volume_constrained_fills + fills <= usize::MAX {
                    (old(self).volume_constrained_fills + fills) as usize
                } else {
                    usize::MAX
                },
                ..*old(self)
            }),
    {
        self.volume_constrained_fills = self.volume_constrained_fills.saturating_add(fills);
    }

    /// Lets both sides of a quote wait for the market.
    pub fn rest_quote(&mut self, bid: (N, N), ask: (N, N), timestamp: i64, reason: &String)
        requires
            old(self).wf(),
        ensures
            final(self).wf(),
            *final(self) == (DirectionalRun { pending: final(self).pending, ..*old(self) }),
            final(self).pending@ == old(self).pending@.push(
                resting_order(Direction::Buy, bid.0, bid.1, timestamp, *reason, None),
            ).push(resting_order(Direction::Sell, ask.0, ask.1, timestamp, *reason, None)),
    {
        self.pending.push(
            PendingLimit {
                direction: Direction::Buy,
                price: bid.0,
                remaining_quantity: bid.1,
                placed_at: timestamp,
                reason: reason.clone(),
                instrument: None,
            },
        );
        self.pending.push(
            PendingLimit {
                direction: Direction::Sell,
                price: ask.0,
                remaining_quantity: ask.1,
                placed_at: timestamp,
                reason: reason.clone(),
                instrument: None,
            },
        );
    }
}

} // verus!
