//! Order of the work on one tick.

use vstd::prelude::*;

verus! {

/// What a directional run does next on a tick.
#[derive(Debug, Clone, Copy, PartialEq, Eq, Structural)]
pub enum DirectionalStep {
    /// Match the pending limit orders.
    FillPending,
    AskStrategy,
    /// Check the limits of the account.
    CheckRisk,
    /// Check the positions for a margin call.
    CheckMargin,
    HandleSignals,
    /// Close the contracts that have expired.
    CloseExpired,
    /// Take the equity for the curve.
    Sample,
    Done,
}

/// What a directional run is set up with.
#[derive(Debug, Clone, Copy, PartialEq, Eq, Structural)]
pub struct DirectionalFlow {
    pub has_risk_manager: bool,
    pub is_leveraged: bool,
}

impl DirectionalFlow {
    /// The first step on a tick: one without a positive price is skipped.
    pub open spec fn first(self, has_price: bool) -> DirectionalStep {
        if has_price {
            DirectionalStep::FillPending
        } else {
            DirectionalStep::Done
        }
    }

    /// The step after another, given whether trading is halted by now.
    pub open spec fn after(self, step: DirectionalStep, halted: bool) -> DirectionalStep {
        match step {
            DirectionalStep::FillPending => DirectionalStep::AskStrategy,
            DirectionalStep::AskStrategy => if self.has_risk_manager {
                DirectionalStep::CheckRisk
            } else {
                self.after_risk(halted)
            },
            DirectionalStep::CheckRisk => self.after_risk(halted),
            DirectionalStep::CheckMargin => self.after_margin(halted),
            DirectionalStep::HandleSignals => DirectionalStep::CloseExpired,
            DirectionalStep::CloseExpired => DirectionalStep::Sample,
            DirectionalStep::Sample => DirectionalStep::Done,
            DirectionalStep::Done => DirectionalStep::Done,
        }
    }

    /// The step after the limits are checked.
    pub open spec fn after_risk(self, halted: bool) -> DirectionalStep {
        if self.is_leveraged {
            DirectionalStep::CheckMargin
        } else {
            self.after_margin(halted)
        }
    }

    /// The step after the margin is checked.
    pub open spec fn after_margin(self, halted: bool) -> DirectionalStep {
        if halted {
            DirectionalStep::Sample
        } else {
            DirectionalStep::HandleSignals
        }
    }

    /// The first step on a tick.
    pub fn begin(&self, has_price: bool) -> (step: DirectionalStep)
        ensures
            step == self.first(has_price),
    {
        if has_price {
            DirectionalStep::FillPending
        } else {
            DirectionalStep::Done
        }
    }

    /// The step after another, given whether trading is halted by now.
    pub fn next(&self, step: DirectionalStep, halted: bool) -> (next: DirectionalStep)
        ensures
            next == self.after(step, halted),
    {
        let after_margin = if halted { DirectionalStep::Sample } else { DirectionalStep::HandleSignals };
        let after_risk = if self.is_leveraged { DirectionalStep::CheckMargin } else { after_margin };
        match step {
            DirectionalStep::FillPending => DirectionalStep::AskStrategy,
            DirectionalStep::AskStrategy => if self.has_risk_manager {
                DirectionalStep::CheckRisk
            } else {
                after_risk
            },
            DirectionalStep::CheckRisk => after_risk,
            DirectionalStep::CheckMargin => after_margin,
            DirectionalStep::HandleSignals => DirectionalStep::CloseExpired,
            DirectionalStep::CloseExpired => DirectionalStep::Sample,
            DirectionalStep::Sample => DirectionalStep::Done,
            DirectionalStep::Done => DirectionalStep::Done,
        }
    }

    /// The steps from one on, where trading is halted throughout or not at
    /// all.
    pub open spec fn path(self, step: DirectionalStep, halted: bool, fuel: nat) -> Seq<DirectionalStep>
        decreases fuel,
    {
        if fuel == 0 || step is Done {
            Seq::empty()
        } else {
            seq![step] + self.path(self.after(step, halted), halted, (fuel - 1) as nat)
        }
    }
}

/// On a tick of a halted run pending orders still fill and positions are
/// still liquidated, but no signal is taken and no contract closed; the
/// equity is taken all the same.
pub proof fn law_halted_tick_takes_no_signal(flow: DirectionalFlow)
    ensures
        ({
            let path = flow.path(DirectionalStep::FillPending, true, 8);
            &&& !path.contains(DirectionalStep::HandleSignals)
            &&& !path.contains(DirectionalStep::CloseExpired)
            &&& path.first() == DirectionalStep::FillPending
            &&& path.last() == DirectionalStep::Sample
            &&& path.contains(DirectionalStep::CheckMargin) == flow.is_leveraged
        }),
{
    reveal_with_fuel(DirectionalFlow::path, 9);
    let path = flow.path(DirectionalStep::FillPending, true, 8);
    let head = seq![DirectionalStep::FillPending, DirectionalStep::AskStrategy];
    let risk = if flow.has_risk_manager { seq![DirectionalStep::CheckRisk] } else { Seq::empty() };
    let margin = if flow.is_leveraged { seq![DirectionalStep::CheckMargin] } else { Seq::empty() };
    assert(path =~= head + risk + margin + seq![DirectionalStep::Sample]);
    if flow.is_leveraged {
        assert(path[(head + risk).len() as int] == DirectionalStep::CheckMargin);
    }
}

/// On a tick of a run that is not halted the signals come after the pending
/// orders and the margin, and the contracts are closed after the signals.
pub proof fn law_signals_come_after_fills_and_margin(flow: DirectionalFlow)
    ensures
        ({
            let path = flow.path(DirectionalStep::FillPending, false, 8);
            let n = path.len() as int;
            &&& path[0] == DirectionalStep::FillPending
            &&& path[n - 3] == DirectionalStep::HandleSignals
            &&& path[n - 2] == DirectionalStep::CloseExpired
            &&& path[n - 1] == DirectionalStep::Sample
            &&& flow.is_leveraged ==> path[n - 4] == DirectionalStep::CheckMargin
        }),
{
    reveal_with_fuel(DirectionalFlow::path, 9);
    let path = flow.path(DirectionalStep::FillPending, false, 8);
    let head = seq![DirectionalStep::FillPending, DirectionalStep::AskStrategy];
    let risk = if flow.has_risk_manager { seq![DirectionalStep::CheckRisk] } else { Seq::empty() };
    let margin = if flow.is_leveraged { seq![DirectionalStep::CheckMargin] } else { Seq::empty() };
    let tail = seq![DirectionalStep::HandleSignals, DirectionalStep::CloseExpired, DirectionalStep::Sample];
    assert(path =~= head + risk + margin + tail);
}

/// What a quoting run does next on a tick.
#[derive(Debug, Clone, Copy, PartialEq, Eq, Structural)]
pub enum QuotingStep {
    /// Match the market trade against the resting orders.
    MatchTrade,
    AskStrategy,
    CancelOrders,
    /// Check the limits of the account.
    CheckRisk,
    PlaceQuotes,
    /// Take the equity for the curve.
    Sample,
    Done,
}

/// What is known on a tick of a quoting run as it goes on.
#[derive(Debug, Clone, Copy, PartialEq, Eq, Structural)]
pub struct QuotingTick {
    pub is_trade: bool,
    /// Trading was halted on an earlier tick.
    pub was_halted: bool,
    pub has_signals: bool,
    /// The limits of the account do not let it trade.
    pub is_refused: bool,
}

impl QuotingTick {
    /// The first step on a tick.
    pub open spec fn first(self) -> QuotingStep {
        if self.is_trade {
            QuotingStep::MatchTrade
        } else {
            self.after(QuotingStep::MatchTrade)
        }
    }

    /// The step after another.
    pub open spec fn after(self, step: QuotingStep) -> QuotingStep {
        match step {
            QuotingStep::MatchTrade => if self.was_halted {
                QuotingStep::Sample
            } else {
                QuotingStep::AskStrategy
            },
            QuotingStep::AskStrategy => if self.has_signals {
                QuotingStep::CancelOrders
            } else {
                QuotingStep::CheckRisk
            },
            QuotingStep::CancelOrders => QuotingStep::CheckRisk,
            QuotingStep::CheckRisk => if self.is_refused {
                QuotingStep::Done
            } else {
                QuotingStep::PlaceQuotes
            },
            QuotingStep::PlaceQuotes => QuotingStep::Sample,
            QuotingStep::Sample => QuotingStep::Done,
            QuotingStep::Done => QuotingStep::Done,
        }
    }

    /// The first step on a tick.
    pub fn begin(&self) -> (step: QuotingStep)
        ensures
            step == self.first(),
    {
        if self.is_trade {
            QuotingStep::MatchTrade
        } else {
            self.next(QuotingStep::MatchTrade)
        }
    }

    /// The step after another.
    pub fn next(&self, step: QuotingStep) -> (next: QuotingStep)
        ensures
            next == self.after(step),
    {
        match step {
            QuotingStep::MatchTrade => if self.was_halted {
                QuotingStep::Sample
            } else {
                QuotingStep::AskStrategy
            },
            QuotingStep::AskStrategy => if self.has_signals {
                QuotingStep::CancelOrders
            } else {
                QuotingStep::CheckRisk
            },
            QuotingStep::CancelOrders => QuotingStep::CheckRisk,
            QuotingStep::CheckRisk => if self.is_refused {
                QuotingStep::Done
            } else {
                QuotingStep::PlaceQuotes
            },
            QuotingStep::PlaceQuotes => QuotingStep::Sample,
            QuotingStep::Sample => QuotingStep::Done,
            QuotingStep::Done => QuotingStep::Done,
        }
    }

    /// The steps from one on.
    pub open spec fn path(self, step: QuotingStep, fuel: nat) -> Seq<QuotingStep>
        decreases fuel,
    {
        if fuel == 0 || step is Done {
            Seq::empty()
        } else {
            seq![step] + self.path(self.after(step), (fuel - 1) as nat)
        }
    }
}

/// A tick of a halted run fills resting orders and takes the equity, and
/// nothing else.
pub proof fn law_halted_quoting_tick_only_fills_and_samples(tick: QuotingTick)
    requires
        tick.was_halted,
    ensures
        tick.path(tick.first(), 7) =~= if tick.is_trade {
            seq![QuotingStep::MatchTrade, QuotingStep::Sample]
        } else {
            seq![QuotingStep::Sample]
        },
{
    reveal_with_fuel(QuotingTick::path, 8);
}

/// Where the strategy has signals, the resting orders are cancelled before
/// the limits are checked and before anything new is placed. Where the limits
/// do not let the run trade, nothing is placed and no equity taken.
pub proof fn law_quotes_replace_the_resting_orders(tick: QuotingTick)
    requires
        !tick.was_halted,
    ensures
        ({
            let matched = if tick.is_trade { seq![QuotingStep::MatchTrade] } else { Seq::empty() };
            let cancelled = if tick.has_signals { seq![QuotingStep::CancelOrders] } else { Seq::empty() };
            let placed = if tick.is_refused {
                Seq::empty()
            } else {
                seq![QuotingStep::PlaceQuotes, QuotingStep::Sample]
            };
            tick.path(tick.first(), 7) =~= matched + seq![QuotingStep::AskStrategy] + cancelled
                + seq![QuotingStep::CheckRisk] + placed
        }),
{
    reveal_with_fuel(QuotingTick::path, 8);
}

} // verus!
