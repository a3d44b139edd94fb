//! Trading signals: what the strategy asks for, and how a bulk signal code
//! becomes a signal on the traded instrument.

use vstd::prelude::*;

use crate::number::Number;

verus! {

/// What kind of contract an instrument is. Expiries are in milliseconds
/// since the epoch.
#[derive(Debug, Clone, Copy, PartialEq)]
pub enum InstrumentKind<N> {
    Call { strike: N, expiry: i64 },
    Put { strike: N, expiry: i64 },
    Future { expiry: i64 },
    Perpetual,
}

/// A derivative contract.
#[derive(Debug, Clone, PartialEq)]
pub struct DerivativeMetadata<N> {
    pub symbol: String,
    pub underlying: String,
    pub instrument_kind: InstrumentKind<N>,
    pub contract_multiplier: N,
}

impl<N: Number> InstrumentKind<N> {
    /// Whether the contract is an option.
    pub open spec fn is_option_kind(self) -> bool {
        self is Call || self is Put
    }

    /// Strike price, for options.
    pub open spec fn strike_price(self) -> Option<N> {
        match self {
            InstrumentKind::Call { strike, .. } => Some(strike),
            InstrumentKind::Put { strike, .. } => Some(strike),
            _ => None,
        }
    }

    /// Expiry, for contracts that have one.
    pub open spec fn expiry_ms(self) -> Option<i64> {
        match self {
            InstrumentKind::Call { expiry, .. } => Some(expiry),
            InstrumentKind::Put { expiry, .. } => Some(expiry),
            InstrumentKind::Future { expiry } => Some(expiry),
            InstrumentKind::Perpetual => None,
        }
    }

    pub fn is_option(&self) -> (r: bool)
        ensures
            r == self.is_option_kind(),
    {
        match self {
            InstrumentKind::Call { .. } => true,
            InstrumentKind::Put { .. } => true,
            _ => false,
        }
    }

    pub fn strike(&self) -> (r: Option<N>)
        ensures
            r == self.strike_price(),
    {
        match self {
            InstrumentKind::Call { strike, .. } => Some(*strike),
            InstrumentKind::Put { strike, .. } => Some(*strike),
            _ => None,
        }
    }

    pub fn expiry(&self) -> (r: Option<i64>)
        ensures
            r == self.expiry_ms(),
    {
        match self {
            InstrumentKind::Call { expiry, .. } => Some(*expiry),
            InstrumentKind::Put { expiry, .. } => Some(*expiry),
            InstrumentKind::Future { expiry } => Some(*expiry),
            InstrumentKind::Perpetual => None,
        }
    }
}

impl<N: Number> DerivativeMetadata<N> {
    /// A copy of the contract's description.
    pub fn duplicate(&self) -> (copy: Self)
        ensures
            copy == *self,
    {
        DerivativeMetadata {
            symbol: self.symbol.clone(),
            underlying: self.underlying.clone(),
            instrument_kind: self.instrument_kind,
            contract_multiplier: self.contract_multiplier,
        }
    }
}

/// What a signal asks for.
#[derive(Debug, PartialEq)]
pub enum SignalType<N> {
    Buy,
    Sell,
    ScaleIn,
    ScaleOut,
    Close,
    Hold,
    CancelQuotes,
    StopLoss,
    TakeProfit,
    TwoSidedQuote { bid_price: N, ask_price: N, bid_size: N, ask_size: N },
    BuyOption { instrument: DerivativeMetadata<N>, premium: Option<N> },
    SellOption { instrument: DerivativeMetadata<N>, premium: Option<N> },
    BuyFuture { instrument: DerivativeMetadata<N> },
    SellFuture { instrument: DerivativeMetadata<N> },
    ExerciseOption { instrument: DerivativeMetadata<N> },
    HedgeDelta { target_delta: N, current_delta: N },
    OptionSpread { legs: Vec<SpreadLeg<N>> },
    /// A request that a single-symbol simulation does not serve.
    Unsupported,
}

/// One leg of a spread signal.
#[derive(Debug, PartialEq)]
pub struct SpreadLeg<N> {
    pub signal_type: SignalType<N>,
    pub ratio: i32,
    pub limit_price: Option<N>,
}

/// A signal of the strategy.
#[derive(Debug, PartialEq)]
pub struct Signal<N> {
    pub signal_type: SignalType<N>,
    pub price: Option<N>,
    pub quantity: Option<N>,
    pub is_limit: bool,
    pub reason: String,
}

/// One leg of a spread that the run is set up to trade. The prices are those
/// of the leg's own contract, one per tick.
#[derive(Debug, Clone, PartialEq)]
pub struct OptionSpreadLeg<N> {
    pub instrument: DerivativeMetadata<N>,
    pub ratio: i32,
    pub prices: Vec<N>,
}

/// Direction of an order.
#[derive(Debug, Clone, Copy, PartialEq, Eq, Structural)]
pub enum Direction {
    Buy,
    Sell,
}

/// The leg's own price at a tick, or the fallback where its series is too
/// short.
pub open spec fn leg_price<N>(leg: OptionSpreadLeg<N>, tick_idx: int, fallback: N) -> N {
    if tick_idx < leg.prices@.len() {
        leg.prices@[tick_idx]
    } else {
        fallback
    }
}

/// The spread signal's leg for a configured leg. Entering takes the leg as
/// configured, leaving takes its mirror image.
pub open spec fn signal_leg<N>(
    leg: OptionSpreadLeg<N>,
    entering: bool,
    tick_idx: int,
    price: N,
) -> SpreadLeg<N> {
    let premium = Some(leg_price(leg, tick_idx, price));
    let opens_long = if entering { leg.ratio > 0 } else { leg.ratio < 0 };
    SpreadLeg {
        signal_type: if opens_long {
            SignalType::BuyOption { instrument: leg.instrument, premium }
        } else {
            SignalType::SellOption { instrument: leg.instrument, premium }
        },
        ratio: if entering { leg.ratio } else { (-leg.ratio) as i32 },
        limit_price: None,
    }
}

/// All legs of the spread signal, in order.
pub open spec fn signal_legs<N>(
    legs: Seq<OptionSpreadLeg<N>>,
    entering: bool,
    tick_idx: int,
    price: N,
) -> Seq<SpreadLeg<N>> {
    legs.map_values(|leg: OptionSpreadLeg<N>| signal_leg(leg, entering, tick_idx, price))
}

/// The spread trades only where it has legs.
pub open spec fn has_legs<N>(spread: Option<&[OptionSpreadLeg<N>]>) -> bool {
    spread matches Some(legs) && legs@.len() > 0
}

/// A signal asks for what the bulk code says: one is a buy, minus one a sell,
/// two a close. A spread comes before a single contract, and that before the
/// plain asset.
pub open spec fn is_bulk_signal<N>(
    signal: SignalType<N>,
    code: i8,
    price: N,
    tick_idx: int,
    instrument: Option<&DerivativeMetadata<N>>,
    spread: Option<&[OptionSpreadLeg<N>]>,
) -> bool {
    if code == 2 {
        signal is Close
    } else if has_legs(spread) {
        signal matches SignalType::OptionSpread { legs } && legs@ == signal_legs(
            spread.unwrap()@,
            code == 1,
            tick_idx,
            price,
        )
    } else {
        match instrument {
            Some(contract) => signal == if code == 1 {
                SignalType::BuyOption { instrument: *contract, premium: None }
            } else {
                SignalType::SellOption { instrument: *contract, premium: None }
            },
            None => if code == 1 {
                signal is Buy
            } else {
                signal is Sell
            },
        }
    }
}

fn spread_signal<N: Number>(
    legs: &[OptionSpreadLeg<N>],
    entering: bool,
    tick_idx: usize,
    price: N,
) -> (signal: SignalType<N>)
    requires
        !entering ==> forall|i: int| 0 <= i < legs@.len() ==> (#[trigger] legs@[i]).ratio > i32::MIN,
    ensures
        signal matches SignalType::OptionSpread { legs: built } && built@ == signal_legs(
            legs@,
            entering,
            tick_idx as int,
            price,
        ),
{
    let mut built: Vec<SpreadLeg<N>> = Vec::new();
    let mut i: usize = 0;
    while i < legs.len()
        invariant
            i <= legs@.len(),
            !entering ==> forall|k: int| 0 <= k < legs@.len() ==> (#[trigger] legs@[k]).ratio > i32::MIN,
            built@ =~= signal_legs(legs@.take(i as int), entering, tick_idx as int, price),
        decreases legs@.len() - i,
    {
        let leg: &OptionSpreadLeg<N> = &legs[i];
        let premium: Option<N> = if tick_idx < leg.prices.len() {
            Some(leg.prices[tick_idx])
        } else {
            Some(price)
        };
        let opens_long = if entering {
            leg.ratio > 0
        } else {
            leg.ratio < 0
        };
        let ratio: i32 = if entering { leg.ratio } else { -leg.ratio };
        let signal_type: SignalType<N> = if opens_long {
            SignalType::BuyOption { instrument: leg.instrument.duplicate(), premium }
        } else {
            SignalType::SellOption { instrument: leg.instrument.duplicate(), premium }
        };
        built.push(SpreadLeg { signal_type, ratio, limit_price: None });
        i = i + 1;
    }
    assert(legs@.take(i as int) =~= legs@);
    SignalType::OptionSpread { legs: built }
}

fn bulk_signal<N: Number>(signal_type: SignalType<N>, price: N) -> (signal: Signal<N>)
    ensures
        signal.signal_type == signal_type,
        signal.price == Some(price),
        signal.quantity is None,
        !signal.is_limit,
        signal.reason@ == "vectorized"@,
{
    Signal { signal_type, price: Some(price), quantity: None, is_limit: false, reason: "vectorized".to_owned() }
}

/// The signals that a bulk signal code stands for: one for a buy, a sell or a
/// close, none for any other code.
///
/// Leaving a spread negates its ratios, so none of them is the least integer.
pub fn i8_to_signals<N: Number>(
    code: i8,
    price: N,
    tick_idx: usize,
    option_instrument: Option<&DerivativeMetadata<N>>,
    option_spread: Option<&[OptionSpreadLeg<N>]>,
) -> (signals: Vec<Signal<N>>)
    requires
        code == -1 ==> (option_spread matches Some(legs) ==> forall|i: int|
            0 <= i < legs@.len() ==> (#[trigger] legs@[i]).ratio > i32::MIN),
    ensures
        signals@.len() == if code == 1 || code == -1 || code == 2 { 1nat } else { 0 },
        signals@.len() == 1 ==> {
            let signal = signals@[0];
            &&& is_bulk_signal(signal.signal_type, code, price, tick_idx as int, option_instrument, option_spread)
            &&& signal.price == Some(price)
            &&& signal.quantity is None
            &&& !signal.is_limit
            &&& signal.reason@ == "vectorized"@
        },
{
    let mut signals: Vec<Signal<N>> = Vec::new();
    if code == 2 {
        signals.push(bulk_signal(SignalType::Close, price));
    } else if code == 1 || code == -1 {
        let entering = code == 1;
        let spread: Option<&[OptionSpreadLeg<N>]> = match option_spread {
            Some(legs) => if legs.len() > 0 {
                Some(legs)
            } else {
                None
            },
            None => None,
        };
        let signal_type: SignalType<N> = match spread {
            Some(legs) => spread_signal(legs, entering, tick_idx, price),
            None => match option_instrument {
                Some(contract) => if entering {
                    SignalType::BuyOption { instrument: contract.duplicate(), premium: None }
                } else {
                    SignalType::SellOption { instrument: contract.duplicate(), premium: None }
                },
                None => if entering {
                    SignalType::Buy
                } else {
                    SignalType::Sell
                },
            },
        };
        signals.push(bulk_signal(signal_type, price));
    }
    signals
}

/// Selling out of a spread mirrors buying into it: leg by leg the same
/// contract and premium, the opposite ratio, and the opposite side.
pub proof fn law_spread_sell_mirrors_buy<N>(leg: OptionSpreadLeg<N>, tick_idx: int, price: N)
    requires
        leg.ratio > i32::MIN,
        leg.ratio != 0,
    ensures
        ({
            let entry = signal_leg(leg, true, tick_idx, price);
            let exit = signal_leg(leg, false, tick_idx, price);
            &&& exit.ratio == -entry.ratio
            &&& entry.signal_type is BuyOption <==> exit.signal_type is SellOption
            &&& entry.signal_type is SellOption <==> exit.signal_type is BuyOption
        }),
{
}

/// Direction that a signal trades in, if it is a directional one.
pub open spec fn direction_of<N: Number>(signal_type: SignalType<N>) -> Option<Direction> {
    match signal_type {
        SignalType::Buy => Some(Direction::Buy),
        SignalType::ScaleIn => Some(Direction::Buy),
        SignalType::BuyOption { .. } => Some(Direction::Buy),
        SignalType::BuyFuture { .. } => Some(Direction::Buy),
        SignalType::Sell => Some(Direction::Sell),
        SignalType::ScaleOut => Some(Direction::Sell),
        SignalType::SellOption { .. } => Some(Direction::Sell),
        SignalType::SellFuture { .. } => Some(Direction::Sell),
        SignalType::ExerciseOption { .. } => Some(Direction::Sell),
        SignalType::HedgeDelta { target_delta, current_delta } => if target_delta.below(current_delta) {
            Some(Direction::Sell)
        } else {
            Some(Direction::Buy)
        },
        _ => None,
    }
}

/// The plain direction of a directional signal. A delta hedge sells where the
/// delta is above its target.
pub fn to_directional_signal<N: Number>(signal_type: &SignalType<N>) -> (direction: Option<Direction>)
    ensures
        direction == direction_of(*signal_type),
{
    match signal_type {
        SignalType::Buy => Some(Direction::Buy),
        SignalType::ScaleIn => Some(Direction::Buy),
        SignalType::BuyOption { .. } => Some(Direction::Buy),
        SignalType::BuyFuture { .. } => Some(Direction::Buy),
        SignalType::Sell => Some(Direction::Sell),
        SignalType::ScaleOut => Some(Direction::Sell),
        SignalType::SellOption { .. } => Some(Direction::Sell),
        SignalType::SellFuture { .. } => Some(Direction::Sell),
        SignalType::ExerciseOption { .. } => Some(Direction::Sell),
        SignalType::HedgeDelta { target_delta, current_delta } => if target_delta.lt(*current_delta) {
            Some(Direction::Sell)
        } else {
            Some(Direction::Buy)
        },
        _ => None,
    }
}

/// The contract that a signal names, if any.
pub open spec fn instrument_of<N>(signal_type: SignalType<N>) -> Option<DerivativeMetadata<N>> {
    match signal_type {
        SignalType::BuyOption { instrument, .. } => Some(instrument),
        SignalType::SellOption { instrument, .. } => Some(instrument),
        SignalType::BuyFuture { instrument } => Some(instrument),
        SignalType::SellFuture { instrument } => Some(instrument),
        SignalType::ExerciseOption { instrument } => Some(instrument),
        _ => None,
    }
}

/// The contract that a signal names, if any.
pub fn extract_instrument<N: Number>(signal_type: &SignalType<N>) -> (instrument: Option<DerivativeMetadata<N>>)
    ensures
        instrument == instrument_of(*signal_type),
{
    match signal_type {
        SignalType::BuyOption { instrument, .. } => Some(instrument.duplicate()),
        SignalType::SellOption { instrument, .. } => Some(instrument.duplicate()),
        SignalType::BuyFuture { instrument } => Some(instrument.duplicate()),
        SignalType::SellFuture { instrument } => Some(instrument.duplicate()),
        SignalType::ExerciseOption { instrument } => Some(instrument.duplicate()),
        _ => None,
    }
}

/// Price of the first leg on the contract with this symbol, at a tick; the
/// fallback where there is no such leg or its series is too short.
pub open spec fn price_by_symbol<N>(
    legs: Seq<OptionSpreadLeg<N>>,
    symbol: Seq<char>,
    tick_idx: int,
    fallback: N,
) -> N
    decreases legs.len(),
{
    if legs.len() == 0 {
        fallback
    } else if legs[0].instrument.symbol@ == symbol {
        leg_price(legs[0], tick_idx, fallback)
    } else {
        price_by_symbol(legs.skip(1), symbol, tick_idx, fallback)
    }
}

/// A spread leg's own price at a tick, found by the contract's symbol.
pub fn spread_leg_price_at<N: Number>(
    option_spread: Option<&[OptionSpreadLeg<N>]>,
    instrument: Option<&DerivativeMetadata<N>>,
    tick_idx: usize,
    fallback: N,
) -> (price: N)
    ensures
        price == match (option_spread, instrument) {
            (Some(legs), Some(contract)) => price_by_symbol(legs@, contract.symbol@, tick_idx as int, fallback),
            _ => fallback,
        },
{
    match (option_spread, instrument) {
        (Some(legs), Some(contract)) => {
            let mut i: usize = 0;
            assert(legs@.skip(0) =~= legs@);
            while i < legs.len()
                invariant
                    i <= legs@.len(),
                    option_spread == Some(legs),
                    instrument == Some(contract),
                    price_by_symbol(legs@, contract.symbol@, tick_idx as int, fallback) == price_by_symbol(
                        legs@.skip(i as int),
                        contract.symbol@,
                        tick_idx as int,
                        fallback,
                    ),
                decreases legs@.len() - i,
            {
                assert(legs@.skip(i as int)[0] == legs@[i as int]);
                assert(legs@.skip(i as int).skip(1) =~= legs@.skip(i as int + 1));
                if legs[i].instrument.symbol == contract.symbol {
                    return if tick_idx < legs[i].prices.len() {
                        legs[i].prices[tick_idx]
                    } else {
                        fallback
                    };
                }
                i = i + 1;
            }
            assert(legs@.skip(i as int).len() == 0);
            fallback
        },
        _ => fallback,
    }
}

/// Number of signals of each kind.
#[derive(Debug, Clone, Copy, PartialEq, Eq, Structural)]
pub struct SignalCounts {
    pub buy: usize,
    pub sell: usize,
    pub hold: usize,
    pub close: usize,
}

impl Default for SignalCounts {
    fn default() -> (counts: Self)
        ensures
            counts == (SignalCounts { buy: 0, sell: 0, hold: 0, close: 0 }),
    {
        SignalCounts { buy: 0, sell: 0, hold: 0, close: 0 }
    }
}

/// Number of codes that satisfy a condition.
pub open spec fn codes_where(codes: Seq<i8>, is_counted: spec_fn(i8) -> bool) -> nat
    decreases codes.len(),
{
    if codes.len() == 0 {
        0
    } else {
        codes_where(codes.drop_last(), is_counted) + if is_counted(codes.last()) { 1nat } else { 0 }
    }
}

/// Counts of the bulk signal codes.
pub open spec fn counts_of(codes: Seq<i8>) -> SignalCounts {
    SignalCounts {
        buy: codes_where(codes, |c: i8| c == 1) as usize,
        sell: codes_where(codes, |c: i8| c == -1) as usize,
        hold: codes_where(codes, |c: i8| c != 1 && c != -1 && c != 2) as usize,
        close: codes_where(codes, |c: i8| c == 2) as usize,
    }
}

/// Every code is counted in exactly one of the four counts.
pub proof fn law_every_code_is_counted_once(codes: Seq<i8>)
    ensures
        codes_where(codes, |c: i8| c == 1) + codes_where(codes, |c: i8| c == -1) + codes_where(
            codes,
            |c: i8| c != 1 && c != -1 && c != 2,
        ) + codes_where(codes, |c: i8| c == 2) == codes.len(),
    decreases codes.len(),
{
    if codes.len() > 0 {
        law_every_code_is_counted_once(codes.drop_last());
    }
}

/// Counts the bulk signal codes: one is a buy, minus one a sell, two a close,
/// any other a hold.
pub fn count_signals(codes: &[i8]) -> (counts: SignalCounts)
    ensures
        counts == counts_of(codes@),
        counts.buy + counts.sell + counts.hold + counts.close == codes@.len(),
{
    let mut counts = SignalCounts { buy: 0, sell: 0, hold: 0, close: 0 };
    let mut i: usize = 0;
    assert(codes@.take(0) =~= Seq::empty());
    while i < codes.len()
        invariant
            i <= codes@.len(),
            counts.buy + counts.sell + counts.hold + counts.close == i,
            counts.buy == codes_where(codes@.take(i as int), |c: i8| c == 1),
            counts.sell == codes_where(codes@.take(i as int), |c: i8| c == -1),
            counts.hold == codes_where(codes@.take(i as int), |c: i8| c != 1 && c != -1 && c != 2),
            counts.close == codes_where(codes@.take(i as int), |c: i8| c == 2),
        decreases codes@.len() - i,
    {
        assert(codes@.take(i as int + 1).drop_last() =~= codes@.take(i as int));
        let code: i8 = codes[i];
        if code == 1 {
            counts.buy = counts.buy + 1;
        } else if code == -1 {
            counts.sell = counts.sell + 1;
        } else if code == 2 {
            counts.close = counts.close + 1;
        } else {
            counts.hold = counts.hold + 1;
        }
        i = i + 1;
    }
    assert(codes@.take(i as int) =~= codes@);
    counts
}

} // verus!
