//! The ledger of round trips: positions opened and closed by fills, and the
//! trade log that they leave.

use vstd::prelude::*;

use crate::clock::seconds_between;
use crate::number::{cut_off, Number};
use crate::signals::Direction;

verus! {

/// Side of a position.
#[derive(Debug, Clone, Copy, PartialEq, Eq, Structural)]
pub enum PositionSide {
    Long,
    Short,
}

/// Whether a fill took or provided liquidity.
#[derive(Debug, Clone, Copy, PartialEq, Eq, Structural)]
pub enum LiquidityType {
    Maker,
    Taker,
}

/// One venue's fill within a trade that spans several venues.
#[derive(Debug, Clone, PartialEq)]
pub struct TradeLeg<N> {
    pub exchange: String,
    pub symbol: String,
    pub side: String,
    pub fill_price: N,
    pub quantity: N,
    pub liquidity: String,
    pub commission: N,
    pub slippage_cost: N,
    pub timestamp: i64,
}

/// A round trip. The exit fields of one that is still open are empty, and
/// its profit is unrealized. Times are in milliseconds since the epoch.
#[derive(Debug, Clone, PartialEq)]
pub struct TradeRecord<N> {
    pub trade_id: usize,
    pub side: String,
    pub entry_signal_price: N,
    pub entry_fill_price: N,
    pub exit_signal_price: Option<N>,
    pub exit_fill_price: Option<N>,
    pub quantity: N,
    pub pnl: Option<N>,
    pub pnl_pct: Option<N>,
    pub commission: N,
    pub slippage_cost: N,
    pub entry_time: i64,
    pub exit_time: Option<i64>,
    pub duration_secs: Option<i64>,
    pub entry_liquidity: String,
    pub exit_liquidity: Option<String>,
    pub entry_reason: String,
    pub exit_reason: Option<String>,
    pub mae: Option<N>,
    pub mfe: Option<N>,
    pub legs: Vec<TradeLeg<N>>,
}

/// Model of a [`TradeRecord`].
pub struct RoundTrip<N> {
    pub trade_id: usize,
    pub side: Seq<char>,
    pub entry_signal_price: N,
    pub entry_fill_price: N,
    pub exit_signal_price: Option<N>,
    pub exit_fill_price: Option<N>,
    pub quantity: N,
    pub pnl: Option<N>,
    pub pnl_pct: Option<N>,
    pub commission: N,
    pub slippage_cost: N,
    pub entry_time: i64,
    pub exit_time: Option<i64>,
    pub duration_secs: Option<i64>,
    pub entry_liquidity: Seq<char>,
    pub exit_liquidity: Option<Seq<char>>,
    pub entry_reason: Seq<char>,
    pub exit_reason: Option<Seq<char>>,
    pub mae: Option<N>,
    pub mfe: Option<N>,
    pub legs: Seq<TradeLeg<N>>,
}

/// The contents of a text that may be absent.
pub open spec fn text_of(text: Option<String>) -> Option<Seq<char>> {
    match text {
        Some(t) => Some(t@),
        None => None,
    }
}

impl<N> View for TradeRecord<N> {
    type V = RoundTrip<N>;

    open spec fn view(&self) -> RoundTrip<N> {
        RoundTrip {
            trade_id: self.trade_id,
            side: self.side@,
            entry_signal_price: self.entry_signal_price,
            entry_fill_price: self.entry_fill_price,
            exit_signal_price: self.exit_signal_price,
            exit_fill_price: self.exit_fill_price,
            quantity: self.quantity,
            pnl: self.pnl,
            pnl_pct: self.pnl_pct,
            commission: self.commission,
            slippage_cost: self.slippage_cost,
            entry_time: self.entry_time,
            exit_time: self.exit_time,
            duration_secs: self.duration_secs,
            entry_liquidity: self.entry_liquidity@,
            exit_liquidity: text_of(self.exit_liquidity),
            entry_reason: self.entry_reason@,
            exit_reason: text_of(self.exit_reason),
            mae: self.mae,
            mfe: self.mfe,
            legs: self.legs@,
        }
    }
}

impl<N: Number> TradeLeg<N> {
    /// A copy of the leg.
    pub fn duplicate(&self) -> (copy: Self)
        ensures
            copy == *self,
    {
        TradeLeg {
            exchange: self.exchange.clone(),
            symbol: self.symbol.clone(),
            side: self.side.clone(),
            fill_price: self.fill_price,
            quantity: self.quantity,
            liquidity: self.liquidity.clone(),
            commission: self.commission,
            slippage_cost: self.slippage_cost,
            timestamp: self.timestamp,
        }
    }
}

impl<N: Number> TradeRecord<N> {
    /// A copy of the record.
    pub fn duplicate(&self) -> (copy: Self)
        ensures
            copy@ == self@,
    {
        let mut legs: Vec<TradeLeg<N>> = Vec::new();
        let mut i: usize = 0;
        while i < self.legs.len()
            invariant
                i <= self.legs@.len(),
                legs@ =~= self.legs@.take(i as int),
            decreases self.legs@.len() - i,
        {
            legs.push(self.legs[i].duplicate());
            i = i + 1;
        }
        assert(legs@ =~= self.legs@);
        TradeRecord {
            trade_id: self.trade_id,
            side: self.side.clone(),
            entry_signal_price: self.entry_signal_price,
            entry_fill_price: self.entry_fill_price,
            exit_signal_price: self.exit_signal_price,
            exit_fill_price: self.exit_fill_price,
            quantity: self.quantity,
            pnl: self.pnl,
            pnl_pct: self.pnl_pct,
            commission: self.commission,
            slippage_cost: self.slippage_cost,
            entry_time: self.entry_time,
            exit_time: self.exit_time,
            duration_secs: self.duration_secs,
            entry_liquidity: self.entry_liquidity.clone(),
            exit_liquidity: match &self.exit_liquidity {
                Some(text) => Some(text.clone()),
                None => None,
            },
            entry_reason: self.entry_reason.clone(),
            exit_reason: match &self.exit_reason {
                Some(text) => Some(text.clone()),
                None => None,
            },
            mae: self.mae,
            mfe: self.mfe,
            legs,
        }
    }
}

/// Models of a trade log.
pub open spec fn round_trips<N>(log: Seq<TradeRecord<N>>) -> Seq<RoundTrip<N>> {
    log.map_values(|t: TradeRecord<N>| t@)
}

/// A position that is open, as the ledger tracks it. The excursions are
/// fractions of the entry price.
#[derive(Debug, Clone, PartialEq)]
pub struct OpenPosition<N> {
    pub trade_id: usize,
    pub side: PositionSide,
    pub entry_signal_price: N,
    pub entry_fill_price: N,
    pub quantity: N,
    pub entry_commission: N,
    pub entry_slippage: N,
    pub entry_time: i64,
    pub entry_liquidity: LiquidityType,
    pub entry_reason: String,
    pub worst_unrealized: N,
    pub best_unrealized: N,
}

/// What a buy or a sell does to the tracked positions.
#[derive(Debug, Clone, Copy, PartialEq, Eq, Structural)]
pub enum RoundTripAction {
    OpenLong,
    OpenShort,
    Close,
}

/// A fill against the position that was opened last closes it if it goes the
/// other way; any other fill opens a position.
pub open spec fn action_for<N>(is_buy: bool, open: Seq<OpenPosition<N>>) -> RoundTripAction {
    if open.len() > 0 && (is_buy <==> open.last().side == PositionSide::Short) {
        RoundTripAction::Close
    } else if is_buy {
        RoundTripAction::OpenLong
    } else {
        RoundTripAction::OpenShort
    }
}

/// What a buy or a sell does to the tracked positions.
pub fn classify_round_trip_action<N: Number>(
    is_buy_direction: bool,
    open_positions: &[OpenPosition<N>],
) -> (action: RoundTripAction)
    ensures
        action == action_for(is_buy_direction, open_positions@),
{
    if open_positions.len() > 0 {
        let last_is_short = match open_positions[open_positions.len() - 1].side {
            PositionSide::Short => true,
            PositionSide::Long => false,
        };
        if is_buy_direction == last_is_short {
            return RoundTripAction::Close;
        }
    }
    if is_buy_direction {
        RoundTripAction::OpenLong
    } else {
        RoundTripAction::OpenShort
    }
}

/// Name of a side in the trade log.
pub open spec fn side_text(side: PositionSide) -> Seq<char> {
    match side {
        PositionSide::Long => "long"@,
        PositionSide::Short => "short"@,
    }
}

/// Name of a kind of liquidity in the trade log.
pub open spec fn liquidity_text(liquidity: LiquidityType) -> Seq<char> {
    match liquidity {
        LiquidityType::Maker => "maker"@,
        LiquidityType::Taker => "taker"@,
    }
}

fn side_name(side: PositionSide) -> (name: String)
    ensures
        name@ == side_text(side),
{
    match side {
        PositionSide::Long => "long".to_owned(),
        PositionSide::Short => "short".to_owned(),
    }
}

fn liquidity_name(liquidity: LiquidityType) -> (name: String)
    ensures
        name@ == liquidity_text(liquidity),
{
    match liquidity {
        LiquidityType::Maker => "maker".to_owned(),
        LiquidityType::Taker => "taker".to_owned(),
    }
}

/// A fill as the account executed it.
#[derive(Debug, Clone, PartialEq)]
pub struct ExecutedFill<N> {
    pub direction: Direction,
    /// Price that the signal saw.
    pub signal_price: N,
    /// Price that was paid.
    pub fill_price: N,
    pub quantity: N,
    pub commission: N,
    /// Slippage cost that an entry carries.
    pub entry_slippage: N,
    /// Slippage cost that an exit adds, where it is tracked.
    pub exit_slippage: Option<N>,
    /// Cash flow of the fill relative to the account's value.
    pub cash_share: N,
    pub liquidity: LiquidityType,
    /// When an entry counts as made.
    pub entry_time: i64,
    /// When an exit counts as made.
    pub exit_time: i64,
    pub reason: String,
    /// Whether an entry takes the next trade number, or zero.
    pub numbered: bool,
}

/// Profit of a position at a price, before costs.
pub open spec fn gross_profit_at<N: Number>(position: OpenPosition<N>, price: N) -> N {
    match position.side {
        PositionSide::Long => price.difference(position.entry_fill_price).product(position.quantity),
        PositionSide::Short => position.entry_fill_price.difference(price).product(position.quantity),
    }
}

/// Worst excursion of a position in currency.
pub open spec fn adverse_excursion<N: Number>(position: OpenPosition<N>) -> N {
    position.worst_unrealized.magnitude().product(position.entry_fill_price).product(position.quantity)
}

/// The record of a position that a fill closes.
pub open spec fn closed_record<N: Number>(position: OpenPosition<N>, fill: ExecutedFill<N>) -> RoundTrip<N> {
    let commission = position.entry_commission.sum(fill.commission);
    let pnl = gross_profit_at(position, fill.fill_price).difference(commission);
    RoundTrip {
        trade_id: position.trade_id,
        side: side_text(position.side),
        entry_signal_price: position.entry_signal_price,
        entry_fill_price: position.entry_fill_price,
        exit_signal_price: Some(fill.signal_price),
        exit_fill_price: Some(fill.fill_price),
        quantity: position.quantity,
        pnl: Some(pnl),
        pnl_pct: Some(pnl.quotient(position.entry_fill_price.product(position.quantity))),
        commission,
        slippage_cost: match fill.exit_slippage {
            Some(cost) => position.entry_slippage.sum(cost),
            None => position.entry_slippage,
        },
        entry_time: position.entry_time,
        exit_time: Some(fill.exit_time),
        duration_secs: Some(cut_off(fill.exit_time - position.entry_time, 1000) as i64),
        entry_liquidity: liquidity_text(position.entry_liquidity),
        exit_liquidity: Some(liquidity_text(fill.liquidity)),
        entry_reason: position.entry_reason@,
        exit_reason: Some(fill.reason@),
        mae: Some(position.worst_unrealized),
        mfe: Some(position.best_unrealized),
        legs: Seq::empty(),
    }
}

/// The record of a position that is still open at the end, at its last price.
pub open spec fn open_record<N: Number>(position: OpenPosition<N>, last_price: N) -> RoundTrip<N> {
    let pnl = gross_profit_at(position, last_price).difference(position.entry_commission);
    RoundTrip {
        trade_id: position.trade_id,
        side: side_text(position.side),
        entry_signal_price: position.entry_signal_price,
        entry_fill_price: position.entry_fill_price,
        exit_signal_price: None,
        exit_fill_price: None,
        quantity: position.quantity,
        pnl: Some(pnl),
        pnl_pct: Some(pnl.quotient(position.entry_fill_price.product(position.quantity))),
        commission: position.entry_commission,
        slippage_cost: position.entry_slippage,
        entry_time: position.entry_time,
        exit_time: None,
        duration_secs: None,
        entry_liquidity: liquidity_text(position.entry_liquidity),
        exit_liquidity: None,
        entry_reason: position.entry_reason@,
        exit_reason: None,
        mae: Some(position.worst_unrealized),
        mfe: Some(position.best_unrealized),
        legs: Seq::empty(),
    }
}

/// The position that a fill opens.
pub open spec fn opened_position<N: Number>(fill: ExecutedFill<N>, side: PositionSide, trade_id: usize) -> OpenPosition<N> {
    OpenPosition {
        trade_id,
        side,
        entry_signal_price: fill.signal_price,
        entry_fill_price: fill.fill_price,
        quantity: fill.quantity,
        entry_commission: fill.commission,
        entry_slippage: fill.entry_slippage,
        entry_time: fill.entry_time,
        entry_liquidity: fill.liquidity,
        entry_reason: fill.reason,
        worst_unrealized: N::whole(0),
        best_unrealized: N::whole(0),
    }
}

/// The ledger of a run.
pub struct TradeLedger<N> {
    pub total_commission: N,
    pub num_trades: usize,
    pub trade_returns: Vec<N>,
    pub trade_maes: Vec<N>,
    pub trade_log: Vec<TradeRecord<N>>,
    pub open_positions: Vec<OpenPosition<N>>,
    pub next_trade_id: usize,
    /// Most records that the trade log takes; no limit where there is none.
    pub max_trade_log_size: Option<usize>,
}

/// Model of a [`TradeLedger`].
pub struct LedgerState<N> {
    pub total_commission: N,
    pub num_trades: nat,
    pub trade_returns: Seq<N>,
    pub trade_maes: Seq<N>,
    pub trade_log: Seq<RoundTrip<N>>,
    pub open_positions: Seq<OpenPosition<N>>,
    pub next_trade_id: nat,
    pub max_trade_log_size: Option<usize>,
}

impl<N> View for TradeLedger<N> {
    type V = LedgerState<N>;

    open spec fn view(&self) -> LedgerState<N> {
        LedgerState {
            total_commission: self.total_commission,
            num_trades: self.num_trades as nat,
            trade_returns: self.trade_returns@,
            trade_maes: self.trade_maes@,
            trade_log: round_trips(self.trade_log@),
            open_positions: self.open_positions@,
            next_trade_id: self.next_trade_id as nat,
            max_trade_log_size: self.max_trade_log_size,
        }
    }
}

impl<N: Number> LedgerState<N> {
    /// The trade log takes another record.
    pub open spec fn log_has_room(self) -> bool {
        match self.max_trade_log_size {
            Some(max) => self.trade_log.len() < max,
            None => true,
        }
    }

    /// The log with a record added, as far as it has room.
    pub open spec fn logged(self, record: RoundTrip<N>) -> Seq<RoundTrip<N>> {
        if self.log_has_room() {
            self.trade_log.push(record)
        } else {
            self.trade_log
        }
    }

    /// The ledger after a fill: a fill against the last position closes it
    /// and is logged, any other opens a position.
    pub open spec fn after_fill(self, fill: ExecutedFill<N>) -> LedgerState<N> {
        let is_buy = fill.direction == Direction::Buy;
        let action = action_for(is_buy, self.open_positions);
        let counted = LedgerState {
            total_commission: self.total_commission.sum(fill.commission),
            num_trades: self.num_trades + 1,
            trade_returns: self.trade_returns.push(fill.cash_share),
            ..self
        };
        if action == RoundTripAction::Close {
            let position = self.open_positions.last();
            LedgerState {
                trade_maes: self.trade_maes.push(adverse_excursion(position)),
                trade_log: self.logged(closed_record(position, fill)),
                open_positions: self.open_positions.drop_last(),
                ..counted
            }
        } else {
            let side = if action == RoundTripAction::OpenShort {
                PositionSide::Short
            } else {
                PositionSide::Long
            };
            let id = if fill.numbered { self.next_trade_id } else { 0 };
            LedgerState {
                trade_maes: self.trade_maes.push(N::whole(0)),
                open_positions: self.open_positions.push(opened_position(fill, side, id as usize)),
                next_trade_id: if fill.numbered { self.next_trade_id + 1 } else { self.next_trade_id },
                ..counted
            }
        }
    }

    /// The first open positions moved to the log as records without an exit.
    pub open spec fn flushed(self, count: nat, last_price: N) -> Seq<RoundTrip<N>>
        decreases count,
    {
        if count == 0 {
            self.trade_log
        } else {
            let before = LedgerState { trade_log: self.flushed((count - 1) as nat, last_price), ..self };
            before.logged(open_record(self.open_positions[count - 1], last_price))
        }
    }
}

/// Return on the entry price at the current price.
pub open spec fn unrealized_return<N: Number>(position: OpenPosition<N>, price: N) -> N {
    match position.side {
        PositionSide::Long => price.difference(position.entry_fill_price).quotient(position.entry_fill_price),
        PositionSide::Short => position.entry_fill_price.difference(price).quotient(position.entry_fill_price),
    }
}

/// A position with its excursions brought up to the current price.
pub open spec fn marked<N: Number>(position: OpenPosition<N>, price: N) -> OpenPosition<N> {
    let now = unrealized_return(position, price);
    OpenPosition {
        worst_unrealized: if now.below(position.worst_unrealized) { now } else { position.worst_unrealized },
        best_unrealized: if position.best_unrealized.below(now) { now } else { position.best_unrealized },
        ..position
    }
}

fn make_closed_record<N: Number>(position: OpenPosition<N>, fill: &ExecutedFill<N>) -> (record: TradeRecord<N>)
    ensures
        record@ == closed_record(position, *fill),
{
    let gross: N = match position.side {
        PositionSide::Long => fill.fill_price.minus(position.entry_fill_price).times(position.quantity),
        PositionSide::Short => position.entry_fill_price.minus(fill.fill_price).times(position.quantity),
    };
    let commission: N = position.entry_commission.plus(fill.commission);
    let pnl: N = gross.minus(commission);
    let pnl_pct: N = pnl.over(position.entry_fill_price.times(position.quantity));
    let slippage_cost: N = match fill.exit_slippage {
        Some(cost) => position.entry_slippage.plus(cost),
        None => position.entry_slippage,
    };
    let legs: Vec<TradeLeg<N>> = Vec::new();
    assert(legs@ =~= Seq::empty());
    TradeRecord {
        trade_id: position.trade_id,
        side: side_name(position.side),
        entry_signal_price: position.entry_signal_price,
        entry_fill_price: position.entry_fill_price,
        exit_signal_price: Some(fill.signal_price),
        exit_fill_price: Some(fill.fill_price),
        quantity: position.quantity,
        pnl: Some(pnl),
        pnl_pct: Some(pnl_pct),
        commission,
        slippage_cost,
        entry_time: position.entry_time,
        exit_time: Some(fill.exit_time),
        duration_secs: Some(seconds_between(position.entry_time, fill.exit_time)),
        entry_liquidity: liquidity_name(position.entry_liquidity),
        exit_liquidity: Some(liquidity_name(fill.liquidity)),
        entry_reason: position.entry_reason,
        exit_reason: Some(fill.reason.clone()),
        mae: Some(position.worst_unrealized),
        mfe: Some(position.best_unrealized),
        legs,
    }
}

fn make_open_record<N: Number>(position: &OpenPosition<N>, last_price: N) -> (record: TradeRecord<N>)
    ensures
        record@ == open_record(*position, last_price),
{
    let gross: N = match position.side {
        PositionSide::Long => last_price.minus(position.entry_fill_price).times(position.quantity),
        PositionSide::Short => position.entry_fill_price.minus(last_price).times(position.quantity),
    };
    let pnl: N = gross.minus(position.entry_commission);
    let pnl_pct: N = pnl.over(position.entry_fill_price.times(position.quantity));
    let legs: Vec<TradeLeg<N>> = Vec::new();
    assert(legs@ =~= Seq::empty());
    TradeRecord {
        trade_id: position.trade_id,
        side: side_name(position.side),
        entry_signal_price: position.entry_signal_price,
        entry_fill_price: position.entry_fill_price,
        exit_signal_price: None,
        exit_fill_price: None,
        quantity: position.quantity,
        pnl: Some(pnl),
        pnl_pct: Some(pnl_pct),
        commission: position.entry_commission,
        slippage_cost: position.entry_slippage,
        entry_time: position.entry_time,
        exit_time: None,
        duration_secs: None,
        entry_liquidity: liquidity_name(position.entry_liquidity),
        exit_liquidity: None,
        entry_reason: position.entry_reason.clone(),
        exit_reason: None,
        mae: Some(position.worst_unrealized),
        mfe: Some(position.best_unrealized),
        legs,
    }
}

/// A ledger in which nothing is booked yet.
pub open spec fn fresh_ledger<N: Number>(max_trade_log_size: Option<usize>) -> LedgerState<N> {
    LedgerState {
        total_commission: N::whole(0),
        num_trades: 0,
        trade_returns: Seq::empty(),
        trade_maes: Seq::empty(),
        trade_log: Seq::empty(),
        open_positions: Seq::empty(),
        next_trade_id: 1,
        max_trade_log_size,
    }
}

impl<N: Number> TradeLedger<N> {
    /// An empty ledger. Trades are numbered from one.
    pub fn new(max_trade_log_size: Option<usize>) -> (ledger: Self)
        ensures
            ledger@ == fresh_ledger::<N>(max_trade_log_size),
    {
        let ledger = TradeLedger {
            total_commission: N::of(0),
            num_trades: 0,
            trade_returns: Vec::new(),
            trade_maes: Vec::new(),
            trade_log: Vec::new(),
            open_positions: Vec::new(),
            next_trade_id: 1,
            max_trade_log_size,
        };
        assert(round_trips(ledger.trade_log@) =~= Seq::empty());
        ledger
    }

    fn can_log(&self) -> (room: bool)
        ensures
            room == self@.log_has_room(),
    {
        match self.max_trade_log_size {
            Some(max) => self.trade_log.len() < max,
            None => true,
        }
    }

    /// Books a fill that was executed.
    pub fn record_fill(&mut self, fill: ExecutedFill<N>)
        requires
            old(self).num_trades < usize::MAX,
            old(self).next_trade_id < usize::MAX,
        ensures
            final(self)@ == old(self)@.after_fill(fill),
    {
        let ghost before = self@;
        let is_buy = match fill.direction {
            Direction::Buy => true,
            Direction::Sell => false,
        };
        let action = classify_round_trip_action(is_buy, self.open_positions.as_slice());
        self.total_commission = self.total_commission.plus(fill.commission);
        self.num_trades = self.num_trades + 1;
        self.trade_returns.push(fill.cash_share);
        let room = self.can_log();
        let is_short = match action {
            RoundTripAction::OpenShort => true,
            _ => false,
        };
        match action {
            RoundTripAction::Close => {
                if let Some(position) = self.open_positions.pop() {
                    self.trade_maes.push(
                        position.worst_unrealized.abs().times(position.entry_fill_price).times(position.quantity),
                    );
                    if room {
                        let record = make_closed_record(position, &fill);
                        self.trade_log.push(record);
                        assert(round_trips(self.trade_log@) =~= before.trade_log.push(
                            closed_record(position, fill),
                        ));
                    }
                }
            },
            _ => {
                self.trade_maes.push(N::of(0));
                let trade_id: usize = if fill.numbered { self.next_trade_id } else { 0 };
                if fill.numbered {
                    self.next_trade_id = self.next_trade_id + 1;
                }
                self.open_positions.push(
                    OpenPosition {
                        trade_id,
                        side: if is_short {
                            PositionSide::Short
                        } else {
                            PositionSide::Long
                        },
                        entry_signal_price: fill.signal_price,
                        entry_fill_price: fill.fill_price,
                        quantity: fill.quantity,
                        entry_commission: fill.commission,
                        entry_slippage: fill.entry_slippage,
                        entry_time: fill.entry_time,
                        entry_liquidity: fill.liquidity,
                        entry_reason: fill.reason,
                        worst_unrealized: N::of(0),
                        best_unrealized: N::of(0),
                    },
                );
            },
        }
    }

    /// Brings the excursions of every open position up to the current price.
    pub fn mark(&mut self, price: N)
        ensures
            final(self)@ == (LedgerState {
                open_positions: old(self)@.open_positions.map_values(|p: OpenPosition<N>| marked(p, price)),
                ..old(self)@
            }),
    {
        let ghost before = self.open_positions@;
        let mut i: usize = 0;
        while i < self.open_positions.len()
            invariant
                i <= self.open_positions@.len(),
                self.open_positions@.len() == before.len(),
                before == old(self)@.open_positions,
                forall|k: int| 0 <= k < i ==> #[trigger] self.open_positions@[k] == marked(before[k], price),
                forall|k: int| i <= k < before.len() ==> #[trigger] self.open_positions@[k] == before[k],
                self@ == (LedgerState { open_positions: self.open_positions@, ..old(self)@ }),
            decreases self.open_positions@.len() - i,
        {
            let position: &OpenPosition<N> = &self.open_positions[i];
            let entry: N = position.entry_fill_price;
            let now: N = match position.side {
                PositionSide::Long => price.minus(entry).over(entry),
                PositionSide::Short => entry.minus(price).over(entry),
            };
            let worst: N = if now.lt(position.worst_unrealized) { now } else { position.worst_unrealized };
            let best: N = if position.best_unrealized.lt(now) { now } else { position.best_unrealized };
            let updated: OpenPosition<N> = OpenPosition {
                trade_id: position.trade_id,
                side: position.side,
                entry_signal_price: position.entry_signal_price,
                entry_fill_price: position.entry_fill_price,
                quantity: position.quantity,
                entry_commission: position.entry_commission,
                entry_slippage: position.entry_slippage,
                entry_time: position.entry_time,
                entry_liquidity: position.entry_liquidity,
                entry_reason: position.entry_reason.clone(),
                worst_unrealized: worst,
                best_unrealized: best,
            };
            self.open_positions.set(i, updated);
            i = i + 1;
        }
        assert(self.open_positions@ =~= before.map_values(|p: OpenPosition<N>| marked(p, price)));
    }

    /// Ends the run: positions that are still open go to the trade log, with
    /// their profit at the last price and without an exit.
    pub fn flush_open_positions(&mut self, last_price: N)
        ensures
            final(self)@ == (LedgerState {
                trade_log: old(self)@.flushed(old(self)@.open_positions.len(), last_price),
                open_positions: Seq::empty(),
                ..old(self)@
            }),
    {
        let ghost start = self@;
        let mut i: usize = 0;
        while i < self.open_positions.len()
            invariant
                i <= self.open_positions@.len(),
                self.open_positions@ == start.open_positions,
                start == old(self)@,
                self@ == (LedgerState { trade_log: start.flushed(i as nat, last_price), ..start }),
            decreases self.open_positions@.len() - i,
        {
            let ghost logged = round_trips(self.trade_log@);
            if self.can_log() {
                let record = make_open_record(&self.open_positions[i], last_price);
                self.trade_log.push(record);
                assert(round_trips(self.trade_log@) =~= logged.push(
                    open_record(start.open_positions[i as int], last_price),
                ));
            }
            i = i + 1;
        }
        self.open_positions = Vec::new();
        assert(self.open_positions@ =~= Seq::empty());
    }
}

impl<N: Number> LedgerState<N> {
    /// What holds of the ledger of every run: all open positions are on one
    /// side, there is one return and one excursion per trade, the log keeps
    /// to its limit, and numbered positions carry numbers already given out.
    pub open spec fn is_consistent(self) -> bool {
        &&& forall|i: int, j: int|
            0 <= i < self.open_positions.len() && 0 <= j < self.open_positions.len()
                ==> (#[trigger] self.open_positions[i]).side == (#[trigger] self.open_positions[j]).side
        &&& self.trade_returns.len() == self.num_trades
        &&& self.trade_maes.len() == self.num_trades
        &&& self.max_trade_log_size matches Some(max) ==> self.trade_log.len() <= max
        &&& forall|i: int|
            0 <= i < self.open_positions.len() ==> (#[trigger] self.open_positions[i]).trade_id < self.next_trade_id
        &&& self.next_trade_id >= 1
    }
}

/// A fresh ledger is consistent.
pub proof fn law_fresh_ledger_is_consistent<N: Number>(max_trade_log_size: Option<usize>)
    ensures
        fresh_ledger::<N>(max_trade_log_size).is_consistent(),
{
}

/// Every fill keeps the ledger consistent. It opens one position or closes
/// one, and a position is closed only by a fill in the other direction.
pub proof fn law_fills_keep_the_ledger_consistent<N: Number>(ledger: LedgerState<N>, fill: ExecutedFill<N>)
    requires
        ledger.is_consistent(),
        ledger.next_trade_id < usize::MAX,
    ensures
        ledger.after_fill(fill).is_consistent(),
        ({
            let after = ledger.after_fill(fill);
            let is_buy = fill.direction == Direction::Buy;
            let closes = ledger.open_positions.len() > 0 && (is_buy <==> ledger.open_positions.last().side
                == PositionSide::Short);
            &&& after.num_trades == ledger.num_trades + 1
            &&& closes ==> after.open_positions == ledger.open_positions.drop_last()
            &&& !closes ==> after.open_positions.len() == ledger.open_positions.len() + 1 && after.trade_log
                == ledger.trade_log
        }),
{
    let after = ledger.after_fill(fill);
    let action = action_for(fill.direction == Direction::Buy, ledger.open_positions);
    if action != RoundTripAction::Close {
        assert forall|i: int, j: int|
            0 <= i < after.open_positions.len() && 0 <= j < after.open_positions.len() implies (
        #[trigger] after.open_positions[i]).side == (#[trigger] after.open_positions[j]).side by {
            let n = ledger.open_positions.len();
            if n > 0 {
                assert(ledger.open_positions[n - 1].side == after.open_positions[n as int].side);
                if i < n {
                    assert(ledger.open_positions[i].side == ledger.open_positions[n - 1].side);
                }
                if j < n {
                    assert(ledger.open_positions[j].side == ledger.open_positions[n - 1].side);
                }
            }
        }
        assert forall|i: int| 0 <= i < after.open_positions.len() implies (
        #[trigger] after.open_positions[i]).trade_id < after.next_trade_id by {
            if i < ledger.open_positions.len() {
                assert(ledger.open_positions[i].trade_id < ledger.next_trade_id);
            }
        }
    }
}

/// Ending a run logs every open position that fits, without an exit, and
/// leaves the earlier records as they are.
pub proof fn law_flush_keeps_closed_records<N: Number>(ledger: LedgerState<N>, count: nat, last_price: N)
    requires
        count <= ledger.open_positions.len(),
    ensures
        ({
            let log = ledger.flushed(count, last_price);
            &&& ledger.trade_log.len() <= log.len() <= ledger.trade_log.len() + count
            &&& forall|i: int| 0 <= i < ledger.trade_log.len() ==> log[i] == #[trigger] ledger.trade_log[i]
            &&& forall|i: int|
                ledger.trade_log.len() <= i < log.len() ==> (#[trigger] log[i]).exit_time is None
            &&& ledger.max_trade_log_size is None ==> log.len() == ledger.trade_log.len() + count
        }),
    decreases count,
{
    if count > 0 {
        law_flush_keeps_closed_records(ledger, (count - 1) as nat, last_price);
    }
}

} // verus!
