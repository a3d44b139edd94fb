//! Worker processes of a parameter search: how many there are, and the data
//! that they are handed.

use vstd::prelude::*;

use crate::market_data::{MarketData, Side, SimulationTick};
use crate::number::Number;
use crate::text::letters;

verus! {

/// The character is a decimal digit.
pub open spec fn is_digit(c: char) -> bool {
    '0' <= c && c <= '9'
}

/// The number that a run of decimal digits stands for.
pub open spec fn digits_value(digits: Seq<char>) -> nat
    decreases digits.len(),
{
    if digits.len() == 0 {
        0
    } else {
        10 * digits_value(digits.drop_last()) + (digits.last() as nat - '0' as nat) as nat
    }
}

/// The digits of a number that may have a plus sign before it.
pub open spec fn unsigned_part(text: Seq<char>) -> Seq<char> {
    if text.len() > 1 && text[0] == '+' {
        text.skip(1)
    } else {
        text
    }
}

/// The count that a text stands for; nothing where it is not a decimal number
/// or does not fit.
pub open spec fn count_in(text: Seq<char>) -> Option<usize> {
    let digits = unsigned_part(text);
    if digits.len() > 0 && (forall|i: int| 0 <= i < digits.len() ==> is_digit(#[trigger] digits[i])) && digits_value(
        digits,
    ) <= usize::MAX {
        Some(digits_value(digits) as usize)
    } else {
        None
    }
}

proof fn lemma_more_digits(digits: Seq<char>, n: int)
    requires
        0 <= n <= digits.len(),
    ensures
        digits_value(digits.take(n)) <= digits_value(digits),
    decreases digits.len() - n,
{
    if n < digits.len() {
        lemma_more_digits(digits, n + 1);
        assert(digits.take(n + 1).drop_last() =~= digits.take(n));
    } else {
        assert(digits.take(n) =~= digits);
    }
}

/// The count that a text stands for.
pub fn parse_count(text: &str) -> (count: Option<usize>)
    ensures
        count == count_in(text@),
{
    let chars: Vec<char> = letters(text);
    let start: usize = if chars.len() > 1 && chars[0] == '+' { 1 } else { 0 };
    let ghost digits = unsigned_part(text@);
    assert(digits =~= chars@.skip(start as int));
    if chars.len() == start {
        return None;
    }
    let mut value: usize = 0;
    let mut i: usize = start;
    assert(digits.take(0) =~= Seq::empty());
    while i < chars.len()
        invariant
            start <= i <= chars@.len(),
            digits == chars@.skip(start as int),
            digits == unsigned_part(text@),
            value == digits_value(digits.take(i - start)),
            forall|k: int| 0 <= k < i - start ==> is_digit(#[trigger] digits[k]),
        decreases chars@.len() - i,
    {
        let c: char = chars[i];
        assert(c == digits[i - start]);
        if c < '0' || c > '9' {
            return None;
        }
        let digit: usize = c as u32 as usize - '0' as u32 as usize;
        proof {
            assert(digits.take(i - start + 1).drop_last() =~= digits.take(i - start));
            assert(digits_value(digits.take(i - start + 1)) == 10 * value + digit);
            lemma_more_digits(digits, i - start + 1);
        }
        match value.checked_mul(10) {
            None => {
                return None;
            },
            Some(tenfold) => match tenfold.checked_add(digit) {
                None => {
                    return None;
                },
                Some(next) => {
                    value = next;
                },
            },
        }
        i = i + 1;
    }
    assert(digits.take(i - start) =~= digits);
    Some(value)
}

/// Calls `num_cpus::get`: the number of processors that this process may use,
/// which is at least one. How many there are depends on the machine.
#[verifier::external_body]
fn available_cpus() -> (cpus: usize)
    ensures
        cpus >= 1,
{
    num_cpus::get()
}

/// The characters of a setting, where there is one.
pub open spec fn setting_text(setting: Option<&str>) -> Option<Seq<char>> {
    match setting {
        Some(text) => Some(text@),
        None => None,
    }
}

/// Number of workers for a setting and a number of processors: what the
/// setting says, or one for each processor up to four, and at least one.
pub open spec fn workers_for(setting: Option<Seq<char>>, cpus: usize) -> usize {
    let asked = match setting {
        Some(text) => count_in(text),
        None => None,
    };
    let wanted = match asked {
        Some(count) => count,
        None => if cpus < 4 {
            cpus
        } else {
            4
        },
    };
    if wanted >= 1 {
        wanted
    } else {
        1
    }
}

/// Number of workers for a setting and a number of processors.
pub fn choose_workers(setting: Option<&str>, cpus: usize) -> (workers: usize)
    ensures
        workers == workers_for(setting_text(setting), cpus),
{
    let asked: Option<usize> = match setting {
        Some(text) => parse_count(text),
        None => None,
    };
    let wanted: usize = match asked {
        Some(count) => count,
        None => if cpus < 4 {
            cpus
        } else {
            4
        },
    };
    if wanted >= 1 {
        wanted
    } else {
        1
    }
}

/// Number of worker processes to start; none where one would do. Without a
/// readable setting it goes by the processors of this machine.
pub fn worker_pool_size(setting: Option<&str>) -> (size: Option<usize>)
    ensures
        exists|cpus: usize|
            cpus >= 1 && size == pool_of(#[trigger] workers_for(setting_text(setting), cpus)),
{
    let workers: usize = choose_workers(setting, available_cpus());
    if workers <= 1 {
        None
    } else {
        Some(workers)
    }
}

/// The pool for so many workers: none for a single one.
pub open spec fn pool_of(workers: usize) -> Option<usize> {
    if workers <= 1 {
        None
    } else {
        Some(workers)
    }
}

/// The first trade of some data.
pub open spec fn first_trade<N>(data: Seq<MarketData<N>>, k: int) -> bool {
    &&& 0 <= k < data.len()
    &&& data[k] is Trade
    &&& forall|i: int| 0 <= i < k ==> !(#[trigger] data[i] is Trade)
}

/// Symbol and exchange of the first trade, or unknown where there is none.
pub fn data_identity<N: Number>(data: &[MarketData<N>]) -> (identity: (String, String))
    ensures
        forall|k: int|
            #[trigger] first_trade(data@, k) ==> (data@[k] matches MarketData::Trade(t) && identity.0@ == t.symbol@
                && identity.1@ == t.exchange@),
        (forall|k: int| !#[trigger] first_trade(data@, k)) ==> identity.0@ == "UNKNOWN"@ && identity.1@ == "UNKNOWN"@,
{
    let mut i: usize = 0;
    while i < data.len()
        invariant
            i <= data@.len(),
            forall|k: int| 0 <= k < i ==> !(#[trigger] data@[k] is Trade),
        decreases data@.len() - i,
    {
        if let MarketData::Trade(t) = &data[i] {
            assert(first_trade(data@, i as int));
            return (t.symbol.clone(), t.exchange.clone());
        }
        i = i + 1;
    }
    ("UNKNOWN".to_owned(), "UNKNOWN".to_owned())
}

/// The compact tick of a data point. Only a trade can be a sale; a row
/// without a volume has none.
pub open spec fn tick_of<N: Number>(point: MarketData<N>) -> SimulationTick<N> {
    match point {
        MarketData::Trade(t) => SimulationTick {
            timestamp_ms: t.timestamp_ms,
            price: t.price,
            quantity: t.quantity,
            side: if t.side == Side::Sell {
                1
            } else {
                0
            },
        },
        MarketData::Candle(c) => SimulationTick {
            timestamp_ms: c.timestamp_ms,
            price: c.close,
            quantity: c.volume,
            side: 0,
        },
        MarketData::PoolSwap(s) => SimulationTick {
            timestamp_ms: s.timestamp_ms,
            price: s.price,
            quantity: s.amount_in,
            side: 0,
        },
        MarketData::Generic(g) => SimulationTick {
            timestamp_ms: g.timestamp_ms,
            price: g.price,
            quantity: match g.volume {
                Some(volume) => volume,
                None => N::whole(0),
            },
            side: 0,
        },
        MarketData::OptionCandle(c) => SimulationTick {
            timestamp_ms: c.timestamp_ms,
            price: c.close,
            quantity: c.volume,
            side: 0,
        },
    }
}

fn compact_tick<N: Number>(point: &MarketData<N>) -> (tick: SimulationTick<N>)
    ensures
        tick == tick_of(*point),
{
    match point {
        MarketData::Trade(t) => SimulationTick {
            timestamp_ms: t.timestamp_ms,
            price: t.price,
            quantity: t.quantity,
            side: if t.side == Side::Sell {
                1
            } else {
                0
            },
        },
        MarketData::Candle(c) => SimulationTick {
            timestamp_ms: c.timestamp_ms,
            price: c.close,
            quantity: c.volume,
            side: 0,
        },
        MarketData::PoolSwap(s) => SimulationTick {
            timestamp_ms: s.timestamp_ms,
            price: s.price,
            quantity: s.amount_in,
            side: 0,
        },
        MarketData::Generic(g) => {
            let quantity: N = match g.volume {
                Some(volume) => volume,
                None => N::of(0),
            };
            SimulationTick { timestamp_ms: g.timestamp_ms, price: g.price, quantity, side: 0 }
        },
        MarketData::OptionCandle(c) => SimulationTick {
            timestamp_ms: c.timestamp_ms,
            price: c.close,
            quantity: c.volume,
            side: 0,
        },
    }
}

/// The data as compact ticks.
pub fn compact_ticks<N: Number>(data: &[MarketData<N>]) -> (ticks: Vec<SimulationTick<N>>)
    ensures
        ticks@ == data@.map_values(|point: MarketData<N>| tick_of(point)),
{
    let mut ticks: Vec<SimulationTick<N>> = Vec::new();
    let mut i: usize = 0;
    while i < data.len()
        invariant
            i <= data@.len(),
            ticks@.len() == i,
            forall|k: int| 0 <= k < i ==> #[trigger] ticks@[k] == tick_of(data@[k]),
        decreases data@.len() - i,
    {
        ticks.push(compact_tick(&data[i]));
        i = i + 1;
    }
    assert(ticks@ =~= data@.map_values(|point: MarketData<N>| tick_of(point)));
    ticks
}

/// A trade goes through the compact form and back unchanged, but for its
/// identifier and its value, where its time is within range.
pub proof fn law_trades_survive_compaction<N: Number>(point: MarketData<N>, symbol: String, exchange: String)
    requires
        point is Trade,
        crate::clock::is_representable(point->Trade_0.timestamp_ms as int),
    ensures
        crate::market_data::trade_of(tick_of(point), symbol, exchange) == MarketData::Trade(
            (crate::market_data::TradeData {
                symbol,
                exchange,
                trade_id: 0,
                value: point->Trade_0.price.product(point->Trade_0.quantity),
                ..point->Trade_0
            }),
        ),
{
}

} // verus!
