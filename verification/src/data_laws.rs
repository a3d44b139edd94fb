//! What market data, numbers in words and worker settings stand for.

use vstd::prelude::*;

use crate::clock::is_representable;
use crate::exact::reads_exactly;
use crate::market_data::{bar_of, every_nth, thinning_step, trade_of, MarketData, SimulationTick};
use crate::number::{cut_off, Number};
use crate::quoting_history::quoted_volume;
use crate::text::{decimal_digits, digit, joined, occurs_at, occurs_in, pieces_of};
use crate::types::{are_unset, Greeks};
use crate::workers::{count_in, digits_value, is_digit, pool_of, tick_of, unsigned_part, workers_for};

verus! {

/// A trade or a swap gives a bar at its price, with its quantity as volume. A
/// candle gives its own figures. An uploaded row gives its columns, with the
/// close, or else the price, where one is missing.
pub proof fn law_bars_show_the_figures_of_their_data<N: Number>(data: MarketData<N>, time: i64)
    ensures
        ({
            let bar = bar_of(data, time);
            &&& bar.timestamp_ms == time
            &&& !(data is Generic) ==> bar.close == data.reference_price() && bar.volume == data.traded_volume()
            &&& data matches MarketData::Trade(trade) ==> bar.open == trade.price && bar.high == trade.price && bar.low
                == trade.price && bar.close == trade.price && bar.volume == trade.quantity
            &&& data matches MarketData::PoolSwap(swap) ==> bar.open == swap.price && bar.high == swap.price && bar.low
                == swap.price && bar.close == swap.price && bar.volume == swap.amount_in
            &&& data matches MarketData::Candle(candle) ==> bar.open == candle.open && bar.high == candle.high && bar.low
                == candle.low && bar.close == candle.close && bar.volume == candle.volume
            &&& data matches MarketData::OptionCandle(candle) ==> bar.open == candle.open && bar.high == candle.high
                && bar.low == candle.low && bar.close == candle.close && bar.volume == candle.volume
            &&& data matches MarketData::Generic(row) ==> {
                &&& row.close matches Some(close) ==> bar.close == close
                &&& row.close is None ==> bar.close == row.price
                &&& row.open matches Some(open) ==> bar.open == open
                &&& row.open is None ==> bar.open == bar.close
                &&& row.high matches Some(high) ==> bar.high == high
                &&& row.high is None ==> bar.high == bar.close
                &&& row.low matches Some(low) ==> bar.low == low
                &&& row.low is None ==> bar.low == bar.close
                &&& row.volume matches Some(volume) ==> bar.volume == volume
                &&& row.volume is None ==> bar.volume == row.quantity
            }
        }),
{
}

/// A compact tick stands for a trade at its price and quantity, worth their
/// product; only side one is a sale. Compacting that trade gives the tick back.
pub proof fn law_ticks_stand_for_trades<N: Number>(
    value: spec_fn(N) -> real,
    tick: SimulationTick<N>,
    symbol: String,
    exchange: String,
)
    requires
        reads_exactly(value),
    ensures
        trade_of(tick, symbol, exchange) matches MarketData::Trade(trade) && {
            &&& trade.price == tick.price
            &&& trade.quantity == tick.quantity
            &&& value(trade.value) == value(tick.price) * value(tick.quantity)
            &&& trade.side is Sell <==> tick.side == 1
            &&& trade.symbol == symbol
            &&& trade.exchange == exchange
            &&& is_representable(tick.timestamp_ms as int) ==> trade.timestamp_ms == tick.timestamp_ms
        },
        tick.side <= 1 && is_representable(tick.timestamp_ms as int) ==> tick_of(trade_of(tick, symbol, exchange)) == tick,
        tick_of(trade_of(tick, symbol, exchange)).price == trade_of(tick, symbol, exchange).reference_price(),
        tick_of(trade_of(tick, symbol, exchange)).quantity == trade_of(tick, symbol, exchange).traded_volume(),
{
}

/// Volume is quoted for trades and candles only, and is what was traded.
pub proof fn law_quoted_volume_is_what_was_traded<N: Number>(data: MarketData<N>)
    ensures
        quoted_volume(data) is Some <==> data is Trade || data is Candle,
        quoted_volume(data) matches Some(volume) ==> volume == data.traded_volume(),
{
}

/// Thinning keeps the first point and then every so many, to the end.
pub proof fn law_thinning_keeps_every_so_many<T>(points: Seq<T>, step: nat, i: int)
    requires
        step >= 1,
        points.len() > 0,
    ensures
        ({
            let kept = every_nth(points, step);
            &&& kept.len() > 0
            &&& kept[0] == points[0]
            &&& (kept.len() - 1) * step < points.len() <= kept.len() * step
            &&& 0 <= i < kept.len() ==> i * step < points.len() && kept[i] == points[i * step]
        }),
        step == 1 ==> every_nth(points, step) == points,
{
    let n = points.len();
    let k = ((n + step - 1) as nat / step) as int;
    let m = (n + step - 1) as int;
    assert(k * step <= m < (k + 1) * step) by (nonlinear_arith)
        requires
            k == m / step as int,
            step >= 1,
    ;
    assert((k + 1) * step == k * step + step && (k - 1) * step == k * step - step) by (nonlinear_arith);
    assert(k > 0) by (nonlinear_arith)
        requires
            m < (k + 1) * step,
            m >= step,
            step >= 1,
    ;
    assert(0 * step == 0) by (nonlinear_arith);
    let kept = every_nth(points, step);
    if 0 <= i < kept.len() {
        assert(i * step <= (k - 1) * step) by (nonlinear_arith)
            requires
                i <= k - 1,
                step >= 1,
        ;
    }
    if step == 1 {
        assert(kept =~= points);
    }
}

/// The step is the longest that still leaves at least the points wanted, and
/// one for a series that has no more than those.
pub proof fn law_thinning_leaves_at_least_the_target(len: nat, target: nat)
    requires
        target > 0,
    ensures
        thinning_step(len, target) >= 1,
        len < target ==> thinning_step(len, target) == 1,
        len >= target ==> thinning_step(len, target) * target <= len < (thinning_step(len, target) + 1) * target,
{
    let q = len / target;
    assert(q * target <= len < (q + 1) * target) by (nonlinear_arith)
        requires
            q == len / target,
            target > 0,
    ;
    if len >= target {
        assert(q >= 1) by (nonlinear_arith)
            requires
                len < (q + 1) * target,
                len >= target,
                target > 0,
        ;
    } else {
        assert(q < 1) by (nonlinear_arith)
            requires
                q * target <= len,
                len < target,
        ;
    }
}

/// Cutting off rounds towards zero: what is left over is smaller than the
/// divisor and has the sign of the number.
pub proof fn law_cutting_off_rounds_towards_zero(num: int, den: int)
    requires
        den > 0,
    ensures
        num >= 0 ==> cut_off(num, den) * den <= num < (cut_off(num, den) + 1) * den,
        num <= 0 ==> (cut_off(num, den) - 1) * den < num <= cut_off(num, den) * den,
        cut_off(-num, den) == -cut_off(num, den),
{
    let size = if num < 0 { -num } else { num };
    let q = size / den;
    assert(q * den <= size < (q + 1) * den) by (nonlinear_arith)
        requires
            q == size / den,
            den > 0,
    ;
    if num < 0 {
        assert((-q) * den == -(q * den) && (-q - 1) * den == -((q + 1) * den)) by (nonlinear_arith);
    }
    if num == 0 {
        assert(q == 0) by (nonlinear_arith)
            requires
                q * den <= 0 < (q + 1) * den,
                den > 0,
        ;
        assert((0 - 1) * den == -den) by (nonlinear_arith);
    }
}

proof fn lemma_digit_code(d: nat)
    requires
        d < 10,
    ensures
        digit(d) as nat - '0' as nat == d,
        is_digit(digit(d)),
{
}

proof fn lemma_written_digits(n: nat)
    ensures
        digits_value(decimal_digits(n)) == n,
        decimal_digits(n).len() > 0,
        forall|i: int| 0 <= i < decimal_digits(n).len() ==> is_digit(#[trigger] decimal_digits(n)[i]),
    decreases n,
{
    let written = decimal_digits(n);
    if n < 10 {
        lemma_digit_code(n);
        assert(written == seq![digit(n)]);
        assert(written.drop_last() =~= Seq::empty());
        assert(digits_value(written.drop_last()) == 0);
        assert(written.last() == digit(n));
        assert(digits_value(written) == 10 * digits_value(written.drop_last()) + (written.last() as nat - '0' as nat) as nat);
    } else {
        lemma_written_digits(n / 10);
        lemma_digit_code(n % 10);
        let before = decimal_digits(n / 10);
        assert(written == before.push(digit(n % 10)));
        assert(written.drop_last() =~= before);
        assert(written.last() == digit(n % 10));
        assert(digits_value(written) == 10 * digits_value(before) + (written.last() as nat - '0' as nat) as nat);
        assert forall|i: int| 0 <= i < written.len() implies is_digit(#[trigger] written[i]) by {
            if i < before.len() {
                assert(written[i] == before[i]);
            }
        }
    }
}

/// Writing a count in decimal and reading it back gives the count, with a plus
/// sign before it or without.
pub proof fn law_counts_are_read_as_they_are_written(n: usize)
    ensures
        count_in(decimal_digits(n as nat)) == Some(n),
        count_in(seq!['+'] + decimal_digits(n as nat)) == Some(n),
        digits_value(decimal_digits(n as nat)) == n,
{
    let written = decimal_digits(n as nat);
    lemma_written_digits(n as nat);
    assert(is_digit(written[0]));
    assert(unsigned_part(written) == written);
    let signed = seq!['+'] + written;
    assert(signed.skip(1) =~= written);
    assert(signed[0] == '+');
    assert(unsigned_part(signed) == written);
}

/// A text with anything but digits in it is no count.
pub proof fn law_words_are_no_counts(text: Seq<char>, i: int)
    requires
        0 <= i < text.len(),
        !('0' <= text[i] && text[i] <= '9'),
        i > 0 || text[0] != '+',
    ensures
        count_in(text) is None,
        count_in(Seq::empty()) is None,
{
    let digits = unsigned_part(text);
    if digits != text {
        assert(digits[i - 1] == text[i]);
        assert(!is_digit(digits[i - 1]));
    } else {
        assert(!is_digit(digits[i]));
    }
    assert(unsigned_part(Seq::empty()).len() == 0);
}

/// Workers: as many as asked for, else one for each processor up to four; one
/// at the least. There is a pool only for more than one.
pub proof fn law_workers_follow_the_setting_or_the_processors(asked: usize, cpus: usize)
    ensures
        asked >= 1 ==> workers_for(Some(decimal_digits(asked as nat)), cpus) == asked,
        workers_for(Some(decimal_digits(0)), cpus) == 1,
        cpus >= 4 ==> workers_for(None, cpus) == 4,
        1 <= cpus < 4 ==> workers_for(None, cpus) == cpus,
        cpus == 0 ==> workers_for(None, cpus) == 1,
        pool_of(asked) is None <==> asked <= 1,
        pool_of(asked) matches Some(size) ==> size == asked,
{
    law_counts_are_read_as_they_are_written(asked);
    law_counts_are_read_as_they_are_written(0);
}

/// The pieces of a text, joined by the separator, are the text again; none of
/// them holds the separator.
pub proof fn law_pieces_join_to_the_text(text: Seq<char>, separator: char)
    ensures
        pieces_of(text, separator).len() > 0,
        joined(pieces_of(text, separator), seq![separator]) == text,
        forall|k: int| 0 <= k < pieces_of(text, separator).len() ==> !(#[trigger] pieces_of(text, separator)[k]).contains(separator),
    decreases text.len(),
{
    let pieces = pieces_of(text, separator);
    if text.len() == 0 {
        assert(pieces[0] =~= text);
    } else {
        let shorter = text.drop_last();
        law_pieces_join_to_the_text(shorter, separator);
        let before = pieces_of(shorter, separator);
        assert(shorter.push(text.last()) =~= text);
        if text.last() == separator {
            assert(pieces.drop_last() =~= before);
            assert(joined(pieces, seq![separator]) =~= joined(before, seq![separator]) + seq![separator] + Seq::empty());
            assert(joined(pieces, seq![separator]) =~= text);
            assert(!Seq::<char>::empty().contains(separator));
        } else {
            let last = before.last().push(text.last());
            assert(pieces == before.drop_last().push(last));
            assert(pieces.drop_last() =~= before.drop_last());
            assert(!last.contains(separator)) by {
                assert(before[before.len() - 1] == before.last());
                if last.contains(separator) {
                    let j = choose|j: int| 0 <= j < last.len() && last[j] == separator;
                    assert(j < before.last().len());
                    assert(before.last()[j] == separator);
                    assert(before.last().contains(separator));
                }
            }
            if before.len() == 1 {
                assert(joined(before, seq![separator]) == before[0]);
                assert(pieces.len() == 1 && pieces[0] == last);
                assert(last =~= text);
            } else {
                let front = joined(before.drop_last(), seq![separator]);
                assert(joined(before, seq![separator]) == front + seq![separator] + before.last());
                assert(joined(pieces, seq![separator]) == front + seq![separator] + last);
                assert(front + seq![separator] + last =~= (front + seq![separator] + before.last()).push(text.last()));
            }
        }
    }
}

/// A piece occurs in what it was put into, and not in what is shorter.
pub proof fn law_pieces_occur_where_they_were_put(front: Seq<char>, piece: Seq<char>, back: Seq<char>)
    ensures
        occurs_in(piece, front + piece + back),
        back.len() < piece.len() ==> !occurs_in(piece, back),
{
    let text = front + piece + back;
    assert(text.subrange(front.len() as int, front.len() as int + piece.len()) =~= piece);
    assert(occurs_at(piece, text, front.len() as int));
}

/// Sensitivities are unset where every one of them is zero.
pub proof fn law_unset_sensitivities_are_all_zero<N: Number>(value: spec_fn(N) -> real, greeks: Greeks<N>)
    requires
        reads_exactly(value),
    ensures
        are_unset(greeks) <==> value(greeks.delta) == 0real && value(greeks.gamma) == 0real && value(greeks.theta) == 0real
            && value(greeks.vega) == 0real && value(greeks.rho) == 0real,
{
    assert(value(N::whole(0)) == 0real);
}

} // verus!
