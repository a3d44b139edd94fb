//! Cross-sectional check: whether a strategy's edge shows on related assets.

use vstd::prelude::*;
use vstd::string::StrSliceExecFns;

use crate::double::{nearest_to, quotient, rounded, nearest, Double};
use crate::number::Number;
use crate::text::{
    append_text, decimal, decimal_digits, join, joined, letters, pieces_of, same_text, split_text, texts, uppercase,
    uppercase_of,
};

verus! {

/// The kinds of assets that have a basket of their own.
#[derive(Debug, Clone, Copy, PartialEq, Eq, Structural)]
pub enum AssetClass {
    Crypto,
    Forex,
    Equity,
}

/// The setting switches the check on.
pub open spec fn is_switched_on(value: Seq<char>) -> bool {
    ||| value == "1"@
    ||| value.len() == 4 && (value[0] == 't' || value[0] == 'T') && (value[1] == 'r' || value[1] == 'R') && (value[2]
        == 'u' || value[2] == 'U') && (value[3] == 'e' || value[3] == 'E')
}

/// Whether the check is switched on by a setting: it is where the setting is
/// there and is `1` or, in any case of letters, `true`.
pub fn cross_sectional_check_enabled(setting: Option<&str>) -> (enabled: bool)
    ensures
        enabled == match setting {
            Some(value) => is_switched_on(value@),
            None => false,
        },
{
    match setting {
        None => false,
        Some(value) => {
            let chars: Vec<char> = letters(value);
            same_text(value, "1") || (chars.len() == 4 && (chars[0] == 't' || chars[0] == 'T') && (chars[1] == 'r'
                || chars[1] == 'R') && (chars[2] == 'u' || chars[2] == 'U') && (chars[3] == 'e' || chars[3] == 'E'))
        },
    }
}

/// The text with dashes in place of slashes.
pub open spec fn dashed(text: Seq<char>) -> Seq<char> {
    text.map_values(|c: char| if c == '/' { '-' } else { c })
}

/// The text with dashes in place of slashes.
pub fn with_dashes(text: &str) -> (result: String)
    ensures
        result@ == dashed(text@),
{
    let chars: Vec<char> = letters(text);
    let mut result: String = String::new();
    let mut i: usize = 0;
    proof {
        reveal_strlit("-");
    }
    while i < chars.len()
        invariant
            chars@ == text@,
            "-"@ == seq!['-'],
            i <= chars@.len(),
            result@ =~= dashed(text@.take(i as int)),
        decreases chars@.len() - i,
    {
        if chars[i] == '/' {
            append_text(&mut result, "-");
        } else {
            append_text(&mut result, text.substring_char(i, i + 1));
        }
        assert(text@.take(i as int + 1) =~= text@.take(i as int).push(text@[i as int]));
        i = i + 1;
    }
    assert(text@.take(i as int) =~= text@);
    result
}

/// The text is the code of a currency.
pub open spec fn is_currency(code: Seq<char>) -> bool {
    code == "EUR"@ || code == "GBP"@ || code == "USD"@ || code == "JPY"@ || code == "AUD"@ || code == "CAD"@ || code
        == "CHF"@ || code == "NZD"@
}

/// The text is the ticker of a coin.
pub open spec fn is_coin(ticker: Seq<char>) -> bool {
    ticker == "BTC"@ || ticker == "XBT"@ || ticker == "ETH"@ || ticker == "SOL"@ || ticker == "ADA"@ || ticker
        == "DOGE"@ || ticker == "XRP"@ || ticker == "AVAX"@ || ticker == "MATIC"@ || ticker == "DOT"@ || ticker
        == "LINK"@ || ticker == "LTC"@ || ticker == "BCH"@
}

fn currency_code(code: &str) -> (is: bool)
    ensures
        is == is_currency(code@),
{
    same_text(code, "EUR") || same_text(code, "GBP") || same_text(code, "USD") || same_text(code, "JPY") || same_text(
        code,
        "AUD",
    ) || same_text(code, "CAD") || same_text(code, "CHF") || same_text(code, "NZD")
}

fn coin_ticker(ticker: &str) -> (is: bool)
    ensures
        is == is_coin(ticker@),
{
    same_text(ticker, "BTC") || same_text(ticker, "XBT") || same_text(ticker, "ETH") || same_text(ticker, "SOL")
        || same_text(ticker, "ADA") || same_text(ticker, "DOGE") || same_text(ticker, "XRP") || same_text(
        ticker,
        "AVAX",
    ) || same_text(ticker, "MATIC") || same_text(ticker, "DOT") || same_text(ticker, "LINK") || same_text(
        ticker,
        "LTC",
    ) || same_text(ticker, "BCH")
}

/// The kind of an asset by its symbol, in upper case and with dashes: a pair
/// of currencies, something priced in a coin's ticker, or else an equity.
pub open spec fn class_of(symbol: Seq<char>) -> AssetClass {
    let parts = pieces_of(symbol, '-');
    if parts.len() == 2 && is_currency(parts[0]) && is_currency(parts[1]) {
        AssetClass::Forex
    } else if is_coin(parts[0]) {
        AssetClass::Crypto
    } else {
        AssetClass::Equity
    }
}

/// The kind of an asset by its symbol, in upper case and with dashes.
pub fn asset_class(symbol: &str) -> (class: AssetClass)
    ensures
        class == class_of(symbol@),
{
    let parts: Vec<String> = split_text(symbol, '-');
    assert forall|i: int| 0 <= i < parts@.len() implies #[trigger] parts@[i]@ == pieces_of(symbol@, '-')[i] by {
        assert(texts(parts@)[i] == parts@[i]@);
    }
    assert(pieces_of(symbol@, '-').len() == parts@.len());
    if parts.len() == 2 && currency_code(parts[0].as_str()) && currency_code(parts[1].as_str()) {
        AssetClass::Forex
    } else if coin_ticker(parts[0].as_str()) {
        AssetClass::Crypto
    } else {
        AssetClass::Equity
    }
}

/// The symbols of the basket for a kind of asset.
pub open spec fn basket_of(class: AssetClass) -> Seq<Seq<char>> {
    match class {
        AssetClass::Crypto => seq!["BTC-USD"@, "ETH-USD"@, "SOL-USD"@],
        AssetClass::Forex => seq!["EUR-USD"@, "GBP-USD"@, "USD-JPY"@],
        AssetClass::Equity => seq!["AAPL"@, "MSFT"@, "GOOGL"@],
    }
}

/// The basket for a kind of asset.
pub fn class_basket(class: AssetClass) -> (basket: [&'static str; 3])
    ensures
        forall|i: int| 0 <= i < 3 ==> #[trigger] basket@[i]@ == basket_of(class)[i],
{
    match class {
        AssetClass::Crypto => ["BTC-USD", "ETH-USD", "SOL-USD"],
        AssetClass::Forex => ["EUR-USD", "GBP-USD", "USD-JPY"],
        AssetClass::Equity => ["AAPL", "MSFT", "GOOGL"],
    }
}

/// The symbol in upper case and with dashes.
pub fn normalized_symbol(symbol: &str) -> (normalized: String)
    ensures
        normalized@ == dashed(uppercase_of(symbol@)),
{
    with_dashes(uppercase(symbol).as_str())
}

/// The basket of assets to which one with this symbol is held.
pub fn cross_sectional_basket_for(symbol: &str) -> (basket: [&'static str; 3])
    ensures
        forall|i: int|
            0 <= i < 3 ==> #[trigger] basket@[i]@ == basket_of(class_of(dashed(uppercase_of(symbol@))))[i],
{
    class_basket(asset_class(normalized_symbol(symbol).as_str()))
}

/// The symbols of a basket without the asset's own.
pub open spec fn others(basket: Seq<Seq<char>>, symbol: Seq<char>) -> Seq<Seq<char>> {
    basket.filter(|other: Seq<char>| other != symbol)
}

/// The symbols of the basket without the asset's own, which is in upper case
/// and with dashes.
pub fn basket_candidates(symbol: &str) -> (candidates: Vec<String>)
    ensures
        texts(candidates@) == others(basket_of(class_of(symbol@)), symbol@),
        candidates@.len() <= 3,
{
    let basket = class_basket(asset_class(symbol));
    let mut candidates: Vec<String> = Vec::new();
    let ghost all = basket_of(class_of(symbol@));
    let mut i: usize = 0;
    proof {
        reveal(Seq::filter);
        assert(all.take(0) =~= Seq::empty());
        assert(texts(candidates@) =~= Seq::empty());
    }
    while i < 3
        invariant
            all == basket_of(class_of(symbol@)),
            all.len() == 3,
            forall|k: int| 0 <= k < 3 ==> #[trigger] basket@[k]@ == all[k],
            i <= 3,
            candidates@.len() <= i,
            texts(candidates@) == others(all.take(i as int), symbol@),
        decreases 3 - i,
    {
        let ghost before = texts(candidates@);
        proof {
            reveal(Seq::filter);
            assert(all.take(i as int + 1).drop_last() =~= all.take(i as int));
        }
        let other: &'static str = basket[i];
        if !same_text(other, symbol) {
            candidates.push(other.to_owned());
            assert(texts(candidates@) =~= before.push(other@));
        }
        i = i + 1;
    }
    assert(all.take(3) =~= all);
    candidates
}

/// What came of trying the strategy on another asset.
#[derive(Debug, Clone, Copy, PartialEq)]
pub enum AssetOutcome<N> {
    /// There is nothing to try it on.
    NoData,
    /// The data could not be had, or the run failed.
    Failed,
    Ran { num_trades: usize, total_pnl: N },
}

/// The strategy could be tried on the asset.
pub open spec fn was_tried<N>(outcome: AssetOutcome<N>) -> bool {
    outcome is Ran
}

/// The strategy trades on the asset and gains.
pub open spec fn shows_edge<N: Number>(outcome: AssetOutcome<N>) -> bool {
    outcome matches AssetOutcome::Ran { num_trades, total_pnl } && num_trades > 0 && N::whole(0).below(total_pnl)
}

/// How a strategy fares on related assets.
#[derive(Debug, Clone, Copy, PartialEq, Eq, Structural)]
pub struct CrossSectionTally {
    pub attempted: usize,
    pub consistent: usize,
    pub fetch_failures: usize,
}

/// Counts how a strategy fares on related assets.
pub fn tally_outcomes<N: Number>(outcomes: &[AssetOutcome<N>]) -> (tally: CrossSectionTally)
    ensures
        tally.attempted == outcomes@.filter(|o: AssetOutcome<N>| was_tried(o)).len(),
        tally.consistent == outcomes@.filter(|o: AssetOutcome<N>| shows_edge(o)).len(),
        tally.fetch_failures == outcomes@.filter(|o: AssetOutcome<N>| o is Failed).len(),
        tally.consistent <= tally.attempted <= outcomes@.len(),
{
    let mut tally = CrossSectionTally { attempted: 0, consistent: 0, fetch_failures: 0 };
    let mut i: usize = 0;
    proof {
        reveal(Seq::filter);
        assert(outcomes@.take(0) =~= Seq::empty());
    }
    while i < outcomes.len()
        invariant
            i <= outcomes@.len(),
            tally.consistent <= tally.attempted <= i,
            tally.fetch_failures <= i,
            tally.attempted == outcomes@.take(i as int).filter(|o: AssetOutcome<N>| was_tried(o)).len(),
            tally.consistent == outcomes@.take(i as int).filter(|o: AssetOutcome<N>| shows_edge(o)).len(),
            tally.fetch_failures == outcomes@.take(i as int).filter(|o: AssetOutcome<N>| o is Failed).len(),
        decreases outcomes@.len() - i,
    {
        proof {
            reveal(Seq::filter);
            assert(outcomes@.take(i as int + 1).drop_last() =~= outcomes@.take(i as int));
        }
        match outcomes[i] {
            AssetOutcome::NoData => {},
            AssetOutcome::Failed => {
                tally.fetch_failures = tally.fetch_failures + 1;
            },
            AssetOutcome::Ran { num_trades, total_pnl } => {
                tally.attempted = tally.attempted + 1;
                if num_trades > 0 && N::of(0).lt(total_pnl) {
                    tally.consistent = tally.consistent + 1;
                }
            },
        }
        i = i + 1;
    }
    assert(outcomes@.take(i as int) =~= outcomes@);
    tally
}

/// What the tally says of the edge, in words. The edge is broadly consistent
/// where at least three in five of the assets show it, and narrow where none
/// does.
pub open spec fn cross_section_text(
    tally: CrossSectionTally,
    candidates: Seq<Seq<char>>,
    symbol: Seq<char>,
) -> Seq<char> {
    let attempted = decimal_digits(tally.attempted as nat);
    let names = joined(candidates, ", "@);
    if 5 * tally.consistent >= 3 * tally.attempted {
        "Edge appears broadly consistent: "@ + decimal_digits(tally.consistent as nat) + "/"@ + attempted
            + " related assets ("@ + names
            + ") also showed a profitable edge with this strategy — less likely to be overfit to "@ + symbol
            + " specifically."@
    } else if tally.consistent == 0 {
        "Edge appears narrow: 0/"@ + attempted + " related assets ("@ + names
            + ") showed a profitable edge with this same strategy. Consistent with either overfitting to "@ + symbol
            + " specifically, or a real but asset-specific structural effect (a single-exchange quirk, roll/expiry pattern, etc.) — worth distinguishing before trusting this result."@
            + failures_text(tally.fetch_failures)
    } else {
        "Mixed cross-sectional result: "@ + decimal_digits(tally.consistent as nat) + "/"@ + attempted
            + " related assets ("@ + names
            + ") showed a profitable edge with this same strategy — partial consistency, not universal. Worth checking whether the assets that failed are thin/illiquid (a capacity/liquidity issue) rather than a purely statistical one."@
    }
}

/// How many assets could not be had, in words; nothing where all could.
pub open spec fn failures_text(fetch_failures: usize) -> Seq<char> {
    if fetch_failures > 0 {
        " ("@ + decimal_digits(fetch_failures as nat) + " basket asset(s) could not be fetched for comparison.)"@
    } else {
        Seq::empty()
    }
}

fn failures_note(fetch_failures: usize) -> (text: String)
    ensures
        text@ == failures_text(fetch_failures),
{
    if fetch_failures > 0 {
        let mut text: String = " (".to_owned();
        append_text(&mut text, decimal(fetch_failures).as_str());
        append_text(&mut text, " basket asset(s) could not be fetched for comparison.)");
        text
    } else {
        String::new()
    }
}

/// What the related assets say of the edge, in words; nothing where the
/// strategy could be tried on none. There are at most three of them.
pub fn cross_section_message<N: Number>(
    outcomes: &[AssetOutcome<N>],
    candidates: &Vec<String>,
    symbol: &str,
) -> (message: Option<String>)
    requires
        outcomes@.len() <= 3,
    ensures
        ({
            let tally = CrossSectionTally {
                attempted: outcomes@.filter(|o: AssetOutcome<N>| was_tried(o)).len() as usize,
                consistent: outcomes@.filter(|o: AssetOutcome<N>| shows_edge(o)).len() as usize,
                fetch_failures: outcomes@.filter(|o: AssetOutcome<N>| o is Failed).len() as usize,
            };
            if tally.attempted == 0 {
                message is None
            } else {
                message matches Some(text) && text@ == cross_section_text(tally, texts(candidates@), symbol@)
            }
        }),
{
    let tally: CrossSectionTally = tally_outcomes(outcomes);
    if tally.attempted == 0 {
        return None;
    }
    let names: String = join(candidates, ", ");
    if 5 * tally.consistent >= 3 * tally.attempted {
        let mut text: String = "Edge appears broadly consistent: ".to_owned();
        append_text(&mut text, decimal(tally.consistent).as_str());
        append_text(&mut text, "/");
        append_text(&mut text, decimal(tally.attempted).as_str());
        append_text(&mut text, " related assets (");
        append_text(&mut text, names.as_str());
        append_text(
            &mut text,
            ") also showed a profitable edge with this strategy — less likely to be overfit to ",
        );
        append_text(&mut text, symbol);
        append_text(&mut text, " specifically.");
        Some(text)
    } else if tally.consistent == 0 {
        let mut text: String = "Edge appears narrow: 0/".to_owned();
        append_text(&mut text, decimal(tally.attempted).as_str());
        append_text(&mut text, " related assets (");
        append_text(&mut text, names.as_str());
        append_text(
            &mut text,
            ") showed a profitable edge with this same strategy. Consistent with either overfitting to ",
        );
        append_text(&mut text, symbol);
        append_text(
            &mut text,
            " specifically, or a real but asset-specific structural effect (a single-exchange quirk, roll/expiry pattern, etc.) — worth distinguishing before trusting this result.",
        );
        append_text(&mut text, failures_note(tally.fetch_failures).as_str());
        Some(text)
    } else {
        let mut text: String = "Mixed cross-sectional result: ".to_owned();
        append_text(&mut text, decimal(tally.consistent).as_str());
        append_text(&mut text, "/");
        append_text(&mut text, decimal(tally.attempted).as_str());
        append_text(&mut text, " related assets (");
        append_text(&mut text, names.as_str());
        append_text(
            &mut text,
            ") showed a profitable edge with this same strategy — partial consistency, not universal. Worth checking whether the assets that failed are thin/illiquid (a capacity/liquidity issue) rather than a purely statistical one.",
        );
        Some(text)
    }
}

/// Minutes from one bar to the next on average, in double precision, rounded
/// and at least one.
pub open spec fn bar_minutes_of(seconds: nat, steps: nat) -> nat {
    let minutes = quotient(quotient(nearest(seconds, 1), nearest(60, 1)), nearest(steps, 1));
    if rounded(minutes) >= 1 {
        rounded(minutes)
    } else {
        1
    }
}

/// Minutes from one bar to the next on average, given the whole seconds from
/// the first to the last; an hour where there are no two bars.
pub fn average_bar_minutes(span_seconds: i64, bars: usize) -> (minutes: usize)
    ensures
        minutes == if bars <= 1 {
            60
        } else if span_seconds <= 0 {
            1
        } else if bar_minutes_of(span_seconds as nat, (bars - 1) as nat) <= usize::MAX {
            bar_minutes_of(span_seconds as nat, (bars - 1) as nat)
        } else {
            usize::MAX as nat
        },
{
    if bars <= 1 {
        60
    } else if span_seconds <= 0 {
        1
    } else {
        let span: Double = nearest_to(span_seconds as u128, 1).over(&nearest_to(60, 1));
        let minutes: usize = span.over(&nearest_to((bars - 1) as u128, 1)).nearest_whole();
        if minutes >= 1 {
            minutes
        } else {
            1
        }
    }
}

/// The check says nothing of the edge where the strategy could be tried on no
/// other asset, whatever failed.
pub proof fn law_untried_assets_say_nothing<N: Number>(outcomes: Seq<AssetOutcome<N>>)
    requires
        forall|i: int| 0 <= i < outcomes.len() ==> !was_tried(#[trigger] outcomes[i]),
    ensures
        outcomes.filter(|o: AssetOutcome<N>| was_tried(o)).len() == 0,
    decreases outcomes.len(),
{
    reveal(Seq::filter);
    if outcomes.len() > 0 {
        assert forall|i: int| 0 <= i < outcomes.drop_last().len() implies !was_tried(#[trigger] outcomes.drop_last()[i]) by {
            assert(outcomes.drop_last()[i] == outcomes[i]);
        }
        law_untried_assets_say_nothing(outcomes.drop_last());
    }
}

} // verus!
