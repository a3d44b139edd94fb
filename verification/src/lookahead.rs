//! Look-ahead test: whether a strategy trades differently on the same bars
//! when it can see what comes after them.

use vstd::prelude::*;

use crate::double::{below, nearest, nearest_to, part_of, quotient, six_tenths_of, Double};
use crate::text::{append_text, contains_any, decimal, decimal_digits, occurs_in};

verus! {

/// Fewest bars for the test.
pub const LOOKAHEAD_MIN_BARS: usize = 200;

/// The source mentions the text.
pub open spec fn mentions(source: Seq<char>, marker: Seq<char>) -> bool {
    occurs_in(marker, source)
}

/// The source mentions something that draws random numbers.
pub open spec fn mentions_chance(source: Seq<char>) -> bool {
    ||| mentions(source, "random"@)
    ||| mentions(source, "default_rng"@)
    ||| mentions(source, "RandomState"@)
    ||| mentions(source, "np.random"@)
    ||| mentions(source, "numpy.random"@)
    ||| mentions(source, "shuffle"@)
    ||| mentions(source, "permutation"@)
    ||| mentions(source, "KMeans"@)
    ||| mentions(source, "GaussianMixture"@)
    ||| mentions(source, ".sample("@)
    ||| mentions(source, "choice("@)
    ||| mentions(source, "rand("@)
    ||| mentions(source, "randn("@)
    ||| mentions(source, "randint("@)
}

/// Whether two runs of a strategy on the same bars may differ, going by what
/// its source mentions.
pub fn source_may_be_stochastic(source: &str) -> (may: bool)
    ensures
        may == mentions_chance(source@),
{
    let markers = [
        "random",
        "default_rng",
        "RandomState",
        "np.random",
        "numpy.random",
        "shuffle",
        "permutation",
        "KMeans",
        "GaussianMixture",
        ".sample(",
        "choice(",
        "rand(",
        "randn(",
        "randint(",
    ];
    let found: bool = contains_any(source, &markers);
    proof {
        assert(occurs_in(markers@[0]@, source@) == mentions(source@, "random"@));
        assert(occurs_in(markers@[1]@, source@) == mentions(source@, "default_rng"@));
        assert(occurs_in(markers@[2]@, source@) == mentions(source@, "RandomState"@));
        assert(occurs_in(markers@[3]@, source@) == mentions(source@, "np.random"@));
        assert(occurs_in(markers@[4]@, source@) == mentions(source@, "numpy.random"@));
        assert(occurs_in(markers@[5]@, source@) == mentions(source@, "shuffle"@));
        assert(occurs_in(markers@[6]@, source@) == mentions(source@, "permutation"@));
        assert(occurs_in(markers@[7]@, source@) == mentions(source@, "KMeans"@));
        assert(occurs_in(markers@[8]@, source@) == mentions(source@, "GaussianMixture"@));
        assert(occurs_in(markers@[9]@, source@) == mentions(source@, ".sample("@));
        assert(occurs_in(markers@[10]@, source@) == mentions(source@, "choice("@));
        assert(occurs_in(markers@[11]@, source@) == mentions(source@, "rand("@));
        assert(occurs_in(markers@[12]@, source@) == mentions(source@, "randn("@));
        assert(occurs_in(markers@[13]@, source@) == mentions(source@, "randint("@));
    }
    found
}

/// Trades that begin no later than a point in time.
pub open spec fn entries_up_to(entry_times: Seq<i64>, cutoff: i64) -> nat {
    entry_times.filter(|time: i64| time <= cutoff).len()
}

/// Trades that begin no later than a point in time.
pub fn count_entries_up_to(entry_times: &[i64], cutoff: i64) -> (count: usize)
    ensures
        count == entries_up_to(entry_times@, cutoff),
{
    let mut count: usize = 0;
    let mut i: usize = 0;
    proof {
        reveal(Seq::filter);
        assert(entry_times@.take(0) =~= Seq::empty());
    }
    while i < entry_times.len()
        invariant
            i <= entry_times@.len(),
            count <= i,
            count == entries_up_to(entry_times@.take(i as int), cutoff),
        decreases entry_times@.len() - i,
    {
        proof {
            reveal(Seq::filter);
            assert(entry_times@.take(i as int + 1).drop_last() =~= entry_times@.take(i as int));
        }
        if entry_times[i] <= cutoff {
            count = count + 1;
        }
        i = i + 1;
    }
    assert(entry_times@.take(i as int) =~= entry_times@);
    count
}

/// Difference between two counts.
pub open spec fn gap(a: nat, b: nat) -> nat {
    if a >= b {
        (a - b) as nat
    } else {
        (b - a) as nat
    }
}

/// The two counts of trades differ by more than a twentieth of the larger, in
/// double precision.
pub open spec fn counts_diverge(a: nat, b: nat) -> bool {
    let most = if a >= b { a } else { b };
    gap(a, b) > 0 && below(nearest(1, 20), quotient(nearest(gap(a, b), 1), nearest(most, 1)))
}

/// Whether the two counts of trades differ by more than a twentieth of the
/// larger.
pub fn trade_counts_diverge(truncated: usize, full: usize) -> (diverge: bool)
    ensures
        diverge == counts_diverge(truncated as nat, full as nat),
{
    let gap: usize = if truncated >= full { truncated - full } else { full - truncated };
    if gap == 0 {
        return false;
    }
    let most: usize = if truncated >= full { truncated } else { full };
    let share: Double = nearest_to(gap as u128, 1).over(&nearest_to(most as u128, 1));
    nearest_to(1, 20).is_below(&share)
}

/// What the test asks for next.
#[derive(Debug, Clone, Copy, PartialEq, Eq, Structural)]
pub enum LookAheadStep {
    /// Run the strategy on the bars before this one.
    RunTruncated(usize),
    /// Do so again, as the strategy may draw random numbers.
    RunAgain(usize),
    /// Run it on all bars.
    RunFull,
    /// The test has ended: whether the strategy looks ahead.
    Done(bool),
    /// The strategy is not deterministic, so that the test cannot be made.
    NotDeterministic { first: usize, second: usize },
}

/// A test in progress.
#[derive(Debug, Clone, Copy, PartialEq, Eq, Structural)]
pub struct LookAheadTest {
    pub stochastic: bool,
    /// Fills of the first run on the earlier bars.
    pub truncated_trades: usize,
    /// Trades of that run that began on the earlier bars.
    pub truncated_entries: usize,
    /// Time of the last of the earlier bars.
    pub cutoff: i64,
    pub step: LookAheadStep,
}

impl LookAheadTest {
    /// Starts a test; too few bars show nothing.
    pub fn new(bars: usize, source: &str) -> (test: Self)
        ensures
            test == (LookAheadTest {
                stochastic: mentions_chance(source@),
                truncated_trades: 0,
                truncated_entries: 0,
                cutoff: 0,
                step: if bars < LOOKAHEAD_MIN_BARS {
                    LookAheadStep::Done(false)
                } else {
                    LookAheadStep::RunTruncated(part_of(bars as nat, 6, 10) as usize)
                },
            }),
            test.step matches LookAheadStep::RunTruncated(end) ==> end < bars,
    {
        LookAheadTest {
            stochastic: source_may_be_stochastic(source),
            truncated_trades: 0,
            truncated_entries: 0,
            cutoff: 0,
            step: if bars < LOOKAHEAD_MIN_BARS {
                LookAheadStep::Done(false)
            } else {
                LookAheadStep::RunTruncated(six_tenths_of(bars))
            },
        }
    }

    /// Takes in a run on the earlier bars: its fills, the times at which its
    /// trades began, and the time of the last of the bars.
    pub fn on_truncated(self, num_trades: usize, entry_times: &[i64], cutoff: i64) -> (test: Self)
        requires
            self.step is RunTruncated || self.step is RunAgain,
        ensures
            self.step matches LookAheadStep::RunTruncated(end) ==> test == (LookAheadTest {
                stochastic: self.stochastic,
                truncated_trades: num_trades,
                truncated_entries: entries_up_to(entry_times@, cutoff) as usize,
                cutoff,
                step: if self.stochastic {
                    LookAheadStep::RunAgain(end)
                } else {
                    LookAheadStep::RunFull
                },
            }),
            self.step is RunTruncated ==> test.truncated_entries == entries_up_to(entry_times@, cutoff),
            self.step is RunAgain ==> test == (LookAheadTest {
                step: if num_trades == self.truncated_trades {
                    LookAheadStep::RunFull
                } else {
                    LookAheadStep::NotDeterministic { first: self.truncated_trades, second: num_trades }
                },
                ..self
            }),
    {
        match self.step {
            LookAheadStep::RunTruncated(end) => LookAheadTest {
                stochastic: self.stochastic,
                truncated_trades: num_trades,
                truncated_entries: count_entries_up_to(entry_times, cutoff),
                cutoff,
                step: if self.stochastic {
                    LookAheadStep::RunAgain(end)
                } else {
                    LookAheadStep::RunFull
                },
            },
            _ => LookAheadTest {
                stochastic: self.stochastic,
                truncated_trades: self.truncated_trades,
                truncated_entries: self.truncated_entries,
                cutoff: self.cutoff,
                step: if num_trades == self.truncated_trades {
                    LookAheadStep::RunFull
                } else {
                    LookAheadStep::NotDeterministic { first: self.truncated_trades, second: num_trades }
                },
            },
        }
    }

    /// Takes in the run on all bars: the times at which its trades began.
    /// Those that began on the earlier bars are held against those of the run
    /// that saw no more than these.
    pub fn on_full(self, entry_times: &[i64]) -> (test: Self)
        requires
            self.step is RunFull,
        ensures
            test == (LookAheadTest {
                step: LookAheadStep::Done(
                    counts_diverge(self.truncated_entries as nat, entries_up_to(entry_times@, self.cutoff)),
                ),
                ..self
            }),
    {
        let full: usize = count_entries_up_to(entry_times, self.cutoff);
        LookAheadTest {
            stochastic: self.stochastic,
            truncated_trades: self.truncated_trades,
            truncated_entries: self.truncated_entries,
            cutoff: self.cutoff,
            step: LookAheadStep::Done(trade_counts_diverge(self.truncated_entries, full)),
        }
    }
}

/// Says why the test could not be made.
pub fn not_deterministic_message(first: usize, second: usize) -> (text: String)
    ensures
        text@
            == "strategy is non-deterministic: two runs on identical data produced different results ("@
            + decimal_digits(first as nat) + " vs "@ + decimal_digits(second as nat)
            + " trades). Seed every stochastic step (e.g. `rng = np.random.default_rng(0)` and initialize EM/k-means from it) so results are reproducible — the look-ahead test cannot run on a non-deterministic strategy."@,
{
    let mut text: String =
        "strategy is non-deterministic: two runs on identical data produced different results (".to_owned();
    append_text(&mut text, decimal(first).as_str());
    append_text(&mut text, " vs ");
    append_text(&mut text, decimal(second).as_str());
    append_text(
        &mut text,
        " trades). Seed every stochastic step (e.g. `rng = np.random.default_rng(0)` and initialize EM/k-means from it) so results are reproducible — the look-ahead test cannot run on a non-deterministic strategy.",
    );
    text
}

/// A strategy that trades as often on the earlier bars whether or not it sees
/// the later ones is never said to look ahead.
pub proof fn law_equal_counts_never_diverge(count: nat)
    ensures
        !counts_diverge(count, count),
{
}

/// A strategy whose trades on the earlier bars begin at the same times
/// whether or not it sees the later ones is never said to look ahead, however
/// many fills those trades took and however it goes on.
pub proof fn law_unchanged_trades_never_look_ahead(short: Seq<i64>, full: Seq<i64>, cutoff: i64)
    requires
        short.filter(|time: i64| time <= cutoff) == full.filter(|time: i64| time <= cutoff),
    ensures
        !counts_diverge(entries_up_to(short, cutoff), entries_up_to(full, cutoff)),
{
}

} // verus!
