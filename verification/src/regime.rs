//! Volatility regimes of a price series and how well test windows cover them.

use vstd::prelude::*;

use crate::text::{append_text, decimal, decimal_digits, join, joined, occurs_at, occurs_in, texts};

verus! {

/// Volatility tercile of a bar.
#[derive(Clone, Copy, Debug, PartialEq, Eq, Structural)]
pub enum VolatilityRegime {
    Low,
    Medium,
    High,
}

/// Bars for which the classification is `label`.
pub open spec fn bars_in(regimes: Seq<Option<VolatilityRegime>>, label: VolatilityRegime) -> nat
    decreases regimes.len(),
{
    if regimes.len() == 0 {
        0
    } else {
        bars_in(regimes.drop_last(), label) + if regimes.last() == Some(label) {
            1nat
        } else {
            0
        }
    }
}

/// The label occurs among the classified bars.
pub open spec fn is_present(regimes: Seq<Option<VolatilityRegime>>, label: VolatilityRegime) -> bool {
    exists|i: int| 0 <= i < regimes.len() && #[trigger] regimes[i] == Some(label)
}

/// Maximal runs of one label, in order, each as its first bar, its last bar
/// and the label. Unclassified bars neither end a run nor extend it.
pub open spec fn segments_of(regimes: Seq<Option<VolatilityRegime>>) -> Seq<(usize, usize, VolatilityRegime)>
    decreases regimes.len(),
{
    if regimes.len() == 0 {
        Seq::empty()
    } else {
        let before = segments_of(regimes.drop_last());
        let i = (regimes.len() - 1) as usize;
        match regimes.last() {
            None => before,
            Some(label) => if before.len() > 0 && before.last().2 == label {
                before.drop_last().push((before.last().0, i, label))
            } else {
                before.push((i, i, label))
            },
        }
    }
}

/// A bar belongs to a segment when it lies between the segment's ends.
pub open spec fn covers(segment: (usize, usize, VolatilityRegime), i: int) -> bool {
    segment.0 <= i <= segment.1
}

proof fn lemma_bars_in_positive(regimes: Seq<Option<VolatilityRegime>>, label: VolatilityRegime)
    ensures
        bars_in(regimes, label) <= regimes.len(),
        bars_in(regimes, label) > 0 <==> is_present(regimes, label),
    decreases regimes.len(),
{
    if regimes.len() > 0 {
        let before = regimes.drop_last();
        lemma_bars_in_positive(before, label);
        if regimes.last() == Some(label) {
            assert(regimes[regimes.len() - 1] == Some(label));
        }
        if is_present(before, label) {
            let i = choose|i: int| 0 <= i < before.len() && before[i] == Some(label);
            assert(regimes[i] == Some(label));
        }
        if is_present(regimes, label) && regimes.last() != Some(label) {
            let i = choose|i: int| 0 <= i < regimes.len() && regimes[i] == Some(label);
            assert(before[i] == Some(label));
        }
    }
}

/// The segments are in order and apart, each begins and ends on a bar of its
/// own label, and neighbours differ in label.
pub proof fn law_segments_are_ordered_runs(regimes: Seq<Option<VolatilityRegime>>)
    requires
        regimes.len() <= usize::MAX,
    ensures
        segments_of(regimes).len() <= regimes.len(),
        forall|k: int|
            0 <= k < segments_of(regimes).len() ==> {
                let s = #[trigger] segments_of(regimes)[k];
                &&& s.0 <= s.1 < regimes.len()
                &&& regimes[s.0 as int] == Some(s.2)
                &&& regimes[s.1 as int] == Some(s.2)
            },
        forall|k: int|
            #![trigger segments_of(regimes)[k]]
            0 < k < segments_of(regimes).len() ==> segments_of(regimes)[k - 1].1 < segments_of(regimes)[k].0
                && segments_of(regimes)[k - 1].2 != segments_of(regimes)[k].2,
    decreases regimes.len(),
{
    if regimes.len() > 0 {
        let before = regimes.drop_last();
        law_segments_are_ordered_runs(before);
        let old_segments = segments_of(before);
        let new_segments = segments_of(regimes);
        assert forall|k: int| 0 <= k < new_segments.len() implies {
            let s = #[trigger] new_segments[k];
            &&& s.0 <= s.1 < regimes.len()
            &&& regimes[s.0 as int] == Some(s.2)
            &&& regimes[s.1 as int] == Some(s.2)
        } by {
            if k < old_segments.len() {
                let s = old_segments[k];
                assert(before[s.0 as int] == Some(s.2));
                assert(before[s.1 as int] == Some(s.2));
            }
        }
        assert forall|k: int|
            #![trigger new_segments[k]]
            0 < k < new_segments.len() implies new_segments[k - 1].1 < new_segments[k].0
            && new_segments[k - 1].2 != new_segments[k].2 by {
            if k < old_segments.len() {
                let s = old_segments[k];
                let r = old_segments[k - 1];
            } else {
                let r = old_segments[k - 1];
            }
        }
    }
}

/// A classified bar lies in some segment that carries its label.
pub open spec fn is_covered(regimes: Seq<Option<VolatilityRegime>>, i: int) -> bool {
    exists|k: int|
        0 <= k < segments_of(regimes).len() && covers(#[trigger] segments_of(regimes)[k], i) && Some(
            segments_of(regimes)[k].2,
        ) == regimes[i]
}

/// Every classified bar lies in a segment of its own label.
pub proof fn law_segments_cover_every_classified_bar(regimes: Seq<Option<VolatilityRegime>>, i: int)
    requires
        regimes.len() <= usize::MAX,
        0 <= i < regimes.len(),
        regimes[i] is Some,
    ensures
        is_covered(regimes, i),
    decreases regimes.len(),
{
    let before = regimes.drop_last();
    law_segments_are_ordered_runs(before);
    let old_segments = segments_of(before);
    let new_segments = segments_of(regimes);
    if i == regimes.len() - 1 {
        let k = new_segments.len() - 1;
        assert(covers(new_segments[k], i));
    } else {
        law_segments_cover_every_classified_bar(before, i);
        let k = choose|k: int|
            0 <= k < old_segments.len() && covers(#[trigger] old_segments[k], i) && Some(old_segments[k].2)
                == before[i];
        assert(covers(new_segments[k], i));
        assert(Some(new_segments[k].2) == regimes[i]);
    }
}

/// Maximal runs of one label across a classified series.
///
/// The end of each run is inclusive: it is the last bar that carries the
/// label.
pub fn regime_segments(regimes: &[Option<VolatilityRegime>]) -> (segments: Vec<(usize, usize, VolatilityRegime)>)
    ensures
        segments@ == segments_of(regimes@),
{
    let mut segments: Vec<(usize, usize, VolatilityRegime)> = Vec::new();
    let mut current: Option<(usize, usize, VolatilityRegime)> = None;
    let mut i: usize = 0;
    assert(regimes@.take(0) =~= Seq::empty());
    while i < regimes.len()
        invariant
            i <= regimes@.len(),
            segments_of(regimes@.take(i as int)) == match current {
                None => Seq::empty(),
                Some(segment) => segments@.push(segment),
            },
            current is None ==> segments@.len() == 0,
        decreases regimes@.len() - i,
    {
        let ghost seen = regimes@.take(i as int + 1);
        proof {
            assert(seen.drop_last() =~= regimes@.take(i as int));
            assert(seen.last() == regimes@[i as int]);
        }
        if let Some(label) = regimes[i] {
            match current {
                Some((start, last, previous)) => {
                    if previous == label {
                        current = Some((start, i, label));
                        assert(segments@.push((start, last, previous)).drop_last() =~= segments@);
                    } else {
                        segments.push((start, last, previous));
                        current = Some((i, i, label));
                    }
                },
                None => {
                    current = Some((i, i, label));
                    assert(segments@ =~= Seq::empty());
                },
            }
        }
        i = i + 1;
    }
    assert(regimes@.take(i as int) =~= regimes@);
    if let Some(segment) = current {
        segments.push(segment);
    } else {
        assert(segments@ =~= Seq::empty());
    }
    segments
}

/// Number of maximal runs of one label.
pub fn regime_segment_count(regimes: &[Option<VolatilityRegime>]) -> (count: usize)
    ensures
        count == segments_of(regimes@).len(),
{
    regime_segments(regimes).len()
}

/// The label at the middle bar of a test slice.
pub fn window_regime_label(
    regimes: &[Option<VolatilityRegime>],
    test_start_idx: usize,
    test_end_idx: usize,
) -> (label: Option<VolatilityRegime>)
    ensures
        ({
            let width = if test_end_idx >= test_start_idx { test_end_idx - test_start_idx } else { 0 };
            let mid = test_start_idx + width / 2;
            label == if mid < regimes@.len() { regimes@[mid] } else { None }
        }),
{
    let mid: usize = test_start_idx + test_end_idx.saturating_sub(test_start_idx) / 2;
    if mid < regimes.len() {
        regimes[mid]
    } else {
        None
    }
}

/// Number of bars, or windows, that carry the label.
pub fn count_of(regimes: &[Option<VolatilityRegime>], label: VolatilityRegime) -> (count: usize)
    ensures
        count == bars_in(regimes@, label),
        count > 0 <==> is_present(regimes@, label),
{
    let mut count: usize = 0;
    let mut i: usize = 0;
    assert(regimes@.take(0) =~= Seq::empty());
    while i < regimes.len()
        invariant
            i <= regimes@.len(),
            count <= i,
            count == bars_in(regimes@.take(i as int), label),
        decreases regimes@.len() - i,
    {
        proof {
            assert(regimes@.take(i as int + 1).drop_last() =~= regimes@.take(i as int));
        }
        if let Some(found) = regimes[i] {
            if found == label {
                count = count + 1;
            }
        }
        i = i + 1;
    }
    proof {
        assert(regimes@.take(i as int) =~= regimes@);
        lemma_bars_in_positive(regimes@, label);
    }
    count
}

/// Display name of a regime.
pub open spec fn name_of(label: VolatilityRegime) -> Seq<char> {
    match label {
        VolatilityRegime::Low => "Low"@,
        VolatilityRegime::Medium => "Medium"@,
        VolatilityRegime::High => "High"@,
    }
}

fn label_name(label: VolatilityRegime) -> (name: &'static str)
    ensures
        name@ == name_of(label),
{
    match label {
        VolatilityRegime::Low => "Low",
        VolatilityRegime::Medium => "Medium",
        VolatilityRegime::High => "High",
    }
}

/// A regime that the data holds and that no test window fell into.
pub open spec fn is_missed(
    tested: Seq<Option<VolatilityRegime>>,
    all: Seq<Option<VolatilityRegime>>,
    label: VolatilityRegime,
) -> bool {
    is_present(all, label) && !is_present(tested, label)
}

/// Whether a regime that the data holds was never tested out of sample.
///
/// Nothing is missed when no bar could be classified.
pub fn regime_coverage_incomplete(
    tested_regimes: &[Option<VolatilityRegime>],
    all_regimes: &[Option<VolatilityRegime>],
) -> (incomplete: bool)
    ensures
        incomplete == (exists|label: VolatilityRegime| is_missed(tested_regimes@, all_regimes@, label)),
{
    let low = count_of(all_regimes, VolatilityRegime::Low) > 0 && count_of(tested_regimes, VolatilityRegime::Low) == 0;
    let medium = count_of(all_regimes, VolatilityRegime::Medium) > 0 && count_of(
        tested_regimes,
        VolatilityRegime::Medium,
    ) == 0;
    let high = count_of(all_regimes, VolatilityRegime::High) > 0 && count_of(tested_regimes, VolatilityRegime::High)
        == 0;
    proof {
        assert(low == is_missed(tested_regimes@, all_regimes@, VolatilityRegime::Low));
        assert(medium == is_missed(tested_regimes@, all_regimes@, VolatilityRegime::Medium));
        assert(high == is_missed(tested_regimes@, all_regimes@, VolatilityRegime::High));
    }
    low || medium || high
}

/// Narrative entry of a tested regime: its name and the number of windows.
pub open spec fn tested_entry(
    tested: Seq<Option<VolatilityRegime>>,
    all: Seq<Option<VolatilityRegime>>,
    label: VolatilityRegime,
) -> Seq<Seq<char>> {
    if is_present(all, label) && is_present(tested, label) {
        seq![name_of(label) + " ("@ + decimal_digits(bars_in(tested, label)) + ")"@]
    } else {
        Seq::empty()
    }
}

/// Narrative entry of a missed regime: its name.
pub open spec fn missed_entry(
    tested: Seq<Option<VolatilityRegime>>,
    all: Seq<Option<VolatilityRegime>>,
    label: VolatilityRegime,
) -> Seq<Seq<char>> {
    if is_missed(tested, all, label) {
        seq![name_of(label)]
    } else {
        Seq::empty()
    }
}

/// Tested regimes, in the order low, medium, high.
pub open spec fn tested_entries(
    tested: Seq<Option<VolatilityRegime>>,
    all: Seq<Option<VolatilityRegime>>,
) -> Seq<Seq<char>> {
    tested_entry(tested, all, VolatilityRegime::Low) + tested_entry(tested, all, VolatilityRegime::Medium)
        + tested_entry(tested, all, VolatilityRegime::High)
}

/// Missed regimes, in the order low, medium, high.
pub open spec fn missed_entries(
    tested: Seq<Option<VolatilityRegime>>,
    all: Seq<Option<VolatilityRegime>>,
) -> Seq<Seq<char>> {
    missed_entry(tested, all, VolatilityRegime::Low) + missed_entry(tested, all, VolatilityRegime::Medium)
        + missed_entry(tested, all, VolatilityRegime::High)
}

/// The sentence that tells which regimes the test windows covered.
pub open spec fn coverage_sentence(
    tested: Seq<Option<VolatilityRegime>>,
    all: Seq<Option<VolatilityRegime>>,
) -> Seq<char> {
    let covered = tested_entries(tested, all);
    let missed = missed_entries(tested, all);
    if covered.len() + missed.len() == 0 {
        Seq::empty()
    } else if missed.len() == 0 {
        "OOS windows covered: "@ + joined(covered, ", "@) + " -- all "@ + decimal_digits(covered.len())
            + " detected regime(s) represented."@
    } else {
        "OOS windows covered: "@ + joined(covered, ", "@) + " only -- "@ + joined(
            missed,
            "/"@,
        ) + " volatility regime(s) present in this data were never tested out-of-sample."@
    }
}

/// Adds the regime's entry to the covered or to the missed list.
fn sort_into(
    tested: &[Option<VolatilityRegime>],
    all: &[Option<VolatilityRegime>],
    label: VolatilityRegime,
    covered: &mut Vec<String>,
    missed: &mut Vec<String>,
)
    ensures
        texts(final(covered)@) == texts(old(covered)@) + tested_entry(tested@, all@, label),
        texts(final(missed)@) == texts(old(missed)@) + missed_entry(tested@, all@, label),
{
    let ghost before_covered = texts(covered@);
    let ghost before_missed = texts(missed@);
    if count_of(all, label) > 0 {
        let count: usize = count_of(tested, label);
        if count > 0 {
            let mut entry = label_name(label).to_owned();
            append_text(&mut entry, " (");
            append_text(&mut entry, decimal(count).as_str());
            append_text(&mut entry, ")");
            covered.push(entry);
        } else {
            missed.push(label_name(label).to_owned());
        }
    }
    assert(texts(covered@) =~= before_covered + tested_entry(tested@, all@, label));
    assert(texts(missed@) =~= before_missed + missed_entry(tested@, all@, label));
}

/// Says which volatility regimes the test windows covered, and which regimes
/// of the data they missed. Empty when no bar could be classified.
pub fn regime_coverage_narrative(
    tested_regimes: &[Option<VolatilityRegime>],
    all_regimes: &[Option<VolatilityRegime>],
) -> (narrative: String)
    ensures
        narrative@ == coverage_sentence(tested_regimes@, all_regimes@),
{
    let mut covered: Vec<String> = Vec::new();
    let mut missed: Vec<String> = Vec::new();
    sort_into(tested_regimes, all_regimes, VolatilityRegime::Low, &mut covered, &mut missed);
    sort_into(tested_regimes, all_regimes, VolatilityRegime::Medium, &mut covered, &mut missed);
    sort_into(tested_regimes, all_regimes, VolatilityRegime::High, &mut covered, &mut missed);
    proof {
        assert(texts(covered@) =~= tested_entries(tested_regimes@, all_regimes@));
        assert(texts(missed@) =~= missed_entries(tested_regimes@, all_regimes@));
    }
    if covered.len() == 0 && missed.len() == 0 {
        return String::new();
    }
    let mut text = "OOS windows covered: ".to_owned();
    append_text(&mut text, join(&covered, ", ").as_str());
    if missed.len() == 0 {
        append_text(&mut text, " -- all ");
        append_text(&mut text, decimal(covered.len()).as_str());
        append_text(&mut text, " detected regime(s) represented.");
    } else {
        append_text(&mut text, " only -- ");
        append_text(&mut text, join(&missed, "/").as_str());
        append_text(
            &mut text,
            " volatility regime(s) present in this data were never tested out-of-sample.",
        );
    }
    text
}

/// The narrative is empty exactly when no bar could be classified.
pub proof fn law_narrative_is_empty_without_regimes(
    tested: Seq<Option<VolatilityRegime>>,
    all: Seq<Option<VolatilityRegime>>,
)
    ensures
        coverage_sentence(tested, all).len() == 0 <==> forall|label: VolatilityRegime| !is_present(all, label),
{
    reveal_strlit("OOS windows covered: ");
    let none = tested_entries(tested, all).len() + missed_entries(tested, all).len() == 0;
    if none {
        assert forall|label: VolatilityRegime| !is_present(all, label) by {
            match label {
                VolatilityRegime::Low => {
                    assert(tested_entry(tested, all, VolatilityRegime::Low).len() == 0);
                    assert(missed_entry(tested, all, VolatilityRegime::Low).len() == 0);
                },
                VolatilityRegime::Medium => {
                    assert(tested_entry(tested, all, VolatilityRegime::Medium).len() == 0);
                    assert(missed_entry(tested, all, VolatilityRegime::Medium).len() == 0);
                },
                VolatilityRegime::High => {
                    assert(tested_entry(tested, all, VolatilityRegime::High).len() == 0);
                    assert(missed_entry(tested, all, VolatilityRegime::High).len() == 0);
                },
            }
        }
    }
}

/// The narrative names a missed regime exactly when coverage is incomplete.
pub proof fn law_narrative_agrees_with_coverage(
    tested: Seq<Option<VolatilityRegime>>,
    all: Seq<Option<VolatilityRegime>>,
)
    ensures
        missed_entries(tested, all).len() > 0 <==> exists|label: VolatilityRegime| is_missed(tested, all, label),
{
    if missed_entries(tested, all).len() > 0 {
        if is_missed(tested, all, VolatilityRegime::Low) {
        } else if is_missed(tested, all, VolatilityRegime::Medium) {
        } else {
            assert(is_missed(tested, all, VolatilityRegime::High));
        }
    }
    if exists|label: VolatilityRegime| is_missed(tested, all, label) {
        let label = choose|label: VolatilityRegime| is_missed(tested, all, label);
        assert(missed_entry(tested, all, label).len() == 1);
    }
}

proof fn lemma_digits_lack(n: nat, letter: char)
    requires
        letter == 'c' || letter == 'f',
    ensures
        !decimal_digits(n).contains(letter),
    decreases n,
{
    if n >= 10 {
        lemma_digits_lack(n / 10, letter);
        let head = decimal_digits(n / 10);
        assert forall|i: int| 0 <= i < decimal_digits(n).len() implies decimal_digits(n)[i] != letter by {
            if i < head.len() {
                assert(head.contains(head[i]));
            }
        }
    }
}

proof fn lemma_joined_lacks(parts: Seq<Seq<char>>, separator: Seq<char>, letter: char)
    requires
        forall|i: int| 0 <= i < parts.len() ==> !(#[trigger] parts[i]).contains(letter),
        !separator.contains(letter),
    ensures
        !joined(parts, separator).contains(letter),
    decreases parts.len(),
{
    if parts.len() > 1 {
        lemma_joined_lacks(parts.drop_last(), separator, letter);
        lemma_concat_lacks(joined(parts.drop_last(), separator), separator, letter);
        lemma_concat_lacks(joined(parts.drop_last(), separator) + separator, parts.last(), letter);
    }
}

proof fn lemma_concat_lacks(a: Seq<char>, b: Seq<char>, letter: char)
    requires
        !a.contains(letter),
        !b.contains(letter),
    ensures
        !(a + b).contains(letter),
{
    assert forall|i: int| 0 <= i < (a + b).len() implies (a + b)[i] != letter by {
        if i < a.len() {
            assert(a.contains(a[i]));
        } else {
            assert(b.contains(b[i - a.len()]));
        }
    }
}

proof fn lemma_names_lack(label: VolatilityRegime, letter: char)
    requires
        letter == 'c' || letter == 'f',
    ensures
        !name_of(label).contains(letter),
{
    reveal_strlit("Low");
    reveal_strlit("Medium");
    reveal_strlit("High");
}

proof fn lemma_entries_lack(
    tested: Seq<Option<VolatilityRegime>>,
    all: Seq<Option<VolatilityRegime>>,
    letter: char,
)
    requires
        letter == 'c' || letter == 'f',
    ensures
        !joined(tested_entries(tested, all), ", "@).contains(letter),
        !joined(missed_entries(tested, all), "/"@).contains(letter),
{
    reveal_strlit(" (");
    reveal_strlit(")");
    reveal_strlit(", ");
    reveal_strlit("/");
    assert forall|label: VolatilityRegime| !(#[trigger] (name_of(label) + " ("@ + decimal_digits(
        bars_in(tested, label),
    ) + ")"@)).contains(letter) by {
        let digits = decimal_digits(bars_in(tested, label));
        lemma_names_lack(label, letter);
        lemma_digits_lack(bars_in(tested, label), letter);
        lemma_concat_lacks(name_of(label), " ("@, letter);
        lemma_concat_lacks(name_of(label) + " ("@, digits, letter);
        lemma_concat_lacks(name_of(label) + " ("@ + digits, ")"@, letter);
    }
    lemma_names_lack(VolatilityRegime::Low, letter);
    lemma_names_lack(VolatilityRegime::Medium, letter);
    lemma_names_lack(VolatilityRegime::High, letter);
    lemma_joined_lacks(tested_entries(tested, all), ", "@, letter);
    lemma_joined_lacks(missed_entries(tested, all), "/"@, letter);
}

/// How many different regimes the data holds.
pub open spec fn regimes_in(all: Seq<Option<VolatilityRegime>>) -> nat {
    (if is_present(all, VolatilityRegime::Low) {
        1nat
    } else {
        0
    }) + (if is_present(all, VolatilityRegime::Medium) {
        1nat
    } else {
        0
    }) + (if is_present(all, VolatilityRegime::High) {
        1nat
    } else {
        0
    })
}

/// What the narrative says of complete coverage.
pub open spec fn all_represented(all: Seq<Option<VolatilityRegime>>) -> Seq<char> {
    "all "@ + decimal_digits(regimes_in(all)) + " detected regime(s) represented"@
}

proof fn lemma_occurs(before: Seq<char>, piece: Seq<char>, after: Seq<char>)
    ensures
        occurs_in(piece, before + piece + after),
{
    let text = before + piece + after;
    assert(text.subrange(before.len() as int, (before.len() + piece.len()) as int) =~= piece);
    assert(occurs_at(piece, text, before.len() as int));
}

proof fn lemma_complete_text()
    ensures
        " -- all "@ == " -- "@ + "all "@,
        " detected regime(s) represented."@ == " detected regime(s) represented"@ + "."@,
        !"OOS windows covered: "@.contains('f'),
        !" -- all "@.contains('f'),
        !" detected regime(s) represented."@.contains('f'),
        "never tested out-of-sample"@.len() == 26,
        "never tested out-of-sample"@[18] == 'f',
{
    reveal_strlit("OOS windows covered: ");
    reveal_strlit(" -- all ");
    reveal_strlit(" -- ");
    reveal_strlit("all ");
    reveal_strlit(" detected regime(s) represented.");
    reveal_strlit(" detected regime(s) represented");
    reveal_strlit(".");
    reveal_strlit("never tested out-of-sample");
    assert(" -- all "@ =~= " -- "@ + "all "@);
    assert(" detected regime(s) represented."@ =~= " detected regime(s) represented"@ + "."@);
}

proof fn lemma_complete_sentence(list: Seq<char>, digits: Seq<char>)
    requires
        !list.contains('f'),
        !digits.contains('f'),
    ensures
        ({
            let sentence = "OOS windows covered: "@ + list + " -- all "@ + digits
                + " detected regime(s) represented."@;
            &&& occurs_in("all "@ + digits + " detected regime(s) represented"@, sentence)
            &&& !occurs_in("never tested out-of-sample"@, sentence)
        }),
{
    let head = "OOS windows covered: "@;
    let sentence = head + list + " -- all "@ + digits + " detected regime(s) represented."@;
    let claim = "all "@ + digits + " detected regime(s) represented"@;
    lemma_complete_text();
    lemma_occurs(head + list + " -- "@, claim, "."@);
    assert(sentence =~= head + list + " -- "@ + claim + "."@);
    lemma_concat_lacks(head, list, 'f');
    lemma_concat_lacks(head + list, " -- all "@, 'f');
    lemma_concat_lacks(head + list + " -- all "@, digits, 'f');
    lemma_concat_lacks(head + list + " -- all "@ + digits, " detected regime(s) represented."@, 'f');
    let phrase = "never tested out-of-sample"@;
    if occurs_in(phrase, sentence) {
        let start = choose|start: int| occurs_at(phrase, sentence, start);
        assert(sentence.subrange(start, start + phrase.len())[18] == sentence[start + 18]);
        assert(sentence.contains(sentence[start + 18]));
    }
}

proof fn lemma_incomplete_text()
    ensures
        " volatility regime(s) present in this data were never tested out-of-sample."@
            == " volatility regime(s) present in this data were "@ + "never tested out-of-sample"@ + "."@,
        !" volatility regime(s) present in this data were never tested out-of-sample."@.contains('c'),
        !" only -- "@.contains('c'),
        "OOS windows covered: "@.len() == 21,
        forall|i: int| 0 <= i < 21 && i != 12 ==> #[trigger] "OOS windows covered: "@[i] != 'c',
        "OOS windows covered: "@[2] == 'S',
        "all "@.len() == 4,
        "all "@[0] == 'a',
        " detected regime(s) represented"@.len() == 31,
        " detected regime(s) represented"@[5] == 'c',
{
    reveal_strlit(" volatility regime(s) present in this data were ");
    reveal_strlit("never tested out-of-sample");
    reveal_strlit(" volatility regime(s) present in this data were never tested out-of-sample.");
    reveal_strlit(" only -- ");
    reveal_strlit(".");
    reveal_strlit("OOS windows covered: ");
    reveal_strlit("all ");
    reveal_strlit(" detected regime(s) represented");
    assert(" volatility regime(s) present in this data were never tested out-of-sample."@
        =~= " volatility regime(s) present in this data were "@ + "never tested out-of-sample"@ + "."@);
}

proof fn lemma_incomplete_sentence(list: Seq<char>, names: Seq<char>, digits: Seq<char>)
    requires
        !list.contains('c'),
        !names.contains('c'),
        digits.len() == 1,
    ensures
        ({
            let sentence = "OOS windows covered: "@ + list + " only -- "@ + names
                + " volatility regime(s) present in this data were never tested out-of-sample."@;
            &&& occurs_in("never tested out-of-sample"@, sentence)
            &&& !occurs_in("all "@ + digits + " detected regime(s) represented"@, sentence)
        }),
{
    let head = "OOS windows covered: "@;
    let tail = " volatility regime(s) present in this data were never tested out-of-sample."@;
    let middle = " volatility regime(s) present in this data were "@;
    let phrase = "never tested out-of-sample"@;
    let sentence = head + list + " only -- "@ + names + tail;
    let claim = "all "@ + digits + " detected regime(s) represented"@;
    lemma_incomplete_text();
    lemma_occurs(head + list + " only -- "@ + names + middle, phrase, "."@);
    assert(sentence =~= head + list + " only -- "@ + names + middle + phrase + "."@);
    let rest = list + " only -- "@ + names + tail;
    lemma_concat_lacks(list, " only -- "@, 'c');
    lemma_concat_lacks(list + " only -- "@, names, 'c');
    lemma_concat_lacks(list + " only -- "@ + names, tail, 'c');
    assert(sentence =~= head + rest);
    if occurs_in(claim, sentence) {
        let start = choose|start: int| occurs_at(claim, sentence, start);
        assert(claim[0] == 'a');
        assert(claim[10] == 'c');
        assert(sentence.subrange(start, start + claim.len())[0] == sentence[start]);
        assert(sentence.subrange(start, start + claim.len())[10] == sentence[start + 10]);
        if start + 10 >= 21 {
            assert(rest.contains(rest[start + 10 - 21]));
        } else {
            assert(sentence[start + 10] == head[start + 10]);
            assert(start == 2);
            assert(sentence[start] == head[start]);
        }
    }
}

/// Where the data holds a regime, the narrative says that some were never
/// tested out of sample exactly when coverage is incomplete, and that all of
/// them are represented exactly when it is complete.
pub proof fn law_narrative_says_whether_coverage_is_complete(
    tested: Seq<Option<VolatilityRegime>>,
    all: Seq<Option<VolatilityRegime>>,
)
    requires
        exists|label: VolatilityRegime| is_present(all, label),
    ensures
        occurs_in("never tested out-of-sample"@, coverage_sentence(tested, all)) <==> exists|label: VolatilityRegime|
            is_missed(tested, all, label),
        occurs_in(all_represented(all), coverage_sentence(tested, all)) <==> !exists|label: VolatilityRegime|
            is_missed(tested, all, label),
{
    let covered = tested_entries(tested, all);
    let missed = missed_entries(tested, all);
    let list = joined(covered, ", "@);
    let names = joined(missed, "/"@);
    let digits = decimal_digits(regimes_in(all));
    law_narrative_agrees_with_coverage(tested, all);
    assert(covered.len() + missed.len() == regimes_in(all));
    assert(regimes_in(all) >= 1) by {
        let label = choose|label: VolatilityRegime| is_present(all, label);
        match label {
            VolatilityRegime::Low => {},
            VolatilityRegime::Medium => {},
            VolatilityRegime::High => {},
        }
    }
    if missed.len() == 0 {
        lemma_entries_lack(tested, all, 'f');
        lemma_digits_lack(regimes_in(all), 'f');
        lemma_complete_sentence(list, digits);
    } else {
        lemma_entries_lack(tested, all, 'c');
        lemma_incomplete_sentence(list, names, digits);
    }
}

} // verus!
