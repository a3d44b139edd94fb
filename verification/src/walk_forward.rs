//! Walk-forward windows: how many, how large, where they start, and which
//! bars of each are trained on and tested on.

use vstd::prelude::*;

use crate::double::{below, nearest, nearest_to, of_count, part_of, quotient, rounded, seven_tenths_of, Binary, Double};
use crate::regime::{
    bars_in, count_of, is_present, regime_segment_count, regime_segments, segments_of, law_segments_are_ordered_runs,
    VolatilityRegime,
};

verus! {

/// Trailing window, in bars, over which volatility is classified.
pub const REGIME_WINDOW: usize = 20;

/// Embargo between training and test bars, in milliseconds: five days.
pub const PURGE_GAP_MS: u64 = 432_000_000;

/// The smaller of two whole numbers.
pub open spec fn least(a: int, b: int) -> int {
    if a <= b {
        a
    } else {
        b
    }
}

/// The larger of two whole numbers.
pub open spec fn greatest(a: int, b: int) -> int {
    if a >= b {
        a
    } else {
        b
    }
}

/// Bars that the quick check may draw on: seven tenths of the data, at least
/// one bar, and never more than there are.
pub open spec fn training_end(total: nat) -> int {
    if total == 0 {
        0
    } else {
        greatest(part_of(total, 7, 10) as int, 1)
    }
}

/// End (exclusive) of the data that the quick check may draw on.
pub fn stage1_training_only_end(total_len: usize) -> (end: usize)
    ensures
        end == training_end(total_len as nat),
        end <= total_len,
        total_len >= 2 ==> end < total_len,
        total_len >= 1 ==> end >= 1,
{
    let part: usize = seven_tenths_of(total_len);
    if total_len == 0 {
        0
    } else if part < 1 {
        1
    } else {
        part
    }
}

/// Bars between the starts of neighbouring windows.
pub open spec fn step_between(n: nat, window_size: nat, num_windows: nat) -> int {
    if num_windows <= 1 || window_size >= n {
        greatest(window_size as int, 1)
    } else {
        greatest((n - window_size) / (num_windows - 1), 1)
    }
}

/// Bars between the starts of neighbouring windows, chosen so that the last
/// of them ends where the data ends.
pub fn resolve_wf_step(n: usize, window_size: usize, num_windows: usize) -> (step: usize)
    ensures
        step == step_between(n as nat, window_size as nat, num_windows as nat),
        step >= 1,
{
    if num_windows <= 1 || window_size >= n {
        if window_size == 0 {
            1
        } else {
            window_size
        }
    } else {
        let step: usize = (n - window_size) / (num_windows - 1);
        if step == 0 {
            1
        } else {
            step
        }
    }
}

/// Windows to use: one per ninety days or per observed regime segment,
/// between three and twelve, and no more than the bars support.
pub open spec fn auto_windows(calendar_days: nat, data_len: nat, segments: nat) -> int {
    let by_calendar = least(greatest((calendar_days / 90) as int, 3), 12);
    let target = greatest(by_calendar, least(segments as int, 12));
    let ceiling = if data_len < 1000 { 3 } else { least(8, (data_len / 500) as int) };
    greatest(least(target, ceiling), 3)
}

/// Number of walk-forward windows for a job that leaves the choice open.
///
/// `regimes` is the classified series where there is one.
pub fn resolve_auto_wf_windows(
    calendar_days: usize,
    data_len: usize,
    regimes: Option<&[Option<VolatilityRegime>]>,
) -> (windows: usize)
    ensures
        windows == auto_windows(
            calendar_days as nat,
            data_len as nat,
            match regimes {
                Some(labels) => segments_of(labels@).len(),
                None => 0,
            },
        ),
        3 <= windows <= 8,
{
    let by_calendar: usize = calendar_days / 90;
    let mut target: usize = if by_calendar < 3 {
        3
    } else if by_calendar > 12 {
        12
    } else {
        by_calendar
    };
    if let Some(labels) = regimes {
        let segments: usize = regime_segment_count(labels);
        let wanted: usize = if segments < 12 { segments } else { 12 };
        if wanted > target {
            target = wanted;
        }
    }
    let ceiling: usize = if data_len < 1000 {
        3
    } else if data_len / 500 < 8 {
        data_len / 500
    } else {
        8
    };
    let bounded: usize = if target < ceiling { target } else { ceiling };
    if bounded < 3 {
        3
    } else {
        bounded
    }
}

/// One, in double precision.
pub open spec fn one() -> Binary {
    nearest(1, 1)
}

/// Average spacing of the bars in milliseconds, at least one.
pub open spec fn average_bar_ms(n: nat, span_ms: int) -> Binary {
    if n > 1 && span_ms > 0 {
        let spacing = quotient(of_count(span_ms as nat), of_count((n - 1) as nat));
        if below(spacing, one()) {
            one()
        } else {
            spacing
        }
    } else {
        one()
    }
}

/// The embargo in bars, at most half of the test slice.
pub open spec fn purge_gap(n: nat, span_ms: int, test_size: nat) -> int {
    least(
        rounded(quotient(of_count(PURGE_GAP_MS as nat), average_bar_ms(n, span_ms))) as int,
        (test_size / 2) as int,
    )
}

/// Converts the embargo into bars for data that spans `span_ms` over `n`
/// bars, capped at half of the test slice.
pub fn resolve_wf_purge_gap_bars(n: usize, span_ms: i64, test_size: usize) -> (bars: usize)
    ensures
        bars == purge_gap(n as nat, span_ms as int, test_size as nat),
        bars <= test_size / 2,
{
    let unit: Double = nearest_to(1, 1);
    let spacing: Double = if n > 1 && span_ms > 0 {
        let mean = nearest_to(span_ms as u128, 1).over(&nearest_to((n - 1) as u128, 1));
        if mean.is_below(&unit) {
            unit
        } else {
            mean
        }
    } else {
        unit
    };
    let bars: usize = nearest_to(PURGE_GAP_MS as u128, 1).over(&spacing).nearest_whole();
    if bars < test_size / 2 {
        bars
    } else {
        test_size / 2
    }
}

/// Size of the data and of the windows to be placed in it.
#[derive(Clone, Copy)]
pub struct WindowLayout {
    /// Bars in the data.
    pub n: usize,
    /// Bars in a window.
    pub window_size: usize,
    /// Windows wanted.
    pub num_windows: usize,
    /// Bars at the end of a window that are tested on.
    pub test_size: usize,
}

impl WindowLayout {
    /// At least one window is wanted, and it fits.
    pub open spec fn is_feasible(self) -> bool {
        self.num_windows > 0 && 0 < self.window_size <= self.n
    }

    /// The last bar at which a window can start.
    pub open spec fn last_start(self) -> int {
        self.n - self.window_size
    }

    /// Bars between the starts of evenly spaced windows.
    pub open spec fn step(self) -> int {
        step_between(self.n as nat, self.window_size as nat, self.num_windows as nat)
    }
}

/// Evenly spaced starts.
pub open spec fn uniform_offsets(layout: WindowLayout) -> Seq<usize> {
    Seq::new(layout.num_windows as nat, |i: int| least(i * layout.step(), layout.last_start()) as usize)
}

/// Two windows of the given size have no bar in common.
pub open spec fn apart(a: int, b: int, window_size: int) -> bool {
    a + window_size <= b || b + window_size <= a
}

/// A window at `start` has no bar in common with those already placed.
pub open spec fn is_free(placed: Seq<usize>, window_size: int, start: int) -> bool {
    forall|i: int| 0 <= i < placed.len() ==> apart(#[trigger] placed[i] as int, start, window_size)
}

/// Start of the window whose test slice is centred on the middle of the
/// segment, as far as the data allows.
pub open spec fn start_for(layout: WindowLayout, segment: (usize, usize, VolatilityRegime)) -> int {
    let middle = (segment.0 + segment.1) / 2;
    least(greatest(middle + layout.test_size / 2 - layout.window_size, 0), layout.last_start())
}

/// Inserts a label behind those that are no more frequent.
pub open spec fn inserted_by_count(
    regimes: Seq<Option<VolatilityRegime>>,
    order: Seq<VolatilityRegime>,
    label: VolatilityRegime,
) -> Seq<VolatilityRegime>
    decreases order.len(),
{
    if order.len() == 0 || bars_in(regimes, order.last()) <= bars_in(regimes, label) {
        order.push(label)
    } else {
        inserted_by_count(regimes, order.drop_last(), label).push(order.last())
    }
}

/// The label is inserted only where the data holds it.
pub open spec fn inserted_if_present(
    regimes: Seq<Option<VolatilityRegime>>,
    order: Seq<VolatilityRegime>,
    label: VolatilityRegime,
) -> Seq<VolatilityRegime> {
    if is_present(regimes, label) {
        inserted_by_count(regimes, order, label)
    } else {
        order
    }
}

/// The labels that occur, scarcest first; equally frequent ones in the order
/// low, medium, high.
pub open spec fn scarcest_first(regimes: Seq<Option<VolatilityRegime>>) -> Seq<VolatilityRegime> {
    let low = inserted_if_present(regimes, Seq::empty(), VolatilityRegime::Low);
    let medium = inserted_if_present(regimes, low, VolatilityRegime::Medium);
    inserted_if_present(regimes, medium, VolatilityRegime::High)
}

/// The segment carries the label, has at least as many bars as the test
/// slice, and its window is still free.
pub open spec fn is_viable(
    layout: WindowLayout,
    placed: Seq<usize>,
    label: VolatilityRegime,
    segment: (usize, usize, VolatilityRegime),
) -> bool {
    &&& segment.2 == label
    &&& segment.1 - segment.0 + 1 >= layout.test_size
    &&& is_free(placed, layout.window_size as int, start_for(layout, segment))
}

/// Width of a segment.
pub open spec fn width(segment: (usize, usize, VolatilityRegime)) -> int {
    segment.1 - segment.0
}

/// The widest viable segment among the given ones, the earliest of equals.
pub open spec fn best_segment(
    layout: WindowLayout,
    placed: Seq<usize>,
    label: VolatilityRegime,
    segments: Seq<(usize, usize, VolatilityRegime)>,
) -> Option<(usize, usize, VolatilityRegime)>
    decreases segments.len(),
{
    if segments.len() == 0 {
        None
    } else {
        let best = best_segment(layout, placed, label, segments.drop_last());
        if is_viable(layout, placed, label, segments.last()) && match best {
            Some(other) => width(segments.last()) > width(other),
            None => true,
        } {
            Some(segments.last())
        } else {
            best
        }
    }
}

/// Starts reserved for the labels in turn, one each where one is free.
pub open spec fn reserved_offsets(
    layout: WindowLayout,
    segments: Seq<(usize, usize, VolatilityRegime)>,
    labels: Seq<VolatilityRegime>,
) -> Seq<usize>
    decreases labels.len(),
{
    if labels.len() == 0 {
        Seq::empty()
    } else {
        let placed = reserved_offsets(layout, segments, labels.drop_last());
        match best_segment(layout, placed, labels.last(), segments) {
            Some(segment) => placed.push(start_for(layout, segment) as usize),
            None => placed,
        }
    }
}

/// Fills up with evenly spaced starts that are still free, from `candidate`.
pub open spec fn filled_offsets(layout: WindowLayout, placed: Seq<usize>, candidate: int) -> Seq<usize>
    decreases greatest(layout.last_start() + 1 - candidate, 0),
{
    if placed.len() < layout.num_windows && candidate <= layout.last_start() && layout.step() >= 1 {
        let next = if is_free(placed, layout.window_size as int, candidate) {
            placed.push(candidate as usize)
        } else {
            placed
        };
        filled_offsets(layout, next, candidate + layout.step())
    } else {
        placed
    }
}

/// Starts in the order in which they are placed: first one window for each
/// regime that occurs, scarcest first, then evenly spaced ones.
pub open spec fn placed_offsets(layout: WindowLayout, regimes: Seq<Option<VolatilityRegime>>) -> Seq<usize> {
    let order = scarcest_first(regimes);
    let wanted = order.take(least(order.len() as int, layout.num_windows as int));
    filled_offsets(layout, reserved_offsets(layout, segments_of(regimes), wanted), 0)
}

/// In ascending order.
pub open spec fn is_ascending(s: Seq<usize>) -> bool {
    forall|i: int, j: int| 0 <= i <= j < s.len() ==> s[i] <= s[j]
}

/// The starts of the walk-forward windows.
pub open spec fn are_offsets(
    layout: WindowLayout,
    regimes: Option<Seq<Option<VolatilityRegime>>>,
    offsets: Seq<usize>,
) -> bool {
    if !layout.is_feasible() {
        offsets.len() == 0
    } else {
        match regimes {
            None => offsets == uniform_offsets(layout),
            Some(labels) => {
                &&& is_ascending(offsets)
                &&& offsets.to_multiset() == placed_offsets(layout, labels).to_multiset()
            },
        }
    }
}

/// A copy in ascending order.
fn ascending_copy(values: &Vec<usize>) -> (sorted: Vec<usize>)
    ensures
        is_ascending(sorted@),
        sorted@.to_multiset() == values@.to_multiset(),
{
    let mut sorted: Vec<usize> = Vec::new();
    let mut i: usize = 0;
    proof {
        assert(values@.take(0) =~= sorted@);
    }
    while i < values.len()
        invariant
            i <= values@.len(),
            sorted@.len() == i,
            is_ascending(sorted@),
            sorted@.to_multiset() == values@.take(i as int).to_multiset(),
        decreases values@.len() - i,
    {
        let value: usize = values[i];
        let mut at: usize = sorted.len();
        while at > 0 && sorted[at - 1] > value
            invariant
                at <= sorted@.len(),
                forall|k: int| at <= k < sorted@.len() ==> sorted@[k] > value,
            decreases at,
        {
            at = at - 1;
        }
        let ghost before = sorted@;
        sorted.insert(at, value);
        proof {
            vstd::seq_lib::to_multiset_remove(sorted@, at as int);
            assert(sorted@.remove(at as int) =~= before);
            assert(sorted@[at as int] == value);
            sorted@.to_multiset_ensures();
            assert(sorted@.contains(value));
            assert(sorted@.to_multiset() =~= before.to_multiset().insert(value));
            vstd::seq_lib::to_multiset_build(values@.take(i as int), value);
            assert(values@.take(i as int + 1) =~= values@.take(i as int).push(value));
            assert forall|a: int, b: int| 0 <= a <= b < sorted@.len() implies sorted@[a] <= sorted@[b] by {
                if a < at && b >= at {
                    if at > 0 {
                        assert(before[a] <= before[at as int - 1]);
                    }
                }
            }
        }
        i = i + 1;
    }
    assert(values@.take(i as int) =~= values@);
    sorted
}

fn overlaps_none(placed: &Vec<usize>, layout: WindowLayout, start: usize) -> (free: bool)
    requires
        layout.is_feasible(),
        start <= layout.last_start(),
        forall|i: int| 0 <= i < placed@.len() ==> #[trigger] placed@[i] <= layout.last_start(),
    ensures
        free == is_free(placed@, layout.window_size as int, start as int),
{
    let mut i: usize = 0;
    while i < placed.len()
        invariant
            i <= placed@.len(),
            layout.is_feasible(),
            start <= layout.last_start(),
            forall|k: int| 0 <= k < placed@.len() ==> #[trigger] placed@[k] <= layout.last_start(),
            forall|k: int| 0 <= k < i ==> apart(#[trigger] placed@[k] as int, start as int, layout.window_size as int),
        decreases placed@.len() - i,
    {
        let other: usize = placed[i];
        if start < other + layout.window_size && start + layout.window_size > other {
            assert(!apart(placed@[i as int] as int, start as int, layout.window_size as int));
            return false;
        }
        i = i + 1;
    }
    true
}

fn window_start(layout: WindowLayout, segment: (usize, usize, VolatilityRegime)) -> (start: usize)
    requires
        layout.is_feasible(),
        segment.0 <= segment.1,
    ensures
        start == start_for(layout, segment),
        start <= layout.last_start(),
{
    let last_start: usize = layout.n - layout.window_size;
    let middle: usize = segment.0 + (segment.1 - segment.0) / 2;
    assert(middle == (segment.0 + segment.1) / 2);
    let wanted: usize = middle.saturating_add(layout.test_size / 2).saturating_sub(layout.window_size);
    if wanted < last_start {
        wanted
    } else {
        last_start
    }
}

fn labels_by_count(regimes: &[Option<VolatilityRegime>]) -> (order: Vec<VolatilityRegime>)
    ensures
        order@ == scarcest_first(regimes@),
{
    let mut order: Vec<VolatilityRegime> = Vec::new();
    insert_label(regimes, &mut order, VolatilityRegime::Low);
    insert_label(regimes, &mut order, VolatilityRegime::Medium);
    insert_label(regimes, &mut order, VolatilityRegime::High);
    order
}

fn insert_label(regimes: &[Option<VolatilityRegime>], order: &mut Vec<VolatilityRegime>, label: VolatilityRegime)
    ensures
        final(order)@ == inserted_if_present(regimes@, old(order)@, label),
{
    let count: usize = count_of(regimes, label);
    if count == 0 {
        return;
    }
    let ghost whole = order@;
    let mut at: usize = order.len();
    assert(whole.take(at as int) =~= whole);
    assert(inserted_by_count(regimes@, whole, label) =~= inserted_by_count(regimes@, whole, label) + whole.skip(
        at as int,
    ));
    while at > 0 && count_of(regimes, order[at - 1]) > count
        invariant
            at <= order@.len(),
            order@ == whole,
            count == bars_in(regimes@, label),
            inserted_by_count(regimes@, whole, label) == inserted_by_count(regimes@, whole.take(at as int), label)
                + whole.skip(at as int),
        decreases at,
    {
        proof {
            let head = whole.take(at as int);
            assert(head.drop_last() =~= whole.take(at as int - 1));
            assert(head.last() == whole[at as int - 1]);
            assert(inserted_by_count(regimes@, whole.take(at as int - 1), label).push(head.last()) + whole.skip(
                at as int,
            ) =~= inserted_by_count(regimes@, whole.take(at as int - 1), label) + whole.skip(at as int - 1));
        }
        at = at - 1;
    }
    proof {
        let head = whole.take(at as int);
        if at > 0 {
            assert(head.last() == whole[at as int - 1]);
        }
        assert(inserted_by_count(regimes@, head, label) == head.push(label));
        assert(whole.insert(at as int, label) =~= head.push(label) + whole.skip(at as int));
    }
    order.insert(at, label);
}

fn pick_segment(
    layout: WindowLayout,
    placed: &Vec<usize>,
    label: VolatilityRegime,
    segments: &Vec<(usize, usize, VolatilityRegime)>,
) -> (best: Option<(usize, usize, VolatilityRegime)>)
    requires
        layout.is_feasible(),
        forall|i: int| 0 <= i < placed@.len() ==> #[trigger] placed@[i] <= layout.last_start(),
        forall|i: int| 0 <= i < segments@.len() ==> (#[trigger] segments@[i]).0 <= segments@[i].1,
    ensures
        best == best_segment(layout, placed@, label, segments@),
        best matches Some(segment) ==> segment.0 <= segment.1 && is_viable(layout, placed@, label, segment),
{
    let mut best: Option<(usize, usize, VolatilityRegime)> = None;
    let mut i: usize = 0;
    assert(segments@.take(0) =~= Seq::empty());
    while i < segments.len()
        invariant
            i <= segments@.len(),
            layout.is_feasible(),
            forall|k: int| 0 <= k < placed@.len() ==> #[trigger] placed@[k] <= layout.last_start(),
            forall|k: int| 0 <= k < segments@.len() ==> (#[trigger] segments@[k]).0 <= segments@[k].1,
            best == best_segment(layout, placed@, label, segments@.take(i as int)),
            best matches Some(segment) ==> segment.0 <= segment.1 && is_viable(layout, placed@, label, segment),
        decreases segments@.len() - i,
    {
        proof {
            assert(segments@.take(i as int + 1).drop_last() =~= segments@.take(i as int));
        }
        let segment: (usize, usize, VolatilityRegime) = segments[i];
        if segment.2 == label && (layout.test_size == 0 || segment.1 - segment.0 >= layout.test_size - 1) {
            let start: usize = window_start(layout, segment);
            if overlaps_none(placed, layout, start) {
                let wider = match best {
                    Some(other) => segment.1 - segment.0 > other.1 - other.0,
                    None => true,
                };
                if wider {
                    best = Some(segment);
                }
            }
        }
        i = i + 1;
    }
    assert(segments@.take(i as int) =~= segments@);
    best
}

/// Starts of the walk-forward windows, ascending.
///
/// Each window spans `window_size` bars and is tested on its last
/// `test_size` bars. Without `regimes` the windows are evenly spaced. With
/// them, one window is first reserved for each regime that occurs, scarcest
/// first, and the rest is filled with evenly spaced windows that are free. A
/// regime segment with fewer bars than the test slice gets no window.
pub fn resolve_wf_window_offsets(
    n: usize,
    window_size: usize,
    num_windows: usize,
    test_size: usize,
    regimes: Option<&[Option<VolatilityRegime>]>,
) -> (offsets: Vec<usize>)
    ensures
        are_offsets(
            (WindowLayout { n, window_size, num_windows, test_size }),
            match regimes {
                Some(labels) => Some(labels@),
                None => None,
            },
            offsets@,
        ),
{
    let layout = WindowLayout { n, window_size, num_windows, test_size };
    if num_windows == 0 || window_size == 0 || window_size > n {
        return Vec::new();
    }
    let last_start: usize = n - window_size;
    let step: usize = resolve_wf_step(n, window_size, num_windows);
    match regimes {
        None => evenly_spaced(layout, last_start, step),
        Some(labels) => {
            let mut placed: Vec<usize> = reserve_by_regime(layout, labels);
            let mut candidate: usize = 0;
            let ghost target = filled_offsets(layout, placed@, 0);
            while placed.len() < num_windows && candidate <= last_start
                invariant
                    layout == (WindowLayout { n, window_size, num_windows, test_size }),
                    layout.is_feasible(),
                    last_start == layout.last_start(),
                    step == layout.step(),
                    step >= 1,
                    forall|k: int| 0 <= k < placed@.len() ==> #[trigger] placed@[k] <= layout.last_start(),
                    target == filled_offsets(layout, placed@, candidate as int) || candidate == usize::MAX,
                    candidate == usize::MAX ==> target == placed@,
                decreases usize::MAX - candidate,
            {
                if overlaps_none(&placed, layout, candidate) {
                    placed.push(candidate);
                }
                let ghost next = candidate + step;
                candidate = candidate.saturating_add(step);
                assert(target == filled_offsets(layout, placed@, next));
            }
            ascending_copy(&placed)
        },
    }
}

fn evenly_spaced(layout: WindowLayout, last_start: usize, step: usize) -> (offsets: Vec<usize>)
    requires
        layout.is_feasible(),
        last_start == layout.last_start(),
        step == layout.step(),
    ensures
        offsets@ == uniform_offsets(layout),
{
    let mut offsets: Vec<usize> = Vec::new();
    let mut i: usize = 0;
    let mut at: usize = 0;
    while i < layout.num_windows
        invariant
            i <= layout.num_windows,
            layout.is_feasible(),
            last_start == layout.last_start(),
            step == layout.step(),
            step >= 1,
            at == least(i * step, usize::MAX as int),
            offsets@ =~= uniform_offsets(layout).take(i as int),
        decreases layout.num_windows - i,
    {
        let start: usize = if at < last_start { at } else { last_start };
        offsets.push(start);
        assert((i + 1) * step == i * step + step) by (nonlinear_arith);
        at = at.saturating_add(step);
        i = i + 1;
    }
    offsets
}

fn reserve_by_regime(layout: WindowLayout, labels: &[Option<VolatilityRegime>]) -> (placed: Vec<usize>)
    requires
        layout.is_feasible(),
    ensures
        placed@ == ({
            let order = scarcest_first(labels@);
            let wanted = order.take(least(order.len() as int, layout.num_windows as int));
            reserved_offsets(layout, segments_of(labels@), wanted)
        }),
        forall|k: int| 0 <= k < placed@.len() ==> #[trigger] placed@[k] <= layout.last_start(),
{
    let segments = regime_segments(labels);
    let order = labels_by_count(labels);
    proof {
        assert(labels@.len() == labels.len());
        law_segments_are_ordered_runs(labels@);
    }
    let mut placed: Vec<usize> = Vec::new();
    let mut i: usize = 0;
    assert(order@.take(0) =~= Seq::empty());
    while i < order.len() && i < layout.num_windows
        invariant
            i <= order@.len(),
            i <= layout.num_windows,
            layout.is_feasible(),
            placed@ == reserved_offsets(layout, segments@, order@.take(i as int)),
            forall|k: int| 0 <= k < placed@.len() ==> #[trigger] placed@[k] <= layout.last_start(),
            forall|k: int| 0 <= k < segments@.len() ==> (#[trigger] segments@[k]).0 <= segments@[k].1,
        decreases order@.len() - i,
    {
        proof {
            assert(order@.take(i as int + 1).drop_last() =~= order@.take(i as int));
        }
        if let Some(segment) = pick_segment(layout, &placed, order[i], &segments) {
            placed.push(window_start(layout, segment));
        }
        i = i + 1;
    }
    placed
}

/// Number of walk-forward windows: the one that is asked for, or the one that
/// suits the data where none is.
pub fn choose_window_count(
    asked: usize,
    calendar_days: usize,
    data_len: usize,
    regimes: &[Option<VolatilityRegime>],
) -> (windows: usize)
    ensures
        windows == if asked > 0 {
            asked as int
        } else {
            auto_windows(calendar_days as nat, data_len as nat, segments_of(regimes@).len())
        },
{
    if asked > 0 {
        asked
    } else {
        resolve_auto_wf_windows(calendar_days, data_len, Some(regimes))
    }
}

} // verus!
