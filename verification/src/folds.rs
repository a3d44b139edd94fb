//! Train and test slices of the walk-forward windows, and the order in which
//! they are run.

use vstd::prelude::*;

use crate::double::{
    lemma_part_is_smaller, lemma_rest_grows, lemma_seven_tenths, lemma_tenths, part_of, seven_tenths_of, EXACT_COUNTS_END,
};
use crate::regime::VolatilityRegime;
use crate::text::{append_text, decimal, decimal_digits};
use crate::walk_forward::{
    are_offsets, purge_gap, resolve_wf_purge_gap_bars, resolve_wf_window_offsets, training_end, uniform_offsets,
    WindowLayout,
};
use crate::window_laws::{law_even_windows_span_the_data, law_regime_windows_stay_disjoint};

verus! {

/// Fewest bars for which walk-forward is attempted.
pub const MIN_WALK_FORWARD_BARS: usize = 100;

/// Bars that one window trains on and bars that it is tested on. Ends are
/// exclusive.
#[derive(Clone, Copy, Debug, PartialEq, Eq, Structural)]
pub struct WindowBounds {
    pub train_start: usize,
    pub train_end: usize,
    pub test_start: usize,
    pub test_end: usize,
}

/// Why there is no walk-forward result.
#[derive(Clone, Copy, Debug, PartialEq, Eq, Structural)]
pub enum WalkForwardError {
    /// Fewer bars than [`MIN_WALK_FORWARD_BARS`].
    InsufficientData { bars: usize },
    /// No window could be run to the end.
    NoWindows { num_windows: usize },
}

impl WalkForwardError {
    /// What the error says.
    pub open spec fn text(self) -> Seq<char> {
        match self {
            WalkForwardError::InsufficientData { bars } =>
                "Insufficient data for walk-forward analysis (need >= 100 ticks, got "@ + decimal_digits(bars as nat)
                    + ")"@,
            WalkForwardError::NoWindows { num_windows } =>
                "Walk-forward produced no windows (data too short for "@ + decimal_digits(num_windows as nat)
                    + " windows)"@,
        }
    }

    /// Text of the error.
    pub fn message(&self) -> (text: String)
        ensures
            text@ == self.text(),
    {
        match self {
            WalkForwardError::InsufficientData { bars } => {
                let mut text: String = "Insufficient data for walk-forward analysis (need >= 100 ticks, got ".to_owned();
                append_text(&mut text, decimal(*bars).as_str());
                append_text(&mut text, ")");
                text
            },
            WalkForwardError::NoWindows { num_windows } => {
                let mut text: String = "Walk-forward produced no windows (data too short for ".to_owned();
                append_text(&mut text, decimal(*num_windows).as_str());
                append_text(&mut text, " windows)");
                text
            },
        }
    }
}

/// Sizes of the two slices of a window and of the embargo between them.
#[derive(Clone, Copy, Debug, PartialEq, Eq, Structural)]
pub struct SliceSizes {
    pub train_size: usize,
    pub test_size: usize,
    pub purge_gap_bars: usize,
}

/// Sizes for windows of the given length.
pub open spec fn sizes_for(n: nat, span_ms: int, window_size: nat) -> SliceSizes {
    let train = part_of(window_size, 7, 10);
    let test = window_size - train;
    SliceSizes {
        train_size: train as usize,
        test_size: test as usize,
        purge_gap_bars: purge_gap(n, span_ms, test as nat) as usize,
    }
}

/// Training bars, embargo and test bars all lie within the data.
pub open spec fn fits(sizes: SliceSizes, n: nat, offset: int) -> bool {
    offset + sizes.train_size + sizes.purge_gap_bars + sizes.test_size <= n
}

/// The slices of the window that starts at `offset`.
pub open spec fn bounds_at(sizes: SliceSizes, offset: int) -> WindowBounds {
    WindowBounds {
        train_start: offset as usize,
        train_end: (offset + sizes.train_size) as usize,
        test_start: (offset + sizes.train_size + sizes.purge_gap_bars) as usize,
        test_end: (offset + sizes.train_size + sizes.purge_gap_bars + sizes.test_size) as usize,
    }
}

/// The slices of those windows that fit, in order.
pub open spec fn fitting_bounds(sizes: SliceSizes, n: nat, offsets: Seq<usize>) -> Seq<WindowBounds>
    decreases offsets.len(),
{
    if offsets.len() == 0 {
        Seq::empty()
    } else {
        let before = fitting_bounds(sizes, n, offsets.drop_last());
        if fits(sizes, n, offsets.last() as int) {
            before.push(bounds_at(sizes, offsets.last() as int))
        } else {
            before
        }
    }
}

/// The windows of the layout, with their slices.
pub open spec fn are_windows(
    layout: WindowLayout,
    regimes: Option<Seq<Option<VolatilityRegime>>>,
    sizes: SliceSizes,
    windows: Seq<WindowBounds>,
) -> bool {
    exists|offsets: Seq<usize>|
        #[trigger] are_offsets(layout, regimes, offsets) && windows == fitting_bounds(
            sizes,
            layout.n as nat,
            offsets,
        )
}

/// Layout of `num_windows` windows that share the data evenly.
pub open spec fn layout_for(n: usize, num_windows: usize) -> WindowLayout {
    let size = (n / if num_windows == 0 { 1 } else { num_windows }) as usize;
    WindowLayout {
        n,
        window_size: size,
        num_windows,
        test_size: (size - part_of(size as nat, 7, 10)) as usize,
    }
}

/// Sizes of the slices of a window.
pub fn slice_sizes(n: usize, span_ms: i64, window_size: usize) -> (sizes: SliceSizes)
    ensures
        sizes == sizes_for(n as nat, span_ms as int, window_size as nat),
        sizes.train_size == part_of(window_size as nat, 7, 10),
        sizes.train_size + sizes.test_size == window_size,
        sizes.purge_gap_bars == purge_gap(n as nat, span_ms as int, sizes.test_size as nat),
        sizes.purge_gap_bars <= sizes.test_size / 2,
        window_size >= 1 ==> sizes.test_size >= 1,
{
    let train_size: usize = seven_tenths_of(window_size);
    let test_size: usize = window_size - train_size;
    let purge_gap_bars: usize = resolve_wf_purge_gap_bars(n, span_ms, test_size);
    SliceSizes { train_size, test_size, purge_gap_bars }
}

/// The slices of the windows that fit.
fn bounds_of(sizes: SliceSizes, n: usize, offsets: &Vec<usize>) -> (windows: Vec<WindowBounds>)
    requires
        sizes.train_size + sizes.test_size <= n,
    ensures
        windows@ == fitting_bounds(sizes, n as nat, offsets@),
{
    let mut windows: Vec<WindowBounds> = Vec::new();
    let mut i: usize = 0;
    assert(offsets@.take(0) =~= Seq::empty());
    while i < offsets.len()
        invariant
            i <= offsets@.len(),
            sizes.train_size + sizes.test_size <= n,
            windows@ == fitting_bounds(sizes, n as nat, offsets@.take(i as int)),
        decreases offsets@.len() - i,
    {
        proof {
            assert(offsets@.take(i as int + 1).drop_last() =~= offsets@.take(i as int));
        }
        let offset: usize = offsets[i];
        let room: usize = n - sizes.train_size - sizes.test_size;
        if sizes.purge_gap_bars <= room && offset <= room - sizes.purge_gap_bars {
            let train_end: usize = offset + sizes.train_size;
            let test_start: usize = train_end + sizes.purge_gap_bars;
            let test_end: usize = test_start + sizes.test_size;
            windows.push(WindowBounds { train_start: offset, train_end, test_start, test_end });
        }
        i = i + 1;
    }
    assert(offsets@.take(i as int) =~= offsets@);
    windows
}

/// The windows of a walk-forward pass over `n` bars that span `span_ms`.
///
/// Each trains on seven tenths of its bars, skips the embargo, and is tested
/// on as many bars as remain; a window that would run past the data is left
/// out.
pub fn plan_walk_forward(
    n: usize,
    span_ms: i64,
    num_windows: usize,
    regimes: &[Option<VolatilityRegime>],
) -> (plan: Result<Vec<WindowBounds>, WalkForwardError>)
    ensures
        n < MIN_WALK_FORWARD_BARS ==> plan == Err::<Vec<WindowBounds>, WalkForwardError>(
            WalkForwardError::InsufficientData { bars: n },
        ),
        n >= MIN_WALK_FORWARD_BARS ==> plan is Ok && are_windows(
            layout_for(n, num_windows),
            Some(regimes@),
            sizes_for(n as nat, span_ms as int, layout_for(n, num_windows).window_size as nat),
            plan->Ok_0@,
        ),
{
    if n < MIN_WALK_FORWARD_BARS {
        return Err(WalkForwardError::InsufficientData { bars: n });
    }
    let window_size: usize = n / if num_windows == 0 { 1 } else { num_windows };
    let sizes: SliceSizes = slice_sizes(n, span_ms, window_size);
    let offsets = resolve_wf_window_offsets(n, window_size, num_windows, sizes.test_size, Some(regimes));
    proof {
        let w: int = if num_windows == 0 { 1 } else { num_windows as int };
        assert(window_size <= n) by (nonlinear_arith)
            requires
                window_size == n as int / w,
                w >= 1,
        ;
        assert(layout_for(n, num_windows) == (WindowLayout { n, window_size, num_windows, test_size: sizes.test_size }));
    }
    let windows = bounds_of(sizes, n, &offsets);
    proof {
        assert(are_offsets(layout_for(n, num_windows), Some(regimes@), offsets@));
    }
    Ok(windows)
}

/// The folds on which one fixed set of parameters is judged: evenly spaced
/// windows with the same slices as a walk-forward pass. None where the data
/// is too short for a real fold.
pub fn plan_folds(n: usize, span_ms: i64, num_folds: usize) -> (folds: Vec<WindowBounds>)
    ensures
        ({
            let layout = layout_for(n, num_folds);
            let sizes = sizes_for(n as nat, span_ms as int, layout.window_size as nat);
            if num_folds == 0 || n < MIN_WALK_FORWARD_BARS || layout.window_size == 0 || sizes.train_size == 0
                || sizes.test_size == 0 {
                folds@.len() == 0
            } else {
                are_windows(layout, None, sizes, folds@)
            }
        }),
{
    if num_folds == 0 || n < MIN_WALK_FORWARD_BARS {
        return Vec::new();
    }
    let window_size: usize = n / num_folds;
    if window_size == 0 {
        return Vec::new();
    }
    let sizes: SliceSizes = slice_sizes(n, span_ms, window_size);
    if sizes.train_size == 0 || sizes.test_size == 0 {
        return Vec::new();
    }
    let offsets = resolve_wf_window_offsets(n, window_size, num_folds, sizes.test_size, None);
    proof {
        assert(window_size <= n) by (nonlinear_arith)
            requires
                window_size == n as int / num_folds as int,
                num_folds >= 1,
        ;
        assert(layout_for(n, num_folds) == (WindowLayout { n, window_size, num_windows: num_folds, test_size: sizes.test_size }));
    }
    let windows = bounds_of(sizes, n, &offsets);
    proof {
        assert(are_offsets(layout_for(n, num_folds), None, offsets@));
    }
    windows
}

/// Starts at least a window apart, in ascending order.
pub open spec fn are_spaced(offsets: Seq<usize>, window_size: nat) -> bool {
    forall|i: int, j: int|
        0 <= i < j < offsets.len() ==> #[trigger] offsets[i] + window_size <= #[trigger] offsets[j]
}

proof fn lemma_fitting_bounds(sizes: SliceSizes, n: nat, offsets: Seq<usize>, window_size: nat)
    requires
        n <= usize::MAX,
        are_spaced(offsets, window_size),
    ensures
        forall|k: int|
            0 <= k < fitting_bounds(sizes, n, offsets).len() ==> {
                let w = #[trigger] fitting_bounds(sizes, n, offsets)[k];
                &&& w == bounds_at(sizes, w.train_start as int)
                &&& fits(sizes, n, w.train_start as int)
                &&& offsets.contains(w.train_start)
            },
        forall|i: int, j: int|
            0 <= i < j < fitting_bounds(sizes, n, offsets).len() ==> (#[trigger] fitting_bounds(
                sizes,
                n,
                offsets,
            )[i]).train_start + window_size <= (#[trigger] fitting_bounds(sizes, n, offsets)[j]).train_start,
    decreases offsets.len(),
{
    if offsets.len() > 0 {
        let head = offsets.drop_last();
        assert forall|i: int, j: int| 0 <= i < j < head.len() implies #[trigger] head[i] + window_size
            <= #[trigger] head[j] by {
            assert(offsets[i] + window_size <= offsets[j]);
        }
        lemma_fitting_bounds(sizes, n, head, window_size);
        let before = fitting_bounds(sizes, n, head);
        let all = fitting_bounds(sizes, n, offsets);
        assert forall|k: int| 0 <= k < before.len() implies offsets.contains((#[trigger] before[k]).train_start)
            && before[k].train_start + window_size <= offsets.last() by {
            let t = before[k].train_start;
            assert(head.contains(t));
            let h = choose|h: int| 0 <= h < head.len() && head[h] == t;
            assert(offsets[h] == t);
            assert(offsets[h] + window_size <= offsets[offsets.len() - 1]);
        }
        assert(offsets[offsets.len() - 1] == offsets.last());
        assert forall|k: int| 0 <= k < all.len() implies {
            let w = #[trigger] all[k];
            &&& w == bounds_at(sizes, w.train_start as int)
            &&& fits(sizes, n, w.train_start as int)
            &&& offsets.contains(w.train_start)
        } by {
            if k < before.len() {
                assert(all[k] == before[k]);
            }
        }
        assert forall|i: int, j: int| 0 <= i < j < all.len() implies (#[trigger] all[i]).train_start + window_size
            <= (#[trigger] all[j]).train_start by {
            assert(all[i] == before[i]);
            if j < before.len() {
                assert(all[j] == before[j]);
            }
        }
    }
}

/// The bars a window is tested on come after those it trained on, with the
/// embargo between them, and within the data.
pub open spec fn is_purged(sizes: SliceSizes, n: nat, w: WindowBounds) -> bool {
    &&& w.train_end == w.train_start + sizes.train_size
    &&& w.test_start == w.train_end + sizes.purge_gap_bars
    &&& w.test_end == w.test_start + sizes.test_size
    &&& w.test_end <= n
}

proof fn lemma_windows_are_purged(
    layout: WindowLayout,
    sizes: SliceSizes,
    offsets: Seq<usize>,
    windows: Seq<WindowBounds>,
)
    requires
        sizes.train_size + sizes.test_size == layout.window_size,
        are_spaced(offsets, layout.window_size as nat),
        windows == fitting_bounds(sizes, layout.n as nat, offsets),
    ensures
        forall|k: int| 0 <= k < windows.len() ==> is_purged(sizes, layout.n as nat, #[trigger] windows[k]),
        forall|i: int, j: int|
            0 <= i < j < windows.len() ==> (#[trigger] windows[i]).test_end <= (#[trigger] windows[j]).test_start
                && windows[i].train_end <= windows[j].train_start,
{
    lemma_fitting_bounds(sizes, layout.n as nat, offsets, layout.window_size as nat);
    assert forall|k: int| 0 <= k < windows.len() implies is_purged(sizes, layout.n as nat, #[trigger] windows[k]) by {
        let w = windows[k];
        assert(fits(sizes, layout.n as nat, w.train_start as int));
    }
    assert forall|i: int, j: int| 0 <= i < j < windows.len() implies (#[trigger] windows[i]).test_end
        <= (#[trigger] windows[j]).test_start && windows[i].train_end <= windows[j].train_start by {
        assert(is_purged(sizes, layout.n as nat, windows[i]));
        assert(is_purged(sizes, layout.n as nat, windows[j]));
        assert(windows[i].train_start + layout.window_size <= windows[j].train_start);
    }
}

/// No lookahead: in every window of a walk-forward pass the test bars follow
/// the training bars with the whole embargo between them and end within the
/// data, and no bar is tested on in two windows.
pub proof fn law_walk_forward_never_tests_on_training_bars(
    n: usize,
    span_ms: int,
    num_windows: usize,
    regimes: Seq<Option<VolatilityRegime>>,
    windows: Seq<WindowBounds>,
)
    requires
        are_windows(
            layout_for(n, num_windows),
            Some(regimes),
            sizes_for(n as nat, span_ms, layout_for(n, num_windows).window_size as nat),
            windows,
        ),
    ensures
        ({
            let sizes = sizes_for(n as nat, span_ms, layout_for(n, num_windows).window_size as nat);
            forall|k: int| 0 <= k < windows.len() ==> is_purged(sizes, n as nat, #[trigger] windows[k])
        }),
        forall|i: int, j: int|
            0 <= i < j < windows.len() ==> (#[trigger] windows[i]).test_end <= (#[trigger] windows[j]).test_start
                && windows[i].train_end <= windows[j].train_start,
        windows.len() <= num_windows,
{
    let layout = layout_for(n, num_windows);
    let sizes = sizes_for(n as nat, span_ms, layout.window_size as nat);
    let offsets = choose|offsets: Seq<usize>|
        #[trigger] are_offsets(layout, Some(regimes), offsets) && windows == fitting_bounds(sizes, n as nat, offsets);
    lemma_sizes(n, span_ms, layout.window_size);
    if layout.is_feasible() {
        law_regime_windows_stay_disjoint(layout, regimes, offsets);
    }
    lemma_windows_are_purged(layout, sizes, offsets, windows);
    lemma_fitting_count(sizes, n as nat, offsets);
}

/// The quick check that comes before a walk-forward pass never sees the last
/// slice that the pass may test on: whatever the number of windows, a window
/// whose test bars reach the end of the data starts testing no earlier than
/// the quick check ends. Series of up to `2^49` bars are covered; from `2^53`
/// bars on a count is no longer exact in double precision.
pub proof fn law_quick_check_never_sees_the_last_test_slice(
    n: usize,
    span_ms: int,
    num_windows: usize,
    window: WindowBounds,
)
    requires
        2 <= n < EXACT_COUNTS_END,
        is_purged(
            sizes_for(n as nat, span_ms, layout_for(n, num_windows).window_size as nat),
            n as nat,
            window,
        ),
        window.test_end == n,
    ensures
        training_end(n as nat) <= window.test_start,
{
    let size = layout_for(n, num_windows).window_size;
    let parts = if num_windows == 0 { 1 } else { num_windows as int };
    assert(0 <= size <= n) by (nonlinear_arith)
        requires
            size == n as int / parts,
            parts >= 1,
    ;
    lemma_sizes(n, span_ms, size);
    lemma_seven_tenths(n as nat);
    assert(1 <= part_of(n as nat, 7, 10) <= n);
    if size > 0 {
        lemma_tenths();
        lemma_part_is_smaller(size as nat, 7, 10);
        lemma_rest_grows(size as nat, n as nat);
    }
}

/// The same holds of the folds on which one set of parameters is judged.
pub proof fn law_folds_never_test_on_training_bars(
    n: usize,
    span_ms: int,
    num_folds: usize,
    folds: Seq<WindowBounds>,
)
    requires
        1 <= num_folds <= n,
        are_windows(
            layout_for(n, num_folds),
            None,
            sizes_for(n as nat, span_ms, layout_for(n, num_folds).window_size as nat),
            folds,
        ),
    ensures
        ({
            let sizes = sizes_for(n as nat, span_ms, layout_for(n, num_folds).window_size as nat);
            forall|k: int| 0 <= k < folds.len() ==> is_purged(sizes, n as nat, #[trigger] folds[k])
        }),
        forall|i: int, j: int|
            0 <= i < j < folds.len() ==> (#[trigger] folds[i]).test_end <= (#[trigger] folds[j]).test_start
                && folds[i].train_end <= folds[j].train_start,
        folds.len() <= num_folds,
{
    let layout = layout_for(n, num_folds);
    let sizes = sizes_for(n as nat, span_ms, layout.window_size as nat);
    let offsets = choose|offsets: Seq<usize>|
        #[trigger] are_offsets(layout, None, offsets) && folds == fitting_bounds(sizes, n as nat, offsets);
    lemma_sizes(n, span_ms, layout.window_size);
    law_even_windows_span_the_data(layout);
    let step = layout.step();
    assert forall|i: int, j: int| 0 <= i < j < offsets.len() implies #[trigger] offsets[i] + layout.window_size
        <= #[trigger] offsets[j] by {
        assert(offsets[i] == uniform_offsets(layout)[i]);
        assert(offsets[j] == uniform_offsets(layout)[j]);
        assert(i * step + step <= j * step) by (nonlinear_arith)
            requires
                i + 1 <= j,
                step >= 0,
        ;
    }
    lemma_windows_are_purged(layout, sizes, offsets, folds);
    lemma_fitting_count(sizes, n as nat, offsets);
}

proof fn lemma_fitting_count(sizes: SliceSizes, n: nat, offsets: Seq<usize>)
    ensures
        fitting_bounds(sizes, n, offsets).len() <= offsets.len(),
    decreases offsets.len(),
{
    if offsets.len() > 0 {
        lemma_fitting_count(sizes, n, offsets.drop_last());
    }
}

proof fn lemma_sizes(n: usize, span_ms: int, window_size: usize)
    ensures
        ({
            let sizes = sizes_for(n as nat, span_ms, window_size as nat);
            sizes.train_size + sizes.test_size == window_size
        }),
{
    lemma_tenths();
    if window_size > 0 {
        lemma_part_is_smaller(window_size as nat, 7, 10);
    }
}

/// Progress of a pass over planned windows: which windows have been run on
/// both slices.
pub struct WalkForwardRun {
    windows: Vec<WindowBounds>,
    num_windows: usize,
    next: usize,
    trained: bool,
    completed: Vec<WindowBounds>,
}

/// What to run next.
#[derive(Clone, Copy, Debug, PartialEq, Eq, Structural)]
pub enum WalkForwardStep {
    /// Run on the training bars of the window.
    Train(WindowBounds),
    /// Run on the test bars of the window.
    Test(WindowBounds),
    /// Every window has had its turn.
    Done,
}

impl WalkForwardRun {
    /// The windows still to be run, the current one first.
    pub closed spec fn remaining(&self) -> Seq<WindowBounds> {
        self.windows@.skip(self.next as int)
    }

    /// Windows that ran on both slices, in order.
    pub closed spec fn done(&self) -> Seq<WindowBounds> {
        self.completed@
    }

    /// The current window has run on its training bars.
    pub closed spec fn is_trained(&self) -> bool {
        self.trained
    }

    /// Windows asked for.
    pub closed spec fn wanted(&self) -> usize {
        self.num_windows
    }

    /// No more windows are completed or planned than were asked for.
    pub closed spec fn wf(&self) -> bool {
        &&& self.next <= self.windows@.len()
        &&& self.completed@.len() <= self.next
        &&& self.trained ==> self.next < self.windows@.len()
    }

    /// Starts a pass over the planned windows.
    pub fn new(windows: Vec<WindowBounds>, num_windows: usize) -> (run: Self)
        ensures
            run.wf(),
            run.remaining() == windows@,
            run.done() == Seq::<WindowBounds>::empty(),
            !run.is_trained(),
            run.wanted() == num_windows,
    {
        let run = WalkForwardRun { windows, num_windows, next: 0, trained: false, completed: Vec::new() };
        assert(run.remaining() =~= windows@);
        run
    }

    /// What to run next: the training bars of a window, then its test bars.
    /// The pass ends when no window remains or enough have been completed.
    pub fn next_step(&self) -> (step: WalkForwardStep)
        requires
            self.wf(),
        ensures
            step == if self.is_trained() {
                WalkForwardStep::Test(self.remaining()[0])
            } else if self.remaining().len() == 0 || self.done().len() >= self.wanted() {
                WalkForwardStep::Done
            } else {
                WalkForwardStep::Train(self.remaining()[0])
            },
    {
        if self.trained {
            WalkForwardStep::Test(self.windows[self.next])
        } else if self.next >= self.windows.len() || self.completed.len() >= self.num_windows {
            WalkForwardStep::Done
        } else {
            WalkForwardStep::Train(self.windows[self.next])
        }
    }

    /// Takes in whether the training run succeeded; a window whose training
    /// run failed is skipped.
    pub fn on_train(&mut self, succeeded: bool)
        requires
            old(self).wf(),
            !old(self).is_trained(),
            old(self).remaining().len() > 0,
        ensures
            final(self).wf(),
            final(self).wanted() == old(self).wanted(),
            final(self).done() == old(self).done(),
            final(self).is_trained() == succeeded,
            final(self).remaining() == if succeeded {
                old(self).remaining()
            } else {
                old(self).remaining().skip(1)
            },
    {
        if succeeded {
            self.trained = true;
        } else {
            assert(self.windows@.len() == self.windows.len());
            self.next = self.next + 1;
        }
        assert(self.remaining() =~= if succeeded {
            old(self).remaining()
        } else {
            old(self).remaining().skip(1)
        });
    }

    /// Takes in whether the test run succeeded; only then is the window
    /// completed. Returns the number of completed windows in that case.
    pub fn on_test(&mut self, succeeded: bool) -> (completed: Option<usize>)
        requires
            old(self).wf(),
            old(self).is_trained(),
        ensures
            final(self).wf(),
            final(self).wanted() == old(self).wanted(),
            !final(self).is_trained(),
            final(self).remaining() == old(self).remaining().skip(1),
            final(self).done() == if succeeded {
                old(self).done().push(old(self).remaining()[0])
            } else {
                old(self).done()
            },
            completed == if succeeded {
                Some(final(self).done().len() as usize)
            } else {
                None
            },
    {
        let window: WindowBounds = self.windows[self.next];
        self.trained = false;
        assert(self.windows@.len() == self.windows.len());
        self.next = self.next + 1;
        assert(self.remaining() =~= old(self).remaining().skip(1));
        if succeeded {
            self.completed.push(window);
            Some(self.completed.len())
        } else {
            None
        }
    }

    /// The completed windows, or an error where there are none.
    pub fn finish(self) -> (result: Result<Vec<WindowBounds>, WalkForwardError>)
        requires
            self.wf(),
        ensures
            match result {
                Ok(windows) => self.done().len() > 0 && windows@ == self.done(),
                Err(error) => self.done().len() == 0 && error == (WalkForwardError::NoWindows {
                    num_windows: self.wanted(),
                }),
            },
    {
        if self.completed.len() == 0 {
            Err(WalkForwardError::NoWindows { num_windows: self.num_windows })
        } else {
            Ok(self.completed)
        }
    }
}

} // verus!
