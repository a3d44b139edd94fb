//! What holds of every choice of walk-forward windows.

use vstd::prelude::*;
use vstd::relations::{sorted_by, total_ordering};

use crate::double::{below, of_count, quotient};
use crate::double_order::{
    lemma_nearest_is_normal, lemma_nearest_keeps_order, lemma_quotient_turns_order, lemma_rounded_keeps_order,
};
use crate::regime::{bars_in, is_present, segments_of, VolatilityRegime};
use crate::walk_forward::{
    apart, are_offsets, average_bar_ms, best_segment, filled_offsets, inserted_by_count, inserted_if_present, is_free,
    is_viable, least, placed_offsets, purge_gap, reserved_offsets, scarcest_first, start_for, uniform_offsets,
    width, WindowLayout, PURGE_GAP_MS,
};

verus! {

/// Starts that fit into the data and whose windows have no bar in common.
pub open spec fn are_disjoint(layout: WindowLayout, placed: Seq<usize>) -> bool {
    &&& forall|i: int| 0 <= i < placed.len() ==> #[trigger] placed[i] <= layout.last_start()
    &&& forall|i: int, j: int|
        0 <= i < placed.len() && 0 <= j < placed.len() && i != j ==> apart(
            #[trigger] placed[i] as int,
            #[trigger] placed[j] as int,
            layout.window_size as int,
        )
}

proof fn lemma_push_keeps_disjoint(layout: WindowLayout, placed: Seq<usize>, start: int)
    requires
        are_disjoint(layout, placed),
        0 <= start <= layout.last_start(),
        is_free(placed, layout.window_size as int, start),
    ensures
        are_disjoint(layout, placed.push(start as usize)),
{
    let next = placed.push(start as usize);
    assert forall|i: int, j: int| 0 <= i < next.len() && 0 <= j < next.len() && i != j implies apart(
        #[trigger] next[i] as int,
        #[trigger] next[j] as int,
        layout.window_size as int,
    ) by {
        if i < placed.len() && j < placed.len() {
            assert(apart(placed[i] as int, placed[j] as int, layout.window_size as int));
        } else if i < placed.len() {
            assert(apart(placed[i] as int, start, layout.window_size as int));
        } else {
            assert(apart(placed[j] as int, start, layout.window_size as int));
        }
    }
}

proof fn lemma_best_is_viable(
    layout: WindowLayout,
    placed: Seq<usize>,
    label: VolatilityRegime,
    segments: Seq<(usize, usize, VolatilityRegime)>,
)
    ensures
        best_segment(layout, placed, label, segments) matches Some(segment) ==> is_viable(
            layout,
            placed,
            label,
            segment,
        ) && segments.contains(segment),
        best_segment(layout, placed, label, segments) is None ==> forall|k: int|
            0 <= k < segments.len() ==> !is_viable(layout, placed, label, #[trigger] segments[k]),
        best_segment(layout, placed, label, segments) matches Some(segment) ==> forall|k: int|
            0 <= k < segments.len() && is_viable(layout, placed, label, #[trigger] segments[k]) ==> width(segments[k])
                <= width(segment),
    decreases segments.len(),
{
    if segments.len() > 0 {
        let before = segments.drop_last();
        lemma_best_is_viable(layout, placed, label, before);
        let best = best_segment(layout, placed, label, segments);
        if let Some(segment) = best {
            if best_segment(layout, placed, label, before) == Some(segment) && before.contains(segment) {
                let k = choose|k: int| 0 <= k < before.len() && before[k] == segment;
                assert(segments[k] == segment);
            } else {
                assert(segments[segments.len() - 1] == segment);
            }
            assert forall|k: int|
                0 <= k < segments.len() && is_viable(layout, placed, label, #[trigger] segments[k]) implies width(
                segments[k],
            ) <= width(segment) by {
                if k < before.len() {
                    assert(segments[k] == before[k]);
                }
            }
        } else {
            assert forall|k: int| 0 <= k < segments.len() implies !is_viable(
                layout,
                placed,
                label,
                #[trigger] segments[k],
            ) by {
                if k < before.len() {
                    assert(segments[k] == before[k]);
                }
            }
        }
    }
}

/// The window reserved for a regime goes to its widest segment that is still
/// free and no shorter than the test slice; only a regime without such a
/// segment gets none.
pub proof fn law_reserved_window_takes_the_widest_free_segment(
    layout: WindowLayout,
    placed: Seq<usize>,
    label: VolatilityRegime,
    segments: Seq<(usize, usize, VolatilityRegime)>,
)
    ensures
        match best_segment(layout, placed, label, segments) {
            Some(segment) => {
                &&& segments.contains(segment)
                &&& is_viable(layout, placed, label, segment)
                &&& forall|k: int|
                    0 <= k < segments.len() && is_viable(layout, placed, label, #[trigger] segments[k]) ==> width(
                        segments[k],
                    ) <= width(segment)
            },
            None => forall|k: int|
                0 <= k < segments.len() ==> !is_viable(layout, placed, label, #[trigger] segments[k]),
        },
{
    lemma_best_is_viable(layout, placed, label, segments);
}

proof fn lemma_reserved_is_disjoint(
    layout: WindowLayout,
    segments: Seq<(usize, usize, VolatilityRegime)>,
    labels: Seq<VolatilityRegime>,
)
    requires
        layout.is_feasible(),
    ensures
        are_disjoint(layout, reserved_offsets(layout, segments, labels)),
        reserved_offsets(layout, segments, labels).len() <= labels.len(),
    decreases labels.len(),
{
    if labels.len() > 0 {
        lemma_reserved_is_disjoint(layout, segments, labels.drop_last());
        let placed = reserved_offsets(layout, segments, labels.drop_last());
        lemma_best_is_viable(layout, placed, labels.last(), segments);
        if let Some(segment) = best_segment(layout, placed, labels.last(), segments) {
            lemma_push_keeps_disjoint(layout, placed, start_for(layout, segment));
        }
    }
}

proof fn lemma_filled_is_disjoint(layout: WindowLayout, placed: Seq<usize>, candidate: int)
    requires
        layout.is_feasible(),
        are_disjoint(layout, placed),
        placed.len() <= layout.num_windows,
        0 <= candidate,
    ensures
        are_disjoint(layout, filled_offsets(layout, placed, candidate)),
        filled_offsets(layout, placed, candidate).len() <= layout.num_windows,
    decreases crate::walk_forward::greatest(layout.last_start() + 1 - candidate, 0),
{
    if placed.len() < layout.num_windows && candidate <= layout.last_start() && layout.step() >= 1 {
        if is_free(placed, layout.window_size as int, candidate) {
            lemma_push_keeps_disjoint(layout, placed, candidate);
            lemma_filled_is_disjoint(layout, placed.push(candidate as usize), candidate + layout.step());
        } else {
            lemma_filled_is_disjoint(layout, placed, candidate + layout.step());
        }
    }
}

proof fn lemma_placed_is_disjoint(layout: WindowLayout, regimes: Seq<Option<VolatilityRegime>>)
    requires
        layout.is_feasible(),
    ensures
        are_disjoint(layout, placed_offsets(layout, regimes)),
        placed_offsets(layout, regimes).len() <= layout.num_windows,
{
    let order = scarcest_first(regimes);
    let wanted = order.take(least(order.len() as int, layout.num_windows as int));
    lemma_reserved_is_disjoint(layout, segments_of(regimes), wanted);
    lemma_filled_is_disjoint(layout, reserved_offsets(layout, segments_of(regimes), wanted), 0);
}

proof fn lemma_same_members(a: Seq<usize>, b: Seq<usize>, x: usize)
    requires
        a.to_multiset() == b.to_multiset(),
        a.contains(x),
    ensures
        b.contains(x),
{
    a.to_multiset_ensures();
    b.to_multiset_ensures();
    assert(a.to_multiset().count(x) > 0);
    assert(b.to_multiset().count(x) > 0);
}

/// With regimes, the windows come in ascending order, at most as many as
/// asked for, each lies within the data, and no two share a bar.
pub proof fn law_regime_windows_stay_disjoint(
    layout: WindowLayout,
    regimes: Seq<Option<VolatilityRegime>>,
    offsets: Seq<usize>,
)
    requires
        layout.is_feasible(),
        are_offsets(layout, Some(regimes), offsets),
    ensures
        offsets.len() <= layout.num_windows,
        forall|i: int| 0 <= i < offsets.len() ==> #[trigger] offsets[i] + layout.window_size <= layout.n,
        forall|i: int, j: int|
            0 <= i < j < offsets.len() ==> #[trigger] offsets[i] + layout.window_size <= #[trigger] offsets[j],
{
    lemma_placed_is_disjoint(layout, regimes);
    let placed = placed_offsets(layout, regimes);
    placed.to_multiset_ensures();
    offsets.to_multiset_ensures();
    assert(placed.no_duplicates()) by {
        assert forall|i: int, j: int| 0 <= i < placed.len() && 0 <= j < placed.len() && i != j implies placed[i]
            != placed[j] by {
            assert(apart(placed[i] as int, placed[j] as int, layout.window_size as int));
        }
    }
    placed.lemma_multiset_has_no_duplicates();
    offsets.lemma_multiset_has_no_duplicates_conv();
    assert forall|i: int| 0 <= i < offsets.len() implies #[trigger] offsets[i] + layout.window_size <= layout.n by {
        assert(offsets.contains(offsets[i]));
        lemma_same_members(offsets, placed, offsets[i]);
        let k = choose|k: int| 0 <= k < placed.len() && placed[k] == offsets[i];
        assert(placed[k] <= layout.last_start());
    }
    assert forall|i: int, j: int| 0 <= i < j < offsets.len() implies #[trigger] offsets[i] + layout.window_size
        <= #[trigger] offsets[j] by {
        assert(offsets.contains(offsets[i]));
        assert(offsets.contains(offsets[j]));
        lemma_same_members(offsets, placed, offsets[i]);
        lemma_same_members(offsets, placed, offsets[j]);
        let a = choose|k: int| 0 <= k < placed.len() && placed[k] == offsets[i];
        let b = choose|k: int| 0 <= k < placed.len() && placed[k] == offsets[j];
        assert(offsets[i] != offsets[j]);
        assert(a != b);
        assert(apart(placed[a] as int, placed[b] as int, layout.window_size as int));
    }
}

/// The reserved window's test slice is centred on the segment wherever the
/// data leaves room for it.
pub proof fn law_reserved_window_centres_its_test_slice(
    layout: WindowLayout,
    segment: (usize, usize, VolatilityRegime),
)
    requires
        layout.is_feasible(),
        segment.0 <= segment.1,
        0 <= (segment.0 + segment.1) / 2 + layout.test_size / 2 - layout.window_size <= layout.last_start(),
    ensures
        ({
            let middle = start_for(layout, segment) + layout.window_size - layout.test_size / 2;
            middle == (segment.0 + segment.1) / 2 && segment.0 <= middle <= segment.1
        }),
{
}

/// Rank of a label among equally frequent ones.
pub open spec fn rank(label: VolatilityRegime) -> int {
    match label {
        VolatilityRegime::Low => 0,
        VolatilityRegime::Medium => 1,
        VolatilityRegime::High => 2,
    }
}

/// `a` is scarcer than `b`, or equally frequent and of lower rank.
pub open spec fn goes_before(
    regimes: Seq<Option<VolatilityRegime>>,
    a: VolatilityRegime,
    b: VolatilityRegime,
) -> bool {
    bars_in(regimes, a) < bars_in(regimes, b) || (bars_in(regimes, a) == bars_in(regimes, b) && rank(a) < rank(b))
}

/// Every label goes before those behind it.
pub open spec fn in_order(regimes: Seq<Option<VolatilityRegime>>, order: Seq<VolatilityRegime>) -> bool {
    forall|i: int, j: int|
        0 <= i < j < order.len() ==> goes_before(regimes, #[trigger] order[i], #[trigger] order[j])
}

proof fn lemma_inserted(
    regimes: Seq<Option<VolatilityRegime>>,
    order: Seq<VolatilityRegime>,
    label: VolatilityRegime,
)
    requires
        in_order(regimes, order),
        forall|i: int| 0 <= i < order.len() ==> rank(#[trigger] order[i]) < rank(label),
    ensures
        in_order(regimes, inserted_by_count(regimes, order, label)),
        forall|x: VolatilityRegime| #[trigger]
            inserted_by_count(regimes, order, label).contains(x) <==> (x == label || order.contains(x)),
        inserted_by_count(regimes, order, label).len() == order.len() + 1,
    decreases order.len(),
{
    let result = inserted_by_count(regimes, order, label);
    if order.len() == 0 || bars_in(regimes, order.last()) <= bars_in(regimes, label) {
        assert forall|i: int, j: int| 0 <= i < j < result.len() implies goes_before(
            regimes,
            #[trigger] result[i],
            #[trigger] result[j],
        ) by {
            if j == order.len() {
                if i < order.len() - 1 {
                    assert(goes_before(regimes, order[i], order[order.len() - 1]));
                }
                assert(rank(order[i]) < rank(label));
            } else {
                assert(goes_before(regimes, order[i], order[j]));
            }
        }
        assert forall|x: VolatilityRegime| result.contains(x) <==> (x == label || order.contains(x)) by {
            if order.contains(x) {
                let k = choose|k: int| 0 <= k < order.len() && order[k] == x;
                assert(result[k] == x);
            }
            assert(result[order.len() as int] == label);
        }
    } else {
        let head = order.drop_last();
        assert forall|i: int, j: int| 0 <= i < j < head.len() implies goes_before(
            regimes,
            #[trigger] head[i],
            #[trigger] head[j],
        ) by {
            assert(goes_before(regimes, order[i], order[j]));
        }
        assert forall|i: int| 0 <= i < head.len() implies rank(#[trigger] head[i]) < rank(label) by {
            assert(rank(order[i]) < rank(label));
        }
        lemma_inserted(regimes, head, label);
        let inner = inserted_by_count(regimes, head, label);
        assert forall|i: int, j: int| 0 <= i < j < result.len() implies goes_before(
            regimes,
            #[trigger] result[i],
            #[trigger] result[j],
        ) by {
            if j == inner.len() {
                assert(inner.contains(inner[i]));
                if head.contains(inner[i]) {
                    let k = choose|k: int| 0 <= k < head.len() && head[k] == inner[i];
                    assert(goes_before(regimes, order[k], order[order.len() - 1]));
                }
            } else {
                assert(goes_before(regimes, inner[i], inner[j]));
            }
        }
        assert forall|x: VolatilityRegime| result.contains(x) <==> (x == label || order.contains(x)) by {
            if result.contains(x) {
                let k = choose|k: int| 0 <= k < result.len() && result[k] == x;
                if k < inner.len() {
                    assert(inner.contains(inner[k]));
                    if head.contains(x) {
                        let h = choose|h: int| 0 <= h < head.len() && head[h] == x;
                        assert(order[h] == x);
                    }
                } else {
                    assert(order[order.len() - 1] == x);
                }
            }
            if x == label || order.contains(x) {
                if order.contains(x) {
                    let k = choose|k: int| 0 <= k < order.len() && order[k] == x;
                    if k < head.len() {
                        assert(head[k] == x);
                        assert(head.contains(x));
                        assert(inner.contains(x));
                        let h = choose|h: int| 0 <= h < inner.len() && inner[h] == x;
                        assert(result[h] == x);
                    } else {
                        assert(result[inner.len() as int] == x);
                    }
                } else {
                    assert(inner.contains(x));
                    let h = choose|h: int| 0 <= h < inner.len() && inner[h] == x;
                    assert(result[h] == x);
                }
            }
        }
    }
}

/// Windows are reserved for exactly the regimes that occur, each once, and
/// a scarcer regime always comes before a more frequent one.
pub proof fn law_scarcest_regimes_are_served_first(regimes: Seq<Option<VolatilityRegime>>)
    ensures
        in_order(regimes, scarcest_first(regimes)),
        forall|label: VolatilityRegime| scarcest_first(regimes).contains(label) <==> is_present(regimes, label),
{
    let none = Seq::<VolatilityRegime>::empty();
    let low = inserted_if_present(regimes, none, VolatilityRegime::Low);
    if is_present(regimes, VolatilityRegime::Low) {
        lemma_inserted(regimes, none, VolatilityRegime::Low);
    }
    assert forall|i: int| 0 <= i < low.len() implies rank(#[trigger] low[i]) < 1 by {
        assert(low.contains(low[i]));
    }
    let medium = inserted_if_present(regimes, low, VolatilityRegime::Medium);
    if is_present(regimes, VolatilityRegime::Medium) {
        lemma_inserted(regimes, low, VolatilityRegime::Medium);
    }
    assert forall|i: int| 0 <= i < medium.len() implies rank(#[trigger] medium[i]) < 2 by {
        assert(medium.contains(medium[i]));
        if low.contains(medium[i]) {
            let k = choose|k: int| 0 <= k < low.len() && low[k] == medium[i];
            assert(rank(low[k]) < 1);
        }
    }
    if is_present(regimes, VolatilityRegime::High) {
        lemma_inserted(regimes, medium, VolatilityRegime::High);
    }
    let high = scarcest_first(regimes);
    assert forall|label: VolatilityRegime| high.contains(label) <==> is_present(regimes, label) by {
        assert(!none.contains(label));
        match label {
            VolatilityRegime::Low => {
                assert(low.contains(label) <==> is_present(regimes, label));
                assert(medium.contains(label) <==> low.contains(label));
                assert(high.contains(label) <==> medium.contains(label));
            },
            VolatilityRegime::Medium => {
                if low.contains(label) {
                    let k = choose|k: int| 0 <= k < low.len() && low[k] == label;
                    assert(rank(low[k]) < 1);
                }
                assert(medium.contains(label) <==> is_present(regimes, label));
                assert(high.contains(label) <==> medium.contains(label));
            },
            VolatilityRegime::High => {
                if medium.contains(label) {
                    let k = choose|k: int| 0 <= k < medium.len() && medium[k] == label;
                    assert(rank(medium[k]) < 2);
                }
            },
        }
    }
}

proof fn lemma_uniform_fill(layout: WindowLayout, k: nat)
    requires
        layout.is_feasible(),
        layout.step() >= layout.window_size,
        (layout.num_windows - 1) * layout.step() <= layout.last_start(),
        k <= layout.num_windows,
    ensures
        filled_offsets(layout, uniform_offsets(layout).take(k as int), k * layout.step()) == uniform_offsets(layout),
    decreases layout.num_windows - k,
{
    let all = uniform_offsets(layout);
    let step = layout.step();
    let done = all.take(k as int);
    if k == layout.num_windows {
        assert(done =~= all);
    } else {
        assert(k * step <= (layout.num_windows - 1) * step) by (nonlinear_arith)
            requires
                k <= layout.num_windows - 1,
                step >= 0,
        ;
        assert forall|i: int| 0 <= i < done.len() implies apart(
            #[trigger] done[i] as int,
            k * step,
            layout.window_size as int,
        ) by {
            assert(i * step + step <= k * step) by (nonlinear_arith)
                requires
                    i + 1 <= k,
                    step >= 0,
            ;
            assert(i * step >= 0) by (nonlinear_arith)
                requires
                    i >= 0,
                    step >= 0,
            ;
            assert(done[i] == i * step);
        }
        assert(k * step >= 0) by (nonlinear_arith)
            requires
                step >= 0,
        ;
        assert(all[k as int] == k * step);
        assert(done.push((k * step) as usize) =~= all.take(k as int + 1));
        assert((k + 1) * step == k * step + step) by (nonlinear_arith);
        lemma_uniform_fill(layout, k + 1);
    }
}

/// A series in which no bar could be classified is treated like one without
/// regimes, as long as the evenly spaced windows fit without overlapping.
pub proof fn law_unclassified_series_falls_back_to_even_spacing(
    layout: WindowLayout,
    regimes: Seq<Option<VolatilityRegime>>,
    offsets: Seq<usize>,
)
    requires
        layout.is_feasible(),
        layout.step() >= layout.window_size,
        (layout.num_windows - 1) * layout.step() <= layout.last_start(),
        forall|i: int| 0 <= i < regimes.len() ==> #[trigger] regimes[i] is None,
        are_offsets(layout, Some(regimes), offsets),
    ensures
        are_offsets(layout, None, offsets),
{
    let all = uniform_offsets(layout);
    let step = layout.step();
    let order = scarcest_first(regimes);
    assert(order =~= Seq::empty());
    assert(order.take(0) =~= Seq::empty());
    lemma_uniform_fill(layout, 0);
    assert(all.take(0) =~= Seq::empty());
    assert(0 * step == 0);
    assert(placed_offsets(layout, regimes) == all);
    assert forall|i: int, j: int| 0 <= i <= j < all.len() implies all[i] <= all[j] by {
        assert(0 <= i * step <= j * step) by (nonlinear_arith)
            requires
                0 <= i <= j,
                step >= 0,
        ;
    }
    let leq = |a: usize, b: usize| a <= b;
    assert(sorted_by(all, leq)) by {
        assert forall|i: int, j: int| 0 <= i < j < all.len() implies #[trigger] leq(all[i], all[j]) by {
            assert(all[i] <= all[j]);
        }
    }
    assert(sorted_by(offsets, leq)) by {
        assert forall|i: int, j: int| 0 <= i < j < offsets.len() implies #[trigger] leq(offsets[i], offsets[j]) by {
            assert(offsets[i] <= offsets[j]);
        }
    }
    assert(total_ordering(leq));
    vstd::seq_lib::lemma_sorted_unique(offsets, all, leq);
}

/// Evenly spaced windows of `n / num_windows` bars follow one another without
/// overlap, and together reach the end of the data up to the rounding of the
/// window size.
pub proof fn law_even_windows_span_the_data(layout: WindowLayout)
    requires
        1 <= layout.num_windows <= layout.n,
        layout.window_size == layout.n / layout.num_windows,
    ensures
        layout.is_feasible(),
        layout.step() >= layout.window_size,
        ({
            let last_end = (layout.num_windows - 1) * layout.step() + layout.window_size;
            layout.n - layout.num_windows < last_end <= layout.n
        }),
        forall|i: int|
            0 <= i < layout.num_windows ==> #[trigger] uniform_offsets(layout)[i] == i * layout.step(),
{
    let n = layout.n as int;
    let w = layout.num_windows as int;
    let size = layout.window_size as int;
    let step = layout.step();
    assert(size >= 1 && size * w <= n && n < size * w + w) by (nonlinear_arith)
        requires
            1 <= w <= n,
            size == n / w,
    ;
    if w == 1 {
        assert(size == n) by (nonlinear_arith)
            requires
                size * w <= n,
                n < size * w + w,
                w == 1,
        ;
        assert((w - 1) * step == 0) by (nonlinear_arith)
            requires
                w == 1,
        ;
    } else {
        assert(size < n) by (nonlinear_arith)
            requires
                size * w <= n,
                w >= 2,
                size >= 1,
        ;
        let q = (n - size) / (w - 1);
        assert(q >= size && q * (w - 1) <= n - size && n - size < q * (w - 1) + (w - 1)) by (nonlinear_arith)
            requires
                q == (n - size) / (w - 1),
                w >= 2,
                size * w <= n,
        ;
        assert(step == q);
        assert((w - 1) * q == q * (w - 1)) by (nonlinear_arith);
    }
    assert forall|i: int| 0 <= i < layout.num_windows implies #[trigger] uniform_offsets(layout)[i] == i * step by {
        assert(0 <= i * step <= (w - 1) * step) by (nonlinear_arith)
            requires
                0 <= i <= w - 1,
                step >= 0,
        ;
    }
}

/// The embargo is never shorter, in bars, on finer data over the same span or
/// with a longer test slice.
pub proof fn law_embargo_never_shrinks_on_finer_data(
    coarse: nat,
    fine: nat,
    span_ms: int,
    short_test: nat,
    long_test: nat,
)
    requires
        coarse <= fine,
        short_test <= long_test,
        2 <= coarse,
    ensures
        purge_gap(coarse, span_ms, short_test) <= purge_gap(fine, span_ms, long_test),
{
    let wide = average_bar_ms(coarse, span_ms);
    let narrow = average_bar_ms(fine, span_ms);
    lemma_nearest_is_normal(1, 1);
    if span_ms > 0 {
        let span = of_count(span_ms as nat);
        let few = of_count((coarse - 1) as nat);
        let many = of_count((fine - 1) as nat);
        lemma_nearest_is_normal(span_ms as nat, 1);
        lemma_nearest_keeps_order((coarse - 1) as nat, 1, (fine - 1) as nat, 1);
        lemma_quotient_turns_order(span, few, many);
    }
    assert(!below(wide, narrow));
    let gap = of_count(PURGE_GAP_MS as nat);
    lemma_nearest_is_normal(PURGE_GAP_MS as nat, 1);
    lemma_quotient_turns_order(gap, narrow, wide);
    lemma_rounded_keeps_order(quotient(gap, wide), quotient(gap, narrow));
}

} // verus!
