//! What the measures mean: averages, deviations, drawdowns, shares and order.

use vstd::prelude::*;

use crate::exact::{
    is_deviation, is_mean, is_real_root, lemma_square_reads, lemma_total_reads, readings, reads_exactly, real_downside,
    real_gains, real_square_sum, real_sum,
};
use crate::measures::{
    clamped, downside_sum, in_order, inserted_in_order, max_drawdown, mean_of, one_sided_total, positive_base_returns,
    positives, returns_of, running_peak, square_sum, steps_of, win_share,
};
use crate::number::Number;
use crate::order_laws::orders_well;

verus! {

/// The average times the number of values is their sum.
pub proof fn law_average_times_count_is_the_sum<N: Number>(value: spec_fn(N) -> real, values: Seq<N>)
    requires
        reads_exactly(value),
        0 < values.len() <= usize::MAX,
    ensures
        is_mean(readings(value, values), value(mean_of(values))),
{
    lemma_total_reads(value, values);
    assert(value(N::counted(values.len() as usize)) == values.len() as int as real);
    assert(readings(value, values).len() == values.len());
}

pub proof fn lemma_square_sum_reads<N: Number>(value: spec_fn(N) -> real, values: Seq<N>, centre: N)
    requires
        reads_exactly(value),
    ensures
        value(square_sum(values, centre)) == real_square_sum(readings(value, values), value(centre)),
        real_square_sum(readings(value, values), value(centre)) >= 0real,
    decreases values.len(),
{
    if values.len() > 0 {
        lemma_square_sum_reads(value, values.drop_last(), centre);
        assert(readings(value, values).drop_last() =~= readings(value, values.drop_last()));
        let step = values.last().difference(centre);
        lemma_square_reads(value, step);
        let d = value(step);
        assert(d * d >= 0real) by (nonlinear_arith);
    }
}

/// The root of the squared distances from the average over one less than the
/// number of values is the sample standard deviation.
pub proof fn law_sample_deviation_is_the_textbook_one<N: Number>(value: spec_fn(N) -> real, values: Seq<N>)
    requires
        reads_exactly(value),
        1 < values.len() <= usize::MAX,
    ensures
        is_deviation(
            readings(value, values),
            value(square_sum(values, mean_of(values)).quotient(N::counted((values.len() - 1) as usize)).root()),
        ),
{
    let sum = square_sum(values, mean_of(values));
    let count = N::counted((values.len() - 1) as usize);
    let variance = sum.quotient(count);
    let n = (values.len() - 1) as real;
    law_average_times_count_is_the_sum(value, values);
    lemma_square_sum_reads(value, values, mean_of(values));
    assert(value(count) == n);
    let v = value(variance);
    let s = value(sum);
    assert(v >= 0real) by (nonlinear_arith)
        requires
            v * n == s,
            s >= 0real,
            n > 0real,
    ;
    let d = value(variance.root());
    assert(d * d * n == real_square_sum(readings(value, values), value(mean_of(values))));
}

proof fn lemma_downside_reads<N: Number>(value: spec_fn(N) -> real, values: Seq<N>)
    requires
        reads_exactly(value),
    ensures
        value(downside_sum(values)) == real_downside(readings(value, values)),
        real_downside(readings(value, values)) >= 0real,
    decreases values.len(),
{
    if values.len() > 0 {
        lemma_downside_reads(value, values.drop_last());
        assert(readings(value, values).drop_last() =~= readings(value, values.drop_last()));
        lemma_square_reads(value, values.last());
        let d = value(values.last());
        assert(d * d >= 0real) by (nonlinear_arith);
        assert(values.last().below(N::whole(0)) <==> d < 0real) by {
            assert(value(N::whole(0)) == 0real);
        }
    }
}

/// The root of the squared losses over the number of all values is the
/// downside deviation: gains count as no deviation at all.
pub proof fn law_downside_deviation_leaves_gains_out<N: Number>(value: spec_fn(N) -> real, values: Seq<N>)
    requires
        reads_exactly(value),
        0 < values.len() <= usize::MAX,
    ensures
        ({
            let d = value(downside_sum(values).quotient(N::counted(values.len() as usize)).root());
            d >= 0real && d * d * (values.len() as int as real) == real_downside(readings(value, values))
        }),
{
    let sum = downside_sum(values);
    let count = N::counted(values.len() as usize);
    lemma_downside_reads(value, values);
    let n = values.len() as int as real;
    assert(value(count) == n);
    let v = value(sum.quotient(count));
    let s = value(sum);
    assert(v >= 0real) by (nonlinear_arith)
        requires
            v * n == s,
            s >= 0real,
            n > 0real,
    ;
    let d = value(sum.quotient(count).root());
    assert(d * d == v);
}

/// Gains added up are the sum of the positive values, losses that of the
/// negative ones, and both together are the sum of all.
pub proof fn law_gains_and_losses_make_the_sum<N: Number>(value: spec_fn(N) -> real, values: Seq<N>)
    requires
        reads_exactly(value),
    ensures
        value(one_sided_total(values, true)) == real_gains(readings(value, values)),
        value(one_sided_total(values, true)) >= 0real,
        value(one_sided_total(values, false)) <= 0real,
        value(one_sided_total(values, true)) + value(one_sided_total(values, false)) == real_sum(
            readings(value, values),
        ),
    decreases values.len(),
{
    assert(value(N::whole(0)) == 0real);
    if values.len() > 0 {
        law_gains_and_losses_make_the_sum(value, values.drop_last());
        assert(readings(value, values).drop_last() =~= readings(value, values.drop_last()));
    }
}

/// The share of winners times the number of values is the number of positive
/// ones.
pub proof fn law_win_share_counts_the_positive_values<N: Number>(value: spec_fn(N) -> real, values: Seq<N>)
    requires
        reads_exactly(value),
        0 < values.len() <= usize::MAX,
    ensures
        value(win_share(values)) * (values.len() as int as real) == values.filter(
            |v: N| value(v) > 0real,
        ).len() as int as real,
        0real <= value(win_share(values)) <= 1real,
{
    lemma_positives(value, values);
    let wins = positives(values);
    let n = values.len() as int as real;
    assert(value(N::counted(wins as usize)) == wins as int as real);
    assert(value(N::counted(values.len() as usize)) == n);
    let q = value(win_share(values));
    let w = wins as int as real;
    assert(0real <= q <= 1real) by (nonlinear_arith)
        requires
            q * n == w,
            0real <= w <= n,
            n > 0real,
    ;
}

proof fn lemma_positives<N: Number>(value: spec_fn(N) -> real, values: Seq<N>)
    requires
        reads_exactly(value),
    ensures
        positives(values) == values.filter(|v: N| value(v) > 0real).len(),
        positives(values) <= values.len(),
    decreases values.len(),
{
    reveal(Seq::filter);
    assert(value(N::whole(0)) == 0real);
    if values.len() > 0 {
        lemma_positives(value, values.drop_last());
    }
}

/// A return takes each price to the next: the price and its return on itself
/// make the next price.
pub proof fn law_returns_take_each_price_to_the_next<N: Number>(value: spec_fn(N) -> real, prices: Seq<N>, i: int)
    requires
        reads_exactly(value),
        0 <= i < prices.len() - 1,
        value(prices[i]) != 0real,
    ensures
        returns_of(prices).len() == prices.len() - 1,
        value(prices[i]) + value(prices[i]) * value(returns_of(prices)[i]) == value(prices[i + 1]),
        value(prices[i]) + value(steps_of(prices)[i]) == value(prices[i + 1]),
{
    let p = value(prices[i]);
    let r = value(returns_of(prices)[i]);
    let d = value(prices[i + 1].difference(prices[i]));
    assert(r * p == d);
    assert(p * r == r * p) by (nonlinear_arith);
}

/// On a curve that stays positive, every step has its return.
pub proof fn law_positive_curve_keeps_every_return<N: Number>(value: spec_fn(N) -> real, values: Seq<N>)
    requires
        reads_exactly(value),
        values.len() > 0,
        forall|i: int| 0 <= i < values.len() ==> value(#[trigger] values[i]) > 0real,
    ensures
        positive_base_returns(values) == returns_of(values),
    decreases values.len(),
{
    assert(value(N::whole(0)) == 0real);
    if values.len() > 1 {
        let before = values.drop_last();
        assert forall|i: int| 0 <= i < before.len() implies value(#[trigger] before[i]) > 0real by {
            assert(value(values[i]) > 0real);
        }
        law_positive_curve_keeps_every_return(value, before);
        assert(value(values[values.len() - 2]) > 0real);
        assert(positive_base_returns(values) =~= returns_of(values));
    } else {
        assert(positive_base_returns(values) =~= returns_of(values));
    }
}

/// The index of a value that no earlier one exceeds.
proof fn lemma_peak<N: Number>(value: spec_fn(N) -> real, values: Seq<N>) -> (at: int)
    requires
        reads_exactly(value),
        values.len() > 0,
        forall|i: int| 0 <= i < values.len() ==> -value(N::unbounded()) < value(#[trigger] values[i]),
    ensures
        0 <= at < values.len(),
        running_peak(values) == values[at],
        forall|i: int| 0 <= i < values.len() ==> value(#[trigger] values[i]) <= value(values[at]),
    decreases values.len(),
{
    assert(value(N::whole(0)) == 0real);
    let before = values.drop_last();
    if before.len() == 0 {
        assert(-value(N::unbounded()) < value(values[0]));
        assert(running_peak(before) == N::whole(0).difference(N::unbounded()));
        0
    } else {
        assert forall|i: int| 0 <= i < before.len() implies -value(N::unbounded()) < value(#[trigger] before[i]) by {
            assert(-value(N::unbounded()) < value(values[i]));
        }
        let at = lemma_peak(value, before);
        assert(before[at] == values[at]);
        let found = if running_peak(before).below(values.last()) { values.len() - 1 } else { at };
        assert forall|i: int| 0 <= i < values.len() implies value(#[trigger] values[i]) <= value(values[found]) by {
            if i < before.len() {
                assert(value(before[i]) <= value(before[at]));
            }
        }
        found
    }
}

/// The drawdown of a positive curve is the worst fall from any sample to any
/// later one, relative to the former: none is worse, and one of them is as
/// bad, unless the curve never falls.
pub proof fn law_drawdown_is_the_worst_fall<N: Number>(value: spec_fn(N) -> real, values: Seq<N>)
    requires
        reads_exactly(value),
        forall|i: int| 0 <= i < values.len() ==> value(#[trigger] values[i]) > 0real,
        value(N::unbounded()) > 0real,
    ensures
        value(max_drawdown(values)) >= 0real,
        forall|i: int, j: int|
            0 <= i <= j < values.len() ==> value(#[trigger] values[i]) - value(#[trigger] values[j]) <= value(
                max_drawdown(values),
            ) * value(values[i]),
        value(max_drawdown(values)) > 0real ==> exists|i: int, j: int|
            0 <= i <= j < values.len() && value(#[trigger] values[i]) - value(#[trigger] values[j]) == value(
                max_drawdown(values),
            ) * value(values[i]),
    decreases values.len(),
{
    assert(value(N::whole(0)) == 0real);
    if values.len() > 0 {
        let before = values.drop_last();
        assert forall|i: int| 0 <= i < before.len() implies value(#[trigger] before[i]) > 0real by {
            assert(value(values[i]) > 0real);
        }
        law_drawdown_is_the_worst_fall(value, before);
        assert forall|i: int| 0 <= i < values.len() implies -value(N::unbounded()) < value(#[trigger] values[i]) by {
            assert(value(values[i]) > 0real);
        }
        let at = lemma_peak(value, values);
        let last = values.len() - 1;
        let p = value(values[at]);
        let l = value(values[last]);
        let fall = values[at].difference(values.last()).quotient(values[at]);
        let f = value(fall);
        assert(p > 0real);
        assert(f * p == p - l);
        let worst = value(max_drawdown(values));
        let earlier = value(max_drawdown(before));
        assert(worst >= f && worst >= earlier);
        assert(worst == f || worst == earlier);
        assert forall|i: int, j: int| 0 <= i <= j < values.len() implies value(#[trigger] values[i]) - value(
            #[trigger] values[j],
        ) <= worst * value(values[i]) by {
            let x = value(values[i]);
            let y = value(values[j]);
            assert(x > 0real);
            if j < last {
                assert(before[i] == values[i] && before[j] == values[j]);
                assert(x - y <= earlier * x);
                assert(x - y <= worst * x) by (nonlinear_arith)
                    requires
                        x - y <= earlier * x,
                        worst >= earlier,
                        x > 0real,
                ;
            } else {
                assert(x <= p);
                assert(x - l <= worst * x) by (nonlinear_arith)
                    requires
                        f * p == p - l,
                        0real < x <= p,
                        l > 0real,
                        worst >= f,
                ;
            }
        }
        if worst > 0real {
            if worst == f {
                assert(value(values[at]) - value(values[last]) == worst * value(values[at])) by (nonlinear_arith)
                    requires
                        f * p == p - l,
                        worst == f,
                        p == value(values[at]),
                        l == value(values[last]),
                ;
            } else {
                let (i, j) = choose|i: int, j: int|
                    0 <= i <= j < before.len() && value(#[trigger] before[i]) - value(#[trigger] before[j]) == value(
                        max_drawdown(before),
                    ) * value(before[i]);
                assert(before[i] == values[i] && before[j] == values[j]);
            }
        }
    }
}

proof fn lemma_inserted<N: Number>(sorted: Seq<N>, item: N)
    requires
        orders_well::<N>(),
        forall|i: int, j: int| 0 <= i <= j < sorted.len() ==> (#[trigger] sorted[i]).at_most(#[trigger] sorted[j]),
    ensures
        ({
            let out = inserted_in_order(sorted, item);
            &&& forall|i: int, j: int| 0 <= i <= j < out.len() ==> (#[trigger] out[i]).at_most(#[trigger] out[j])
            &&& out.to_multiset() == sorted.to_multiset().insert(item)
            &&& out.len() == sorted.len() + 1
            &&& forall|i: int| 0 <= i < out.len() ==> (#[trigger] out[i]) == item || sorted.contains(out[i])
        }),
    decreases sorted.len(),
{
    let out = inserted_in_order(sorted, item);
    assert(item.at_most(item));
    if sorted.len() == 0 || !item.below(sorted.last()) {
        vstd::seq_lib::to_multiset_build(sorted, item);
        assert forall|i: int, j: int| 0 <= i <= j < out.len() implies (#[trigger] out[i]).at_most(
            #[trigger] out[j],
        ) by {
            if j == sorted.len() && i < j {
                assert(sorted[i].at_most(sorted[sorted.len() - 1]));
                assert(sorted.last().at_most(item));
            }
        }
        assert forall|i: int| 0 <= i < out.len() implies (#[trigger] out[i]) == item || sorted.contains(out[i]) by {
            if i < sorted.len() {
                assert(sorted[i] == out[i]);
            }
        }
    } else {
        let head = sorted.drop_last();
        lemma_inserted(head, item);
        let inner = inserted_in_order(head, item);
        vstd::seq_lib::to_multiset_build(inner, sorted.last());
        vstd::seq_lib::to_multiset_build(head, sorted.last());
        assert(head.push(sorted.last()) =~= sorted);
        assert(out.to_multiset() =~= sorted.to_multiset().insert(item));
        assert forall|i: int, j: int| 0 <= i <= j < out.len() implies (#[trigger] out[i]).at_most(
            #[trigger] out[j],
        ) by {
            if j == inner.len() && i < j {
                assert(inner[i] == item || head.contains(inner[i]));
                if inner[i] == item {
                    assert(item.at_most(sorted.last()));
                } else {
                    let k = choose|k: int| 0 <= k < head.len() && head[k] == inner[i];
                    assert(sorted[k].at_most(sorted[sorted.len() - 1]));
                }
            } else if j == inner.len() {
                assert(sorted.last().at_most(sorted.last()));
            }
        }
        assert forall|i: int| 0 <= i < out.len() implies (#[trigger] out[i]) == item || sorted.contains(out[i]) by {
            if i < inner.len() {
                assert(inner[i] == out[i]);
                if inner[i] != item {
                    let k = choose|k: int| 0 <= k < head.len() && head[k] == inner[i];
                    assert(sorted[k] == out[i]);
                }
            } else {
                assert(sorted[sorted.len() - 1] == out[i]);
            }
        }
    }
}

/// Sorting keeps the values and puts none before a smaller one.
pub proof fn law_sorting_keeps_the_values_in_order<N: Number>(values: Seq<N>)
    requires
        orders_well::<N>(),
    ensures
        in_order(values).to_multiset() == values.to_multiset(),
        in_order(values).len() == values.len(),
        forall|i: int, j: int|
            0 <= i <= j < values.len() ==> (#[trigger] in_order(values)[i]).at_most(#[trigger] in_order(values)[j]),
    decreases values.len(),
{
    if values.len() > 0 {
        let head = values.drop_last();
        law_sorting_keeps_the_values_in_order(head);
        lemma_inserted(in_order(head), values.last());
        vstd::seq_lib::to_multiset_build(head, values.last());
        assert(head.push(values.last()) =~= values);
    } else {
        assert(values =~= Seq::empty());
    }
}

/// A value is held between two bounds only where it lies outside of them.
pub proof fn law_clamping_moves_only_what_lies_outside<N: Number>(value: spec_fn(N) -> real, x: N, low: N, high: N)
    requires
        reads_exactly(value),
        value(low) <= value(high),
    ensures
        value(low) <= value(clamped(x, low, high)) <= value(high),
        value(low) <= value(x) <= value(high) ==> clamped(x, low, high) == x,
        value(x) < value(low) ==> clamped(x, low, high) == low,
        value(high) < value(x) ==> clamped(x, low, high) == high,
{
}

/// There is only one average.
pub proof fn lemma_mean_is_unique(values: Seq<real>, a: real, b: real)
    requires
        is_mean(values, a),
        is_mean(values, b),
    ensures
        a == b,
{
    let n = values.len() as int as real;
    assert(a == b) by (nonlinear_arith)
        requires
            a * n == b * n,
            n > 0real,
    ;
}

/// There is only one sample standard deviation.
pub proof fn lemma_deviation_is_unique(values: Seq<real>, a: real, b: real)
    requires
        is_deviation(values, a),
        is_deviation(values, b),
    ensures
        a == b,
{
    let m = choose|mean: real| #[trigger]
        is_mean(values, mean) && a * a * ((values.len() - 1) as real) == real_square_sum(values, mean);
    let k = choose|mean: real| #[trigger]
        is_mean(values, mean) && b * b * ((values.len() - 1) as real) == real_square_sum(values, mean);
    lemma_mean_is_unique(values, m, k);
    let n = (values.len() - 1) as real;
    assert(a == b) by (nonlinear_arith)
        requires
            a * a * n == b * b * n,
            a >= 0real,
            b >= 0real,
            n > 0real,
    ;
}

/// There is only one non-negative root.
pub proof fn lemma_root_is_unique(a: real, b: real, of: real)
    requires
        is_real_root(a, of),
        is_real_root(b, of),
    ensures
        a == b,
{
    assert(a == b) by (nonlinear_arith)
        requires
            a * a == b * b,
            a >= 0real,
            b >= 0real,
    ;
}

/// What a ratio of average and deviation, times a factor, is read as.
pub proof fn lemma_ratio_of_average_and_deviation<N: Number>(
    value: spec_fn(N) -> real,
    values: Seq<N>,
    mean: real,
    deviation: real,
    factor: N,
)
    requires
        reads_exactly(value),
        1 < values.len() <= usize::MAX,
        is_mean(readings(value, values), mean),
        is_deviation(readings(value, values), deviation),
    ensures
        ({
            let spread = square_sum(values, mean_of(values)).quotient(N::counted((values.len() - 1) as usize)).root();
            &&& value(mean_of(values)) == mean
            &&& value(spread) == deviation
            &&& deviation > 0real ==> value(mean_of(values).quotient(spread).product(factor)) * deviation == mean
                * value(factor)
        }),
{
    law_average_times_count_is_the_sum(value, values);
    law_sample_deviation_is_the_textbook_one(value, values);
    let spread = square_sum(values, mean_of(values)).quotient(N::counted((values.len() - 1) as usize)).root();
    lemma_mean_is_unique(readings(value, values), mean, value(mean_of(values)));
    lemma_deviation_is_unique(readings(value, values), deviation, value(spread));
    if deviation > 0real {
        let q = value(mean_of(values).quotient(spread));
        let f = value(factor);
        assert(q * deviation == mean);
        assert(q * f * deviation == mean * f) by (nonlinear_arith)
            requires
                q * deviation == mean,
        ;
    }
}

/// The worst fall from a positive peak is that of the drawdown wherever the
/// curve is positive.
pub proof fn law_fall_from_peak_is_the_drawdown<N: Number>(value: spec_fn(N) -> real, values: Seq<N>)
    requires
        reads_exactly(value),
        forall|i: int| 0 <= i < values.len() ==> value(#[trigger] values[i]) > 0real,
        value(N::unbounded()) > 0real,
    ensures
        crate::combine::largest_fall(values) == max_drawdown(values),
    decreases values.len(),
{
    assert(value(N::whole(0)) == 0real);
    if values.len() > 0 {
        let before = values.drop_last();
        assert forall|i: int| 0 <= i < before.len() implies value(#[trigger] before[i]) > 0real by {
            assert(value(values[i]) > 0real);
        }
        law_fall_from_peak_is_the_drawdown(value, before);
        assert forall|i: int| 0 <= i < values.len() implies -value(N::unbounded()) < value(#[trigger] values[i]) by {
            assert(value(values[i]) > 0real);
        }
        let at = lemma_peak(value, values);
        assert(value(values[at]) > 0real);
    }
}

} // verus!
