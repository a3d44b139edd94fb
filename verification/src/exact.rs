//! Numbers read as real ones, and the textbook figures of real numbers.
//!
//! What a computation means is stated here and in the law modules in real
//! arithmetic. A reading takes every number to the real one that it stands
//! for; it is exact where no operation rounds. The laws under an exact
//! reading say what rounding arithmetic approximates.

use vstd::prelude::*;

use crate::number::{ratio_of, total, Number};

verus! {

/// The reading takes every operation to the one on real numbers.
pub open spec fn reads_exactly<N: Number>(value: spec_fn(N) -> real) -> bool {
    &&& forall|n: i64| #[trigger] value(N::whole(n)) == n as int as real
    &&& forall|n: usize| #[trigger] value(N::counted(n)) == n as int as real
    &&& forall|a: N, b: N| #[trigger] value(a.sum(b)) == value(a) + value(b)
    &&& forall|a: N, b: N| #[trigger] value(a.difference(b)) == value(a) - value(b)
    &&& forall|a: N, b: N| #[trigger] value(a.product(b)) == value(a) * value(b)
    &&& forall|a: N, b: N| value(b) != 0real ==> #[trigger] value(a.quotient(b)) * value(b) == value(a)
    &&& forall|a: N|
        value(a) >= 0real ==> (#[trigger] value(a.root())) >= 0real && value(a.root()) * value(a.root()) == value(a)
    &&& forall|a: N| #[trigger] value(a.magnitude()) == if value(a) < 0real { -value(a) } else { value(a) }
    &&& forall|a: N, b: N| #[trigger] value(a.larger(b)) == if value(a) < value(b) { value(b) } else { value(a) }
    &&& forall|a: N, b: N| #[trigger] value(a.smaller(b)) == if value(b) < value(a) { value(b) } else { value(a) }
    &&& forall|a: N, b: N| #[trigger] a.below(b) <==> value(a) < value(b)
    &&& forall|a: N, b: N| #[trigger] a.at_most(b) <==> value(a) <= value(b)
    &&& forall|a: N|
        0real <= value(a) <= 1000000000real ==> value(a) <= ((#[trigger] a.ceiling()) as int as real) && ((a.ceiling() as int as real) < value(a) + 1real)
    &&& forall|a: N| #[trigger] value(a.raised(0)) == 1real
    &&& forall|a: N, j: u32, k: u32|
        k == j + 1 ==> #[trigger] value(a.raised(k)) == (#[trigger] value(a.raised(j))) * value(a)
}

/// The numbers read one by one.
pub open spec fn readings<N>(value: spec_fn(N) -> real, numbers: Seq<N>) -> Seq<real> {
    numbers.map_values(|n: N| value(n))
}

/// The reals added up.
pub open spec fn real_sum(values: Seq<real>) -> real
    decreases values.len(),
{
    if values.len() == 0 {
        0real
    } else {
        real_sum(values.drop_last()) + values.last()
    }
}

/// Squared distances from a centre, added up.
pub open spec fn real_square_sum(values: Seq<real>, centre: real) -> real
    decreases values.len(),
{
    if values.len() == 0 {
        0real
    } else {
        real_square_sum(values.drop_last(), centre) + (values.last() - centre) * (values.last() - centre)
    }
}

/// The positive values added up.
pub open spec fn real_gains(values: Seq<real>) -> real
    decreases values.len(),
{
    if values.len() == 0 {
        0real
    } else {
        real_gains(values.drop_last()) + if values.last() > 0real { values.last() } else { 0real }
    }
}

/// Squares of the negative values, added up.
pub open spec fn real_downside(values: Seq<real>) -> real
    decreases values.len(),
{
    if values.len() == 0 {
        0real
    } else {
        real_downside(values.drop_last()) + if values.last() < 0real { values.last() * values.last() } else { 0real }
    }
}

/// The real is the average of at least one value.
pub open spec fn is_mean(values: Seq<real>, mean: real) -> bool {
    values.len() > 0 && mean * (values.len() as int as real) == real_sum(values)
}

/// The real is the sample standard deviation of at least two values.
pub open spec fn is_deviation(values: Seq<real>, deviation: real) -> bool {
    &&& values.len() > 1
    &&& deviation >= 0real
    &&& exists|mean: real| #[trigger]
        is_mean(values, mean) && deviation * deviation * ((values.len() - 1) as real) == real_square_sum(values, mean)
}

/// The real is the non-negative root of another.
pub open spec fn is_real_root(root: real, of: real) -> bool {
    root >= 0real && root * root == of
}

/// A sum is read as the sum of the readings.
pub proof fn lemma_total_reads<N: Number>(value: spec_fn(N) -> real, numbers: Seq<N>)
    requires
        reads_exactly(value),
    ensures
        value(total(numbers)) == real_sum(readings(value, numbers)),
    decreases numbers.len(),
{
    if numbers.len() > 0 {
        lemma_total_reads(value, numbers.drop_last());
        assert(readings(value, numbers).drop_last() =~= readings(value, numbers.drop_last()));
    }
}

/// A square is read as the square of the reading.
pub proof fn lemma_square_reads<N: Number>(value: spec_fn(N) -> real, number: N)
    requires
        reads_exactly(value),
    ensures
        value(number.raised(2)) == value(number) * value(number),
{
    assert(value(number.raised(1)) == value(number.raised(0)) * value(number));
    assert(value(number.raised(2)) == value(number.raised(1)) * value(number));
}

/// A quotient of whole numbers is read as the fraction.
pub proof fn lemma_ratio_reads<N: Number>(value: spec_fn(N) -> real, num: i64, den: i64)
    requires
        reads_exactly(value),
        den != 0,
    ensures
        value(ratio_of::<N>(num, den)) == (num as int as real) / (den as int as real),
{
    let q = value(ratio_of::<N>(num, den));
    let a = num as int as real;
    let b = den as int as real;
    assert(value(N::whole(den)) == b);
    assert(b != 0real);
    assert(q * b == a);
    assert(q == a / b) by (nonlinear_arith)
        requires
            q * b == a,
            b != 0real,
    ;
}

} // verus!
