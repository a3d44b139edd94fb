//! The arithmetic that prices, quantities and scores need.
//!
//! Price logic is written once, for any [`Number`]. Its results are pinned
//! down as expressions over the number's own operations, in the order in
//! which they are applied. No algebraic law is used, so they hold of rounding
//! arithmetic too. [`Fixed`] is saturating fixed-point arithmetic.

use vstd::prelude::*;

verus! {

/// Arithmetic on one kind of number. Every operation is a function of its
/// operands; nothing else is relied on.
pub trait Number: Copy {
    /// A whole number.
    open spec fn whole(n: i64) -> Self {
        arbitrary()
    }

    /// A count of things.
    open spec fn counted(n: usize) -> Self {
        arbitrary()
    }

    /// The largest finite number.
    open spec fn limit() -> Self {
        arbitrary()
    }

    /// Larger than every finite number, where there is such a value.
    open spec fn unbounded() -> Self {
        arbitrary()
    }

    open spec fn sum(self, other: Self) -> Self {
        arbitrary()
    }

    open spec fn difference(self, other: Self) -> Self {
        arbitrary()
    }

    open spec fn product(self, other: Self) -> Self {
        arbitrary()
    }

    open spec fn quotient(self, other: Self) -> Self {
        arbitrary()
    }

    open spec fn root(self) -> Self {
        arbitrary()
    }

    /// The number multiplied with itself so many times.
    open spec fn raised(self, times: u32) -> Self {
        arbitrary()
    }

    open spec fn magnitude(self) -> Self {
        arbitrary()
    }

    open spec fn larger(self, other: Self) -> Self {
        arbitrary()
    }

    open spec fn smaller(self, other: Self) -> Self {
        arbitrary()
    }

    open spec fn below(self, other: Self) -> bool {
        arbitrary()
    }

    open spec fn at_most(self, other: Self) -> bool {
        arbitrary()
    }

    /// The smallest count that is not below the number.
    open spec fn ceiling(self) -> usize {
        arbitrary()
    }

    fn of(n: i64) -> (r: Self)
        ensures
            r == Self::whole(n),
    ;

    fn count(n: usize) -> (r: Self)
        ensures
            r == Self::counted(n),
    ;

    fn largest() -> (r: Self)
        ensures
            r == Self::limit(),
    ;

    fn infinity() -> (r: Self)
        ensures
            r == Self::unbounded(),
    ;

    fn plus(self, other: Self) -> (r: Self)
        ensures
            r == self.sum(other),
    ;

    fn minus(self, other: Self) -> (r: Self)
        ensures
            r == self.difference(other),
    ;

    fn times(self, other: Self) -> (r: Self)
        ensures
            r == self.product(other),
    ;

    fn over(self, other: Self) -> (r: Self)
        ensures
            r == self.quotient(other),
    ;

    fn sqrt(self) -> (r: Self)
        ensures
            r == self.root(),
    ;

    fn power(self, times: u32) -> (r: Self)
        ensures
            r == self.raised(times),
    ;

    fn abs(self) -> (r: Self)
        ensures
            r == self.magnitude(),
    ;

    fn max(self, other: Self) -> (r: Self)
        ensures
            r == self.larger(other),
    ;

    fn min(self, other: Self) -> (r: Self)
        ensures
            r == self.smaller(other),
    ;

    /// Whether this number is less than the other.
    fn lt(self, other: Self) -> (r: bool)
        ensures
            r == self.below(other),
    ;

    /// Whether this number is at most the other.
    fn le(self, other: Self) -> (r: bool)
        ensures
            r == self.at_most(other),
    ;

    fn ceil(self) -> (r: usize)
        ensures
            r == self.ceiling(),
    ;
}

/// The quotient of two whole numbers.
pub open spec fn ratio_of<N: Number>(num: i64, den: i64) -> N {
    N::whole(num).quotient(N::whole(den))
}

/// The quotient of two whole numbers.
pub fn ratio<N: Number>(num: i64, den: i64) -> (r: N)
    ensures
        r == ratio_of::<N>(num, den),
{
    N::of(num).over(N::of(den))
}

/// Multiplying by one changes nothing, and one is its own root.
pub open spec fn one_is_neutral<N: Number>() -> bool {
    &&& N::whole(1).root() == N::whole(1)
    &&& forall|x: N| #[trigger] x.product(N::whole(1)) == x
}

/// The numbers added up from the left, starting with zero.
pub open spec fn total<N: Number>(values: Seq<N>) -> N
    decreases values.len(),
{
    if values.len() == 0 {
        N::whole(0)
    } else {
        total(values.drop_last()).sum(values.last())
    }
}

/// Adds the numbers up from the left, starting with zero.
pub fn add_up<N: Number>(values: &[N]) -> (r: N)
    ensures
        r == total(values@),
{
    let mut r: N = N::of(0);
    let mut i: usize = 0;
    assert(values@.take(0) =~= Seq::empty());
    while i < values.len()
        invariant
            i <= values@.len(),
            r == total(values@.take(i as int)),
        decreases values@.len() - i,
    {
        assert(values@.take(i as int + 1).drop_last() =~= values@.take(i as int));
        r = r.plus(values[i]);
        i = i + 1;
    }
    assert(values@.take(i as int) =~= values@);
    r
}

/// Units of [`Fixed`] in one whole.
pub const FIXED_SCALE: i64 = 1_000_000;

/// Fixed-point number with six decimals. Results that do not fit are
/// saturated, fractions of a unit are cut off, and a division by zero gives
/// zero.
#[derive(Clone, Copy, Debug, PartialEq, Eq, Structural)]
pub struct Fixed {
    pub units: i64,
}

/// The nearest value that fits.
pub open spec fn saturated(units: int) -> Fixed {
    Fixed {
        units: if units > i64::MAX {
            i64::MAX
        } else if units < i64::MIN {
            i64::MIN
        } else {
            units as i64
        },
    }
}

/// Quotient of two whole numbers, cut off towards zero.
pub open spec fn cut_off(num: int, den: int) -> int {
    if den == 0 {
        0
    } else {
        let size = (if num < 0 { -num } else { num }) / (if den < 0 { -den } else { den });
        if (num < 0) != (den < 0) {
            -size
        } else {
            size
        }
    }
}

/// Largest whole number whose square is at most `n`.
pub open spec fn is_root(n: nat, r: nat) -> bool {
    r * r <= n < (r + 1) * (r + 1)
}

/// The whole part of the square root.
pub open spec fn root_of(n: nat) -> nat {
    choose|r: nat| is_root(n, r)
}

impl Fixed {
    fn saturate(units: i128) -> (r: Fixed)
        ensures
            r == saturated(units as int),
    {
        Fixed {
            units: if units > i64::MAX as i128 {
                i64::MAX
            } else if units < i64::MIN as i128 {
                i64::MIN
            } else {
                units as i64
            },
        }
    }

    fn divide(num: i128, den: i128) -> (r: i128)
        requires
            -0x4000_0000_0000_0000_0000_0000_0000_0000 <= num <= 0x4000_0000_0000_0000_0000_0000_0000_0000,
            -0x4000_0000_0000_0000_0000_0000_0000_0000 <= den <= 0x4000_0000_0000_0000_0000_0000_0000_0000,
        ensures
            r == cut_off(num as int, den as int),
    {
        if den == 0 {
            0
        } else {
            let a: u128 = (if num < 0 { -num } else { num }) as u128;
            let b: u128 = (if den < 0 { -den } else { den }) as u128;
            let size: u128 = a / b;
            proof {
                assert(size <= a) by (nonlinear_arith)
                    requires
                        size == a as int / b as int,
                        b >= 1,
                ;
            }
            if (num < 0) != (den < 0) {
                -(size as i128)
            } else {
                size as i128
            }
        }
    }
}

proof fn lemma_root_unique(n: nat, a: nat, b: nat)
    requires
        is_root(n, a),
        is_root(n, b),
    ensures
        a == b,
{
    assert(a == b) by (nonlinear_arith)
        requires
            a * a <= n < (a + 1) * (a + 1),
            b * b <= n < (b + 1) * (b + 1),
    ;
}

/// One multiplied with the base so many times.
pub open spec fn fixed_power(base: Fixed, times: nat) -> Fixed
    decreases times,
{
    if times == 0 {
        Fixed { units: FIXED_SCALE }
    } else {
        let before = fixed_power(base, (times - 1) as nat);
        saturated(cut_off(before.units * base.units, FIXED_SCALE as int))
    }
}

impl Number for Fixed {
    open spec fn whole(n: i64) -> Self {
        saturated(n * FIXED_SCALE)
    }

    open spec fn counted(n: usize) -> Self {
        saturated(n * FIXED_SCALE)
    }

    open spec fn limit() -> Self {
        Fixed { units: i64::MAX }
    }

    open spec fn unbounded() -> Self {
        Fixed { units: i64::MAX }
    }

    open spec fn sum(self, other: Self) -> Self {
        saturated(self.units + other.units)
    }

    open spec fn difference(self, other: Self) -> Self {
        saturated(self.units - other.units)
    }

    open spec fn product(self, other: Self) -> Self {
        saturated(cut_off(self.units * other.units, FIXED_SCALE as int))
    }

    open spec fn quotient(self, other: Self) -> Self {
        saturated(cut_off(self.units * FIXED_SCALE, other.units as int))
    }

    open spec fn root(self) -> Self {
        if self.units <= 0 {
            Fixed { units: 0 }
        } else {
            saturated(root_of((self.units * FIXED_SCALE) as nat) as int)
        }
    }

    open spec fn raised(self, times: u32) -> Self {
        fixed_power(self, times as nat)
    }

    open spec fn magnitude(self) -> Self {
        saturated(if self.units < 0 { -self.units } else { self.units as int })
    }

    open spec fn larger(self, other: Self) -> Self {
        if self.units < other.units {
            other
        } else {
            self
        }
    }

    open spec fn smaller(self, other: Self) -> Self {
        if other.units < self.units {
            other
        } else {
            self
        }
    }

    open spec fn below(self, other: Self) -> bool {
        self.units < other.units
    }

    open spec fn at_most(self, other: Self) -> bool {
        self.units <= other.units
    }

    open spec fn ceiling(self) -> usize {
        if self.units <= 0 {
            0
        } else {
            ((self.units + FIXED_SCALE - 1) / FIXED_SCALE as int) as usize
        }
    }

    fn of(n: i64) -> (r: Self) {
        let wide: i128 = n as i128;
        Fixed::saturate(wide * 1_000_000)
    }

    fn count(n: usize) -> (r: Self) {
        let wide: i128 = n as i128;
        Fixed::saturate(wide * 1_000_000)
    }

    fn largest() -> (r: Self) {
        Fixed { units: i64::MAX }
    }

    fn infinity() -> (r: Self) {
        Fixed { units: i64::MAX }
    }

    fn plus(self, other: Self) -> (r: Self) {
        Fixed::saturate(self.units as i128 + other.units as i128)
    }

    fn minus(self, other: Self) -> (r: Self) {
        Fixed::saturate(self.units as i128 - other.units as i128)
    }

    fn times(self, other: Self) -> (r: Self) {
        let a: i128 = self.units as i128;
        let b: i128 = other.units as i128;
        assert(-0x4000_0000_0000_0000_0000_0000_0000_0000 <= a * b <= 0x4000_0000_0000_0000_0000_0000_0000_0000)
            by (nonlinear_arith)
            requires
                -0x8000_0000_0000_0000 <= a <= 0x7fff_ffff_ffff_ffff,
                -0x8000_0000_0000_0000 <= b <= 0x7fff_ffff_ffff_ffff,
        ;
        Fixed::saturate(Fixed::divide(a * b, FIXED_SCALE as i128))
    }

    fn over(self, other: Self) -> (r: Self) {
        Fixed::saturate(Fixed::divide(self.units as i128 * 1_000_000, other.units as i128))
    }

    fn sqrt(self) -> (r: Self) {
        if self.units <= 0 {
            return Fixed { units: 0 };
        }
        let n: u128 = self.units as u128 * 1_000_000;
        let mut low: u128 = 0;
        let mut high: u128 = 0x1_0000_0000_0000;
        assert(n < high * high) by (nonlinear_arith)
            requires
                n <= 0x7fff_ffff_ffff_ffff * 1_000_000,
                high == 0x1_0000_0000_0000,
        ;
        while high - low > 1
            invariant
                0 <= low < high <= 0x1_0000_0000_0000,
                low * low <= n,
                n < high * high,
            decreases high - low,
        {
            let middle: u128 = low + (high - low) / 2;
            assert(middle * middle <= 0x1_0000_0000_0000_0000_0000_0000) by (nonlinear_arith)
                requires
                    0 <= middle <= 0x1_0000_0000_0000,
            ;
            if middle * middle <= n {
                low = middle;
            } else {
                high = middle;
            }
        }
        proof {
            assert(high == low + 1);
            assert(is_root(n as nat, low as nat));
            lemma_root_unique(n as nat, low as nat, root_of(n as nat));
        }
        Fixed::saturate(low as i128)
    }

    fn power(self, times: u32) -> (r: Self) {
        let mut r: Fixed = Fixed { units: FIXED_SCALE };
        let mut i: u32 = 0;
        while i < times
            invariant
                i <= times,
                r == fixed_power(self, i as nat),
            decreases times - i,
        {
            r = r.times(self);
            i = i + 1;
        }
        r
    }

    fn abs(self) -> (r: Self) {
        if self.units < 0 {
            Fixed::saturate(-(self.units as i128))
        } else {
            self
        }
    }

    fn max(self, other: Self) -> (r: Self) {
        if self.units < other.units {
            other
        } else {
            self
        }
    }

    fn min(self, other: Self) -> (r: Self) {
        if other.units < self.units {
            other
        } else {
            self
        }
    }

    fn lt(self, other: Self) -> (r: bool) {
        self.units < other.units
    }

    fn le(self, other: Self) -> (r: bool) {
        self.units <= other.units
    }

    fn ceil(self) -> (r: usize) {
        if self.units <= 0 {
            0
        } else {
            let wide: u128 = self.units as u128 + 999_999;
            let count: u128 = wide / 1_000_000;
            count as usize
        }
    }
}

/// Among fixed-point numbers one is neutral.
pub proof fn law_fixed_one_is_neutral()
    ensures
        one_is_neutral::<Fixed>(),
{
    let unit = (FIXED_SCALE * FIXED_SCALE) as nat;
    assert(1_000_000nat * 1_000_000nat <= unit < (1_000_000nat + 1) * (1_000_000nat + 1)) by (nonlinear_arith)
        requires
            unit == 1_000_000_000_000nat,
    ;
    assert(is_root(unit, 1_000_000));
    lemma_root_unique(unit, root_of(unit), 1_000_000);
    assert forall|x: Fixed| #[trigger] x.product(Fixed::whole(1)) == x by {
        let size = if x.units < 0 { -x.units } else { x.units as int };
        assert((size * 1_000_000) / 1_000_000 == size);
        assert(Fixed::whole(1).units == 1_000_000);
        assert(x.units * 1_000_000 < 0 <==> x.units < 0);
        assert(cut_off(x.units * 1_000_000, 1_000_000) == x.units);
    }
}

} // verus!
