//! Positive double-precision values as integer pairs.
//!
//! Window sizes are fractions of a bar count, and the fractions are computed
//! in double precision: every operation rounds to 53 significant bits, to
//! nearest, ties to even. A [`Double`] is such a value, held as the integers
//! `mantissa` and `exponent`, so that the rounding is exact and provable.

use vstd::arithmetic::power2::{lemma2_to64, lemma2_to64_rest, lemma_pow2_adds, lemma_pow2_pos, lemma_pow2_strictly_increases, lemma_pow2_unfold, pow2};
use vstd::prelude::*;

verus! {

/// Smallest mantissa: two to the power 52.
pub const MANTISSA_MIN: u64 = 0x10_0000_0000_0000;

/// One more than the largest mantissa: two to the power 53.
pub const MANTISSA_END: u64 = 0x20_0000_0000_0000;

/// The value `mantissa * 2^exponent`, with a mantissa of 53 bits.
pub struct Double {
    pub mantissa: u64,
    pub exponent: i32,
}

/// The mathematical counterpart of [`Double`].
#[verifier::ext_equal]
pub struct Binary {
    pub m: nat,
    pub e: int,
}

impl View for Double {
    type V = Binary;

    open spec fn view(&self) -> Binary {
        Binary { m: self.mantissa as nat, e: self.exponent as int }
    }
}

/// Numerator of `num / den` measured in units of `2^e`.
pub open spec fn scaled_num(num: nat, e: int) -> nat {
    if e < 0 {
        num * pow2((-e) as nat)
    } else {
        num
    }
}

/// Denominator of `num / den` measured in units of `2^e`.
pub open spec fn scaled_den(den: nat, e: int) -> nat {
    if e > 0 {
        den * pow2(e as nat)
    } else {
        den
    }
}

/// `num / den >= t * 2^e`.
pub open spec fn at_least(num: nat, den: nat, e: int, t: nat) -> bool {
    t * scaled_den(den, e) <= scaled_num(num, e)
}

/// `num / den`, in units of `2^e`, has 53 bits before the point.
pub open spec fn in_binade(num: nat, den: nat, e: int) -> bool {
    &&& at_least(num, den, e, MANTISSA_MIN as nat)
    &&& !at_least(num, den, e, MANTISSA_END as nat)
}

/// The exponent for which `num / den` has 53 bits before the point.
pub open spec fn binade(num: nat, den: nat) -> int {
    choose|e: int| in_binade(num, den, e)
}

/// `num / den` rounded to a whole number, ties to the even one.
pub open spec fn half_even(num: nat, den: nat) -> nat {
    let q = num / den;
    let r = num % den;
    if 2 * r < den {
        q
    } else if 2 * r > den {
        q + 1
    } else {
        q + q % 2
    }
}

/// A mantissa that rounding carried to the next power of two is halved.
pub open spec fn carried(m: nat, e: int) -> Binary {
    if m == MANTISSA_END {
        Binary { m: MANTISSA_MIN as nat, e: e + 1 }
    } else {
        Binary { m, e }
    }
}

/// The double-precision value nearest to `num / den`.
pub open spec fn nearest(num: nat, den: nat) -> Binary {
    let e = binade(num, den);
    carried(half_even(scaled_num(num, e), scaled_den(den, e)), e)
}

/// The double-precision product.
pub open spec fn product(a: Binary, b: Binary) -> Binary {
    let p = nearest(a.m * b.m, 1);
    Binary { m: p.m, e: p.e + a.e + b.e }
}

/// The double-precision quotient.
pub open spec fn quotient(a: Binary, b: Binary) -> Binary {
    let q = nearest(a.m, b.m);
    Binary { m: q.m, e: q.e + a.e - b.e }
}

/// Largest whole number that is not above the value.
pub open spec fn floor_of(a: Binary) -> nat {
    if a.e >= 0 {
        a.m * pow2(a.e as nat)
    } else {
        a.m / pow2((-a.e) as nat)
    }
}

/// The nearest whole number, halves upwards.
pub open spec fn rounded(a: Binary) -> nat {
    if a.e >= 0 {
        a.m * pow2(a.e as nat)
    } else {
        (2 * a.m + pow2((-a.e) as nat)) / (2 * pow2((-a.e) as nat))
    }
}

/// Order of two values whose mantissas have 53 bits.
pub open spec fn below(a: Binary, b: Binary) -> bool {
    a.e < b.e || (a.e == b.e && a.m < b.m)
}

/// The mantissa has 53 bits.
pub open spec fn normal(a: Binary) -> bool {
    MANTISSA_MIN <= a.m < MANTISSA_END
}

pub proof fn lemma_at_least_step(num: nat, den: nat, e: int, t: nat)
    ensures
        at_least(num, den, e + 1, t) == at_least(num, den, e, 2 * t),
{
    if e >= 0 {
        lemma_pow2_unfold((e + 1) as nat);
        if e == 0 {
            lemma2_to64();
        }
        let p = if e == 0 { 1 } else { pow2(e as nat) };
        assert(pow2((e + 1) as nat) == 2 * p);
        assert(t * (den * (2 * p)) == (2 * t) * (den * p)) by (nonlinear_arith);
        assert(den * 1 == den);
    } else {
        lemma_pow2_unfold((-e) as nat);
        if e == -1 {
            lemma2_to64();
        }
        let p = if e == -1 { 1 } else { pow2((-e - 1) as nat) };
        assert(pow2((-e) as nat) == 2 * p);
        assert(num * (2 * p) == 2 * (num * p)) by (nonlinear_arith);
        assert((2 * t) * den == 2 * (t * den)) by (nonlinear_arith);
        assert(num * 1 == num);
    }
}

pub proof fn lemma_scaled_den_positive(den: nat, e: int)
    requires
        den > 0,
    ensures
        scaled_den(den, e) > 0,
{
    if e > 0 {
        lemma_pow2_pos(e as nat);
        assert(den * pow2(e as nat) > 0) by (nonlinear_arith)
            requires
                den > 0,
                pow2(e as nat) > 0,
        ;
    }
}

proof fn lemma_at_least_weaken(num: nat, den: nat, e: int, t: nat, u: nat)
    requires
        at_least(num, den, e, t),
        u <= t,
    ensures
        at_least(num, den, e, u),
{
    let d = scaled_den(den, e);
    assert(u * d <= t * d) by (nonlinear_arith)
        requires
            u <= t,
    ;
}

pub proof fn lemma_binade_order(num: nat, den: nat, low: int, high: int)
    requires
        low < high,
        at_least(num, den, high, MANTISSA_MIN as nat),
    ensures
        at_least(num, den, low, MANTISSA_END as nat),
    decreases high - low,
{
    lemma_at_least_step(num, den, high - 1, MANTISSA_MIN as nat);
    if low < high - 1 {
        lemma_at_least_weaken(num, den, high - 1, MANTISSA_END as nat, MANTISSA_MIN as nat);
        lemma_binade_order(num, den, low, high - 1);
    }
}

/// The exponent that gives 53 bits is unique, so it is the one that
/// [`binade`] picks.
pub proof fn lemma_binade_unique(num: nat, den: nat, e: int)
    requires
        in_binade(num, den, e),
    ensures
        binade(num, den) == e,
{
    let other = binade(num, den);
    if other < e {
        lemma_binade_order(num, den, other, e);
    }
    if e < other {
        lemma_binade_order(num, den, e, other);
    }
}

/// Rounding in one binade: the mantissa stays within 53 bits, and the result
/// is within half a unit of the exact value.
pub proof fn lemma_half_even_bounds(num: nat, den: nat)
    requires
        den > 0,
    ensures
        2 * (half_even(num, den) * den) <= 2 * num + den,
        2 * num <= 2 * (half_even(num, den) * den) + den,
{
    let q = num / den;
    let r = num % den;
    assert(num == q * den + r && r < den) by (nonlinear_arith)
        requires
            q == num / den,
            r == num % den,
            den > 0,
    ;
    assert((q + 1) * den == q * den + den) by (nonlinear_arith);
}

/// The result of [`nearest`] is a 53-bit value, at a known exponent.
pub proof fn lemma_nearest(num: nat, den: nat, e: int)
    requires
        den > 0,
        in_binade(num, den, e),
    ensures
        nearest(num, den) == carried(half_even(scaled_num(num, e), scaled_den(den, e)), e),
        normal(nearest(num, den)),
{
    lemma_binade_unique(num, den, e);
    let n = scaled_num(num, e);
    let d = scaled_den(den, e);
    lemma_scaled_den_positive(den, e);
    lemma_half_even_bounds(n, d);
    let m = half_even(n, d);
    let q = n / d;
    assert(MANTISSA_MIN <= q < MANTISSA_END) by (nonlinear_arith)
        requires
            MANTISSA_MIN * d <= n,
            n < MANTISSA_END * d,
            q == n / d,
            d > 0,
    ;
}

/// Powers of two around the widths used here.
proof fn lemma_widths()
    ensures
        pow2(0) == 1,
        pow2(52) == MANTISSA_MIN,
        pow2(53) == MANTISSA_END,
        pow2(64) == 0x1_0000_0000_0000_0000,
        pow2(107) == 0x800_0000_0000_0000_0000_0000_0000,
        pow2(118) == 0x40_0000_0000_0000_0000_0000_0000_0000,
{
    lemma2_to64();
    lemma2_to64_rest();
    lemma_pow2_adds(64, 43);
    lemma_pow2_adds(64, 54);
}

/// Two to the power `k`.
fn two_to(k: u32) -> (p: u128)
    requires
        k <= 100,
    ensures
        p == pow2(k as nat),
{
    let mut p: u128 = 1;
    let mut i: u32 = 0;
    proof {
        lemma_widths();
    }
    while i < k
        invariant
            i <= k <= 100,
            p == pow2(i as nat),
        decreases k - i,
    {
        proof {
            lemma_widths();
            lemma_pow2_strictly_increases(i as nat, 107);
            lemma_pow2_unfold((i + 1) as nat);
        }
        p = p * 2;
        i = i + 1;
    }
    p
}

/// The double-precision value nearest to `num / den`.
pub fn nearest_to(num: u128, den: u128) -> (r: Double)
    requires
        0 < num < 0x800_0000_0000_0000_0000_0000_0000,
        0 < den <= 0x1_0000_0000_0000_0000,
    ensures
        r@ == nearest(num as nat, den as nat),
        normal(r@),
        -200 <= r.exponent <= 200,
{
    let low: u128 = MANTISSA_MIN as u128;
    let end: u128 = MANTISSA_END as u128;
    let mut n: u128 = num;
    let mut d: u128 = den;
    let mut e: i32 = 0;
    proof {
        lemma_widths();
        assert(num * 1 == num);
    }
    while n < low * d
        invariant
            low == MANTISSA_MIN,
            end == MANTISSA_END,
            0 < num,
            0 < d <= 0x1_0000_0000_0000_0000,
            d == den,
            -118 <= e <= 0,
            n == num * pow2((-e) as nat),
            pow2((-e) as nat) <= n,
            e == 0 ==> n == num,
            e < 0 ==> n < end * d,
        decreases 118 + e,
    {
        proof {
            lemma_widths();
            if e == -118 {
                assert(n >= pow2(118));
            }
            lemma_pow2_unfold((-e + 1) as nat);
            let p = pow2((-e) as nat);
            assert(num * (2 * p) == 2 * (num * p)) by (nonlinear_arith);
        }
        n = n * 2;
        e = e - 1;
    }
    let ghost grown = e < 0;
    while n >= end * d
        invariant
            low == MANTISSA_MIN,
            end == MANTISSA_END,
            0 < d,
            e > 0 ==> n == num,
            n < 0x40_0000_0000_0000_0000_0000_0000_0000,
            !grown ==> n == num && num < 0x800_0000_0000_0000_0000_0000_0000 && 0 <= e <= 118,
            !grown ==> d == den * pow2(e as nat) && pow2(e as nat) <= d,
            grown ==> e < 0 && n < end * d && d == den && -118 <= e,
            grown ==> n == num * pow2((-e) as nat),
            d <= 0x1_0000_0000_0000_0000,
            low * d <= n,
            0 < den,
        decreases n - d,
    {
        proof {
            lemma_widths();
            if e == 118 {
                assert(d >= pow2(118));
            }
            lemma_pow2_unfold((e + 1) as nat);
            let p = pow2(e as nat);
            assert(den * (2 * p) == 2 * (den * p)) by (nonlinear_arith);
        }
        d = d * 2;
        e = e + 1;
    }
    proof {
        assert(den * 1 == den);
        assert(n == scaled_num(num as nat, e as int));
        assert(d == scaled_den(den as nat, e as int));
        assert(in_binade(num as nat, den as nat, e as int));
        lemma_nearest(num as nat, den as nat, e as int);
        lemma_half_even_bounds(n as nat, d as nat);
    }
    let q: u128 = n / d;
    let r: u128 = n % d;
    proof {
        assert(q < MANTISSA_END) by (nonlinear_arith)
            requires
                n < MANTISSA_END * d,
                q == n as int / d as int,
                d > 0,
        ;
    }
    let m: u128 = if 2 * r < d {
        q
    } else if 2 * r > d {
        q + 1
    } else {
        q + q % 2
    };
    assert(m == half_even(n as nat, d as nat));
    if m == end {
        Double { mantissa: MANTISSA_MIN, exponent: e + 1 }
    } else {
        Double { mantissa: m as u64, exponent: e }
    }
}

impl Double {
    /// The product, rounded to double precision.
    pub fn times(&self, other: &Double) -> (r: Double)
        requires
            normal(self@),
            normal(other@),
            -1000 <= self.exponent <= 1000,
            -1000 <= other.exponent <= 1000,
        ensures
            r@ == product(self@, other@),
            normal(r@),
            self.exponent + other.exponent - 200 <= r.exponent <= self.exponent + other.exponent + 200,
    {
        let a: u128 = self.mantissa as u128;
        let b: u128 = other.mantissa as u128;
        assert(0 < a * b < 0x800_0000_0000_0000_0000_0000_0000) by (nonlinear_arith)
            requires
                0 < a < 0x20_0000_0000_0000,
                0 < b < 0x20_0000_0000_0000,
        ;
        let p = nearest_to(a * b, 1);
        Double { mantissa: p.mantissa, exponent: p.exponent + self.exponent + other.exponent }
    }

    /// The quotient, rounded to double precision.
    pub fn over(&self, other: &Double) -> (r: Double)
        requires
            normal(self@),
            normal(other@),
            -1000 <= self.exponent <= 1000,
            -1000 <= other.exponent <= 1000,
        ensures
            r@ == quotient(self@, other@),
            normal(r@),
            self.exponent - other.exponent - 200 <= r.exponent <= self.exponent - other.exponent + 200,
    {
        let q = nearest_to(self.mantissa as u128, other.mantissa as u128);
        Double { mantissa: q.mantissa, exponent: q.exponent + self.exponent - other.exponent }
    }

    /// Whether this value is less than the other.
    pub fn is_below(&self, other: &Double) -> (less: bool)
        ensures
            less == below(self@, other@),
    {
        self.exponent < other.exponent
            || (self.exponent == other.exponent && self.mantissa < other.mantissa)
    }

    /// The whole part, or the largest index where it does not fit.
    pub fn whole_part(&self) -> (n: usize)
        requires
            normal(self@),
        ensures
            n == if floor_of(self@) <= usize::MAX { floor_of(self@) } else { usize::MAX as nat },
    {
        if self.exponent >= 0 {
            self.scaled_up()
        } else if self.exponent < -64 {
            proof {
                lemma_widths();
                lemma_pow2_strictly_increases(64, (-self.exponent) as nat);
                assert(self.mantissa as nat / pow2((-self.exponent) as nat) == 0) by (nonlinear_arith)
                    requires
                        self.mantissa < pow2((-self.exponent) as nat),
                ;
            }
            0
        } else {
            let p: u128 = two_to((-self.exponent) as u32);
            proof {
                lemma_pow2_pos((-self.exponent) as nat);
            }
            let w: u128 = self.mantissa as u128 / p;
            proof {
                assert(w <= self.mantissa) by (nonlinear_arith)
                    requires
                        w == self.mantissa as nat / p as nat,
                        p >= 1,
                ;
            }
            capped(w)
        }
    }

    /// The nearest whole number, halves upwards, or the largest index where
    /// it does not fit.
    pub fn nearest_whole(&self) -> (n: usize)
        requires
            normal(self@),
        ensures
            n == if rounded(self@) <= usize::MAX { rounded(self@) } else { usize::MAX as nat },
    {
        if self.exponent >= 0 {
            self.scaled_up()
        } else if self.exponent < -64 {
            proof {
                let p = pow2((-self.exponent) as nat);
                lemma_widths();
                lemma_pow2_strictly_increases(64, (-self.exponent) as nat);
                assert((2 * self.mantissa as nat + p) / (2 * p) == 0) by (nonlinear_arith)
                    requires
                        2 * self.mantissa < p,
                ;
            }
            0
        } else {
            let p: u128 = two_to((-self.exponent) as u32);
            proof {
                lemma_pow2_pos((-self.exponent) as nat);
                lemma_widths();
                if self.exponent > -64 {
                    lemma_pow2_strictly_increases((-self.exponent) as nat, 64);
                }
            }
            let w: u128 = (2 * (self.mantissa as u128) + p) / (2 * p);
            capped(w)
        }
    }

    fn scaled_up(&self) -> (n: usize)
        requires
            normal(self@),
            self.exponent >= 0,
        ensures
            n == ({
                let v = self.mantissa * pow2(self.exponent as nat);
                if v <= usize::MAX { v } else { usize::MAX as int }
            }),
    {
        if self.exponent > 64 {
            proof {
                lemma_widths();
                lemma_pow2_strictly_increases(64, self.exponent as nat);
                assert(self.mantissa * pow2(self.exponent as nat) > usize::MAX) by (nonlinear_arith)
                    requires
                        self.mantissa >= 1,
                        pow2(self.exponent as nat) > usize::MAX,
                ;
            }
            usize::MAX
        } else {
            let p: u128 = two_to(self.exponent as u32);
            proof {
                lemma_widths();
                if self.exponent < 64 {
                    lemma_pow2_strictly_increases(self.exponent as nat, 64);
                }
                assert(self.mantissa * p < 0x40_0000_0000_0000_0000_0000_0000_0000) by (nonlinear_arith)
                    requires
                        self.mantissa < 0x20_0000_0000_0000,
                        p <= 0x1_0000_0000_0000_0000,
                ;
            }
            capped(self.mantissa as u128 * p)
        }
    }
}

/// The value as an index, or the largest index where it does not fit.
fn capped(v: u128) -> (n: usize)
    ensures
        n == if v <= usize::MAX { v as int } else { usize::MAX as int },
{
    if v <= usize::MAX as u128 {
        v as usize
    } else {
        usize::MAX
    }
}

/// A count as a double-precision value.
pub open spec fn of_count(n: nat) -> Binary {
    nearest(n, 1)
}

/// The whole part of `n * (num / den)`, with the count, the fraction and
/// the product each in double precision.
pub open spec fn part_of(n: nat, num: nat, den: nat) -> nat {
    if n == 0 {
        0
    } else {
        floor_of(product(of_count(n), nearest(num, den)))
    }
}

/// Multiplying out the powers of two: `2^(a + b) == 2^a * 2^b` for exponents
/// that are shifted to be non-negative.
proof fn lemma_shifted(e: int, k: nat)
    requires
        -k <= e,
    ensures
        e >= 0 ==> pow2((e + k) as nat) == pow2(e as nat) * pow2(k),
        e < 0 ==> pow2((e + k) as nat) * pow2((-e) as nat) == pow2(k),
{
    if e >= 0 {
        lemma_pow2_adds(e as nat, k);
    } else {
        lemma_pow2_adds((e + k) as nat, (-e) as nat);
    }
}

/// Rounding adds at most one part in `2^53`.
proof fn lemma_nearest_from_above(num: nat, den: nat, e: int, k: nat)
    requires
        den > 0,
        in_binade(num, den, e),
        -k <= e,
    ensures
        ({
            let r = nearest(num, den);
            r.m * pow2((r.e + k) as nat) * den * MANTISSA_END <= num * pow2(k) * (MANTISSA_END + 1)
        }),
{
    lemma_nearest(num, den, e);
    let n = scaled_num(num, e);
    let d = scaled_den(den, e);
    let m = half_even(n, d);
    lemma_scaled_den_positive(den, e);
    lemma_half_even_bounds(n, d);
    assert(m * d * 0x20_0000_0000_0000 <= n * (0x20_0000_0000_0000 + 1)) by (nonlinear_arith)
        requires
            2 * (m * d) <= 2 * n + d,
            0x10_0000_0000_0000 * d <= n,
    ;
    lemma_shifted(e, k);
    let u = pow2((e + k) as nat);
    let p = pow2(k);
    lemma_pow2_pos((e + k) as nat);
    lemma_pow2_pos(k);
    assert(m * u * den * 0x20_0000_0000_0000 <= num * p * (0x20_0000_0000_0000 + 1)) by {
        if e >= 0 {
            let q = if e == 0 { 1 } else { pow2(e as nat) };
            if e == 0 {
                lemma_widths();
            }
            assert(u == q * p);
            assert(d == den * q);
            assert(m * (q * p) * den * 0x20_0000_0000_0000 <= num * p * (0x20_0000_0000_0000 + 1)) by (nonlinear_arith)
                requires
                    m * (den * q) * 0x20_0000_0000_0000 <= num * (0x20_0000_0000_0000 + 1),
                    p > 0,
            ;
        } else {
            let q = pow2((-e) as nat);
            assert(u * q == p);
            assert(m * u * den * 0x20_0000_0000_0000 <= num * (u * q) * (0x20_0000_0000_0000 + 1)) by (nonlinear_arith)
                requires
                    m * den * 0x20_0000_0000_0000 <= (num * q) * (0x20_0000_0000_0000 + 1),
                    u > 0,
            ;
        }
    }
    if m == MANTISSA_END {
        lemma_pow2_unfold((e + 1 + k) as nat);
        assert(0x10_0000_0000_0000 * (2 * u) == m * u) by (nonlinear_arith)
            requires
                m == 0x20_0000_0000_0000,
        ;
    }
}

/// Every positive fraction of moderate size has a double-precision value.
pub proof fn lemma_has_binade(num: nat, den: nat) -> (e: int)
    requires
        0 < num,
        0 < den,
    ensures
        in_binade(num, den, e),
    decreases num + den,
{
    lemma_widths();
    // Start from a binade that is too low and walk up.
    let start = -(53 + den) as int;
    lemma_pow2_strictly_increases(53, 53 + den);
    lemma_pow2_adds(53, den);
    lemma_pow2_exceeds(den);
    assert(0x20_0000_0000_0000 * den <= num * pow2((53 + den) as nat)) by (nonlinear_arith)
        requires
            num >= 1,
            pow2((53 + den) as nat) == 0x20_0000_0000_0000 * pow2(den),
            pow2(den) >= den,
    ;
    assert(at_least(num, den, start, MANTISSA_END as nat));
    lemma_climb(num, den, start, num + den + 53)
}

proof fn lemma_pow2_exceeds(k: nat)
    ensures
        pow2(k) >= k,
        pow2(k) >= 1,
    decreases k,
{
    lemma_widths();
    if k > 0 {
        lemma_pow2_unfold(k);
        lemma_pow2_exceeds((k - 1) as nat);
    }
}

proof fn lemma_climb(num: nat, den: nat, e: int, room: nat) -> (found: int)
    requires
        0 < num,
        0 < den,
        at_least(num, den, e, MANTISSA_END as nat),
        e + room >= num,
    ensures
        in_binade(num, den, found),
    decreases room,
{
    if room == 0 {
        // Unreachable: at this height the unit is larger than the value.
        lemma_pow2_exceeds(e as nat);
        assert(0x20_0000_0000_0000 * (den * pow2(e as nat)) > num) by (nonlinear_arith)
            requires
                den >= 1,
                pow2(e as nat) >= e,
                e >= num,
                num >= 1,
        ;
        e
    } else {
        lemma_at_least_step(num, den, e, MANTISSA_MIN as nat);
        if at_least(num, den, e + 1, MANTISSA_END as nat) {
            lemma_climb(num, den, e + 1, (room - 1) as nat)
        } else {
            e + 1
        }
    }
}

/// A part below three quarters of a non-empty count leaves something over.
pub proof fn lemma_part_is_smaller(n: nat, num: nat, den: nat)
    requires
        n > 0,
        normal(nearest(num, den)),
        nearest(num, den).e == -53,
        4 * nearest(num, den).m <= 3 * MANTISSA_END,
    ensures
        part_of(n, num, den) < n,
        normal(product(of_count(n), nearest(num, den))),
{
    let b = nearest(num, den);
    let a = nearest(n, 1);
    let ea = lemma_has_binade(n, 1);
    lemma_nearest(n, 1, ea);
    assert(a.m * b.m > 0) by (nonlinear_arith)
        requires
            a.m > 0,
            b.m > 0,
    ;
    let ab = a.m * b.m;
    let ep = lemma_has_binade(ab, 1);
    lemma_nearest(ab, 1, ep);
    let p = nearest(ab, 1);
    let k: nat = 53 + (if ea < 0 { -ea as nat } else { 0 }) + (if ep < 0 { -ep as nat } else { 0 });
    lemma_nearest_from_above(n, 1, ea, k);
    lemma_nearest_from_above(ab, 1, ep, k);
    let kk = pow2(k);
    let ua = pow2((a.e + k) as nat);
    let up = pow2((p.e + k) as nat);
    lemma_pow2_pos(k);
    lemma_pow2_pos((a.e + k) as nat);
    lemma_pow2_pos((p.e + k) as nat);
    let ub = pow2((k - 53) as nat);
    lemma_pow2_pos((k - 53) as nat);
    lemma_pow2_adds((k - 53) as nat, 53);
    lemma_widths();
    let x = product(a, b);
    assert(x.e == p.e + a.e - 53);
    // Everything in units of 2^(-3k).
    let all = pow2((x.e + 3 * k) as nat);
    lemma_pow2_adds((p.e + k) as nat, (a.e + k) as nat);
    lemma_pow2_adds((p.e + k + a.e + k) as nat, (k - 53) as nat);
    assert(all == up * ua * ub);
    let c = 0x20_0000_0000_0000nat;
    assert(p.m * up * c <= a.m * b.m * kk * (c + 1));
    assert(a.m * ua * c <= n * kk * (c + 1));
    let k3 = kk * kk * kk;
    assert(x.m * all * (4 * c * c * c) <= n * k3 * (3 * c * (c + 1) * (c + 1))) by {
        let left = p.m * up;
        let right = a.m * ua;
        assert(p.m * (up * ua * ub) == left * ua * ub) by (nonlinear_arith)
            requires
                left == p.m * up,
        ;
        assert((left * c) * (ua * ub) <= (a.m * b.m * kk * (c + 1)) * (ua * ub)) by (nonlinear_arith)
            requires
                left * c <= a.m * b.m * kk * (c + 1),
        ;
        assert((a.m * b.m * kk * (c + 1)) * (ua * ub) == right * (b.m * ub * kk * (c + 1))) by (nonlinear_arith)
            requires
                right == a.m * ua,
        ;
        assert((right * c) * (b.m * ub * kk * (c + 1)) <= (n * kk * (c + 1)) * (b.m * ub * kk * (c + 1))) by (nonlinear_arith)
            requires
                right * c <= n * kk * (c + 1),
        ;
        let f = n * kk * (c + 1) * kk * (c + 1);
        assert((n * kk * (c + 1)) * (b.m * ub * kk * (c + 1)) == f * (b.m * ub)) by (nonlinear_arith)
            requires
                f == n * kk * (c + 1) * kk * (c + 1),
        ;
        assert(kk == ub * c);
        assert(4 * (b.m * ub) <= 3 * kk) by (nonlinear_arith)
            requires
                4 * b.m <= 3 * c,
                kk == ub * c,
        ;
        assert(4 * (f * (b.m * ub)) <= 3 * (f * kk)) by (nonlinear_arith)
            requires
                4 * (b.m * ub) <= 3 * kk,
        ;
        assert(x.m * all * c * c == (left * c) * (ua * ub) * c) by (nonlinear_arith)
            requires
                x.m * all == left * ua * ub,
        ;
        let y = x.m * all * c * c;
        assert(y <= f * (b.m * ub)) by {
            assert((left * c) * (ua * ub) * c <= right * (b.m * ub * kk * (c + 1)) * c) by (nonlinear_arith)
                requires
                    (left * c) * (ua * ub) <= right * (b.m * ub * kk * (c + 1)),
            ;
            assert(right * (b.m * ub * kk * (c + 1)) * c == (right * c) * (b.m * ub * kk * (c + 1))) by (nonlinear_arith);
        }
        assert(4 * y <= 3 * (f * kk));
        assert(3 * (f * kk) * c == n * k3 * (3 * c * (c + 1) * (c + 1))) by (nonlinear_arith)
            requires
                f == n * kk * (c + 1) * kk * (c + 1),
                k3 == kk * kk * kk,
        ;
        assert(x.m * all * (4 * c * c * c) == 4 * y * c) by (nonlinear_arith)
            requires
                y == x.m * all * c * c,
        ;
        assert(4 * y * c <= 3 * (f * kk) * c) by (nonlinear_arith)
            requires
                4 * y <= 3 * (f * kk),
        ;
    }
    assert(k3 > 0) by (nonlinear_arith)
        requires
            k3 == kk * kk * kk,
            kk > 0,
    ;
    assert(x.m * all < n * k3) by {
        let l = x.m * all;
        let r = n * k3;
        assert(r > 0) by (nonlinear_arith)
            requires
                r == n * k3,
                n > 0,
                k3 > 0,
        ;
        assert(l * (4 * c * c * c) <= r * (3 * c * (c + 1) * (c + 1)));
        assert(3 * c * (c + 1) * (c + 1) < 4 * c * c * c) by (nonlinear_arith)
            requires
                c == 0x20_0000_0000_0000nat,
        ;
        assert(l < r) by (nonlinear_arith)
            requires
                l * (4 * c * c * c) <= r * (3 * c * (c + 1) * (c + 1)),
                3 * c * (c + 1) * (c + 1) < 4 * c * c * c,
                r > 0,
                l >= 0,
        ;
    }
    lemma_pow2_adds(k, k);
    lemma_pow2_adds(k + k, k);
    lemma_shifted(x.e, 3 * k);
    assert(pow2(3 * k) == k3);
    if x.e >= 0 {
        let q = pow2(x.e as nat);
        assert(x.m * q < n) by (nonlinear_arith)
            requires
                x.m * (q * k3) < n * k3,
                k3 > 0,
        ;
    } else {
        let q = pow2((-x.e) as nat);
        lemma_pow2_pos((-x.e) as nat);
        lemma_pow2_pos((x.e + 3 * k) as nat);
        assert(x.m < n * q) by (nonlinear_arith)
            requires
                x.m * all < n * (all * q),
                all > 0,
        ;
        assert(x.m / q < n) by (nonlinear_arith)
            requires
                x.m < n * q,
                q > 0,
        ;
    }
}

/// Seven tenths in double precision.
pub const SEVEN_TENTHS_MANTISSA: u64 = 6305039478318694;

/// Six tenths in double precision.
pub const SIX_TENTHS_MANTISSA: u64 = 5404319552844595;

/// The stored mantissas are those of the double-precision values nearest to
/// seven tenths and six tenths.
pub proof fn lemma_tenths()
    ensures
        nearest(7, 10) == (Binary { m: SEVEN_TENTHS_MANTISSA as nat, e: -53 }),
        nearest(6, 10) == (Binary { m: SIX_TENTHS_MANTISSA as nat, e: -53 }),
{
    lemma_widths();
    assert(in_binade(7, 10, -53));
    assert(in_binade(6, 10, -53));
    lemma_nearest(7, 10, -53);
    lemma_nearest(6, 10, -53);
}

/// The whole part of a count times a fraction below three quarters that is
/// given by its double-precision mantissa.
fn part_by_mantissa(count: usize, mantissa: u64, Ghost(num): Ghost<nat>, Ghost(den): Ghost<nat>) -> (part: usize)
    requires
        nearest(num, den) == (Binary { m: mantissa as nat, e: -53 }),
        MANTISSA_MIN <= mantissa,
        4 * mantissa <= 3 * MANTISSA_END,
    ensures
        part == part_of(count as nat, num, den),
        part < count || count == 0,
{
    if count == 0 {
        0
    } else {
        let n = nearest_to(count as u128, 1);
        let fraction = Double { mantissa, exponent: -53 };
        proof {
            lemma_part_is_smaller(count as nat, num, den);
        }
        n.times(&fraction).whole_part()
    }
}

/// Seven tenths of a count, rounded down in double precision.
pub fn seven_tenths_of(count: usize) -> (part: usize)
    ensures
        part == part_of(count as nat, 7, 10),
        part < count || count == 0,
{
    proof {
        lemma_tenths();
    }
    part_by_mantissa(count, SEVEN_TENTHS_MANTISSA, Ghost(7), Ghost(10))
}

/// Six tenths of a count, rounded down in double precision.
pub fn six_tenths_of(count: usize) -> (part: usize)
    ensures
        part == part_of(count as nat, 6, 10),
        part < count || count == 0,
{
    proof {
        lemma_tenths();
    }
    part_by_mantissa(count, SIX_TENTHS_MANTISSA, Ghost(6), Ghost(10))
}

/// Counts for which [`lemma_seven_tenths`] says what seven tenths of them
/// are.
pub const EXACT_COUNTS_END: u64 = 0x2_0000_0000_0000;

/// Such a count is a double-precision value.
proof fn lemma_count_is_exact(n: nat) -> (ea: int)
    requires
        0 < n < EXACT_COUNTS_END,
    ensures
        ea < 0,
        of_count(n) == (Binary { m: n * pow2((-ea) as nat), e: ea }),
        normal(of_count(n)),
{
    let ea = lemma_has_binade(n, 1);
    lemma_nearest(n, 1, ea);
    lemma_widths();
    if ea >= 0 {
        let d = scaled_den(1, ea);
        lemma_scaled_den_positive(1, ea);
        assert(MANTISSA_MIN * d >= MANTISSA_MIN) by (nonlinear_arith)
            requires
                d >= 1,
        ;
    }
    let m = n * pow2((-ea) as nat);
    assert(half_even(m, 1) == m);
    ea
}

/// Seven tenths of a count, rounded down in double precision, is the exact
/// value rounded down, but for multiples of ten, where it may be one less.
pub proof fn lemma_seven_tenths(n: nat)
    requires
        0 < n < EXACT_COUNTS_END,
    ensures
        part_of(n, 7, 10) <= 7 * n / 10,
        n % 10 != 0 ==> part_of(n, 7, 10) == 7 * n / 10,
        n % 10 == 0 ==> part_of(n, 7, 10) + 1 >= 7 * n / 10,
{
    lemma_tenths();
    lemma_widths();
    let c = 0x20_0000_0000_0000nat;
    let m = 6305039478318694nat;
    let ea = lemma_count_is_exact(n);
    let a = of_count(n);
    let q = pow2((-ea) as nat);
    lemma_pow2_pos((-ea) as nat);
    let ab = a.m * m;
    assert(ab >= 0x10_0000_0000_0000nat * 0x10_0000_0000_0000nat) by (nonlinear_arith)
        requires
            ab == a.m * m,
            a.m >= 0x10_0000_0000_0000nat,
            m >= 0x10_0000_0000_0000nat,
    ;
    let ep = lemma_has_binade(ab, 1);
    lemma_nearest(ab, 1, ep);
    if ep <= 0 {
        let wide = scaled_num(ab, ep);
        assert(wide >= ab) by {
            if ep < 0 {
                lemma_pow2_pos((-ep) as nat);
                assert(ab * pow2((-ep) as nat) >= ab) by (nonlinear_arith)
                    requires
                        pow2((-ep) as nat) >= 1,
                ;
            }
        }
        assert(false);
    }
    let d = pow2(ep as nat);
    lemma_pow2_pos(ep as nat);
    let h = half_even(ab, d);
    lemma_half_even_bounds(ab, d);
    let p = nearest(ab, 1);
    let rounded_product = h * d;
    // The rounded product as mantissa and exponent.
    assert(p.m * pow2(p.e as nat) == rounded_product) by {
        if h == MANTISSA_END {
            lemma_pow2_unfold((ep + 1) as nat);
            assert(0x10_0000_0000_0000nat * (2 * d) == h * d) by (nonlinear_arith)
                requires
                    h == 0x20_0000_0000_0000nat,
            ;
        }
    }
    // It is within one part in 2^53 of the exact product.
    assert(0x10_0000_0000_0000nat * d <= ab);
    assert(rounded_product * c <= ab * (c + 1)) by (nonlinear_arith)
        requires
            2 * rounded_product <= 2 * ab + d,
            0x10_0000_0000_0000nat * d <= ab,
            c == 0x20_0000_0000_0000nat,
    ;
    assert(ab * (c - 1) <= rounded_product * c) by (nonlinear_arith)
        requires
            2 * ab <= 2 * rounded_product + d,
            0x10_0000_0000_0000nat * d <= ab,
            c == 0x20_0000_0000_0000nat,
    ;
    let f = 7 * n / 10;
    let t: int = if n % 10 == 0 { f - 1 } else { f as int };
    let unit = q * c;
    assert(ab == n * q * m);
    assert(unit > 0) by (nonlinear_arith)
        requires
            unit == q * c,
            q > 0,
            c > 0,
    ;
    assert(rounded_product < (f + 1) * unit) by {
        assert(n * m * (c + 1) < (f + 1) * (c * c)) by {
            assert(10 * (n * m * (c + 1)) == n * (7 * (c * c) + 3 * c - 4)) by (nonlinear_arith)
                requires
                    10 * m == 7 * c - 4,
            ;
            assert(n * (7 * (c * c) + 3 * c - 4) < (7 * n + 1) * (c * c)) by (nonlinear_arith)
                requires
                    0 < n,
                    3 * n < c,
            ;
            assert((7 * n + 1) * (c * c) <= (10 * (f + 1)) * (c * c)) by (nonlinear_arith)
                requires
                    7 * n + 1 <= 10 * (f + 1),
            ;
            assert((10 * (f + 1)) * (c * c) == 10 * ((f + 1) * (c * c))) by (nonlinear_arith);
        }
        assert(rounded_product * c < (f + 1) * unit * c) by (nonlinear_arith)
            requires
                rounded_product * c <= (n * q * m) * (c + 1),
                n * m * (c + 1) < (f + 1) * (c * c),
                unit == q * c,
                q > 0,
        ;
        assert(rounded_product < (f + 1) * unit) by (nonlinear_arith)
            requires
                rounded_product * c < (f + 1) * unit * c,
                c > 0,
        ;
    }
    assert(t * unit <= rounded_product) by {
        assert(t * (c * c) <= n * m * (c - 1)) by {
            assert(10 * (n * m * (c - 1)) == n * (7 * (c * c) - 11 * c + 4)) by (nonlinear_arith)
                requires
                    10 * m == 7 * c - 4,
            ;
            assert(10 * t <= 7 * n - 1);
            assert((10 * t) * (c * c) <= (7 * n - 1) * (c * c)) by (nonlinear_arith)
                requires
                    10 * t <= 7 * n - 1,
            ;
            assert((7 * n - 1) * (c * c) <= n * (7 * (c * c) - 11 * c + 4)) by (nonlinear_arith)
                requires
                    0 < n,
                    11 * n <= c,
            ;
            assert((10 * t) * (c * c) == 10 * (t * (c * c))) by (nonlinear_arith);
        }
        assert(t * unit * c <= rounded_product * c) by (nonlinear_arith)
            requires
                (n * q * m) * (c - 1) <= rounded_product * c,
                t * (c * c) <= n * m * (c - 1),
                unit == q * c,
                q > 0,
        ;
        assert(t * unit <= rounded_product) by (nonlinear_arith)
            requires
                t * unit * c <= rounded_product * c,
                c > 0,
        ;
    }
    // The whole part of the result is that quotient.
    let x = product(a, nearest(7, 10));
    assert(x.e == p.e + ea - 53);
    let whole = rounded_product / unit;
    assert(whole <= f && whole >= t) by (nonlinear_arith)
        requires
            whole == rounded_product / unit,
            rounded_product < (f + 1) * unit,
            t * unit <= rounded_product,
            unit > 0,
    ;
    lemma_pow2_adds((-ea) as nat, 53);
    assert(unit == pow2((53 - ea) as nat));
    let shift = pow2(p.e as nat);
    lemma_pow2_pos(p.e as nat);
    if x.e >= 0 {
        // Unreachable: the mantissa alone would be above the bound.
        lemma_pow2_adds((53 - ea) as nat, x.e as nat);
        assert(shift == unit * pow2(x.e as nat));
        lemma_pow2_pos(x.e as nat);
        assert(rounded_product >= p.m * unit) by (nonlinear_arith)
            requires
                rounded_product == p.m * (unit * pow2(x.e as nat)),
                pow2(x.e as nat) >= 1,
                unit > 0,
        ;
        assert(p.m * unit >= (f + 1) * unit) by (nonlinear_arith)
            requires
                p.m >= f + 1,
                unit > 0,
        ;
    } else {
        let low = pow2((-x.e) as nat);
        lemma_pow2_pos((-x.e) as nat);
        lemma_pow2_adds((-x.e) as nat, p.e as nat);
        assert(unit == low * shift);
        assert(x.m / low == rounded_product / unit) by (nonlinear_arith)
            requires
                rounded_product == x.m * shift,
                unit == low * shift,
                low > 0,
                shift > 0,
        ;
    }
}

/// Of a longer series at least as many bars are left over.
pub proof fn lemma_rest_grows(w: nat, n: nat)
    requires
        0 < w <= n < EXACT_COUNTS_END,
    ensures
        w - part_of(w, 7, 10) <= n - part_of(n, 7, 10),
{
    lemma_seven_tenths(w);
    lemma_seven_tenths(n);
}

} // verus!
