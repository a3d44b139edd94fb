//! Double-precision arithmetic keeps the order of what it rounds.

use vstd::arithmetic::power2::{lemma2_to64, lemma_pow2_pos, lemma_pow2_strictly_increases, lemma_pow2_unfold, pow2};
use vstd::prelude::*;

use crate::double::{
    at_least, below, half_even, in_binade, lemma_at_least_step, lemma_binade_order, lemma_has_binade, lemma_nearest,
    lemma_scaled_den_positive, nearest, normal, quotient, rounded, scaled_den, scaled_num, Binary, MANTISSA_END,
    MANTISSA_MIN,
};

verus! {

proof fn lemma_floor_keeps_order(a: nat, b: nat, c: nat, d: nat)
    requires
        b > 0,
        d > 0,
        a * d <= c * b,
    ensures
        a / b <= c / d,
{
    let q = a / b;
    assert(q * b <= a) by (nonlinear_arith)
        requires
            q == a / b,
            b > 0,
    ;
    assert(q * d <= c) by (nonlinear_arith)
        requires
            q * b <= a,
            a * d <= c * b,
            b > 0,
    ;
    assert(q <= c / d) by (nonlinear_arith)
        requires
            q * d <= c,
            d > 0,
    ;
}

proof fn lemma_half_even_keeps_order(a: nat, b: nat, c: nat, d: nat)
    requires
        b > 0,
        d > 0,
        a * d <= c * b,
    ensures
        half_even(a, b) <= half_even(c, d),
{
    lemma_floor_keeps_order(a, b, c, d);
    let q = a / b;
    let r = a % b;
    let s = c % d;
    if q == c / d {
        assert(a == q * b + r && c == q * d + s) by (nonlinear_arith)
            requires
                q == a / b,
                r == a % b,
                q == c / d,
                s == c % d,
                b > 0,
                d > 0,
        ;
        assert(r * d <= s * b) by (nonlinear_arith)
            requires
                a == q * b + r,
                c == q * d + s,
                a * d <= c * b,
        ;
        if 2 * r > b {
            assert(2 * s > d) by (nonlinear_arith)
                requires
                    r * d <= s * b,
                    2 * r > b,
                    b > 0,
                    d > 0,
            ;
        } else if 2 * r == b {
            assert(2 * s >= d) by (nonlinear_arith)
                requires
                    r * d <= s * b,
                    2 * r == b,
                    b > 0,
            ;
        }
    }
}

proof fn lemma_half_even_of_equals(a: nat, b: nat, c: nat, d: nat)
    requires
        b > 0,
        d > 0,
        a * d == c * b,
    ensures
        half_even(a, b) == half_even(c, d),
{
    lemma_half_even_keeps_order(a, b, c, d);
    lemma_half_even_keeps_order(c, d, a, b);
}

/// Factors by which a fraction is brought to units of `2^e`.
proof fn lemma_scaled(e: int) -> (f: (nat, nat))
    ensures
        f.0 > 0,
        f.1 > 0,
        forall|num: nat| #[trigger] scaled_num(num, e) == num * f.0,
        forall|den: nat| #[trigger] scaled_den(den, e) == den * f.1,
{
    if e < 0 {
        lemma_pow2_pos((-e) as nat);
        assert forall|den: nat| #[trigger] scaled_den(den, e) == den * 1 by {}
        (pow2((-e) as nat), 1nat)
    } else if e > 0 {
        lemma_pow2_pos(e as nat);
        assert forall|num: nat| #[trigger] scaled_num(num, e) == num * 1 by {}
        (1nat, pow2(e as nat))
    } else {
        assert forall|num: nat| #[trigger] scaled_num(num, e) == num * 1 by {}
        assert forall|den: nat| #[trigger] scaled_den(den, e) == den * 1 by {}
        (1nat, 1nat)
    }
}

proof fn lemma_scaling_keeps_order(a: nat, b: nat, c: nat, d: nat, e: int)
    requires
        a * d <= c * b,
    ensures
        scaled_num(a, e) * scaled_den(d, e) <= scaled_num(c, e) * scaled_den(b, e),
{
    let f = lemma_scaled(e);
    let (x, y) = f;
    assert((a * x) * (d * y) <= (c * x) * (b * y)) by (nonlinear_arith)
        requires
            a * d <= c * b,
            x >= 0,
            y >= 0,
    ;
}

proof fn lemma_larger_is_at_least(a: nat, b: nat, c: nat, d: nat, e: int, t: nat)
    requires
        b > 0,
        d > 0,
        a * d <= c * b,
        at_least(a, b, e, t),
    ensures
        at_least(c, d, e, t),
{
    let n = scaled_num(a, e);
    let m = scaled_num(c, e);
    let p = scaled_den(b, e);
    let q = scaled_den(d, e);
    lemma_scaling_keeps_order(a, b, c, d, e);
    lemma_scaled_den_positive(b, e);
    assert(t * q <= m) by (nonlinear_arith)
        requires
            t * p <= n,
            n * q <= m * p,
            p > 0,
    ;
}

/// Every positive fraction is rounded to a value of 53 bits.
pub proof fn lemma_nearest_is_normal(num: nat, den: nat)
    requires
        num > 0,
        den > 0,
    ensures
        normal(nearest(num, den)),
{
    let e = lemma_has_binade(num, den);
    lemma_nearest(num, den, e);
}

/// A larger fraction is not rounded to a smaller value.
pub proof fn lemma_nearest_keeps_order(a: nat, b: nat, c: nat, d: nat)
    requires
        a > 0,
        b > 0,
        c > 0,
        d > 0,
        a * d <= c * b,
    ensures
        !below(nearest(c, d), nearest(a, b)),
        normal(nearest(a, b)),
        normal(nearest(c, d)),
{
    let e = lemma_has_binade(a, b);
    let f = lemma_has_binade(c, d);
    lemma_nearest(a, b, e);
    lemma_nearest(c, d, f);
    lemma_larger_is_at_least(a, b, c, d, e, MANTISSA_MIN as nat);
    if f < e {
        lemma_binade_order(c, d, f, e);
    }
    if e == f {
        lemma_scaling_keeps_order(a, b, c, d, e);
        lemma_scaled_den_positive(b, e);
        lemma_scaled_den_positive(d, e);
        lemma_half_even_keeps_order(scaled_num(a, e), scaled_den(b, e), scaled_num(c, e), scaled_den(d, e));
    }
}

/// A fraction twice as large is rounded to twice the value.
proof fn lemma_nearest_of_double(num: nat, den: nat)
    requires
        num > 0,
        den > 0,
    ensures
        nearest(2 * num, den) == (Binary { m: nearest(num, den).m, e: nearest(num, den).e + 1 }),
{
    let e = lemma_has_binade(num, den);
    lemma_nearest(num, den, e);
    let f = lemma_scaled(e);
    let (x, y) = f;
    lemma_at_least_step(2 * num, den, e, MANTISSA_MIN as nat);
    lemma_at_least_step(2 * num, den, e, MANTISSA_END as nat);
    assert(scaled_num(2 * num, e) == 2 * scaled_num(num, e)) by (nonlinear_arith)
        requires
            scaled_num(2 * num, e) == (2 * num) * x,
            scaled_num(num, e) == num * x,
    ;
    let w = scaled_den(den, e);
    assert((2 * MANTISSA_MIN as nat) * w == 2 * (MANTISSA_MIN as nat * w)) by (nonlinear_arith);
    assert((2 * MANTISSA_END as nat) * w == 2 * (MANTISSA_END as nat * w)) by (nonlinear_arith);
    assert(in_binade(2 * num, den, e + 1));
    lemma_nearest(2 * num, den, e + 1);
    let g = lemma_scaled(e + 1);
    let (u, v) = g;
    assert(2 * u * y == x * v) by {
        if e >= 0 {
            lemma_pow2_unfold((e + 1) as nat);
            if e == 0 {
                lemma2_to64();
            }
            assert(scaled_num(1, e) == 1 * x && scaled_num(1, e + 1) == 1 * u);
            assert(scaled_den(1, e) == 1 * y && scaled_den(1, e + 1) == 1 * v);
            assert(v == 2 * y && x == 1 && u == 1);
        } else {
            lemma_pow2_unfold((-e) as nat);
            if e == -1 {
                lemma2_to64();
            }
            assert(scaled_num(1, e) == 1 * x && scaled_num(1, e + 1) == 1 * u);
            assert(scaled_den(1, e) == 1 * y && scaled_den(1, e + 1) == 1 * v);
            assert(x == 2 * u && y == 1 && v == 1);
        }
    }
    assert(((2 * num) * u) * (den * y) == (num * x) * (den * v)) by (nonlinear_arith)
        requires
            2 * u * y == x * v,
    ;
    lemma_scaled_den_positive(den, e);
    lemma_scaled_den_positive(den, e + 1);
    lemma_half_even_of_equals(
        scaled_num(2 * num, e + 1),
        scaled_den(den, e + 1),
        scaled_num(num, e),
        scaled_den(den, e),
    );
}

/// A larger divisor does not give a larger quotient.
pub proof fn lemma_quotient_turns_order(a: Binary, b: Binary, c: Binary)
    requires
        normal(a),
        normal(b),
        normal(c),
        !below(c, b),
    ensures
        !below(quotient(a, b), quotient(a, c)),
        normal(quotient(a, b)),
        normal(quotient(a, c)),
{
    if b.e == c.e {
        assert(a.m * b.m <= a.m * c.m) by (nonlinear_arith)
            requires
                b.m <= c.m,
        ;
        lemma_nearest_keeps_order(a.m, c.m, a.m, b.m);
    } else {
        assert(a.m * b.m <= (2 * a.m) * c.m) by (nonlinear_arith)
            requires
                b.m <= 2 * c.m,
        ;
        lemma_nearest_keeps_order(a.m, c.m, 2 * a.m, b.m);
        lemma_nearest_of_double(a.m, b.m);
        lemma_nearest_is_normal(a.m, b.m);
    }
}

/// A larger value is not rounded to a smaller whole number.
pub proof fn lemma_rounded_keeps_order(a: Binary, b: Binary)
    requires
        normal(a),
        normal(b),
        !below(b, a),
    ensures
        rounded(a) <= rounded(b),
{
    let p = if a.e >= 0 { pow2(a.e as nat) } else { pow2((-a.e) as nat) };
    let q = if b.e >= 0 { pow2(b.e as nat) } else { pow2((-b.e) as nat) };
    lemma_pow2_pos(if a.e >= 0 { a.e as nat } else { (-a.e) as nat });
    lemma_pow2_pos(if b.e >= 0 { b.e as nat } else { (-b.e) as nat });
    if a.e >= 0 {
        if a.e == b.e {
            assert(a.m * p <= b.m * p) by (nonlinear_arith)
                requires
                    a.m <= b.m,
            ;
        } else {
            lemma_pow2_unfold((a.e + 1) as nat);
            if a.e + 1 < b.e {
                lemma_pow2_strictly_increases((a.e + 1) as nat, b.e as nat);
            }
            assert(a.m * p <= b.m * q) by (nonlinear_arith)
                requires
                    2 * p <= q,
                    a.m <= 2 * b.m,
            ;
        }
    } else if b.e >= 0 {
        lemma_pow2_unfold((-a.e) as nat);
        lemma_pow2_pos((-a.e - 1) as nat);
        assert(p >= 2);
        let n = 2 * a.m + p;
        let d = 2 * p;
        assert(n / d <= 0x10_0000_0000_0000nat) by (nonlinear_arith)
            requires
                n == 2 * a.m + p,
                d == 2 * p,
                a.m < 0x20_0000_0000_0000nat,
                p >= 2,
        ;
        assert(b.m <= b.m * q) by (nonlinear_arith)
            requires
                q >= 1,
        ;
    } else {
        if a.e == b.e {
            assert(a.m * q <= b.m * p) by (nonlinear_arith)
                requires
                    a.m <= b.m,
                    p == q,
            ;
        } else {
            lemma_pow2_unfold((-b.e + 1) as nat);
            if -b.e + 1 < -a.e {
                lemma_pow2_strictly_increases((-b.e + 1) as nat, (-a.e) as nat);
            }
            assert(a.m * q <= b.m * p) by (nonlinear_arith)
                requires
                    2 * q <= p,
                    a.m <= 2 * b.m,
            ;
        }
        assert((2 * a.m + p) * (2 * q) <= (2 * b.m + q) * (2 * p)) by (nonlinear_arith)
            requires
                a.m * q <= b.m * p,
        ;
        lemma_floor_keeps_order(2 * a.m + p, 2 * p, 2 * b.m + q, 2 * q);
    }
}

} // verus!
