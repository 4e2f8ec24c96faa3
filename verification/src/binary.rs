//! Binary floating point, computed in integers.
//!
//! A quotient of two naturals is rounded to the nearest number with a given
//! number of binary digits, ties to the even one. Sizes, speeds and
//! percentages are computed this way, with fifty-three digits.

use vstd::prelude::*;
use vstd::arithmetic::power2::*;
use vstd::arithmetic::mul::*;
use vstd::arithmetic::div_mod::*;

verus! {

/// The number `m` times two to the power `e`.
pub ghost struct Dyadic {
    pub m: nat,
    pub e: int,
}

impl Dyadic {
    /// The numerator, over `den`.
    pub open spec fn num(self) -> nat {
        if self.e >= 0 {
            self.m * pow2(self.e as nat)
        } else {
            self.m
        }
    }

    /// The denominator: a power of two.
    pub open spec fn den(self) -> nat {
        if self.e >= 0 {
            1
        } else {
            pow2((-self.e) as nat)
        }
    }

    /// The whole part.
    pub open spec fn floor(self) -> nat {
        self.num() / self.den()
    }
}

/// `a / b`, rounded to the nearest natural, ties to the even one.
pub open spec fn half_even(a: nat, b: nat) -> nat {
    let f = a / b;
    let r = a % b;
    if 2 * r < b {
        f
    } else if 2 * r > b {
        f + 1
    } else {
        f + f % 2
    }
}

/// How often `p` has to be doubled to reach `t` times `q`.
pub open spec fn lift(p: nat, q: nat, t: nat) -> nat
    decreases
            if p < t * q {
                t * q - p
            } else {
                0
            },
{
    if p == 0 || p >= t * q {
        0
    } else {
        1 + lift(2 * p, q, t)
    }
}

/// How often `q` has to be doubled until `p` is less than `t` times `q`.
pub open spec fn drop(p: nat, q: nat, t: nat) -> nat
    decreases
            if p >= t * q {
                p - t * q + 1
            } else {
                0
            },
    when t > 0 && q > 0
{
    if p < t * q {
        0
    } else {
        proof {
            assert(t * (2 * q) == 2 * (t * q)) by (nonlinear_arith);
            assert(t * q > 0) by (nonlinear_arith)
                requires
                    t > 0,
                    q > 0,
            ;
        }
        1 + drop(p, 2 * q, t)
    }
}

/// `p / q`, rounded to the nearest number with `bits` binary digits, ties to
/// the one with an even last digit.
pub open spec fn nearest(p: nat, q: nat, bits: nat) -> Dyadic {
    let t = pow2((bits - 1) as nat);
    let i = lift(p, q, t);
    let j = drop(p, q, 2 * t);
    Dyadic { m: half_even(p * pow2(i), q * pow2(j)), e: j - i }
}

/// The quotient of two numbers, rounded to `bits` binary digits.
pub open spec fn over(a: Dyadic, b: Dyadic, bits: nat) -> Dyadic {
    nearest(a.num() * b.den(), a.den() * b.num(), bits)
}

/// The product of a number and a natural, rounded to `bits` binary digits.
pub open spec fn times(a: Dyadic, n: nat, bits: nat) -> Dyadic {
    nearest(a.num() * n, a.den(), bits)
}

/// The whole part of a number, at most the largest 64-bit natural.
pub open spec fn truncated(a: Dyadic) -> u64 {
    if a.floor() <= u64::MAX {
        a.floor() as u64
    } else {
        u64::MAX
    }
}

/// The number that the bits of a double stand for, where it is not negative
/// and finite: an exponent of eleven bits over a fraction of fifty-two.
pub open spec fn double_value(bits: nat) -> Dyadic {
    let exponent = bits / 0x10_0000_0000_0000;
    let fraction = bits % 0x10_0000_0000_0000;
    if exponent == 0 {
        Dyadic { m: fraction, e: -1074 }
    } else {
        Dyadic { m: 0x10_0000_0000_0000 + fraction, e: exponent - 1075 }
    }
}

/// Whether `a / b` is at least `t` and less than twice `t`.
pub open spec fn in_range(a: nat, b: nat, t: nat) -> bool {
    t * b <= a && a < 2 * t * b
}

/// Equal quotients round to the same natural.
pub proof fn lemma_half_even_cross(a: nat, b: nat, c: nat, d: nat)
    requires
        b > 0,
        d > 0,
        a * d == c * b,
    ensures
        half_even(a, b) == half_even(c, d),
        a / b == c / d,
{
    let f = a / b;
    let r = a % b;
    let g = c / d;
    let s = c % d;
    lemma_fundamental_div_mod(a as int, b as int);
    lemma_fundamental_div_mod(c as int, d as int);
    assert(a * d == f * (b * d) + r * d) by (nonlinear_arith)
        requires
            a == b * f + r,
    ;
    assert(c * b == g * (b * d) + s * b) by (nonlinear_arith)
        requires
            c == d * g + s,
    ;
    assert(0 <= r * d < b * d) by (nonlinear_arith)
        requires
            0 <= r < b,
            d > 0,
    ;
    assert(0 <= s * b < b * d) by (nonlinear_arith)
        requires
            0 <= s < d,
            b > 0,
    ;
    lemma_fundamental_div_mod_converse((a * d) as int, (b * d) as int, f as int, (r * d) as int);
    lemma_fundamental_div_mod_converse((c * b) as int, (b * d) as int, g as int, (s * b) as int);
    assert(f == g);
    assert(r * d == s * b);
    assert(2 * r < b ==> 2 * s < d) by (nonlinear_arith)
        requires
            r * d == s * b,
            b > 0,
            d > 0,
    ;
    assert(2 * r > b ==> 2 * s > d) by (nonlinear_arith)
        requires
            r * d == s * b,
            b > 0,
            d > 0,
    ;
    assert(2 * r == b ==> 2 * s == d) by (nonlinear_arith)
        requires
            r * d == s * b,
            b > 0,
            d > 0,
    ;
}

proof fn lemma_lift(p: nat, q: nat, t: nat)
    requires
        p > 0,
        q > 0,
    ensures
        p * pow2(lift(p, q, t)) >= t * q,
        lift(p, q, t) > 0 ==> p * pow2(lift(p, q, t)) < 2 * t * q,
    decreases
            if p < t * q {
                t * q - p
            } else {
                0
            },
{
    lemma2_to64();
    assert(2 * t * q == 2 * (t * q)) by (nonlinear_arith);
    if p < t * q {
        lemma_lift(2 * p, q, t);
        let k = lift(2 * p, q, t);
        lemma_pow2_unfold(k + 1);
        assert(p * pow2(k + 1) == (2 * p) * pow2(k)) by (nonlinear_arith)
            requires
                pow2(k + 1) == 2 * pow2(k),
        ;
        if k == 0 {
            assert((2 * p) * pow2(0) == 2 * p) by (nonlinear_arith)
                requires
                    pow2(0) == 1,
            ;
        }
    } else {
        assert(p * pow2(0) == p) by (nonlinear_arith)
            requires
                pow2(0) == 1,
        ;
    }
}

proof fn lemma_drop(p: nat, q: nat, t: nat)
    requires
        q > 0,
        t > 0,
    ensures
        p < t * (q * pow2(drop(p, q, t))),
        drop(p, q, t) > 0 ==> 2 * p >= t * (q * pow2(drop(p, q, t))),
    decreases
            if p >= t * q {
                p - t * q + 1
            } else {
                0
            },
{
    lemma2_to64();
    if p < t * q {
        assert(q * pow2(0) == q) by (nonlinear_arith)
            requires
                pow2(0) == 1,
        ;
    } else {
        assert(t * (2 * q) == 2 * (t * q)) by (nonlinear_arith);
        assert(t * q > 0) by (nonlinear_arith)
            requires
                t > 0,
                q > 0,
        ;
        lemma_drop(p, 2 * q, t);
        let k = drop(p, 2 * q, t);
        lemma_pow2_unfold(k + 1);
        assert(q * pow2(k + 1) == (2 * q) * pow2(k)) by (nonlinear_arith)
            requires
                pow2(k + 1) == 2 * pow2(k),
        ;
        if k == 0 {
            assert((2 * q) * pow2(0) == 2 * q) by (nonlinear_arith)
                requires
                    pow2(0) == 1,
            ;
        }
    }
}

/// The scaling in the definition of `nearest` brings `p / q` into the range of
/// the mantissa.
proof fn lemma_nearest_range(p: nat, q: nat, bits: nat)
    requires
        p > 0,
        q > 0,
        bits > 0,
    ensures
        ({
            let t = pow2((bits - 1) as nat);
            in_range(p * pow2(lift(p, q, t)), q * pow2(drop(p, q, 2 * t)), t)
        }),
{
    let t = pow2((bits - 1) as nat);
    lemma_pow2_pos((bits - 1) as nat);
    let k = lift(p, q, t);
    let l = drop(p, q, 2 * t);
    lemma_lift(p, q, t);
    lemma_drop(p, q, 2 * t);
    lemma2_to64();
    assert(q * pow2(0) == q && p * pow2(0) == p) by (nonlinear_arith)
        requires
            pow2(0) == 1,
    ;
    assert(2 * t * q == 2 * (t * q)) by (nonlinear_arith);
    assert((2 * t) * q == 2 * (t * q)) by (nonlinear_arith);
    if k > 0 {
        assert(p < t * q);
        assert(l == 0);
    }
    let c = p * pow2(k);
    let d = q * pow2(l);
    assert((2 * t) * d == 2 * (t * d)) by (nonlinear_arith);
    assert(2 * t * d == 2 * (t * d)) by (nonlinear_arith);
    if k == 0 {
        if l == 0 {
            assert(c == p && d == q);
        } else {
            assert(2 * p >= (2 * t) * d);
        }
    } else {
        assert(d == q);
    }
}

/// Any scaling by powers of two that brings `p / q` into the range of the
/// mantissa gives the mantissa and the exponent of the rounded quotient.
pub proof fn lemma_nearest(p: nat, q: nat, bits: nat, i: nat, j: nat)
    requires
        p > 0,
        q > 0,
        bits > 0,
        in_range(p * pow2(i), q * pow2(j), pow2((bits - 1) as nat)),
    ensures
        nearest(p, q, bits) == (Dyadic {
            m: half_even(p * pow2(i), q * pow2(j)),
            e: j - i,
        }),
{
    let t = pow2((bits - 1) as nat);
    let k = lift(p, q, t);
    let l = drop(p, q, 2 * t);
    lemma_nearest_range(p, q, bits);
    lemma_pow2_pos(i);
    lemma_pow2_pos(j);
    lemma_pow2_pos(k);
    lemma_pow2_pos(l);
    let a = p * pow2(i);
    let b = q * pow2(j);
    let c = p * pow2(k);
    let d = q * pow2(l);
    assert(b > 0) by (nonlinear_arith)
        requires
            b == q * pow2(j),
            q > 0,
            pow2(j) > 0,
    ;
    assert(d > 0) by (nonlinear_arith)
        requires
            d == q * pow2(l),
            q > 0,
            pow2(l) > 0,
    ;
    lemma_pow2_adds(i, l);
    lemma_pow2_adds(k, j);
    let pq = p * q;
    assert(pq > 0) by (nonlinear_arith)
        requires
            pq == p * q,
            p > 0,
            q > 0,
    ;
    assert(a * d == pq * pow2(i + l)) by (nonlinear_arith)
        requires
            a == p * pow2(i),
            d == q * pow2(l),
            pq == p * q,
            pow2(i + l) == pow2(i) * pow2(l),
    ;
    assert(c * b == pq * pow2(k + j)) by (nonlinear_arith)
        requires
            c == p * pow2(k),
            b == q * pow2(j),
            pq == p * q,
            pow2(k + j) == pow2(k) * pow2(j),
    ;
    assert(a * d < 2 * (c * b)) by (nonlinear_arith)
        requires
            a < 2 * t * b,
            t * d <= c,
            b > 0,
            d > 0,
    ;
    assert(c * b < 2 * (a * d)) by (nonlinear_arith)
        requires
            c < 2 * t * d,
            t * b <= a,
            b > 0,
            d > 0,
    ;
    if i + l > k + j {
        lemma_pow2_monotone(k + j + 1, i + l);
        lemma_pow2_unfold(k + j + 1);
        assert(pq * pow2(i + l) >= 2 * (pq * pow2(k + j))) by (nonlinear_arith)
            requires
                pow2(i + l) >= 2 * pow2(k + j),
                pq > 0,
        ;
    }
    if k + j > i + l {
        lemma_pow2_monotone(i + l + 1, k + j);
        lemma_pow2_unfold(i + l + 1);
        assert(pq * pow2(k + j) >= 2 * (pq * pow2(i + l))) by (nonlinear_arith)
            requires
                pow2(k + j) >= 2 * pow2(i + l),
                pq > 0,
        ;
    }
    assert(i + l == k + j);
    lemma_half_even_cross(a, b, c, d);
}

/// A greater power of two is no less.
pub proof fn lemma_pow2_monotone(i: nat, j: nat)
    requires
        i <= j,
    ensures
        pow2(i) <= pow2(j),
{
    if i < j {
        lemma_pow2_strictly_increases(i, j);
    }
}

/// Scaling the quotient by a power of two leaves the mantissa as it is and
/// moves the exponent.
pub proof fn lemma_nearest_shift(p: nat, q: nat, bits: nat, x: nat, y: nat)
    requires
        p > 0,
        q > 0,
        bits > 0,
    ensures
        nearest(p * pow2(x), q * pow2(y), bits) == (Dyadic {
            m: nearest(p, q, bits).m,
            e: nearest(p, q, bits).e + x - y,
        }),
{
    let t = pow2((bits - 1) as nat);
    let i = lift(p, q, t);
    let j = drop(p, q, 2 * t);
    lemma_nearest_range(p, q, bits);
    lemma_pow2_pos(x);
    lemma_pow2_pos(y);
    lemma_pow2_pos(i);
    lemma_pow2_pos(j);
    lemma_pow2_pos(x + y);
    lemma_pow2_adds(x, y);
    lemma_pow2_adds(x, i + y);
    lemma_pow2_adds(i, y);
    lemma_pow2_adds(y, j + x);
    lemma_pow2_adds(j, x);
    let s = pow2(x + y);
    let a = p * pow2(i);
    let b = q * pow2(j);
    let c = (p * pow2(x)) * pow2(i + y);
    let d = (q * pow2(y)) * pow2(j + x);
    assert(c == a * s) by (nonlinear_arith)
        requires
            c == (p * pow2(x)) * pow2(i + y),
            a == p * pow2(i),
            pow2(i + y) == pow2(i) * pow2(y),
            s == pow2(x) * pow2(y),
    ;
    assert(d == b * s) by (nonlinear_arith)
        requires
            d == (q * pow2(y)) * pow2(j + x),
            b == q * pow2(j),
            pow2(j + x) == pow2(j) * pow2(x),
            s == pow2(x) * pow2(y),
    ;
    assert(t * d <= c && c < 2 * t * d) by (nonlinear_arith)
        requires
            t * b <= a,
            a < 2 * t * b,
            c == a * s,
            d == b * s,
            s > 0,
    ;
    assert(p * pow2(x) > 0) by (nonlinear_arith)
        requires
            p > 0,
            pow2(x) > 0,
    ;
    assert(q * pow2(y) > 0) by (nonlinear_arith)
        requires
            q > 0,
            pow2(y) > 0,
    ;
    lemma_nearest(p * pow2(x), q * pow2(y), bits, i + y, j + x);
    assert(b > 0) by (nonlinear_arith)
        requires
            b == q * pow2(j),
            q > 0,
            pow2(j) > 0,
    ;
    assert(d > 0) by (nonlinear_arith)
        requires
            d == b * s,
            b > 0,
            s > 0,
    ;
    assert(c * b == a * d) by (nonlinear_arith)
        requires
            c == a * s,
            d == b * s,
    ;
    lemma_half_even_cross(c, d, a, b);
}

/// The mantissa has the given number of binary digits, or is the least number
/// with one more.
pub proof fn lemma_nearest_bounds(p: nat, q: nat, bits: nat)
    requires
        p > 0,
        q > 0,
        bits > 0,
    ensures
        pow2((bits - 1) as nat) <= nearest(p, q, bits).m <= 2 * pow2((bits - 1) as nat),
{
    let t = pow2((bits - 1) as nat);
    lemma_nearest_range(p, q, bits);
    let a = p * pow2(lift(p, q, t));
    let l = drop(p, q, 2 * t);
    let b = q * pow2(l);
    lemma_pow2_pos(l);
    assert(b > 0) by (nonlinear_arith)
        requires
            b == q * pow2(l),
            q > 0,
            pow2(l) > 0,
    ;
    lemma_fundamental_div_mod(a as int, b as int);
    assert(2 * t * b == 2 * (t * b)) by (nonlinear_arith);
    assert(t <= a / b && a / b < 2 * t) by (nonlinear_arith)
        requires
            a == b * (a / b) + a % b,
            0 <= a % b < b,
            t * b <= a,
            a < 2 * (t * b),
            b > 0,
    ;
}

/// A number that does not reach the range after `n` doublings takes more.
pub proof fn lemma_lift_far(p: nat, q: nat, t: nat, n: nat)
    requires
        p > 0,
        p * pow2(n) < t * q,
    ensures
        lift(p, q, t) > n,
        p < t * q,
    decreases n,
{
    lemma2_to64();
    lemma_pow2_pos(n);
    assert(p <= p * pow2(n)) by (nonlinear_arith)
        requires
            pow2(n) >= 1,
    ;
    if n > 0 {
        lemma_pow2_unfold(n);
        assert((2 * p) * pow2((n - 1) as nat) == p * pow2(n)) by (nonlinear_arith)
            requires
                pow2(n) == 2 * pow2((n - 1) as nat),
        ;
        lemma_lift_far(2 * p, q, t, (n - 1) as nat);
    }
}

/// A number that is above the range after `n` halvings takes more.
pub proof fn lemma_drop_far(p: nat, q: nat, t: nat, n: nat)
    requires
        q > 0,
        t > 0,
        p >= t * (q * pow2(n)),
    ensures
        drop(p, q, t) > n,
    decreases n,
{
    lemma2_to64();
    lemma_pow2_pos(n);
    assert(t * q <= t * (q * pow2(n))) by (nonlinear_arith)
        requires
            pow2(n) >= 1,
            t > 0,
            q > 0,
    ;
    if n > 0 {
        lemma_pow2_unfold(n);
        assert((2 * q) * pow2((n - 1) as nat) == q * pow2(n)) by (nonlinear_arith)
            requires
                pow2(n) == 2 * pow2((n - 1) as nat),
        ;
        lemma_drop_far(p, 2 * q, t, (n - 1) as nat);
    }
}

/// Zero rounds to zero.
pub proof fn lemma_nearest_zero(q: nat, bits: nat)
    requires
        q > 0,
        bits > 0,
    ensures
        nearest(0, q, bits) == (Dyadic { m: 0, e: 0 }),
{
    let t = pow2((bits - 1) as nat);
    lemma_pow2_pos((bits - 1) as nat);
    lemma2_to64();
    assert(0 < (2 * t) * q) by (nonlinear_arith)
        requires
            t > 0,
            q > 0,
    ;
    assert(0 * pow2(0) == 0 && q * pow2(0) == q) by (nonlinear_arith)
        requires
            pow2(0) == 1,
    ;
    lemma_div_of0(q as int);
    lemma_small_mod(0, q);
}

/// A natural with at most `bits` binary digits, and the next one, is not
/// changed by rounding to as many.
pub proof fn lemma_nearest_exact(n: nat, bits: nat)
    requires
        bits > 0,
        n <= 2 * pow2((bits - 1) as nat),
    ensures
        nearest(n, 1, bits).num() == n * nearest(n, 1, bits).den(),
{
    let t = pow2((bits - 1) as nat);
    lemma2_to64();
    lemma_pow2_pos((bits - 1) as nat);
    let x = nearest(n, 1, bits);
    if n == 0 {
        lemma_nearest_zero(1, bits);
        assert(0 * pow2(0) == 0) by (nonlinear_arith);
    } else if n == 2 * t {
        assert(n * pow2(0) == n) by (nonlinear_arith)
            requires
                pow2(0) == 1,
        ;
        assert(t * 2 == 2 * t && 2 * t * 2 == 4 * t) by (nonlinear_arith);
        assert(in_range(n * pow2(0), 1 * pow2(1), t));
        lemma_nearest(n, 1, bits, 0, 1);
        lemma_fundamental_div_mod_converse(n as int, 2, t as int, 0);
        assert(x.m == t && x.e == 1);
        assert(x.num() == 2 * t) by (nonlinear_arith)
            requires
                x.num() == x.m * pow2(1),
                x.m == t,
                pow2(1) == 2,
        ;
    } else {
        let i = lift(n, 1, t);
        lemma_nearest_range(n, 1, bits);
        lemma_den(x);
        assert(drop(n, 1, 2 * t) == 0);
        let a = n * pow2(i);
        assert(1 * pow2(0) == 1);
        lemma_div_basics_2(a as int);
        assert(a % 1 == 0) by (nonlinear_arith);
        assert(x.m == a && x.e == -(i as int));
        if i == 0 {
            assert(n * pow2(0) == n) by (nonlinear_arith)
                requires
                    pow2(0) == 1,
            ;
            assert(x.num() == n) by (nonlinear_arith)
                requires
                    x.num() == x.m * pow2(0),
                    pow2(0) == 1,
                    x.m == n,
            ;
        }
    }
}

/// Whether `x` is at most `y`.
pub open spec fn at_most(x: Dyadic, y: Dyadic) -> bool {
    x.num() * y.den() <= y.num() * x.den()
}

/// A greater quotient rounds to no less a natural.
proof fn lemma_half_even_monotone(a: nat, b: nat, c: nat, d: nat)
    requires
        b > 0,
        d > 0,
        a * d <= c * b,
    ensures
        half_even(a, b) <= half_even(c, d),
{
    let f = a / b;
    let r = a % b;
    let g = c / d;
    let s = c % d;
    lemma_fundamental_div_mod(a as int, b as int);
    lemma_fundamental_div_mod(c as int, d as int);
    assert(f <= g) by (nonlinear_arith)
        requires
            a == b * f + r,
            c == d * g + s,
            0 <= r,
            0 <= s < d,
            a * d <= c * b,
            b > 0,
            d > 0,
    {
        if f >= g + 1 {
            assert(a * d >= (b * (g + 1)) * d);
            assert(c * b < (d * (g + 1)) * b);
            assert((b * (g + 1)) * d == (d * (g + 1)) * b);
        }
    }
    if f == g {
        assert(r * d <= s * b) by (nonlinear_arith)
            requires
                a == b * f + r,
                c == d * f + s,
                a * d <= c * b,
        ;
        assert(2 * r > b ==> 2 * s > d) by (nonlinear_arith)
            requires
                r * d <= s * b,
                b > 0,
                d > 0,
        ;
        assert(2 * r == b ==> 2 * s >= d) by (nonlinear_arith)
            requires
                r * d <= s * b,
                b > 0,
                d > 0,
        ;
    }
}

/// The value of `x`, scaled by a power of two that makes it whole.
proof fn lemma_scaled_value(x: Dyadic, n: nat)
    requires
        x.e + n >= 0,
    ensures
        x.num() * pow2(n) == x.m * pow2((x.e + n) as nat) * x.den(),
{
    lemma2_to64();
    if x.e >= 0 {
        lemma_pow2_adds(x.e as nat, n);
        assert(x.num() * pow2(n) == x.m * pow2((x.e + n) as nat) * 1) by (nonlinear_arith)
            requires
                x.num() == x.m * pow2(x.e as nat),
                pow2((x.e + n) as nat) == pow2(x.e as nat) * pow2(n),
        ;
    } else {
        lemma_pow2_adds((-x.e) as nat, (x.e + n) as nat);
        assert(x.m * pow2(n) == x.m * pow2((x.e + n) as nat) * x.den()) by (nonlinear_arith)
            requires
                x.den() == pow2((-x.e) as nat),
                pow2(n) == pow2((-x.e) as nat) * pow2((x.e + n) as nat),
        ;
    }
}

proof fn lemma_at_most(x: Dyadic, y: Dyadic, n: nat)
    requires
        x.e + n >= 0,
        y.e + n >= 0,
        x.m * pow2((x.e + n) as nat) <= y.m * pow2((y.e + n) as nat),
    ensures
        at_most(x, y),
{
    lemma_scaled_value(x, n);
    lemma_scaled_value(y, n);
    lemma_den(x);
    lemma_den(y);
    lemma_pow2_pos(n);
    let a = x.m * pow2((x.e + n) as nat);
    let b = y.m * pow2((y.e + n) as nat);
    assert(x.num() * y.den() <= y.num() * x.den()) by (nonlinear_arith)
        requires
            x.num() * pow2(n) == a * x.den(),
            y.num() * pow2(n) == b * y.den(),
            a <= b,
            x.den() > 0,
            y.den() > 0,
            pow2(n) > 0,
    {
        assert((x.num() * y.den()) * pow2(n) == a * (x.den() * y.den()));
        assert((y.num() * x.den()) * pow2(n) == b * (x.den() * y.den()));
        assert(a * (x.den() * y.den()) <= b * (x.den() * y.den()));
    }
}

/// A greater quotient rounds to no less a number.
pub proof fn lemma_nearest_monotone(p: nat, q: nat, u: nat, v: nat, bits: nat)
    requires
        q > 0,
        u > 0,
        v > 0,
        bits > 0,
        p * v <= u * q,
    ensures
        at_most(nearest(p, q, bits), nearest(u, v, bits)),
{
    let x = nearest(p, q, bits);
    let y = nearest(u, v, bits);
    let t = pow2((bits - 1) as nat);
    lemma_pow2_pos((bits - 1) as nat);
    lemma_den(x);
    lemma_den(y);
    if p == 0 {
        lemma_nearest_zero(q, bits);
        assert(x.num() * y.den() == 0) by (nonlinear_arith)
            requires
                x.num() == 0,
        ;
    } else {
        let i = lift(p, q, t);
        let j = drop(p, q, 2 * t);
        let k = lift(u, v, t);
        let l = drop(u, v, 2 * t);
        lemma_nearest_range(p, q, bits);
        lemma_nearest_range(u, v, bits);
        lemma_nearest_bounds(p, q, bits);
        lemma_nearest_bounds(u, v, bits);
        lemma_pow2_pos(i);
        lemma_pow2_pos(j);
        lemma_pow2_pos(k);
        lemma_pow2_pos(l);
        let a = p * pow2(i);
        let b = q * pow2(j);
        let c = u * pow2(k);
        let d = v * pow2(l);
        assert(b > 0) by (nonlinear_arith)
            requires
                b == q * pow2(j),
                q > 0,
                pow2(j) > 0,
        ;
        assert(d > 0) by (nonlinear_arith)
            requires
                d == v * pow2(l),
                v > 0,
                pow2(l) > 0,
        ;
        let n = i + k;
        lemma_pow2_adds(i, l);
        lemma_pow2_adds(k, j);
        assert(a * d == (p * v) * pow2(i + l)) by (nonlinear_arith)
            requires
                a == p * pow2(i),
                d == v * pow2(l),
                pow2(i + l) == pow2(i) * pow2(l),
        ;
        assert(c * b == (u * q) * pow2(k + j)) by (nonlinear_arith)
            requires
                c == u * pow2(k),
                b == q * pow2(j),
                pow2(k + j) == pow2(k) * pow2(j),
        ;
        if j + k == l + i {
            assert(a * d <= c * b) by (nonlinear_arith)
                requires
                    a * d == (p * v) * pow2(i + l),
                    c * b == (u * q) * pow2(k + j),
                    pow2(i + l) == pow2(k + j),
                    p * v <= u * q,
            ;
            lemma_half_even_monotone(a, b, c, d);
            let w = pow2((x.e + n) as nat);
            assert(x.e == y.e);
            assert(x.m * w <= y.m * w) by (nonlinear_arith)
                requires
                    x.m <= y.m,
            ;
            lemma_at_most(x, y, n);
        } else if j + k < l + i {
            // The exponent of `x` is less.
            let w = pow2((x.e + n) as nat);
            let z = pow2((y.e + n) as nat);
            lemma_pow2_monotone((x.e + n + 1) as nat, (y.e + n) as nat);
            lemma_pow2_unfold((x.e + n + 1) as nat);
            assert(x.m * w <= y.m * z) by (nonlinear_arith)
                requires
                    x.m <= 2 * t,
                    y.m >= t,
                    z >= 2 * w,
            ;
            lemma_at_most(x, y, n);
        } else {
            // Then the first quotient would be the greater one.
            lemma_pow2_monotone(i + l + 1, k + j);
            lemma_pow2_unfold(i + l + 1);
            let w = pow2(i + l);
            let z = pow2(k + j);
            assert(a * d <= (u * q) * w) by (nonlinear_arith)
                requires
                    a * d == (p * v) * w,
                    p * v <= u * q,
            ;
            assert((u * q) * z >= 2 * ((u * q) * w)) by (nonlinear_arith)
                requires
                    z >= 2 * w,
                    u * q >= 0,
            ;
            assert(a * d >= (t * b) * d) by (nonlinear_arith)
                requires
                    a >= t * b,
            ;
            assert(c * b < (2 * t * d) * b) by (nonlinear_arith)
                requires
                    c < 2 * t * d,
                    b > 0,
            ;
            assert((2 * t * d) * b == 2 * ((t * b) * d)) by (nonlinear_arith);
            assert(false);
        }
    }
}

/// A greater number, divided by the same one, gives no less a quotient.
pub proof fn lemma_over_monotone(x: Dyadic, y: Dyadic, d: Dyadic, bits: nat)
    requires
        at_most(x, y),
        y.m > 0,
        d.m > 0,
        bits > 0,
    ensures
        at_most(over(x, d, bits), over(y, d, bits)),
        over(y, d, bits).m > 0,
{
    lemma_den(x);
    lemma_den(y);
    lemma_den(d);
    let p = x.num() * d.den();
    let q = x.den() * d.num();
    let u = y.num() * d.den();
    let v = y.den() * d.num();
    assert(q > 0 && u > 0 && v > 0) by (nonlinear_arith)
        requires
            q == x.den() * d.num(),
            u == y.num() * d.den(),
            v == y.den() * d.num(),
            x.den() > 0,
            y.den() > 0,
            d.den() > 0,
            y.num() > 0,
            d.num() > 0,
    ;
    assert(p * v <= u * q) by (nonlinear_arith)
        requires
            p == x.num() * d.den(),
            q == x.den() * d.num(),
            u == y.num() * d.den(),
            v == y.den() * d.num(),
            x.num() * y.den() <= y.num() * x.den(),
    {
        let k = d.den() * d.num();
        assert(p * v == (x.num() * y.den()) * k);
        assert(u * q == (y.num() * x.den()) * k);
        assert((x.num() * y.den()) * k <= (y.num() * x.den()) * k);
    }
    lemma_nearest_monotone(p, q, u, v, bits);
    lemma_nearest_bounds(u, v, bits);
    lemma_pow2_pos((bits - 1) as nat);
}

/// A greater number, times the same natural, gives no less a product.
pub proof fn lemma_times_monotone(x: Dyadic, y: Dyadic, n: nat, bits: nat)
    requires
        at_most(x, y),
        y.m > 0,
        n > 0,
        bits > 0,
    ensures
        at_most(times(x, n, bits), times(y, n, bits)),
{
    lemma_den(x);
    lemma_den(y);
    assert(y.num() * n > 0) by (nonlinear_arith)
        requires
            y.num() > 0,
            n > 0,
    ;
    assert((x.num() * n) * y.den() <= (y.num() * n) * x.den()) by (nonlinear_arith)
        requires
            x.num() * y.den() <= y.num() * x.den(),
    {
        assert((x.num() * n) * y.den() == (x.num() * y.den()) * n);
        assert((y.num() * n) * x.den() == (y.num() * x.den()) * n);
        assert((x.num() * y.den()) * n <= (y.num() * x.den()) * n);
    }
    lemma_nearest_monotone(x.num() * n, x.den(), y.num() * n, y.den(), bits);
}

/// A greater number has no less a whole part.
pub proof fn lemma_truncated_monotone(x: Dyadic, y: Dyadic)
    requires
        at_most(x, y),
    ensures
        truncated(x) <= truncated(y),
{
    lemma_den(x);
    lemma_den(y);
    let f = x.num() / x.den();
    let g = y.num() / y.den();
    lemma_fundamental_div_mod(x.num() as int, x.den() as int);
    lemma_fundamental_div_mod(y.num() as int, y.den() as int);
    assert(f <= g) by (nonlinear_arith)
        requires
            x.num() == x.den() * f + x.num() % x.den(),
            y.num() == y.den() * g + y.num() % y.den(),
            0 <= x.num() % x.den(),
            0 <= y.num() % y.den() < y.den(),
            x.num() * y.den() <= y.num() * x.den(),
            x.den() > 0,
            y.den() > 0,
    {
        if f >= g + 1 {
            assert(x.num() >= x.den() * (g + 1));
            assert(y.num() < y.den() * (g + 1));
            assert(x.num() * y.den() >= (x.den() * (g + 1)) * y.den());
            assert(y.num() * x.den() < (y.den() * (g + 1)) * x.den());
            assert((x.den() * (g + 1)) * y.den() == (y.den() * (g + 1)) * x.den());
        }
    }
}

/// `N` times a number that is at most one is at most `N`, also when rounded.
pub proof fn lemma_times_bounded(x: Dyadic, n: nat, bits: nat)
    requires
        x.num() <= x.den(),
        n > 0,
        bits > 0,
        n <= 2 * pow2((bits - 1) as nat),
    ensures
        times(x, n, bits).floor() <= n,
{
    lemma_den(x);
    assert(x.num() * n * 1 <= n * x.den()) by (nonlinear_arith)
        requires
            x.num() <= x.den(),
    ;
    lemma_nearest_monotone(x.num() * n, x.den(), n, 1, bits);
    lemma_nearest_exact(n, bits);
    let y = times(x, n, bits);
    let z = nearest(n, 1, bits);
    lemma_den(y);
    lemma_den(z);
    assert(y.num() <= n * y.den()) by (nonlinear_arith)
        requires
            y.num() * z.den() <= z.num() * y.den(),
            z.num() == n * z.den(),
            z.den() > 0,
    ;
    assert(y.num() / y.den() <= n) by (nonlinear_arith)
        requires
            y.num() <= n * y.den(),
            y.den() > 0,
    ;
}

/// The quotient of two numbers, the second of which is no less, is at most
/// one, also when rounded.
pub proof fn lemma_over_bounded(x: Dyadic, y: Dyadic, bits: nat)
    requires
        at_most(x, y),
        y.m > 0,
        bits > 0,
    ensures
        over(x, y, bits).num() <= over(x, y, bits).den(),
{
    lemma_den(x);
    lemma_den(y);
    let p = x.num() * y.den();
    let q = x.den() * y.num();
    assert(q > 0) by (nonlinear_arith)
        requires
            q == x.den() * y.num(),
            x.den() > 0,
            y.num() > 0,
    ;
    assert(p * 1 <= 1 * q) by (nonlinear_arith)
        requires
            p <= y.num() * x.den(),
            q == x.den() * y.num(),
    ;
    lemma_pow2_pos((bits - 1) as nat);
    lemma_nearest_monotone(p, q, 1, 1, bits);
    lemma_nearest_exact(1, bits);
    let r = over(x, y, bits);
    let z = nearest(1, 1, bits);
    lemma_den(r);
    lemma_den(z);
    assert(r.num() <= r.den()) by (nonlinear_arith)
        requires
            r.num() * z.den() <= z.num() * r.den(),
            z.num() == 1 * z.den(),
            z.den() > 0,
    ;
}

/// Moving the exponent of a number with a whole value scales the value.
pub proof fn lemma_floor_scaled(x: Dyadic, n: nat, k: nat)
    requires
        x.num() == n * x.den(),
    ensures
        (Dyadic { m: x.m, e: x.e + k }).floor() == n * pow2(k),
{
    let y = Dyadic { m: x.m, e: x.e + k };
    lemma2_to64();
    lemma_pow2_pos(k);
    if x.e >= 0 {
        lemma_pow2_adds(x.e as nat, k);
        assert(n * 1 == n) by (nonlinear_arith);
        assert(y.num() == n * pow2(k)) by (nonlinear_arith)
            requires
                y.num() == x.m * (pow2(x.e as nat) * pow2(k)),
                x.m * pow2(x.e as nat) == n,
        ;
        lemma_div_basics_2(y.num() as int);
    } else if y.e >= 0 {
        lemma_pow2_adds((-x.e) as nat, y.e as nat);
        assert(y.num() == n * pow2(k)) by (nonlinear_arith)
            requires
                y.num() == x.m * pow2(y.e as nat),
                x.m == n * pow2((-x.e) as nat),
                pow2(k) == pow2((-x.e) as nat) * pow2(y.e as nat),
        ;
        lemma_div_basics_2(y.num() as int);
    } else {
        lemma_pow2_adds(k, (-y.e) as nat);
        lemma_pow2_pos((-y.e) as nat);
        let d = pow2((-y.e) as nat);
        assert(x.m == d * (n * pow2(k))) by (nonlinear_arith)
            requires
                x.m == n * pow2((-x.e) as nat),
                pow2((-x.e) as nat) == pow2(k) * d,
        ;
        lemma_div_multiples_vanish((n * pow2(k)) as int, d as int);
    }
}

/// A natural below two to the power 64 rounds to one of at most that power.
pub proof fn lemma_whole_bound(n: nat)
    requires
        n < 0x1_0000_0000_0000_0000,
    ensures
        nearest(n, 1, 53).floor() <= 0x2_0000_0000_0000_0000,
{
    let t = pow2(52);
    lemma2_to64();
    lemma2_to64_rest();
    if n == 0 {
        lemma_nearest_zero(1, 53);
        assert(0 * pow2(0) == 0) by (nonlinear_arith);
    } else {
        lemma_nearest_range(n, 1, 53);
        let i = lift(n, 1, t);
        let j = drop(n, 1, 2 * t);
        let x = nearest(n, 1, 53);
        lemma_pow2_pos(i);
        lemma_pow2_pos(j);
        let a = n * pow2(i);
        let b = 1 * pow2(j);
        lemma_fundamental_div_mod(a as int, b as int);
        assert(x.m * b <= 2 * a) by (nonlinear_arith)
            requires
                a == b * (a / b) + a % b,
                x.m <= a / b + 1,
                t * b <= a,
                t >= 1,
                0 <= a % b,
        ;
        lemma_den(x);
        let u = up(x.e);
        let v = down(x.e);
        lemma_pow2_pos(v);
        lemma_pow2_adds(i, u);
        lemma_pow2_adds(j, v);
        assert(i + u == j + v);
        assert(x.m * pow2(u) <= 2 * n * pow2(v)) by (nonlinear_arith)
            requires
                x.m * pow2(j) <= 2 * (n * pow2(i)),
                pow2(i) * pow2(u) == pow2(j) * pow2(v),
                pow2(i) > 0,
                pow2(j) > 0,
        {
            assert((x.m * pow2(u)) * pow2(i) == x.m * (pow2(j) * pow2(v)));
            assert(x.m * (pow2(j) * pow2(v)) == (x.m * pow2(j)) * pow2(v));
            assert((x.m * pow2(j)) * pow2(v) <= (2 * (n * pow2(i))) * pow2(v));
            assert((2 * (n * pow2(i))) * pow2(v) == (2 * n * pow2(v)) * pow2(i));
        }
        assert(x.num() / x.den() <= 2 * n) by (nonlinear_arith)
            requires
                x.num() <= 2 * n * x.den(),
                x.den() > 0,
        ;
    }
}

/// The number `m` times two to the power `e`.
#[derive(Clone, Copy)]
pub struct Float {
    pub m: u64,
    pub e: i32,
}

/// Two to the power `k`.
fn power(k: u32) -> (r: u128)
    requires
        k < 128,
    ensures
        r == pow2(k as nat),
{
    let mut r: u128 = 1;
    let mut i: u32 = 0;
    proof {
        lemma2_to64();
    }
    while i < k
        invariant
            i <= k < 128,
            r == pow2(i as nat),
        decreases k - i,
    {
        proof {
            lemma_pow2_unfold((i + 1) as nat);
            lemma_pow2_small((i + 1) as nat);
        }
        r = r * 2;
        i = i + 1;
    }
    r
}

/// A power of two with an exponent below 128 fits in 128 bits.
proof fn lemma_pow2_small(k: nat)
    requires
        k < 128,
    ensures
        pow2(k) <= 0x8000_0000_0000_0000_0000_0000_0000_0000,
{
    lemma_pow2_monotone(k, 127);
    lemma_pow2_127();
}

proof fn lemma_pow2_127()
    ensures
        pow2(127) == 0x8000_0000_0000_0000_0000_0000_0000_0000,
        pow2(64) == 0x1_0000_0000_0000_0000,
        pow2(52) == 0x10_0000_0000_0000,
        pow2(0) == 1,
{
    lemma2_to64();
    lemma2_to64_rest();
    lemma_pow2_adds(64, 63);
    assert(0x1_0000_0000_0000_0000nat * 0x8000_0000_0000_0000nat
        == 0x8000_0000_0000_0000_0000_0000_0000_0000nat) by (nonlinear_arith);
}

/// `p / q`, rounded to the nearest natural, ties to the even one.
pub fn rounded(p: u128, q: u128) -> (r: u128)
    requires
        0 < q <= 0x8000_0000_0000_0000_0000_0000_0000_0000,
        p / q < u128::MAX,
    ensures
        r == half_even(p as nat, q as nat),
{
    let f: u128 = p / q;
    let rest: u128 = p % q;
    let other: u128 = q - rest;
    if rest < other {
        f
    } else if rest > other {
        f + 1
    } else {
        f + f % 2
    }
}

impl Float {
    /// The number that this value stands for.
    pub open spec fn value(self) -> Dyadic {
        Dyadic { m: self.m as nat, e: self.e as int }
    }

    /// `p / q`, rounded to `bits` binary digits.
    pub fn quotient(p: u128, q: u128, bits: u32) -> (r: Float)
        requires
            p <= 0x10_0000_0000_0000_0000_0000_0000_0000,
            0 < q <= 0x1_0000_0000_0000_0000,
            1 < bits <= 53,
        ensures
            r.value() == nearest(p as nat, q as nat, bits as nat),
            -128 <= r.e <= 128,
            r.e > 0 ==> pow2(r.e as nat) <= p,
            p > 0 ==> r.m > 0,
            r.m <= 0x20_0000_0000_0000,
    {
        if p == 0 {
            proof {
                lemma_nearest_zero(q as nat, bits as nat);
            }
            return Float { m: 0, e: 0 };
        }
        let t: u128 = power(bits - 1);
        proof {
            lemma_pow2_127();
            lemma_pow2_monotone((bits - 1) as nat, 52);
            lemma_pow2_pos((bits - 1) as nat);
            assert(p * 1 == p && q * 1 == q);
        }
        let ghost p0 = p as nat;
        let ghost q0 = q as nat;
        let mut a: u128 = p;
        let mut b: u128 = q;
        let mut i: u32 = 0;
        let mut j: u32 = 0;
        assert(t * b <= 0x10_0000_0000_0000_0000_0000_0000_0000) by (nonlinear_arith)
            requires
                0 < t <= 0x10_0000_0000_0000,
                0 < b <= 0x1_0000_0000_0000_0000,
        ;
        while a < t * b
            invariant
                0 < t <= 0x10_0000_0000_0000,
                0 < b,
                0 < a,
                t * b <= 0x10_0000_0000_0000_0000_0000_0000_0000,
                a == p0 * pow2(i as nat),
                0 < p0,
                a < 2 * t * b || i == 0,
                i <= 127,
            decreases 128 - i,
        {
            assert(2 * t * b == 2 * (t * b)) by (nonlinear_arith);
            proof {
                lemma_pow2_unfold((i + 1) as nat);
                assert(p0 * pow2((i + 1) as nat) == 2 * a) by (nonlinear_arith)
                    requires
                        a == p0 * pow2(i as nat),
                        pow2((i + 1) as nat) == 2 * pow2(i as nat),
                ;
                if i == 127 {
                    lemma_pow2_127();
                    assert(p0 * pow2(127) >= pow2(127)) by (nonlinear_arith)
                        requires
                            p0 > 0,
                    ;
                }
            }
            a = a * 2;
            i = i + 1;
        }
        assert(2 * t * b == 2 * (t * b)) by (nonlinear_arith);
        assert(i > 0 ==> a < 2 * t * b);
        let ghost big = a as nat;
        while a >= 2 * t * b
            invariant
                0 < t <= 0x10_0000_0000_0000,
                0 < b,
                0 < a <= 0x20_0000_0000_0000_0000_0000_0000_0000,
                t * b <= a,
                2 * t * b == 2 * (t * b),
                t * b <= 0x20_0000_0000_0000_0000_0000_0000_0000,
                b == q0 * pow2(j as nat),
                0 < q0,
                j <= 127,
            decreases a - t * b,
        {
            assert(2 * t * (2 * b) == 2 * (t * (2 * b)) && t * (2 * b) == 2 * (t * b))
                by (nonlinear_arith);
            assert(b <= t * b) by (nonlinear_arith)
                requires
                    t > 0,
                    b > 0,
            ;
            proof {
                lemma_pow2_unfold((j + 1) as nat);
                assert(q0 * pow2((j + 1) as nat) == 2 * b) by (nonlinear_arith)
                    requires
                        b == q0 * pow2(j as nat),
                        pow2((j + 1) as nat) == 2 * pow2(j as nat),
                ;
                if j == 127 {
                    lemma_pow2_127();
                    assert(q0 * pow2(127) >= pow2(127)) by (nonlinear_arith)
                        requires
                            q0 > 0,
                    ;
                }
            }
            b = b * 2;
            j = j + 1;
        }
        proof {
            assert(in_range(a as nat, b as nat, t as nat));
            lemma_nearest(p0, q0, bits as nat, i as nat, j as nat);
            assert(b <= t * b) by (nonlinear_arith)
                requires
                    t > 0,
                    b > 0,
            ;
            lemma_fundamental_div_mod(a as int, b as int);
            assert(t <= a / b && a / b < 2 * t) by (nonlinear_arith)
                requires
                    a == b * (a / b) + a % b,
                    0 <= a % b < b,
                    t * b <= a,
                    a < 2 * (t * b),
                    b > 0,
            ;
        }
        let m: u128 = rounded(a, b);
        proof {
            if i == 0 {
                lemma_pow2_127();
                assert(a == p0);
                assert(pow2(j as nat) <= b) by (nonlinear_arith)
                    requires
                        b == q0 * pow2(j as nat),
                        q0 > 0,
                ;
            } else if j > i {
                lemma_pow2_adds(i as nat, (j - i) as nat);
                lemma_pow2_pos(i as nat);
                assert(pow2(j as nat) <= b) by (nonlinear_arith)
                    requires
                        b == q0 * pow2(j as nat),
                        q0 > 0,
                ;
                assert(pow2((j - i) as nat) <= p0) by (nonlinear_arith)
                    requires
                        pow2(j as nat) == pow2(i as nat) * pow2((j - i) as nat),
                        pow2(j as nat) <= p0 * pow2(i as nat),
                        pow2(i as nat) > 0,
                ;
            }
        }
        Float { m: m as u64, e: j as i32 - i as i32 }
    }

    /// The number that the bits of a double stand for.
    pub fn from_bits(bits: u64) -> (r: Float)
        requires
            bits < 0x7ff0_0000_0000_0000,
        ensures
            r.value() == double_value(bits as nat),
            -1074 <= r.e <= 971,
            r.m <= 0x20_0000_0000_0000,
            (r.m > 0) == (bits > 0),
    {
        let exponent: u64 = bits / 0x10_0000_0000_0000;
        let fraction: u64 = bits % 0x10_0000_0000_0000;
        if exponent == 0 {
            Float { m: fraction, e: -1074 }
        } else {
            Float { m: 0x10_0000_0000_0000 + fraction, e: exponent as i32 - 1075 }
        }
    }

    /// The natural `n`, rounded to `bits` binary digits.
    pub fn from_u64(n: u64, bits: u32) -> (r: Float)
        requires
            1 < bits <= 53,
        ensures
            r.value() == nearest(n as nat, 1, bits as nat),
            -128 <= r.e < 64,
            n > 0 ==> r.m > 0,
            r.m <= 0x20_0000_0000_0000,
    {
        let r = Float::quotient(n as u128, 1, bits);
        proof {
            if r.e >= 64 {
                lemma_pow2_127();
                lemma_pow2_monotone(64, r.e as nat);
            }
        }
        r
    }

    /// The quotient of two numbers, rounded to `bits` binary digits.
    pub fn over(a: Float, b: Float, bits: u32) -> (r: Float)
        requires
            b.m > 0,
            -2000 <= a.e <= 2000,
            -2000 <= b.e <= 2000,
            1 < bits <= 53,
        ensures
            r.value() == over(a.value(), b.value(), bits as nat),
            a.e - b.e - 128 <= r.e <= a.e - b.e + 128 || a.m == 0 && r.e == 0,
            a.m > 0 ==> r.m > 0,
            r.m <= 0x20_0000_0000_0000,
    {
        let ghost x = a.value();
        let ghost y = b.value();
        proof {
            lemma_den(x);
            lemma_den(y);
            assert(x.den() * y.num() > 0) by (nonlinear_arith)
                requires
                    x.den() > 0,
                    y.num() > 0,
            ;
        }
        if a.m == 0 {
            proof {
                assert(x.num() * y.den() == 0) by (nonlinear_arith)
                    requires
                        x.num() == 0,
                ;
                lemma_nearest_zero(x.den() * y.num(), bits as nat);
            }
            return Float { m: 0, e: 0 };
        }
        let q = Float::quotient(a.m as u128, b.m as u128, bits);
        proof {
            let u = up(x.e) + down(y.e);
            let v = down(x.e) + up(y.e);
            lemma_pow2_adds(up(x.e), down(y.e));
            lemma_pow2_adds(down(x.e), up(y.e));
            assert(x.num() * y.den() == x.m * pow2(u)) by (nonlinear_arith)
                requires
                    x.num() == x.m * pow2(up(x.e)),
                    y.den() == pow2(down(y.e)),
                    pow2(u) == pow2(up(x.e)) * pow2(down(y.e)),
            ;
            assert(x.den() * y.num() == y.m * pow2(v)) by (nonlinear_arith)
                requires
                    y.num() == y.m * pow2(up(y.e)),
                    x.den() == pow2(down(x.e)),
                    pow2(v) == pow2(down(x.e)) * pow2(up(y.e)),
            ;
            lemma_nearest_shift(x.m, y.m, bits as nat, u, v);
        }
        Float { m: q.m, e: q.e + a.e - b.e }
    }

    /// The product of a number and a natural, rounded to `bits` binary digits.
    pub fn times(a: Float, n: u32, bits: u32) -> (r: Float)
        requires
            a.m <= 0x20_0000_0000_0000,
            -2000 <= a.e <= 2000,
            1 < bits <= 53,
        ensures
            r.value() == times(a.value(), n as nat, bits as nat),
            a.e - 128 <= r.e <= a.e + 128 || (a.m == 0 || n == 0) && r.e == 0,
            r.m <= 0x20_0000_0000_0000,
    {
        let ghost x = a.value();
        proof {
            lemma_den(x);
        }
        if a.m == 0 || n == 0 {
            proof {
                assert(x.num() * n == 0) by (nonlinear_arith)
                    requires
                        x.num() == 0 || n == 0,
                ;
                lemma_nearest_zero(x.den(), bits as nat);
            }
            return Float { m: 0, e: 0 };
        }
        assert(a.m as u128 * n as u128 <= 0x20_0000_0000_0000 * 0xffff_ffff) by (nonlinear_arith)
            requires
                a.m <= 0x20_0000_0000_0000,
                n <= 0xffff_ffff,
        ;
        let p: u128 = a.m as u128 * n as u128;
        assert(p > 0) by (nonlinear_arith)
            requires
                p == a.m * n,
                a.m > 0,
                n > 0,
        ;
        let q = Float::quotient(p, 1, bits);
        proof {
            let u = up(x.e);
            let v = down(x.e);
            assert(x.num() * n == (p as nat) * pow2(u)) by (nonlinear_arith)
                requires
                    x.num() == x.m * pow2(u),
                    p == x.m * n,
            ;
            assert(x.den() == 1 * pow2(v)) by (nonlinear_arith)
                requires
                    x.den() == pow2(v),
            ;
            lemma_nearest_shift(p as nat, 1, bits as nat, u, v);
        }
        Float { m: q.m, e: q.e + a.e }
    }

    /// The whole part of a number with a small exponent.
    pub fn whole(self) -> (n: u128)
        requires
            self.e < 64,
        ensures
            n == self.value().floor(),
    {
        let ghost x = self.value();
        if self.e >= 0 {
            let f: u128 = power(self.e as u32);
            proof {
                lemma_div_basics_2(x.num() as int);
                lemma_pow2_127();
                lemma_pow2_monotone(self.e as nat, 64);
                assert(x.m * f <= 0xffff_ffff_ffff_ffff * 0x1_0000_0000_0000_0000)
                    by (nonlinear_arith)
                    requires
                        x.m <= 0xffff_ffff_ffff_ffff,
                        f <= 0x1_0000_0000_0000_0000,
                ;
            }
            self.m as u128 * f
        } else if self.e <= -64 {
            proof {
                lemma_pow2_127();
                lemma_pow2_monotone(64, (-self.e) as nat);
                lemma_basic_div(x.m as int, pow2((-self.e) as nat) as int);
            }
            0
        } else {
            let f: u128 = power((-self.e) as u32);
            proof {
                lemma_pow2_pos((-self.e) as nat);
            }
            self.m as u128 / f
        }
    }

    /// The whole part, at most the largest 64-bit natural.
    pub fn to_u64(self) -> (n: u64)
        ensures
            n == truncated(self.value()),
    {
        let ghost x = self.value();
        if self.e >= 64 {
            proof {
                lemma_div_basics_2(x.num() as int);
            }
            if self.m == 0 {
                assert(x.num() == 0) by (nonlinear_arith)
                    requires
                        x.num() == x.m * pow2(x.e as nat),
                        x.m == 0,
                ;
                return 0;
            }
            proof {
                lemma_pow2_127();
                lemma_pow2_monotone(64, self.e as nat);
                assert(x.m * pow2(self.e as nat) >= pow2(self.e as nat)) by (nonlinear_arith)
                    requires
                        x.m > 0,
                ;
            }
            return u64::MAX;
        }
        let n: u128 = self.whole();
        if n > u64::MAX as u128 {
            u64::MAX
        } else {
            n as u64
        }
    }

    /// Whether the number is greater than one.
    pub fn exceeds_one(self) -> (b: bool)
        ensures
            b == (self.value().num() > self.value().den()),
    {
        let ghost x = self.value();
        if self.e >= 0 {
            proof {
                lemma_pow2_127();
                lemma_pow2_pos(self.e as nat);
                if self.e > 0 {
                    lemma_pow2_strictly_increases(0, self.e as nat);
                }
                assert(x.m * pow2(self.e as nat) >= x.m && (x.m > 0 ==> x.m * pow2(self.e as nat)
                    >= pow2(self.e as nat)) && (x.m == 0 ==> x.m * pow2(self.e as nat) == 0))
                    by (nonlinear_arith)
                    requires
                        pow2(self.e as nat) >= 1,
                ;
                if self.e == 0 {
                    assert(x.m * pow2(0) == x.m) by (nonlinear_arith)
                        requires
                            pow2(0) == 1,
                    ;
                }
            }
            self.m > 1 || (self.m == 1 && self.e > 0)
        } else if self.e <= -64 {
            proof {
                lemma_pow2_127();
                lemma_pow2_monotone(64, (-self.e) as nat);
            }
            false
        } else {
            self.m as u128 > power((-self.e) as u32)
        }
    }
}

/// The exponent of the factor in the numerator.
spec fn up(e: int) -> nat {
    if e >= 0 {
        e as nat
    } else {
        0
    }
}

/// The exponent of the denominator.
spec fn down(e: int) -> nat {
    if e >= 0 {
        0
    } else {
        (-e) as nat
    }
}

proof fn lemma_den(x: Dyadic)
    ensures
        x.den() > 0,
        x.num() == x.m * pow2(up(x.e)),
        x.den() == pow2(down(x.e)),
        x.m > 0 ==> x.num() > 0,
        x.m == 0 ==> x.num() == 0,
{
    lemma2_to64();
    lemma_pow2_pos(up(x.e));
    lemma_pow2_pos(down(x.e));
    assert(x.m * pow2(0) == x.m) by (nonlinear_arith)
        requires
            pow2(0) == 1,
    ;
    assert(x.m > 0 ==> x.m * pow2(up(x.e)) > 0) by (nonlinear_arith)
        requires
            pow2(up(x.e)) > 0,
    ;
    assert(x.m == 0 ==> x.m * pow2(up(x.e)) == 0) by (nonlinear_arith);
}

/// A quotient that is a natural with at most `bits` binary digits is not changed
/// by rounding.
pub proof fn lemma_nearest_whole(p: nat, q: nat, n: nat, bits: nat)
    requires
        q > 0,
        p == n * q,
        bits > 0,
        n <= 2 * pow2((bits - 1) as nat),
    ensures
        nearest(p, q, bits).num() == n * nearest(p, q, bits).den(),
        nearest(p, q, bits).floor() == n,
{
    let r = nearest(p, q, bits);
    let z = nearest(n, 1, bits);
    lemma_nearest_exact(n, bits);
    lemma_den(r);
    lemma_den(z);
    assert(p * 1 == n * q) by (nonlinear_arith)
        requires
            p == n * q,
    ;
    if n == 0 {
        assert(p == 0) by (nonlinear_arith)
            requires
                p == n * q,
                n == 0,
        ;
        lemma_nearest_zero(q, bits);
        assert(r.num() == n * r.den()) by (nonlinear_arith)
            requires
                r.num() == 0,
                n == 0,
        ;
    } else {
        assert(p > 0) by (nonlinear_arith)
            requires
                p == n * q,
                n > 0,
                q > 0,
        ;
        lemma_nearest_monotone(p, q, n, 1, bits);
        lemma_nearest_monotone(n, 1, p, q, bits);
        assert(r.num() == n * r.den()) by (nonlinear_arith)
            requires
                r.num() * z.den() <= z.num() * r.den(),
                z.num() * r.den() <= r.num() * z.den(),
                z.num() == n * z.den(),
                z.den() > 0,
        ;
    }
    lemma_div_multiples_vanish(n as int, r.den() as int);
    assert(r.den() * n == n * r.den()) by (nonlinear_arith);
}

/// The quotient of two naturals, where it is a natural, is found as that.
pub proof fn lemma_over_whole(x: Dyadic, y: Dyadic, a: nat, b: nat, k: nat, bits: nat)
    requires
        x.num() == a * x.den(),
        y.num() == b * y.den(),
        b > 0,
        a == k * b,
        bits > 0,
        k <= 2 * pow2((bits - 1) as nat),
    ensures
        over(x, y, bits).num() == k * over(x, y, bits).den(),
        over(x, y, bits).floor() == k,
{
    lemma_den(x);
    lemma_den(y);
    let p = x.num() * y.den();
    let q = x.den() * y.num();
    assert(q > 0 && p == k * q) by (nonlinear_arith)
        requires
            p == x.num() * y.den(),
            q == x.den() * y.num(),
            x.num() == a * x.den(),
            y.num() == b * y.den(),
            a == k * b,
            b > 0,
            x.den() > 0,
            y.den() > 0,
    ;
    lemma_nearest_whole(p, q, k, bits);
}

/// The product of a natural and a natural, where it has at most `bits` binary
/// digits, is found as it is.
pub proof fn lemma_times_whole(x: Dyadic, a: nat, n: nat, bits: nat)
    requires
        x.num() == a * x.den(),
        bits > 0,
        a * n <= 2 * pow2((bits - 1) as nat),
    ensures
        times(x, n, bits).num() == (a * n) * times(x, n, bits).den(),
        times(x, n, bits).floor() == a * n,
{
    lemma_den(x);
    assert(x.num() * n == (a * n) * x.den()) by (nonlinear_arith)
        requires
            x.num() == a * x.den(),
    ;
    lemma_nearest_whole(x.num() * n, x.den(), a * n, bits);
}

} // verus!
