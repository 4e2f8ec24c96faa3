//! Long decimal numbers: sequences of digits, least significant first.

use vstd::prelude::*;

verus! {

/// Ten to the power `k`.
pub open spec fn pow10(k: nat) -> nat
    decreases k,
{
    if k == 0 {
        1
    } else {
        10 * pow10((k - 1) as nat)
    }
}

/// Whether every element is a digit.
pub open spec fn digits(s: Seq<u8>) -> bool {
    forall|i: int| 0 <= i < s.len() ==> (#[trigger] s[i]) < 10
}

/// The number that the digits stand for.
pub open spec fn value(s: Seq<u8>) -> nat
    decreases s.len(),
{
    if s.len() == 0 {
        0
    } else {
        value(s.drop_last()) + s.last() as nat * pow10((s.len() - 1) as nat)
    }
}

/// Powers of ten are positive.
pub proof fn lemma_pow10_pos(k: nat)
    ensures
        pow10(k) > 0,
    decreases k,
{
    if k > 0 {
        lemma_pow10_pos((k - 1) as nat);
    }
}

/// Exponents add.
pub proof fn lemma_pow10_adds(a: nat, b: nat)
    ensures
        pow10(a + b) == pow10(a) * pow10(b),
    decreases b,
{
    if b == 0 {
        assert(pow10(a) * 1 == pow10(a));
    } else {
        lemma_pow10_adds(a, (b - 1) as nat);
        let x = pow10(a);
        let y = pow10((b - 1) as nat);
        assert(x * (10 * y) == 10 * (x * y)) by (nonlinear_arith);
    }
}

/// The number of `k` digits is less than ten to the power `k`.
pub proof fn lemma_value_bound(s: Seq<u8>)
    requires
        digits(s),
    ensures
        value(s) < pow10(s.len()),
    decreases s.len(),
{
    if s.len() > 0 {
        lemma_value_bound(s.drop_last());
        let p = pow10((s.len() - 1) as nat);
        let d = s.last();
        assert(d * p <= 9 * p) by (nonlinear_arith)
            requires
                d <= 9,
        ;
    }
}

/// The number splits into its lower and its upper digits.
pub proof fn lemma_value_split(s: Seq<u8>, k: int)
    requires
        0 <= k <= s.len(),
    ensures
        value(s) == value(s.take(k)) + value(s.skip(k)) * pow10(k as nat),
    decreases s.len(),
{
    if k == s.len() {
        assert(s.take(k) =~= s);
        assert(s.skip(k).len() == 0);
        assert(0 * pow10(k as nat) == 0);
    } else {
        let r = s.drop_last();
        lemma_value_split(r, k);
        assert(r.take(k) =~= s.take(k));
        assert(s.skip(k).drop_last() =~= r.skip(k));
        assert(s.skip(k).last() == s.last());
        let n = (s.len() - 1 - k) as nat;
        lemma_pow10_adds(n, k as nat);
        let v = value(r.skip(k));
        let d = s.last();
        let p = pow10(n);
        let q = pow10(k as nat);
        assert((v + d * p) * q == v * q + d * (p * q)) by (nonlinear_arith);
    }
}

/// The lower and the upper digits are the remainder and the quotient by a
/// power of ten.
pub proof fn lemma_value_div(s: Seq<u8>, k: int)
    requires
        digits(s),
        0 <= k <= s.len(),
    ensures
        value(s) / pow10(k as nat) == value(s.skip(k)),
        value(s) % pow10(k as nat) == value(s.take(k)),
{
    lemma_value_split(s, k);
    lemma_value_bound(s.take(k));
    lemma_pow10_pos(k as nat);
    vstd::arithmetic::div_mod::lemma_fundamental_div_mod_converse(
        value(s) as int,
        pow10(k as nat) as int,
        value(s.skip(k)) as int,
        value(s.take(k)) as int,
    );
}

/// A number is zero if and only if all its digits are.
pub proof fn lemma_value_zero(s: Seq<u8>)
    ensures
        value(s) == 0 <==> forall|i: int| 0 <= i < s.len() ==> (#[trigger] s[i]) == 0,
    decreases s.len(),
{
    if s.len() > 0 {
        let r = s.drop_last();
        lemma_value_zero(r);
        lemma_pow10_pos((s.len() - 1) as nat);
        let d = s.last();
        let p = pow10((s.len() - 1) as nat);
        assert(d * p == 0 <==> d == 0) by (nonlinear_arith)
            requires
                p > 0,
        ;
        if value(s) == 0 {
            assert forall|i: int| 0 <= i < s.len() implies (#[trigger] s[i]) == 0 by {
                if i < s.len() - 1 {
                    assert(s[i] == r[i]);
                }
            }
        }
        if forall|i: int| 0 <= i < s.len() ==> (#[trigger] s[i]) == 0 {
            assert forall|i: int| 0 <= i < r.len() implies (#[trigger] r[i]) == 0 by {
                assert(r[i] == s[i]);
            }
        }
    }
}

/// `k` times a number, with one digit more.
pub fn multiplied(s: &Vec<u8>, k: u8) -> (r: Vec<u8>)
    requires
        digits(s@),
        k < 10,
    ensures
        digits(r@),
        r@.len() == s@.len() + 1,
        value(r@) == k * value(s@),
{
    let mut r: Vec<u8> = Vec::new();
    let mut carry: u8 = 0;
    let n: usize = s.len();
    assert(value(s@.take(0)) == 0);
    assert(k * 0 == 0 && 0 * pow10(0) == 0);
    for i in 0..n
        invariant
            n == s@.len(),
            digits(s@),
            k < 10,
            carry < 10,
            digits(r@),
            r@.len() == i,
            value(r@) + carry * pow10(i as nat) == k * value(s@.take(i as int)),
    {
        let ghost r0 = r@;
        let ghost c0 = carry;
        let ghost p = pow10(i as nat);
        let d: u8 = s[i];
        assert(k * d <= 81) by (nonlinear_arith)
            requires
                k <= 9,
                d <= 9,
        ;
        let x: u8 = k * d + carry;
        r.push(x % 10);
        carry = x / 10;
        proof {
            assert(r@.drop_last() =~= r0);
            assert(s@.take(i + 1).drop_last() =~= s@.take(i as int));
            let v = value(s@.take(i as int));
            assert(x == 10 * (x / 10) + x % 10);
            assert(value(r0) + (x % 10) * p + (x / 10) * (10 * p) == k * (v + d * p))
                by (nonlinear_arith)
                requires
                    value(r0) + c0 * p == k * v,
                    x == k * d + c0,
                    x == 10 * (x / 10) + x % 10,
            ;
            assert(pow10((i + 1) as nat) == 10 * p);
        }
    }
    assert(s@.take(n as int) =~= s@);
    let ghost r0 = r@;
    r.push(carry);
    assert(r@.drop_last() =~= r0);
    r
}

proof fn lemma_one_digit(d: u8)
    ensures
        value(seq![d]) == d,
{
    let one = seq![d];
    assert(one.drop_last().len() == 0);
    assert(value(one.drop_last()) == 0);
    assert(one.last() == d);
    assert(pow10(0) == 1);
    assert(d as nat * pow10(0) == d) by (nonlinear_arith)
        requires
            pow10(0) == 1,
    ;
}

/// The number of the digits from position `k` on, or `cap` if it is no less.
pub fn upper_part(s: &Vec<u8>, k: usize, cap: u64) -> (r: u64)
    requires
        digits(s@),
        k <= s@.len(),
    ensures
        r == if value(s@.skip(k as int)) < cap {
            value(s@.skip(k as int))
        } else {
            cap as nat
        },
{
    let mut i: usize = s.len();
    let mut r: u64 = 0;
    assert(s@.skip(i as int).len() == 0);
    while i > k
        invariant
            k <= i <= s@.len(),
            digits(s@),
            r == if value(s@.skip(i as int)) < cap {
                value(s@.skip(i as int))
            } else {
                cap as nat
            },
        decreases i,
    {
        let ghost t = s@.skip(i as int);
        let ghost u = s@.skip(i - 1);
        proof {
            lemma_value_split(u, 1);
            assert(u.skip(1) =~= t);
            assert(u.take(1) =~= seq![s@[i - 1]]);
            lemma_one_digit(s@[i - 1]);
            assert(pow10(1) == 10) by {
                assert(pow10(0) == 1);
            }
            assert(value(t) * pow10(1) == value(t) * 10);
            assert(value(u.take(1)) == s@[i - 1]);
            assert(value(u.skip(1)) == value(t));
            assert(value(u) == value(u.take(1)) + value(t) * pow10(1));
            assert(value(u) == s@[i - 1] + value(t) * 10);
        }
        i = i - 1;
        let next: u128 = r as u128 * 10 + s[i] as u128;
        r = if next < cap as u128 {
            next as u64
        } else {
            cap
        };
    }
    r
}

/// Whether the digits below position `k` are all zero.
pub fn lower_part_zero(s: &Vec<u8>, k: usize) -> (b: bool)
    requires
        k <= s@.len(),
    ensures
        b == (value(s@.take(k as int)) == 0),
{
    let ghost t = s@.take(k as int);
    proof {
        lemma_value_zero(t);
    }
    for i in 0..k
        invariant
            k <= s@.len(),
            t == s@.take(k as int),
            value(t) == 0 <==> forall|j: int| 0 <= j < t.len() ==> (#[trigger] t[j]) == 0,
            forall|j: int| 0 <= j < i ==> (#[trigger] t[j]) == 0,
    {
        if s[i] != 0 {
            assert(t[i as int] != 0);
            return false;
        }
    }
    true
}

} // verus!
