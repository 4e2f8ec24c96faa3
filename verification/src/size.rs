//! Sizes in bytes: reading `10MB`, writing `1.50KB`.

use vstd::prelude::*;
use vstd::string::*;
use vstd::arithmetic::power2::*;
use crate::binary;
use crate::binary::Float;
use crate::digits;
use crate::text;
use crate::text::{chars_of, numeral, padded_numeral, replaced, same_text, trimmed};

verus! {

// ---------------------------------------------------------------------------
// Reading.
// ---------------------------------------------------------------------------

/// Whether `c` can be part of a number: a digit or a point.
pub open spec fn is_number_char(c: char) -> bool {
    text::is_digit(c) || c == '.'
}

/// The digits and points at the start of `s`.
pub open spec fn number_part(s: Seq<char>) -> Seq<char>
    decreases s.len(),
{
    if s.len() > 0 && is_number_char(s[0]) {
        seq![s[0]] + number_part(s.skip(1))
    } else {
        Seq::empty()
    }
}

/// The alphabetic characters of `s`.
pub open spec fn unit_part(s: Seq<char>) -> Seq<char>
    decreases s.len(),
{
    if s.len() == 0 {
        Seq::empty()
    } else if text::alphabetic(s[0]) {
        seq![s[0]] + unit_part(s.skip(1))
    } else {
        unit_part(s.skip(1))
    }
}

/// The unit `u`, as a power of two.
pub open spec fn unit_power(u: Seq<char>) -> Option<nat> {
    if u == ""@ || u == "B"@ {
        Some(0)
    } else if u == "K"@ || u == "KB"@ {
        Some(10)
    } else if u == "M"@ || u == "MB"@ {
        Some(20)
    } else if u == "G"@ || u == "GB"@ {
        Some(30)
    } else if u == "T"@ || u == "TB"@ {
        Some(40)
    } else {
        None
    }
}

/// A decimal fraction, as its digits without the point and the number of
/// digits after the point: at least one digit, and at most one point.
pub open spec fn fraction(s: Seq<char>) -> Option<(nat, nat)> {
    let (whole, rest) = match text::split_once(s, '.') {
        Some(p) => p,
        None => (s, Seq::empty()),
    };
    if text::all_digits(whole + rest) && whole.len() + rest.len() > 0 {
        Some((text::digits_value(whole + rest), rest.len()))
    } else {
        None
    }
}

/// `x` times two to the power `k`.
pub open spec fn scaled(x: binary::Dyadic, k: nat) -> binary::Dyadic {
    binary::Dyadic { m: x.m, e: x.e + k }
}

/// The size that `s` stands for: a decimal fraction, rounded to fifty-three
/// binary digits, times the unit, without what is less than a byte, and at
/// most the largest 64-bit natural.
///
/// White space around it, the case of the letters, and an `i` in the unit do
/// not matter.
pub open spec fn size_value(s: Seq<char>) -> Option<u64> {
    let t = text::replace(text::uppercase(text::trim(s)), "IB"@, "B"@);
    match (fraction(number_part(t)), unit_power(unit_part(t))) {
        (Some((n, places)), Some(k)) => Some(
            binary::truncated(scaled(binary::nearest(n, digits::pow10(places), 53), k)),
        ),
        _ => None,
    }
}

fn leading_number(v: &Vec<char>) -> (r: Vec<char>)
    ensures
        r@ == number_part(v@),
{
    let mut r: Vec<char> = Vec::new();
    let mut i: usize = 0;
    assert(v@.skip(0) =~= v@);
    assert(r@ + number_part(v@) =~= number_part(v@));
    while i < v.len() && (('0' <= v[i] && v[i] <= '9') || v[i] == '.')
        invariant
            i <= v@.len(),
            number_part(v@) == r@ + number_part(v@.skip(i as int)),
        decreases v@.len() - i,
    {
        let ghost r0 = r@;
        let ghost rest = v@.skip(i as int);
        r.push(v[i]);
        assert(rest.skip(1) =~= v@.skip(i + 1));
        assert(r@ + number_part(v@.skip(i + 1)) =~= r0 + number_part(rest));
        i = i + 1;
    }
    assert(r@ + number_part(v@.skip(i as int)) =~= r@);
    r
}

fn letters(v: &Vec<char>) -> (s: String)
    ensures
        s@ == unit_part(v@),
{
    let mut s = String::new();
    let mut i: usize = 0;
    assert(v@.skip(0) =~= v@);
    assert(s@ + unit_part(v@) =~= unit_part(v@));
    while i < v.len()
        invariant
            i <= v@.len(),
            unit_part(v@) == s@ + unit_part(v@.skip(i as int)),
        decreases v@.len() - i,
    {
        let ghost s0 = s@;
        let ghost rest = v@.skip(i as int);
        assert(rest.skip(1) =~= v@.skip(i + 1));
        if v[i].is_alphabetic() {
            s.push(v[i]);
        }
        assert(s@ + unit_part(v@.skip(i + 1)) =~= s0 + unit_part(rest));
        i = i + 1;
    }
    assert(v@.skip(i as int).len() == 0);
    assert(s@ + unit_part(v@.skip(i as int)) =~= s@);
    s
}

fn power_of_unit(u: &str) -> (r: Option<u32>)
    ensures
        match r {
            Some(k) => unit_power(u@) == Some(k as nat) && k <= 40,
            None => unit_power(u@) is None,
        },
{
    if same_text(u, "") || same_text(u, "B") {
        Some(0)
    } else if same_text(u, "K") || same_text(u, "KB") {
        Some(10)
    } else if same_text(u, "M") || same_text(u, "MB") {
        Some(20)
    } else if same_text(u, "G") || same_text(u, "GB") {
        Some(30)
    } else if same_text(u, "T") || same_text(u, "TB") {
        Some(40)
    } else {
        None
    }
}

proof fn lemma_digits_value_reversed(s: Seq<char>, d: Seq<u8>)
    requires
        s.len() == d.len(),
        forall|i: int|
            0 <= i < s.len() ==> text::digit_value(#[trigger] s[i]) == d[d.len() - 1 - i],
    ensures
        text::digits_value(s) == digits::value(d),
    decreases s.len(),
{
    if s.len() > 0 {
        let s1 = s.drop_last();
        let d1 = d.skip(1);
        assert forall|i: int| 0 <= i < s1.len() implies text::digit_value(#[trigger] s1[i])
            == d1[d1.len() - 1 - i] by {
            assert(s1[i] == s[i]);
        }
        lemma_digits_value_reversed(s1, d1);
        digits::lemma_value_split(d, 1);
        assert(d.take(1) =~= seq![d[0]]);
        assert(d.take(1).drop_last().len() == 0);
        assert(digits::value(d.take(1).drop_last()) == 0);
        assert(digits::pow10(0) == 1);
        assert(digits::pow10(1) == 10);
        assert(d[0] as nat * digits::pow10(0) == d[0]) by (nonlinear_arith)
            requires
                digits::pow10(0) == 1,
        ;
        assert(text::digit_value(s[s.len() - 1]) == d[0]);
        assert(digits::value(d) == digits::value(d.take(1)) + digits::value(d1) * digits::pow10(1));
        assert(digits::value(d1) * digits::pow10(1) == digits::value(d1) * 10) by (nonlinear_arith)
            requires
                digits::pow10(1) == 10,
        ;
        assert(digits::value(d) == d[0] as nat + digits::value(d1) * 10);
        assert(text::digits_value(s) == text::digits_value(s1) * 10 + text::digit_value(s.last()));
    } else {
        assert(digits::value(d) == 0);
    }
}

/// The digits of a decimal fraction, least significant first, and the number
/// of those after the point.
fn fraction_digits(v: &Vec<char>) -> (r: Option<(Vec<u8>, usize)>)
    ensures
        match r {
            Some((d, places)) => {
                &&& digits::digits(d@)
                &&& places <= d@.len()
                &&& fraction(v@) == Some((digits::value(d@), places as nat))
            },
            None => fraction(v@) is None,
        },
{
    let n: usize = v.len();
    let point: Option<usize> = text::position_of_char(v, '.', 0);
    let (whole_len, places): (usize, usize) = match point {
        Some(p) => (p, n - p - 1),
        None => (n, 0),
    };
    let ghost parts = match text::split_once(v@, '.') {
        Some(p) => p,
        None => (v@, Seq::<char>::empty()),
    };
    let ghost all = parts.0 + parts.1;
    assert(all.len() == whole_len + places);
    assert forall|i: int| 0 <= i < all.len() implies #[trigger] all[i] == (if i < whole_len {
        v@[i]
    } else {
        v@[i + 1]
    }) by {}
    if whole_len == 0 && places == 0 {
        return None;
    }
    let total: usize = if point.is_some() {
        n - 1
    } else {
        n
    };
    assert(total == whole_len + places);
    let mut d: Vec<u8> = Vec::new();
    let mut i: usize = total;
    while i > 0
        invariant
            i <= total,
            n == v@.len(),
            total == all.len(),
            whole_len <= total,
            total + (if point is Some {
                1int
            } else {
                0int
            }) == n,
            whole_len < total ==> point is Some,
            forall|k: int|
                0 <= k < all.len() ==> #[trigger] all[k] == (if k < whole_len {
                    v@[k]
                } else {
                    v@[k + 1]
                }),
            d@.len() == total - i,
            digits::digits(d@),
            forall|k: int| i <= k < total ==> text::is_digit(#[trigger] all[k]),
            forall|k: int|
                i <= k < total ==> text::digit_value(#[trigger] all[k]) == d@[total - 1 - k],
            all == parts.0 + parts.1,
            parts == (match text::split_once(v@, '.') {
                Some(p) => p,
                None => (v@, Seq::<char>::empty()),
            }),
        decreases i,
    {
        i = i - 1;
        let c: char = if i < whole_len {
            v[i]
        } else {
            v[i + 1]
        };
        assert(all[i as int] == c);
        if !('0' <= c && c <= '9') {
            assert(!text::is_digit(all[i as int]));
            return None;
        }
        d.push((c as u32 - 48) as u8);
    }
    proof {
        assert(text::all_digits(all));
        lemma_digits_value_reversed(all, d@);
    }
    Some((d, places))
}

/// `s / 10^k`, rounded to the nearest natural, ties to the even one.
fn rounded_digits(d: &Vec<u8>, k: usize) -> (m: u64)
    requires
        digits::digits(d@),
        k <= d@.len(),
        digits::value(d@.skip(k as int)) < 0x20_0000_0000_0000,
    ensures
        m == binary::half_even(digits::value(d@), digits::pow10(k as nat)),
{
    let f: u64 = digits::upper_part(d, k, 0x20_0000_0000_0000);
    proof {
        digits::lemma_value_div(d@, k as int);
        digits::lemma_pow10_pos(k as nat);
    }
    if k == 0 {
        proof {
            assert(digits::pow10(0) == 1);
            assert(d@.take(0).len() == 0);
        }
        return f;
    }
    let top: u8 = d[k - 1];
    let ghost low = d@.take(k as int);
    let ghost rest = d@.take(k - 1);
    proof {
        assert(low.drop_last() =~= rest);
        assert(digits::value(low) == digits::value(rest) + top as nat * digits::pow10(
            (k - 1) as nat,
        ));
        digits::lemma_value_bound(rest);
        digits::lemma_pow10_pos((k - 1) as nat);
        let p = digits::pow10((k - 1) as nat);
        assert(digits::pow10(k as nat) == 10 * p);
        assert(top <= 4 ==> top as nat * p <= 4 * p) by (nonlinear_arith);
        assert(top >= 6 ==> top as nat * p >= 6 * p) by (nonlinear_arith);
        assert(top == 5 ==> top as nat * p == 5 * p) by (nonlinear_arith);
    }
    if top < 5 {
        f
    } else if top > 5 {
        f + 1
    } else if digits::lower_part_zero(d, k - 1) {
        f + f % 2
    } else {
        f + 1
    }
}

/// A number that is far from the range of the mantissa has an exponent as far
/// from zero.
proof fn lemma_far(p: nat, q: nat, n: nat)
    requires
        p > 0,
        q > 0,
    ensures
        p * pow2(n) < pow2(52) * q ==> binary::nearest(p, q, 53).e < -n,
        p >= (2 * pow2(52)) * (q * pow2(n)) ==> binary::nearest(p, q, 53).e > n,
        pow2(52) <= binary::nearest(p, q, 53).m <= 2 * pow2(52),
{
    let t = pow2(52);
    lemma_pow2_pos(52);
    binary::lemma_nearest_bounds(p, q, 53);
    if p * pow2(n) < t * q {
        binary::lemma_lift_far(p, q, t, n);
        assert((2 * t) * q == 2 * (t * q)) by (nonlinear_arith);
    }
    if p >= (2 * t) * (q * pow2(n)) {
        binary::lemma_drop_far(p, q, 2 * t, n);
        lemma_pow2_pos(n);
        assert(t * q <= p) by (nonlinear_arith)
            requires
                p >= (2 * t) * (q * pow2(n)),
                pow2(n) >= 1,
                t > 0,
                q > 0,
        ;
    }
}

/// A number with a very small exponent has no whole part, and one with a large
/// exponent exceeds 64 bits.
proof fn lemma_far_truncated(x: binary::Dyadic)
    requires
        pow2(52) <= x.m <= 2 * pow2(52),
    ensures
        x.e < -100 ==> binary::truncated(x) == 0,
        x.e > 100 ==> binary::truncated(x) == u64::MAX,
{
    lemma2_to64();
    lemma2_to64_rest();
    if x.e < -100 {
        let f = pow2((-x.e) as nat);
        binary::lemma_pow2_monotone(54, (-x.e) as nat);
        vstd::arithmetic::div_mod::lemma_basic_div(x.m as int, f as int);
    }
    if x.e > 100 {
        let f = pow2(x.e as nat);
        binary::lemma_pow2_monotone(64, x.e as nat);
        assert(x.m * f >= f) by (nonlinear_arith)
            requires
                x.m >= 1,
        ;
        vstd::arithmetic::div_mod::lemma_div_basics_2((x.m * f) as int);
    }
}

/// The number of the digits `d`, `places` of them after the point, rounded to
/// fifty-three binary digits, times two to the power `k`, truncated.
fn scaled_fraction(d: Vec<u8>, places: usize, k: u32) -> (r: u64)
    requires
        digits::digits(d@),
        places <= d@.len(),
        k <= 40,
    ensures
        r == binary::truncated(
            scaled(
                binary::nearest(digits::value(d@), digits::pow10(places as nat), 53),
                k as nat,
            ),
        ),
{
    let ghost n0 = digits::value(d@);
    let ghost q0 = digits::pow10(places as nat);
    let ghost t = pow2(52);
    proof {
        digits::lemma_pow10_pos(places as nat);
        lemma2_to64();
        lemma2_to64_rest();
    }
    if digits::lower_part_zero(&d, d.len()) {
        proof {
            assert(d@.take(d@.len() as int) =~= d@);
            binary::lemma_nearest_zero(q0, 53);
            let x = scaled(binary::nearest(n0, q0, 53), k as nat);
            assert(x.num() == 0) by (nonlinear_arith)
                requires
                    x.m == 0,
                    x.num() == x.m * pow2(x.e as nat),
            ;
        }
        return 0;
    }
    assert(d@.take(d@.len() as int) =~= d@);
    let mut p: Vec<u8> = d;
    let mut places_now: usize = places;
    let mut i: u32 = 0;
    let mut j: u32 = 0;
    assert(n0 * 1 == n0 && q0 * 1 == q0);
    let ghost a = n0;
    let ghost b = q0;
    // Doubling until the whole part reaches the range of the mantissa.
    while digits::upper_part(&p, places, 0x10_0000_0000_0000) < 0x10_0000_0000_0000
        invariant
            digits::digits(p@),
            places <= p@.len(),
            k <= 40,
            n0 == digits::value(d@),
            i <= 200,
            0 < n0,
            q0 == digits::pow10(places as nat),
            q0 > 0,
            t == pow2(52) == 0x10_0000_0000_0000,
            a == n0 * pow2(i as nat),
            digits::value(p@) == a,
            i > 0 ==> digits::value(p@) < (2 * t) * q0,
        decreases 200 - i,
    {
        proof {
            digits::lemma_value_div(p@, places as int);
            vstd::arithmetic::div_mod::lemma_fundamental_div_mod(a as int, q0 as int);
            let f = a / q0;
            assert(a < t * q0) by (nonlinear_arith)
                requires
                    a == q0 * f + a % q0,
                    0 <= a % q0 < q0,
                    f < t,
            ;
            assert((2 * t) * q0 == 2 * (t * q0)) by (nonlinear_arith);
        }
        if i == 200 {
            proof {
                lemma_far(n0, q0, 200);
                lemma_far_truncated(scaled(binary::nearest(n0, q0, 53), k as nat));
            }
            return 0;
        }
        p = digits::multiplied(&p, 2);
        proof {
            lemma_pow2_unfold((i + 1) as nat);
            assert(n0 * pow2((i + 1) as nat) == 2 * a) by (nonlinear_arith)
                requires
                    a == n0 * pow2(i as nat),
                    pow2((i + 1) as nat) == 2 * pow2(i as nat),
            ;
            a = 2 * a;
        }
        i = i + 1;
    }
    proof {
        digits::lemma_value_div(p@, places as int);
        vstd::arithmetic::div_mod::lemma_fundamental_div_mod(a as int, q0 as int);
        let f = a / q0;
        assert(a >= t * q0) by (nonlinear_arith)
            requires
                a == q0 * f + a % q0,
                0 <= a % q0 < q0,
                f >= t,
        ;
    }
    // Halving, by five tenths, until the whole part is in the range.
    while digits::upper_part(&p, places_now, 0x20_0000_0000_0000) >= 0x20_0000_0000_0000
        invariant
            digits::digits(p@),
            places_now <= p@.len(),
            places_now == places + j,
            k <= 40,
            n0 == digits::value(d@),
            i <= 200,
            j <= 200,
            0 < n0,
            q0 == digits::pow10(places as nat),
            q0 > 0,
            t == pow2(52) == 0x10_0000_0000_0000,
            a == n0 * pow2(i as nat),
            b == q0 * pow2(j as nat),
            b > 0,
            digits::value(p@) * b == a * digits::pow10(places_now as nat),
            i > 0 ==> a < (2 * t) * q0,
            a >= t * b,
            j > 0 ==> i == 0,
        decreases 200 - j,
    {
        let ghost q = digits::pow10(places_now as nat);
        let ghost v = digits::value(p@);
        proof {
            digits::lemma_pow10_pos(places_now as nat);
            digits::lemma_value_div(p@, places_now as int);
            vstd::arithmetic::div_mod::lemma_fundamental_div_mod(v as int, q as int);
            let f = v / q;
            assert(v >= (2 * t) * q) by (nonlinear_arith)
                requires
                    v == q * f + v % q,
                    0 <= v % q < q,
                    f >= 2 * t,
            ;
            assert(a >= (2 * t) * b) by (nonlinear_arith)
                requires
                    v * b == a * q,
                    v >= (2 * t) * q,
                    q > 0,
                    b > 0,
            ;
            assert((2 * t) * b == 2 * (t * b)) by (nonlinear_arith);
            lemma2_to64();
            if j == 0 {
                assert(q0 * pow2(0) == q0) by (nonlinear_arith)
                    requires
                        pow2(0) == 1,
                ;
                assert(i == 0);
            }
        }
        if j == 200 {
            proof {
                assert(n0 * pow2(0) == n0) by (nonlinear_arith)
                    requires
                        pow2(0) == 1,
                ;
                lemma_far(n0, q0, 200);
                lemma_far_truncated(scaled(binary::nearest(n0, q0, 53), k as nat));
            }
            return u64::MAX;
        }
        p = digits::multiplied(&p, 5);
        let len: usize = p.len();
        proof {
            lemma_pow2_unfold((j + 1) as nat);
            assert(q0 * pow2((j + 1) as nat) == 2 * b) by (nonlinear_arith)
                requires
                    b == q0 * pow2(j as nat),
                    pow2((j + 1) as nat) == 2 * pow2(j as nat),
            ;
            assert((5 * v) * (2 * b) == a * (10 * q)) by (nonlinear_arith)
                requires
                    v * b == a * q,
            ;
            assert(t * (2 * b) == 2 * (t * b)) by (nonlinear_arith);
            b = 2 * b;
        }
        assert(places_now < len);
        places_now = places_now + 1;
        j = j + 1;
    }
    let m: u64 = rounded_digits(&p, places_now);
    proof {
        let q = digits::pow10(places_now as nat);
        let v = digits::value(p@);
        digits::lemma_pow10_pos(places_now as nat);
        digits::lemma_value_div(p@, places_now as int);
        vstd::arithmetic::div_mod::lemma_fundamental_div_mod(v as int, q as int);
        let f = v / q;
        assert(v < (2 * t) * q) by (nonlinear_arith)
            requires
                v == q * f + v % q,
                0 <= v % q < q,
                f < 2 * t,
        ;
        assert(a < 2 * t * b) by (nonlinear_arith)
            requires
                v * b == a * q,
                v < (2 * t) * q,
                q > 0,
                b > 0,
        ;
        assert(binary::in_range(a, b, t));
        binary::lemma_nearest(n0, q0, 53, i as nat, j as nat);
        binary::lemma_half_even_cross(v, q, a, b);
    }
    let x = Float { m, e: j as i32 - i as i32 + k as i32 };
    x.to_u64()
}

/// The size that `s` stands for, in bytes.
pub fn parse_size(s: &str) -> (r: Option<u64>)
    ensures
        r == size_value(s@),
{
    let upper = trimmed(s).as_str().to_uppercase();
    let t = replaced(upper.as_str(), "IB", "B");
    let v = chars_of(t.as_str());
    let number = leading_number(&v);
    let unit = letters(&v);
    match (fraction_digits(&number), power_of_unit(unit.as_str())) {
        (Some((d, places)), Some(k)) => Some(scaled_fraction(d, places, k)),
        _ => None,
    }
}

/// `n`, or the largest 64-bit natural.
pub open spec fn capped(n: nat) -> u64 {
    if n <= u64::MAX {
        n as u64
    } else {
        u64::MAX
    }
}

/// Whether `s` consists of ASCII letters.
pub open spec fn all_letters(s: Seq<char>) -> bool {
    forall|i: int| 0 <= i < s.len() ==> text::is_letter(#[trigger] s[i])
}

proof fn lemma_replace_digits(d: Seq<char>, u: Seq<char>)
    requires
        text::all_digits(d),
    ensures
        text::replace(d + u, "IB"@, "B"@) == d + text::replace(u, "IB"@, "B"@),
    decreases d.len(),
{
    reveal_strlit("IB");
    let s = d + u;
    if d.len() == 0 {
        assert(s =~= u);
        assert(d + text::replace(u, "IB"@, "B"@) =~= text::replace(u, "IB"@, "B"@));
    } else {
        let rest = d.skip(1);
        assert forall|i: int| 0 <= i < rest.len() implies text::is_digit(#[trigger] rest[i]) by {
            assert(rest[i] == d[i + 1]);
        }
        lemma_replace_digits(rest, u);
        assert(text::is_digit(d[0]));
        assert(s[0] == d[0]);
        assert(s.skip(1) =~= rest + u);
        if s.len() >= 2 {
            if text::has_prefix(s, "IB"@) {
                assert(s.subrange(0, 2)[0] == s[0]);
            }
            assert(text::replace(s, "IB"@, "B"@) == seq![s[0]] + text::replace(
                s.skip(1),
                "IB"@,
                "B"@,
            ));
            assert(seq![s[0]] + (rest + text::replace(u, "IB"@, "B"@)) =~= d + text::replace(
                u,
                "IB"@,
                "B"@,
            ));
        } else {
            assert(u.len() == 0);
            assert(text::replace(u, "IB"@, "B"@) == u);
        }
    }
}

proof fn lemma_replace_letters(u: Seq<char>)
    requires
        all_letters(u),
    ensures
        all_letters(text::replace(u, "IB"@, "B"@)),
    decreases u.len(),
{
    reveal_strlit("IB");
    reveal_strlit("B");
    let r = text::replace(u, "IB"@, "B"@);
    if u.len() >= 2 {
        let (head, tail) = if text::has_prefix(u, "IB"@) {
            ("B"@, u.skip(2))
        } else {
            (seq![u[0]], u.skip(1))
        };
        assert forall|i: int| 0 <= i < tail.len() implies text::is_letter(#[trigger] tail[i]) by {
            assert(tail[i] == u[i + u.len() - tail.len()]);
        }
        lemma_replace_letters(tail);
        let rest = text::replace(tail, "IB"@, "B"@);
        assert(r == head + rest);
        assert(text::is_letter(u[0]));
        assert forall|i: int| 0 <= i < r.len() implies text::is_letter(#[trigger] r[i]) by {
            if i >= head.len() {
                assert(r[i] == rest[i - head.len()]);
            }
        }
    }
}

proof fn lemma_parts(d: Seq<char>, u: Seq<char>)
    requires
        text::all_digits(d),
        all_letters(u),
    ensures
        number_part(d + u) == d,
        unit_part(d + u) == u,
    decreases d.len() + u.len(),
{
    let s = d + u;
    if d.len() > 0 {
        let rest = d.skip(1);
        assert forall|i: int| 0 <= i < rest.len() implies text::is_digit(#[trigger] rest[i]) by {
            assert(rest[i] == d[i + 1]);
        }
        lemma_parts(rest, u);
        assert(text::is_digit(d[0]));
        assert(s[0] == d[0]);
        assert(s.skip(1) =~= rest + u);
        assert(seq![s[0]] + rest =~= d);
    } else if u.len() > 0 {
        let rest = u.skip(1);
        assert forall|i: int| 0 <= i < rest.len() implies text::is_letter(#[trigger] rest[i]) by {
            assert(rest[i] == u[i + 1]);
        }
        assert(s =~= u);
        assert(text::is_letter(u[0]));
        lemma_parts(d, rest);
        assert(s.skip(1) =~= d + rest);
        assert(seq![s[0]] + rest =~= u);
        assert(number_part(s) =~= d);
    } else {
        assert(number_part(s) =~= d);
        assert(unit_part(s) =~= u);
    }
}

proof fn lemma_whole_fraction(n: nat)
    ensures
        fraction(text::decimal(n)) == Some((n, 0nat)),
{
    let d = text::decimal(n);
    text::lemma_decimal_digits(n);
    text::law_decimal_round_trip(n);
    assert(text::is_digit(d[0]));
    text::lemma_find_char_from(d, '.', 0);
    match text::find_char(d, '.') {
        Some(p) => {
            assert(text::is_digit(d[p]));
        },
        None => {},
    }
    assert(d + Seq::<char>::empty() =~= d);
}

/// A numeral of at most two to the power 53, with a unit behind it, stands for
/// as many of the unit; without a unit, for as many bytes. The case of the
/// unit does not matter, and `KiB` is `KB`. What is not a unit is no size.
pub proof fn law_size_of_numeral(n: nat, u: Seq<char>)
    requires
        n <= 0x20_0000_0000_0000,
        all_letters(u),
    ensures
        size_value(text::decimal(n) + u) == (match unit_power(
            text::replace(u.map_values(|c: char| text::ascii_upper(c)), "IB"@, "B"@),
        ) {
            Some(k) => Some(capped(n * pow2(k))),
            None => None,
        }),
{
    let d = text::decimal(n);
    let s = d + u;
    let up = |c: char| text::ascii_upper(c);
    let big = u.map_values(up);
    text::lemma_decimal_digits(n);
    // No white space around it.
    assert(text::is_digit(d[0]) && text::is_digit(d.last()));
    assert(s[0] == d[0]);
    assert(s.last() == if u.len() == 0 {
        d.last()
    } else {
        u.last()
    });
    if u.len() > 0 {
        assert(text::is_letter(u[u.len() - 1]));
    }
    assert(text::trim(s) == s);
    // All of it ASCII.
    assert forall|i: int| 0 <= i < s.len() implies ((#[trigger] s[i]) as u32) < 128
        && text::ascii_upper(s[i]) == (d + big)[i] by {
        if i < d.len() {
            assert(text::is_digit(d[i]));
        } else {
            assert(text::is_letter(u[i - d.len()]));
        }
    }
    assert(vstd::utf8::is_ascii_chars(s));
    assert(text::uppercase(s) =~= d + big);
    assert forall|i: int| 0 <= i < big.len() implies text::is_letter(#[trigger] big[i]) by {
        assert(text::is_letter(u[i]));
    }
    let unit = text::replace(big, "IB"@, "B"@);
    lemma_replace_digits(d, big);
    lemma_replace_letters(big);
    lemma_parts(d, unit);
    lemma_whole_fraction(n);
    assert(digits::pow10(0) == 1);
    match unit_power(unit) {
        Some(k) => {
            lemma2_to64();
            lemma2_to64_rest();
            binary::lemma_nearest_exact(n, 53);
            binary::lemma_floor_scaled(binary::nearest(n, 1, 53), n, k);
        },
        None => {},
    }
}

// ---------------------------------------------------------------------------
// Writing.
// ---------------------------------------------------------------------------

/// `a / b` in decimal, with `places` digits after the point, rounded to the
/// nearest such numeral, ties to the one with an even last digit.
pub open spec fn fixed(a: nat, b: nat, places: nat) -> Seq<char> {
    let scale = digits::pow10(places);
    let h = binary::half_even(a * scale, b);
    if places == 0 {
        text::decimal(h)
    } else {
        text::decimal(h / scale) + "."@ + text::zero_padded(text::decimal(h % scale), places)
    }
}

/// `r` bytes in a unit, with three significant digits or more.
pub open spec fn in_unit(r: nat, unit: nat, name: Seq<char>) -> Seq<char> {
    let places: nat = if r < 10 * unit {
        2
    } else if r < 100 * unit {
        1
    } else {
        0
    };
    fixed(r, unit, places) + name
}

/// The text of `n` bytes, in the greatest unit of which there is at least one.
///
/// A number of 1024 or more is rounded to fifty-three binary digits first.
pub open spec fn size_text(n: nat) -> Seq<char> {
    let r = binary::nearest(n, 1, 53).floor();
    if r < 0x400 {
        text::decimal(n) + "B"@
    } else if r < 0x10_0000 {
        in_unit(r, 0x400, "KB"@)
    } else if r < 0x4000_0000 {
        in_unit(r, 0x10_0000, "MB"@)
    } else if r < 0x100_0000_0000 {
        in_unit(r, 0x4000_0000, "GB"@)
    } else {
        in_unit(r, 0x100_0000_0000, "TB"@)
    }
}

fn fixed_text(a: u128, b: u128, places: usize) -> (s: String)
    requires
        a <= 0x100_0000_0000_0000_0000_0000,
        0 < b <= 0x100_0000_0000,
        places <= 2,
    ensures
        s@ == fixed(a as nat, b as nat, places as nat),
{
    let scale: u128 = if places == 0 {
        1
    } else if places == 1 {
        10
    } else {
        100
    };
    proof {
        reveal_with_fuel(digits::pow10, 3);
        vstd::arithmetic::div_mod::lemma_div_is_ordered_by_denominator(
            (a * scale) as int,
            1,
            b as int,
        );
    }
    let h: u128 = binary::rounded(a * scale, b);
    if places == 0 {
        numeral(h)
    } else {
        let mut s = numeral(h / scale);
        s.append(".");
        s.append(padded_numeral(h % scale, places).as_str());
        s
    }
}

fn text_in_unit(r: u128, unit: u64, name: &str) -> (s: String)
    requires
        r <= 0x100_0000_0000_0000_0000_0000,
        0 < unit <= 0x100_0000_0000,
    ensures
        s@ == in_unit(r as nat, unit as nat, name@),
{
    let u: u128 = unit as u128;
    let places: usize = if r < 10 * u {
        2
    } else if r < 100 * u {
        1
    } else {
        0
    };
    let mut s = fixed_text(r, u, places);
    s.append(name);
    s
}

/// The text of `n` bytes.
pub fn human_bytes(n: u64) -> (s: String)
    ensures
        s@ == size_text(n as nat),
{
    let x = Float::from_u64(n, 53);
    let r: u128 = x.whole();
    if r < 0x400 {
        let mut s = numeral(n as u128);
        s.append("B");
        s
    } else if r < 0x10_0000 {
        text_in_unit(r, 0x400, "KB")
    } else if r < 0x4000_0000 {
        text_in_unit(r, 0x10_0000, "MB")
    } else if r < 0x100_0000_0000 {
        text_in_unit(r, 0x4000_0000, "GB")
    } else {
        proof {
            binary::lemma_whole_bound(n as nat);
        }
        text_in_unit(r, 0x100_0000_0000, "TB")
    }
}

// ---------------------------------------------------------------------------
// What the units stand for.
// ---------------------------------------------------------------------------

proof fn lemma_replace_none(u: Seq<char>)
    requires
        u.len() < 2 || (u.len() == 2 && u[0] != 'I'),
    ensures
        text::replace(u, "IB"@, "B"@) == u,
{
    reveal_strlit("IB");
    assert forall|j: int| 0 <= j && j + "IB"@.len() <= u.len() implies #[trigger] u.subrange(
        j,
        j + "IB"@.len(),
    ) != "IB"@ by {
        assert(u.subrange(j, j + 2)[0] == u[j]);
    }
    text::law_replace_nothing(u, "IB"@, "B"@);
}

proof fn lemma_replace_ib(c: char)
    ensures
        text::replace(seq![c, 'I', 'B'], "IB"@, "B"@) == seq![c, 'B'],
        text::replace(seq!['I', 'B'], "IB"@, "B"@) == seq!['B'],
{
    reveal_strlit("IB");
    reveal_strlit("B");
    let none = Seq::<char>::empty();
    let a = seq![c];
    assert(a + "IB"@ + none =~= seq![c, 'I', 'B']);
    assert((a + "IB"@ + none).subrange(0, 2)[1] == 'I');
    assert((a + "IB"@ + none).subrange(0, 0 + "IB"@.len() as int) =~= (a + "IB"@
        + none).subrange(0, 2));
    text::law_replace_first(a, "IB"@, none, "B"@);
    assert(none + "IB"@ + none =~= seq!['I', 'B']);
    text::law_replace_first(none, "IB"@, none, "B"@);
    lemma_replace_none(none);
    assert(a + "B"@ + none =~= seq![c, 'B']);
    assert(none + "B"@ + none =~= seq!['B']);
}

/// A numeral of at most two to the power 53 stands for as many bytes, alone or
/// with `B` behind it, for as many times 1024 with `K`, `KB` or `KiB`, and so on
/// with `M`, `G` and `T`, in either case; what is too large is the largest
/// 64-bit natural.
pub proof fn law_units(n: nat, u: Seq<char>, c: char)
    requires
        n <= 0x20_0000_0000_0000,
        all_letters(u),
        ({
            let up = u.map_values(|c: char| text::ascii_upper(c));
            ||| up == seq![c]
            ||| up == seq![c, 'B']
            ||| up == seq![c, 'I', 'B']
        }),
        c == 'K' || c == 'M' || c == 'G' || c == 'T',
    ensures
        ({
            let unit: nat = if c == 'K' {
                1024
            } else if c == 'M' {
                1024 * 1024
            } else if c == 'G' {
                1024 * 1024 * 1024
            } else {
                1024 * 1024 * 1024 * 1024
            };
            size_value(text::decimal(n) + u) == Some(
                if n * unit <= u64::MAX {
                    (n * unit) as u64
                } else {
                    u64::MAX
                },
            )
        }),
{
    lemma2_to64();
    lemma2_to64_rest();
    let up = u.map_values(|c: char| text::ascii_upper(c));
    lemma_replace_none(seq![c]);
    lemma_replace_none(seq![c, 'B']);
    lemma_replace_ib(c);
    reveal_strlit("");
    reveal_strlit("B");
    reveal_strlit("K");
    reveal_strlit("KB");
    reveal_strlit("M");
    reveal_strlit("MB");
    reveal_strlit("G");
    reveal_strlit("GB");
    reveal_strlit("T");
    reveal_strlit("TB");
    let r = text::replace(up, "IB"@, "B"@);
    assert(r == seq![c] || r == seq![c, 'B']);
    assert(r[0] == c);
    assert("B"@[0] == 'B' && "K"@[0] == 'K' && "KB"@[0] == 'K' && "M"@[0] == 'M' && "MB"@[0]
        == 'M' && "G"@[0] == 'G' && "GB"@[0] == 'G' && "T"@[0] == 'T' && "TB"@[0] == 'T');
    assert("K"@ =~= seq!['K'] && "KB"@ =~= seq!['K', 'B']);
    assert("M"@ =~= seq!['M'] && "MB"@ =~= seq!['M', 'B']);
    assert("G"@ =~= seq!['G'] && "GB"@ =~= seq!['G', 'B']);
    assert("T"@ =~= seq!['T'] && "TB"@ =~= seq!['T', 'B']);
    law_size_of_numeral(n, u);
}

/// A numeral without a unit, or with `B`, stands for as many bytes.
pub proof fn law_bytes(n: nat)
    requires
        n <= 0x20_0000_0000_0000,
    ensures
        size_value(text::decimal(n)) == Some(n as u64),
        size_value(text::decimal(n) + seq!['B']) == Some(n as u64),
        size_value(text::decimal(n) + seq!['b']) == Some(n as u64),
{
    lemma2_to64();
    reveal_strlit("");
    reveal_strlit("B");
    let none = Seq::<char>::empty();
    let f = |c: char| text::ascii_upper(c);
    assert(""@ =~= none);
    assert("B"@ =~= seq!['B']);
    assert(none.map_values(f) =~= none);
    assert(seq!['B'].map_values(f) =~= seq!['B']);
    assert(seq!['b'].map_values(f) =~= seq!['B']);
    lemma_replace_none(none);
    lemma_replace_none(seq!['B']);
    law_size_of_numeral(n, none);
    law_size_of_numeral(n, seq!['B']);
    law_size_of_numeral(n, seq!['b']);
    assert(text::decimal(n) + none =~= text::decimal(n));
    assert(n * pow2(0) == n) by (nonlinear_arith)
        requires
            pow2(0) == 1,
    ;
}

/// White space around a size does not matter, nor does the case of its letters.
pub proof fn law_size_spelling(a: Seq<char>, s: Seq<char>, b: Seq<char>, t: Seq<char>)
    requires
        text::all_white(a),
        text::all_white(b),
        text::is_trimmed(s),
        text::is_trimmed(t),
        vstd::utf8::is_ascii_chars(s),
        vstd::utf8::is_ascii_chars(t),
        s.map_values(|c: char| text::ascii_upper(c)) == t.map_values(
            |c: char| text::ascii_upper(c),
        ),
    ensures
        size_value(a + s + b) == size_value(s),
        size_value(s) == size_value(t),
{
    let none = Seq::<char>::empty();
    text::law_trim(a, s, b);
    text::law_trim(none, s, none);
    text::law_trim(none, t, none);
    assert(none + s + none =~= s);
    assert(none + t + none =~= t);
}

/// What does not start with a digit or a point is no size.
pub proof fn law_no_size(s: Seq<char>)
    requires
        text::is_trimmed(s),
        vstd::utf8::is_ascii_chars(s),
        s.len() > 0 ==> !('0' <= s[0] && s[0] <= '9') && s[0] != '.',
    ensures
        size_value(s) is None,
{
    reveal_strlit("IB");
    reveal_strlit("B");
    let none = Seq::<char>::empty();
    text::law_trim(none, s, none);
    assert(none + s + none =~= s);
    let up = text::uppercase(s);
    let t = text::replace(up, "IB"@, "B"@);
    if s.len() > 0 {
        assert(up[0] == text::ascii_upper(s[0]));
        assert(!is_number_char(up[0]));
        assert(t.len() > 0 && (t[0] == up[0] || t[0] == 'B'));
    }
    assert(number_part(t) =~= none);
    text::lemma_find_char_from(none, '.', 0);
    assert(none + none =~= none);
}

/// What is read is the size.
pub proof fn law_size_read(s: &str, r: Option<u64>)
    requires
        call_ensures(parse_size, (s,), r),
    ensures
        r == size_value(s@),
{
}

/// A number of bytes below 1024 is written as it is; from there on it is written
/// in the greatest of the units K, M, G and T of which there is at least one,
/// with two digits after the point below ten of them, one below a hundred, and
/// none from there on.
pub proof fn law_size_written(n: u64, s: String, unit: nat, name: Seq<char>)
    requires
        call_ensures(human_bytes, (n,), s),
        n <= 0x20_0000_0000_0000,
        ({
            ||| unit == 1024 && name == "KB"@ && n < 1024 * 1024
            ||| unit == 1024 * 1024 && name == "MB"@ && n < 1024 * 1024 * 1024
            ||| unit == 1024 * 1024 * 1024 && name == "GB"@ && n < 1024 * 1024 * 1024 * 1024
            ||| unit == 1024 * 1024 * 1024 * 1024 && name == "TB"@
        }),
    ensures
        n < 1024 ==> s@ == text::decimal(n as nat) + "B"@,
        unit <= n < 10 * unit ==> s@ == fixed(n as nat, unit, 2) + name,
        10 * unit <= n < 100 * unit ==> s@ == fixed(n as nat, unit, 1) + name,
        100 * unit <= n ==> s@ == fixed(n as nat, unit, 0) + name,
{
    lemma2_to64();
    lemma2_to64_rest();
    binary::lemma_nearest_whole(n as nat, 1, n as nat, 53);
}

/// A quotient is written with the digits of the nearest natural number of
/// hundredths, tenths or ones.
pub proof fn law_fixed(a: nat, b: nat) -> (h: (nat, nat, nat))
    requires
        b > 0,
    ensures
        fixed(a, b, 0) == text::decimal(h.0),
        fixed(a, b, 1) == text::decimal(h.1 / 10) + "."@ + text::decimal(h.1 % 10),
        fixed(a, b, 2) == text::decimal(h.2 / 100) + "."@ + text::zero_padded(
            text::decimal(h.2 % 100),
            2,
        ),
        -(b as int) <= 2 * (a - h.0 * b) <= b,
        -(b as int) <= 2 * (10 * a - h.1 * b) <= b,
        -(b as int) <= 2 * (100 * a - h.2 * b) <= b,
{
    reveal_with_fuel(digits::pow10, 3);
    let h = (
        binary::half_even(a * 1, b),
        binary::half_even(a * 10, b),
        binary::half_even(a * 100, b),
    );
    lemma_half_even_near(a * 1, b);
    lemma_half_even_near(a * 10, b);
    lemma_half_even_near(a * 100, b);
    text::lemma_decimal_digits(h.1 % 10);
    assert(text::zero_padded(text::decimal(h.1 % 10), 1) == text::decimal(h.1 % 10));
    h
}

proof fn lemma_half_even_near(a: nat, b: nat)
    requires
        b > 0,
    ensures
        -(b as int) <= 2 * (a - binary::half_even(a, b) * b) <= b,
{
    vstd::arithmetic::div_mod::lemma_fundamental_div_mod(a as int, b as int);
    let f = a / b;
    let h = binary::half_even(a, b);
    assert(h * b == f * b + (h - f) * b && b * f == f * b) by (nonlinear_arith);
    assert(h - f == 0 || h - f == 1);
    assert(0 * b == 0 && 1 * b == b) by (nonlinear_arith);
}

} // verus!
