//! Percent encoding of texts that go into a URL.

use vstd::prelude::*;
use vstd::string::*;
use vstd::utf8::*;

verus! {

/// Whether a byte stands for itself: an ASCII letter, a digit, or one of
/// `-`, `_`, `.` and `~`.
pub open spec fn is_unreserved(b: u8) -> bool {
    ||| 0x41 <= b <= 0x5a
    ||| 0x61 <= b <= 0x7a
    ||| 0x30 <= b <= 0x39
    ||| b == 0x2d
    ||| b == 0x5f
    ||| b == 0x2e
    ||| b == 0x7e
}

/// The digit of base sixteen for `n`, in upper case.
pub open spec fn hex_digit(n: nat) -> char {
    if n < 10 {
        (48 + n) as char
    } else {
        (55 + n) as char
    }
}

/// The value of a digit of base sixteen.
pub open spec fn hex_value(c: char) -> nat {
    if c as nat >= 65 {
        (c as int - 55) as nat
    } else {
        (c as int - 48) as nat
    }
}

/// What stands for a byte.
pub open spec fn encoded_byte(b: u8) -> Seq<char> {
    if is_unreserved(b) {
        seq![b as char]
    } else {
        seq!['%', hex_digit(b as nat / 16), hex_digit(b as nat % 16)]
    }
}

/// What stands for a sequence of bytes.
pub open spec fn encoded(bytes: Seq<u8>) -> Seq<char>
    decreases bytes.len(),
{
    if bytes.len() == 0 {
        Seq::empty()
    } else {
        encoded_byte(bytes[0]) + encoded(bytes.skip(1))
    }
}

/// What stands for a text: each byte of its UTF-8 form by itself, or by a
/// percent sign and its two digits.
pub open spec fn percent_encoded(s: Seq<char>) -> Seq<char> {
    encoded(encode_utf8(s))
}

/// The bytes that an encoded text stands for.
pub open spec fn percent_decoded(s: Seq<char>) -> Seq<u8>
    decreases s.len(),
{
    if s.len() == 0 {
        Seq::empty()
    } else if s[0] == '%' && s.len() >= 3 {
        seq![(16 * hex_value(s[1]) + hex_value(s[2])) as u8] + percent_decoded(s.skip(3))
    } else {
        seq![s[0] as u8] + percent_decoded(s.skip(1))
    }
}

/// Whether `c` can be part of an encoded text.
pub open spec fn is_encoded_char(c: char) -> bool {
    c == '%' || ((c as u32) < 128 && is_unreserved(c as u8))
}

/// Decoding an encoded text gives back its bytes, and these its characters.
pub proof fn law_percent_round_trip(s: Seq<char>)
    ensures
        percent_decoded(percent_encoded(s)) == encode_utf8(s),
        decode_utf8(percent_decoded(percent_encoded(s))) == s,
{
    lemma_round_trip(encode_utf8(s));
    encode_utf8_decode_utf8(s);
}

proof fn lemma_round_trip(bytes: Seq<u8>)
    ensures
        percent_decoded(encoded(bytes)) == bytes,
    decreases bytes.len(),
{
    if bytes.len() > 0 {
        let b = bytes[0];
        let rest = encoded(bytes.skip(1));
        let all = encoded(bytes);
        lemma_round_trip(bytes.skip(1));
        if is_unreserved(b) {
            assert(all[0] == b as char);
            assert(all.skip(1) =~= rest);
        } else {
            assert(all[0] == '%');
            assert(all[1] == hex_digit(b as nat / 16));
            assert(all[2] == hex_digit(b as nat % 16));
            assert(all.skip(3) =~= rest);
        }
        assert(percent_decoded(all) =~= seq![b] + bytes.skip(1));
        assert(seq![b] + bytes.skip(1) =~= bytes);
    }
}

/// An encoded text consists of unreserved ASCII characters and percent signs,
/// so it cannot end the part of a URL that it stands in.
pub proof fn law_percent_safe(s: Seq<char>)
    ensures
        forall|i: int|
            0 <= i < percent_encoded(s).len() ==> is_encoded_char(#[trigger] percent_encoded(s)[i]),
{
    lemma_safe(encode_utf8(s));
}

proof fn lemma_safe(bytes: Seq<u8>)
    ensures
        forall|i: int| 0 <= i < encoded(bytes).len() ==> is_encoded_char(#[trigger] encoded(bytes)[i]),
    decreases bytes.len(),
{
    if bytes.len() > 0 {
        let first = encoded_byte(bytes[0]);
        let rest = encoded(bytes.skip(1));
        lemma_safe(bytes.skip(1));
        assert forall|i: int| 0 <= i < encoded(bytes).len() implies is_encoded_char(
            #[trigger] encoded(bytes)[i],
        ) by {
            if i >= first.len() {
                assert(encoded(bytes)[i] == rest[i - first.len()]);
            }
        }
    }
}

fn hex(n: u8) -> (c: char)
    requires
        n < 16,
    ensures
        c == hex_digit(n as nat),
{
    if n < 10 {
        (48 + n) as char
    } else {
        (55 + n) as char
    }
}

/// The percent encoding of a text.
pub fn percent_encode(s: &str) -> (r: String)
    ensures
        r@ == percent_encoded(s@),
{
    let bytes = s.as_bytes();
    let n: usize = bytes.len();
    let mut out = String::new();
    let mut i: usize = 0;
    assert(bytes@.skip(0) =~= bytes@);
    assert(out@ + encoded(bytes@) =~= encoded(bytes@));
    while i < n
        invariant
            i <= n,
            n == bytes@.len(),
            encoded(bytes@) == out@ + encoded(bytes@.skip(i as int)),
        decreases n - i,
    {
        let ghost before = out@;
        let ghost rest = bytes@.skip(i as int);
        let b: u8 = bytes[i];
        assert(rest.skip(1) =~= bytes@.skip(i + 1));
        if (0x41 <= b && b <= 0x5a) || (0x61 <= b && b <= 0x7a) || (0x30 <= b && b <= 0x39) || b
            == 0x2d || b == 0x5f || b == 0x2e || b == 0x7e {
            out.push(b as char);
        } else {
            out.push('%');
            out.push(hex(b / 16));
            out.push(hex(b % 16));
        }
        i = i + 1;
        assert(out@ + encoded(bytes@.skip(i as int)) =~= before + encoded(rest));
    }
    assert(bytes@.skip(i as int).len() == 0);
    assert(out@ + encoded(bytes@.skip(i as int)) =~= out@);
    out
}

/// Each byte is encoded by itself, in order: letters, digits, `-`, `_`, `.` and
/// `~` stand for themselves, and any other byte is a percent sign and its two
/// digits of base sixteen, in upper case.
pub proof fn law_percent_bytes(b: u8, rest: Seq<u8>)
    ensures
        encoded(seq![b] + rest) == (if ('A' <= b as char && b as char <= 'Z') || ('a' <= b as char
            && b as char <= 'z') || ('0' <= b as char && b as char <= '9') || b as char == '-'
            || b as char == '_' || b as char == '.' || b as char == '~' {
            seq![b as char]
        } else {
            seq!['%', "0123456789ABCDEF"@[b as int / 16], "0123456789ABCDEF"@[b as int % 16]]
        }) + encoded(rest),
        encoded(Seq::empty()) == Seq::<char>::empty(),
{
    reveal_strlit("0123456789ABCDEF");
    let all = seq![b] + rest;
    assert(all.skip(1) =~= rest);
    assert(all[0] == b);
    assert(hex_digit(b as nat / 16) == "0123456789ABCDEF"@[b as int / 16]);
    assert(hex_digit(b as nat % 16) == "0123456789ABCDEF"@[b as int % 16]);
}

/// What is encoded is the text as UTF-8, byte by byte.
pub proof fn law_percent_encode(s: &str, r: String)
    requires
        call_ensures(percent_encode, (s,), r),
    ensures
        r@ == encoded(encode_utf8(s@)),
        percent_decoded(r@) == encode_utf8(s@),
{
    law_percent_round_trip(s@);
}

} // verus!
