//! URL-safe base64 with padding.

use vstd::prelude::*;

verus! {

/// The character that stands for the six-bit value `v`.
pub open spec fn sextet_char(v: int) -> char {
    if v < 26 {
        (65 + v) as char
    } else if v < 52 {
        (97 + v - 26) as char
    } else if v < 62 {
        (48 + v - 52) as char
    } else if v == 62 {
        '-'
    } else {
        '_'
    }
}

/// The six-bit value that the character `c` stands for.
pub open spec fn char_sextet(c: char) -> int {
    if 'A' <= c && c <= 'Z' {
        c as int - 65
    } else if 'a' <= c && c <= 'z' {
        c as int - 97 + 26
    } else if '0' <= c && c <= '9' {
        c as int - 48 + 52
    } else if c == '-' {
        62
    } else {
        63
    }
}

/// The byte of `data` at `i`, zero past the end.
pub open spec fn byte_or_zero(data: Seq<u8>, i: int) -> int {
    if i < data.len() {
        data[i] as int
    } else {
        0
    }
}

/// The four characters that encode the first three bytes of `data`, or what
/// there is of them.
pub open spec fn encode_group(data: Seq<u8>) -> Seq<char> {
    let n = byte_or_zero(data, 0) * 65536 + byte_or_zero(data, 1) * 256 + byte_or_zero(data, 2);
    seq![
        sextet_char(n / 262144),
        sextet_char((n / 4096) % 64),
        if data.len() > 1 {
            sextet_char((n / 64) % 64)
        } else {
            '='
        },
        if data.len() > 2 {
            sextet_char(n % 64)
        } else {
            '='
        },
    ]
}

/// The base64 text of `data`.
pub open spec fn encode(data: Seq<u8>) -> Seq<char>
    decreases data.len(),
{
    if data.len() == 0 {
        Seq::empty()
    } else if data.len() <= 3 {
        encode_group(data)
    } else {
        encode_group(data.take(3)) + encode(data.skip(3))
    }
}

/// The bytes that four base64 characters stand for.
pub open spec fn decode_group(s: Seq<char>) -> Seq<u8> {
    let n = char_sextet(s[0]) * 262144 + char_sextet(s[1]) * 4096 + (if s[2] == '=' {
        0
    } else {
        char_sextet(s[2]) * 64
    }) + (if s[3] == '=' {
        0
    } else {
        char_sextet(s[3])
    });
    if s[2] == '=' {
        seq![(n / 65536) as u8]
    } else if s[3] == '=' {
        seq![(n / 65536) as u8, ((n / 256) % 256) as u8]
    } else {
        seq![(n / 65536) as u8, ((n / 256) % 256) as u8, (n % 256) as u8]
    }
}

/// The bytes that a base64 text stands for.
pub open spec fn decode(s: Seq<char>) -> Seq<u8>
    decreases s.len(),
{
    if s.len() < 4 {
        Seq::empty()
    } else {
        decode_group(s.take(4)) + decode(s.skip(4))
    }
}

/// Whether `c` can occur in a base64 text: a URL-safe character, or the
/// padding sign.
pub open spec fn is_base64_char(c: char) -> bool {
    ||| 'A' <= c && c <= 'Z'
    ||| 'a' <= c && c <= 'z'
    ||| '0' <= c && c <= '9'
    ||| c == '-'
    ||| c == '_'
    ||| c == '='
}

proof fn lemma_sextet(v: int)
    requires
        0 <= v < 64,
    ensures
        char_sextet(sextet_char(v)) == v,
        sextet_char(v) != '=',
        is_base64_char(sextet_char(v)),
{
}

proof fn lemma_digits(b0: int, b1: int, b2: int, n: int)
    requires
        0 <= b0 < 256,
        0 <= b1 < 256,
        0 <= b2 < 256,
        n == b0 * 65536 + b1 * 256 + b2,
    ensures
        0 <= n / 262144 < 64,
        n / 262144 * 262144 + (n / 4096) % 64 * 4096 + (n / 64) % 64 * 64 + n % 64 == n,
        b2 == 0 ==> n % 64 == 0,
        b1 == 0 && b2 == 0 ==> (n / 64) % 64 == 0,
        n / 65536 == b0,
        (n / 256) % 256 == b1,
        n % 256 == b2,
{
    assert(n / 65536 == b0);
    assert(n / 256 == b0 * 256 + b1);
    assert((b0 * 256 + b1) % 256 == b1);
    assert(n % 256 == b2);
    assert((n / 64) / 64 == n / 4096);
    assert((n / 4096) / 64 == n / 262144);
    if b2 == 0 {
        assert(n == 64 * (4 * (b0 * 256 + b1)));
        if b1 == 0 {
            assert(n / 64 == 64 * (16 * b0));
        }
    }
}

proof fn lemma_group(data: Seq<u8>)
    requires
        1 <= data.len() <= 3,
    ensures
        decode_group(encode_group(data)) == data,
        forall|i: int| 0 <= i < 4 ==> is_base64_char(#[trigger] encode_group(data)[i]),
{
    let b0 = byte_or_zero(data, 0);
    let b1 = byte_or_zero(data, 1);
    let b2 = byte_or_zero(data, 2);
    let n = b0 * 65536 + b1 * 256 + b2;
    let s0 = n / 262144;
    let s1 = (n / 4096) % 64;
    let s2 = (n / 64) % 64;
    let s3 = n % 64;
    lemma_digits(b0, b1, b2, n);
    lemma_sextet(s0);
    lemma_sextet(s1);
    lemma_sextet(s2);
    lemma_sextet(s3);
    let s = encode_group(data);
    assert(s[0] == sextet_char(s0));
    assert(s[1] == sextet_char(s1));
    assert(is_base64_char('='));
    let m = char_sextet(s[0]) * 262144 + char_sextet(s[1]) * 4096 + (if s[2] == '=' {
        0
    } else {
        char_sextet(s[2]) * 64
    }) + (if s[3] == '=' {
        0
    } else {
        char_sextet(s[3])
    });
    assert(m == n);
    assert(decode_group(s) =~= data);
}

/// Decoding the base64 text of some bytes gives the bytes back.
pub proof fn law_base64_round_trip(data: Seq<u8>)
    ensures
        decode(encode(data)) == data,
    decreases data.len(),
{
    if data.len() == 0 {
    } else if data.len() <= 3 {
        lemma_group(data);
        let s = encode(data);
        assert(s.take(4) =~= s);
        assert(s.skip(4).len() == 0);
        assert(decode(s.skip(4)) =~= Seq::empty());
        assert(decode(s) =~= data);
    } else {
        lemma_group(data.take(3));
        law_base64_round_trip(data.skip(3));
        let s = encode(data);
        assert(s.take(4) =~= encode_group(data.take(3)));
        assert(s.skip(4) =~= encode(data.skip(3)));
        assert(data.take(3) + data.skip(3) =~= data);
    }
}

/// A base64 text holds URL-safe characters and padding only, and has four
/// characters for every three bytes begun.
pub proof fn law_base64_shape(data: Seq<u8>)
    ensures
        encode(data).len() == (data.len() + 2) / 3 * 4,
        forall|i: int| 0 <= i < encode(data).len() ==> is_base64_char(#[trigger] encode(data)[i]),
    decreases data.len(),
{
    if data.len() == 0 {
    } else if data.len() <= 3 {
        lemma_group(data);
    } else {
        lemma_group(data.take(3));
        law_base64_shape(data.skip(3));
    }
}

fn sextet(v: u32) -> (c: char)
    requires
        v < 64,
    ensures
        c == sextet_char(v as int),
{
    if v < 26 {
        (65 + v as u8) as char
    } else if v < 52 {
        (97 + (v - 26) as u8) as char
    } else if v < 62 {
        (48 + (v - 52) as u8) as char
    } else if v == 62 {
        '-'
    } else {
        '_'
    }
}

/// The URL-safe base64 text of `data`, padded.
pub fn b64url(data: &[u8]) -> (s: String)
    ensures
        s@ == encode(data@),
{
    let mut s = String::new();
    let len: usize = data.len();
    let mut i: usize = 0;
    assert(data@.skip(0) =~= data@);
    while i < len
        invariant
            i <= len,
            len == data@.len(),
            encode(data@) == s@ + encode(data@.skip(i as int)),
        decreases len - i,
    {
        let ghost rest = data@.skip(i as int);
        let left: usize = len - i;
        let b0: u32 = data[i] as u32;
        let b1: u32 = if left > 1 {
            data[i + 1] as u32
        } else {
            0
        };
        let b2: u32 = if left > 2 {
            data[i + 2] as u32
        } else {
            0
        };
        let n: u32 = b0 * 65536 + b1 * 256 + b2;
        let ghost before = s@;
        s.push(sextet(n / 262144));
        s.push(sextet((n / 4096) % 64));
        s.push(
            if left > 1 {
                sextet((n / 64) % 64)
            } else {
                '='
            },
        );
        s.push(
            if left > 2 {
                sextet(n % 64)
            } else {
                '='
            },
        );
        if left <= 3 {
            assert(s@ =~= before + encode_group(rest));
            i = len;
            assert(data@.skip(len as int).len() == 0);
            assert(s@ + encode(data@.skip(len as int)) =~= before + encode(rest));
        } else {
            assert(s@ =~= before + encode_group(rest.take(3)));
            i = i + 3;
            assert(data@.skip(i as int) =~= rest.skip(3));
            assert(s@ + encode(data@.skip(i as int)) =~= before + encode(rest));
        }
    }
    assert(data@.skip(len as int).len() == 0);
    assert(s@ + encode(data@.skip(len as int)) =~= s@);
    s
}

/// The characters of a base64 text, in the order of their values.
pub const ALPHABET: &'static str =
    "ABCDEFGHIJKLMNOPQRSTUVWXYZabcdefghijklmnopqrstuvwxyz0123456789-_";

proof fn lemma_alphabet(v: int)
    requires
        0 <= v < 64,
    ensures
        sextet_char(v) == ALPHABET@[v],
{
    reveal_strlit("ABCDEFGHIJKLMNOPQRSTUVWXYZabcdefghijklmnopqrstuvwxyz0123456789-_");
    assert(sextet_char(v) == ALPHABET@[v]);
}

/// Three bytes are four digits of base 64, the first the most significant; two
/// bytes are three of them and a sign of padding, one byte is two of them and
/// two signs. The rest of the data is encoded in the same way.
pub proof fn law_base64_digits(a: u8, b: u8, c: u8, rest: Seq<u8>) -> (v: (int, int, int, int))
    ensures
        0 <= v.0 < 64 && 0 <= v.1 < 64 && 0 <= v.2 < 64 && 0 <= v.3 < 64,
        a * 0x10000 + b * 0x100 + c == v.0 * 0x40000 + v.1 * 0x1000 + v.2 * 0x40 + v.3,
        encode(seq![a, b, c] + rest) == seq![
            ALPHABET@[v.0],
            ALPHABET@[v.1],
            ALPHABET@[v.2],
            ALPHABET@[v.3],
        ] + encode(rest),
        c == 0 ==> encode(seq![a, b]) == seq![
            ALPHABET@[v.0],
            ALPHABET@[v.1],
            ALPHABET@[v.2],
            '=',
        ],
        b == 0 && c == 0 ==> encode(seq![a]) == seq![ALPHABET@[v.0], ALPHABET@[v.1], '=', '='],
{
    let n = a as int * 0x10000 + b as int * 0x100 + c as int;
    let v = (n / 262144, (n / 4096) % 64, (n / 64) % 64, n % 64);
    lemma_four_digits(n);
    lemma_alphabet(v.0);
    lemma_alphabet(v.1);
    lemma_alphabet(v.2);
    lemma_alphabet(v.3);
    let three = seq![a, b, c];
    let all = three + rest;
    assert(encode_group(three) =~= seq![
        ALPHABET@[v.0],
        ALPHABET@[v.1],
        ALPHABET@[v.2],
        ALPHABET@[v.3],
    ]);
    assert(all.take(3) =~= three);
    assert(all.skip(3) =~= rest);
    if rest.len() == 0 {
        assert(all =~= three);
        assert(encode_group(three) + encode(rest) =~= encode_group(three));
    }
    assert(encode(all) == encode_group(three) + encode(rest));
    if c == 0 {
        assert(encode_group(seq![a, b]) =~= seq![
            ALPHABET@[v.0],
            ALPHABET@[v.1],
            ALPHABET@[v.2],
            '=',
        ]);
    }
    if b == 0 && c == 0 {
        assert(encode_group(seq![a]) =~= seq![ALPHABET@[v.0], ALPHABET@[v.1], '=', '=']);
    }
    v
}

proof fn lemma_four_digits(n: int)
    requires
        0 <= n < 0x100_0000,
    ensures
        0 <= n / 262144 < 64,
        n == n / 262144 * 0x40000 + (n / 4096) % 64 * 0x1000 + (n / 64) % 64 * 0x40 + n % 64,
{
    let x = n / 64;
    let y = x / 64;
    assert(y == n / 4096);
    assert(y / 64 == n / 262144);
}

} // verus!
