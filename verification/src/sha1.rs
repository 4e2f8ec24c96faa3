//! The SHA-1 digest and its keyed form, HMAC-SHA1.
//!
//! The digest is made by padding, a message schedule and eighty rounds for each
//! block, and the running sum of the five chaining words.

use vstd::prelude::*;

verus! {

/// The five chaining words.
#[derive(Clone, Copy)]
pub struct Words {
    pub a: u32,
    pub b: u32,
    pub c: u32,
    pub d: u32,
    pub e: u32,
}

/// Rotation of a word to the left by one bit.
pub open spec fn rotl1(x: u32) -> u32 {
    (x << 1u32) | (x >> 31u32)
}

/// Rotation of a word to the left by five bits.
pub open spec fn rotl5(x: u32) -> u32 {
    (x << 5u32) | (x >> 27u32)
}

/// Rotation of a word to the left by thirty bits.
pub open spec fn rotl30(x: u32) -> u32 {
    (x << 30u32) | (x >> 2u32)
}

/// Addition of words, modulo the word size.
pub open spec fn plus(x: u32, y: u32) -> u32 {
    ((x + y) % 0x1_0000_0000) as u32
}

/// The word made of four bytes, most significant byte first.
pub open spec fn be_word(b0: u8, b1: u8, b2: u8, b3: u8) -> u32 {
    ((b0 as u32) << 24u32) | ((b1 as u32) << 16u32) | ((b2 as u32) << 8u32) | (b3 as u32)
}

/// The bytes of a word, most significant byte first.
pub open spec fn word_bytes(x: u32) -> Seq<u8> {
    seq![(x >> 24u32) as u8, (x >> 16u32) as u8, (x >> 8u32) as u8, x as u8]
}

/// The bytes of a 64-bit length, most significant byte first.
pub open spec fn length_bytes(n: u64) -> Seq<u8> {
    seq![
        (n >> 56u64) as u8,
        (n >> 48u64) as u8,
        (n >> 40u64) as u8,
        (n >> 32u64) as u8,
        (n >> 24u64) as u8,
        (n >> 16u64) as u8,
        (n >> 8u64) as u8,
        n as u8,
    ]
}

/// The number of bits in `len` bytes, modulo 2^64.
pub open spec fn bit_length(len: nat) -> u64 {
    ((len * 8) % 0x1_0000_0000_0000_0000) as u64
}

/// `data`, a one bit, the least number of zero bits that leaves eight bytes
/// free in the last block, and the length of `data` in bits.
pub open spec fn padded(data: Seq<u8>) -> Seq<u8> {
    data + seq![0x80u8] + Seq::new(((55 - data.len()) % 64) as nat, |i: int| 0u8) + length_bytes(
        bit_length(data.len()),
    )
}

/// Word `t` of the message schedule of `block`.
pub open spec fn schedule(block: Seq<u8>, t: nat) -> u32
    decreases t,
{
    if t < 16 {
        be_word(
            block[4 * t as int],
            block[4 * t as int + 1],
            block[4 * t as int + 2],
            block[4 * t as int + 3],
        )
    } else {
        rotl1(
            schedule(block, (t - 3) as nat) ^ schedule(block, (t - 8) as nat) ^ schedule(
                block,
                (t - 14) as nat,
            ) ^ schedule(block, (t - 16) as nat),
        )
    }
}

/// The logical function of round `t`.
pub open spec fn round_fn(t: nat, b: u32, c: u32, d: u32) -> u32 {
    if t < 20 {
        (b & c) | ((!b) & d)
    } else if t < 40 {
        b ^ c ^ d
    } else if t < 60 {
        (b & c) | (b & d) | (c & d)
    } else {
        b ^ c ^ d
    }
}

/// The additive constant of round `t`.
pub open spec fn round_const(t: nat) -> u32 {
    if t < 20 {
        0x5A827999u32
    } else if t < 40 {
        0x6ED9EBA1u32
    } else if t < 60 {
        0x8F1BBCDCu32
    } else {
        0xCA62C1D6u32
    }
}

/// Round `t` applied to `s`, with schedule word `w`.
pub open spec fn round(t: nat, w: u32, s: Words) -> Words {
    Words {
        a: plus(
            plus(plus(plus(rotl5(s.a), round_fn(t, s.b, s.c, s.d)), s.e), round_const(t)),
            w,
        ),
        b: s.a,
        c: rotl30(s.b),
        d: s.c,
        e: s.d,
    }
}

/// The first `n` rounds on `block`, starting from `s`.
pub open spec fn rounds(block: Seq<u8>, n: nat, s: Words) -> Words
    decreases n,
{
    if n == 0 {
        s
    } else {
        let t = (n - 1) as nat;
        round(t, schedule(block, t), rounds(block, t, s))
    }
}

/// The chaining words after `block`, given those before it.
pub open spec fn compress(s: Words, block: Seq<u8>) -> Words {
    let r = rounds(block, 80, s);
    Words {
        a: plus(s.a, r.a),
        b: plus(s.b, r.b),
        c: plus(s.c, r.c),
        d: plus(s.d, r.d),
        e: plus(s.e, r.e),
    }
}

/// The chaining words before the first block.
pub open spec fn initial_words() -> Words {
    Words { a: 0x67452301, b: 0xEFCDAB89, c: 0x98BADCFE, d: 0x10325476, e: 0xC3D2E1F0 }
}

/// The chaining words after the first `n` blocks of `msg`.
pub open spec fn chain(msg: Seq<u8>, n: nat) -> Words
    decreases n,
{
    if n == 0 {
        initial_words()
    } else {
        compress(chain(msg, (n - 1) as nat), msg.subrange(64 * (n - 1), 64 * n as int))
    }
}

/// The bytes of the five words.
pub open spec fn words_bytes(s: Words) -> Seq<u8> {
    word_bytes(s.a) + word_bytes(s.b) + word_bytes(s.c) + word_bytes(s.d) + word_bytes(s.e)
}

/// The SHA-1 digest of `data`.
#[verifier::opaque]
pub open spec fn sha1_digest(data: Seq<u8>) -> Seq<u8> {
    words_bytes(chain(padded(data), padded(data).len() / 64))
}

/// The key of an HMAC, brought to the length of a block: a longer key is
/// replaced by its digest, a shorter one is filled up with zeros.
pub open spec fn block_key(key: Seq<u8>) -> Seq<u8> {
    let k = if key.len() > 64 {
        sha1_digest(key)
    } else {
        key
    };
    Seq::new(
        64,
        |i: int|
            if i < k.len() {
                k[i]
            } else {
                0u8
            },
    )
}

/// Each byte of `s`, combined with `pad` by exclusive or.
pub open spec fn xor_all(s: Seq<u8>, pad: u8) -> Seq<u8> {
    Seq::new(s.len(), |i: int| s[i] ^ pad)
}

/// The HMAC-SHA1 of `msg` under `key`.
#[verifier::opaque]
pub open spec fn hmac_digest(key: Seq<u8>, msg: Seq<u8>) -> Seq<u8> {
    let k = block_key(key);
    sha1_digest(xor_all(k, 0x5c) + sha1_digest(xor_all(k, 0x36) + msg))
}

/// A padded message is a whole number of blocks, at least one.
pub proof fn lemma_padded_len(data: Seq<u8>)
    ensures
        padded(data).len() % 64 == 0,
        padded(data).len() >= 64,
{
}

fn add_words(x: u32, y: u32) -> (r: u32)
    ensures
        r == plus(x, y),
{
    x.wrapping_add(y)
}

/// The padded form of `data`.
fn pad(data: &[u8]) -> (msg: Vec<u8>)
    ensures
        msg@ == padded(data@),
{
    let mut msg: Vec<u8> = Vec::new();
    let n: usize = data.len();
    for i in 0..n
        invariant
            n == data@.len(),
            msg@ == data@.take(i as int),
    {
        msg.push(data[i]);
        assert(data@.take(i as int).push(data@[i as int]) =~= data@.take(i + 1));
    }
    assert(msg@ =~= data@);
    msg.push(0x80);
    let zeros: usize = (119 - n % 64) % 64;
    assert(zeros == (55 - n) % 64);
    let ghost base = data@ + seq![0x80u8];
    assert(msg@ =~= base);
    for i in 0..zeros
        invariant
            msg@ == base + Seq::new(i as nat, |j: int| 0u8),
    {
        msg.push(0);
        assert(msg@ =~= base + Seq::new((i + 1) as nat, |j: int| 0u8));
    }
    let bits: u64 = (n as u64).wrapping_mul(8);
    let ghost before = msg@;
    msg.push((bits >> 56) as u8);
    msg.push((bits >> 48) as u8);
    msg.push((bits >> 40) as u8);
    msg.push((bits >> 32) as u8);
    msg.push((bits >> 24) as u8);
    msg.push((bits >> 16) as u8);
    msg.push((bits >> 8) as u8);
    msg.push(bits as u8);
    assert(msg@ =~= before + length_bytes(bits));
    assert(bits == bit_length(n as nat));
    msg
}

/// The message schedule of `block`.
fn expand(block: &[u8]) -> (w: Vec<u32>)
    requires
        block@.len() == 64,
    ensures
        w@.len() == 80,
        forall|t: int| 0 <= t < 80 ==> w@[t] == schedule(block@, t as nat),
{
    let mut w: Vec<u32> = Vec::new();
    for i in 0usize..80
        invariant
            block@.len() == 64,
            w@.len() == i,
            forall|t: int| 0 <= t < i ==> w@[t] == schedule(block@, t as nat),
    {
        if i < 16 {
            let word: u32 = ((block[i * 4] as u32) << 24) | ((block[i * 4 + 1] as u32) << 16) | ((
            block[i * 4 + 2] as u32) << 8) | (block[i * 4 + 3] as u32);
            w.push(word);
        } else {
            let x: u32 = w[i - 3] ^ w[i - 8] ^ w[i - 14] ^ w[i - 16];
            w.push((x << 1) | (x >> 31));
        }
    }
    w
}

/// The chaining words after `block`.
fn digest_block(s: Words, block: &[u8]) -> (r: Words)
    requires
        block@.len() == 64,
    ensures
        r == compress(s, block@),
{
    let w = expand(block);
    let mut v: Words = s;
    for t in 0usize..80
        invariant
            w@.len() == 80,
            forall|i: int| 0 <= i < 80 ==> w@[i] == schedule(block@, i as nat),
            v == rounds(block@, t as nat, s),
    {
        let b: u32 = v.b;
        let c: u32 = v.c;
        let d: u32 = v.d;
        let f: u32 = if t < 20 {
            (b & c) | ((!b) & d)
        } else if t < 40 {
            b ^ c ^ d
        } else if t < 60 {
            (b & c) | (b & d) | (c & d)
        } else {
            b ^ c ^ d
        };
        let k: u32 = if t < 20 {
            0x5A827999
        } else if t < 40 {
            0x6ED9EBA1
        } else if t < 60 {
            0x8F1BBCDC
        } else {
            0xCA62C1D6
        };
        let sum: u32 = add_words(
            add_words(add_words(add_words((v.a << 5) | (v.a >> 27), f), v.e), k),
            w[t],
        );
        v = Words { a: sum, b: v.a, c: (b << 30) | (b >> 2), d: c, e: d };
    }
    Words {
        a: add_words(s.a, v.a),
        b: add_words(s.b, v.b),
        c: add_words(s.c, v.c),
        d: add_words(s.d, v.d),
        e: add_words(s.e, v.e),
    }
}

/// The SHA-1 digest of `data`.
pub fn sha1(data: &[u8]) -> (digest: [u8; 20])
    ensures
        digest@ == sha1_digest(data@),
{
    let msg = pad(data);
    proof {
        lemma_padded_len(data@);
    }
    let mut s: Words = Words {
        a: 0x67452301,
        b: 0xEFCDAB89,
        c: 0x98BADCFE,
        d: 0x10325476,
        e: 0xC3D2E1F0,
    };
    let total: usize = msg.len();
    let blocks: usize = total / 64;
    for n in 0..blocks
        invariant
            msg@ == padded(data@),
            total == msg@.len(),
            blocks == total / 64,
            s == chain(msg@, n as nat),
    {
        let block = vstd::slice::slice_subrange(msg.as_slice(), n * 64, n * 64 + 64);
        s = digest_block(s, block);
        assert(block@ == msg@.subrange(64 * n as int, 64 * (n + 1)));
    }
    let digest: [u8; 20] = [
        (s.a >> 24) as u8,
        (s.a >> 16) as u8,
        (s.a >> 8) as u8,
        s.a as u8,
        (s.b >> 24) as u8,
        (s.b >> 16) as u8,
        (s.b >> 8) as u8,
        s.b as u8,
        (s.c >> 24) as u8,
        (s.c >> 16) as u8,
        (s.c >> 8) as u8,
        s.c as u8,
        (s.d >> 24) as u8,
        (s.d >> 16) as u8,
        (s.d >> 8) as u8,
        s.d as u8,
        (s.e >> 24) as u8,
        (s.e >> 16) as u8,
        (s.e >> 8) as u8,
        s.e as u8,
    ];
    assert(digest@ =~= words_bytes(s));
    proof {
        reveal(sha1_digest);
    }
    digest
}

/// A digest is twenty bytes long.
pub proof fn lemma_digest_len(data: Seq<u8>)
    ensures
        sha1_digest(data).len() == 20,
{
    reveal(sha1_digest);
}

/// An HMAC is twenty bytes long.
pub proof fn lemma_hmac_len(key: Seq<u8>, msg: Seq<u8>)
    ensures
        hmac_digest(key, msg).len() == 20,
{
    reveal(hmac_digest);
    let k = block_key(key);
    lemma_digest_len(xor_all(k, 0x5c) + sha1_digest(xor_all(k, 0x36) + msg));
}

/// The HMAC-SHA1 of `msg` under `key`.
pub fn hmac_sha1(key: &[u8], msg: &[u8]) -> (digest: [u8; 20])
    ensures
        digest@ == hmac_digest(key@, msg@),
{
    let hashed: [u8; 20] = sha1(key);
    let long: bool = key.len() > 64;
    let mut inner: Vec<u8> = Vec::new();
    let mut outer: Vec<u8> = Vec::new();
    let ghost k = block_key(key@);
    proof {
        lemma_digest_len(key@);
    }
    for i in 0usize..64
        invariant
            hashed@ == sha1_digest(key@),
            hashed@.len() == 20,
            long == (key@.len() > 64),
            k == block_key(key@),
            inner@ == xor_all(k, 0x36).take(i as int),
            outer@ == xor_all(k, 0x5c).take(i as int),
    {
        let b: u8 = if long {
            if i < 20 {
                hashed[i]
            } else {
                0
            }
        } else if i < key.len() {
            key[i]
        } else {
            0
        };
        assert(b == k[i as int]);
        inner.push(b ^ 0x36);
        outer.push(b ^ 0x5c);
        assert(inner@ =~= xor_all(k, 0x36).take(i + 1));
        assert(outer@ =~= xor_all(k, 0x5c).take(i + 1));
    }
    assert(inner@ =~= xor_all(k, 0x36));
    assert(outer@ =~= xor_all(k, 0x5c));
    let n: usize = msg.len();
    for i in 0..n
        invariant
            n == msg@.len(),
            inner@ == xor_all(k, 0x36) + msg@.take(i as int),
    {
        inner.push(msg[i]);
        assert(inner@ =~= xor_all(k, 0x36) + msg@.take(i + 1));
    }
    assert(msg@.take(n as int) =~= msg@);
    let ih: [u8; 20] = sha1(inner.as_slice());
    proof {
        lemma_digest_len(inner@);
    }
    for i in 0usize..20
        invariant
            ih@.len() == 20,
            outer@ == xor_all(k, 0x5c) + ih@.take(i as int),
    {
        outer.push(ih[i]);
        assert(outer@ =~= xor_all(k, 0x5c) + ih@.take(i + 1));
    }
    assert(ih@.take(20) =~= ih@);
    proof {
        reveal(hmac_digest);
    }
    sha1(outer.as_slice())
}

/// A message is padded with a one bit, zeros, and its length in bits, as eight
/// bytes with the most significant first, to whole blocks, and no more of them
/// than are needed.
pub proof fn law_padded(data: Seq<u8>)
    requires
        data.len() < 0x2000_0000_0000_0000,
    ensures
        ({
            let p = padded(data);
            let n = p.len();
            let bits = p.skip(n - 8);
            &&& n % 64 == 0
            &&& data.len() + 9 <= n < data.len() + 9 + 64
            &&& p.take(data.len() as int) == data
            &&& p[data.len() as int] == 0x80
            &&& forall|i: int| data.len() < i < n - 8 ==> #[trigger] p[i] == 0
            &&& bits[0] * 0x100_0000_0000_0000 + bits[1] * 0x1_0000_0000_0000 + bits[2]
                * 0x100_0000_0000 + bits[3] * 0x1_0000_0000 + bits[4] * 0x100_0000 + bits[5]
                * 0x1_0000 + bits[6] * 0x100 + bits[7] == 8 * data.len()
        }),
{
    let p = padded(data);
    let x = bit_length(data.len());
    assert(p.take(data.len() as int) =~= data);
    assert(p.skip(p.len() - 8) =~= length_bytes(x));
    assert(x == 8 * data.len());
    assert(((x >> 56u64) as u8) * 0x100_0000_0000_0000 + ((x >> 48u64) as u8) * 0x1_0000_0000_0000
        + ((x >> 40u64) as u8) * 0x100_0000_0000 + ((x >> 32u64) as u8) * 0x1_0000_0000 + ((x
        >> 24u64) as u8) * 0x100_0000 + ((x >> 16u64) as u8) * 0x1_0000 + ((x >> 8u64) as u8)
        * 0x100 + (x as u8) == x) by (bit_vector);
}

/// The keyed digest of a message is the digest of the key, filled up with zeros
/// to a block and combined with one constant, and of the digest of the key,
/// combined with another, and the message.
pub proof fn law_hmac(key: Seq<u8>, msg: Seq<u8>, outer: Seq<u8>, inner: Seq<u8>)
    requires
        key.len() <= 64,
        outer.len() == 64,
        inner.len() == 64,
        forall|i: int| 0 <= i < key.len() ==> #[trigger] outer[i] == key[i] ^ 0x5cu8,
        forall|i: int| 0 <= i < key.len() ==> #[trigger] inner[i] == key[i] ^ 0x36u8,
        forall|i: int| key.len() <= i < 64 ==> #[trigger] outer[i] == 0x5cu8,
        forall|i: int| key.len() <= i < 64 ==> #[trigger] inner[i] == 0x36u8,
    ensures
        hmac_digest(key, msg) == sha1_digest(outer + sha1_digest(inner + msg)),
{
    reveal(hmac_digest);
    let k = block_key(key);
    assert(0u8 ^ 0x5cu8 == 0x5cu8) by (bit_vector);
    assert(0u8 ^ 0x36u8 == 0x36u8) by (bit_vector);
    assert(xor_all(k, 0x5c) =~= outer);
    assert(xor_all(k, 0x36) =~= inner);
}

/// A key that is longer than a block stands for its digest.
pub proof fn law_hmac_long_key(key: Seq<u8>, msg: Seq<u8>)
    requires
        key.len() > 64,
    ensures
        hmac_digest(key, msg) == hmac_digest(sha1_digest(key), msg),
{
    reveal(hmac_digest);
    lemma_digest_len(key);
    assert(block_key(key) =~= block_key(sha1_digest(key)));
}

/// What is computed is the digest, and the keyed digest, of the bytes as they
/// are given.
pub proof fn law_digests(data: &[u8], key: &[u8], d: [u8; 20], m: [u8; 20])
    requires
        call_ensures(sha1, (data,), d),
        call_ensures(hmac_sha1, (key, data), m),
    ensures
        d@ == sha1_digest(data@),
        m@ == hmac_digest(key@, data@),
{
}

/// A digest is made block by block, from the same words on: each block changes
/// the words that those before it gave, and the words after the last are the
/// digest, the most significant byte of each first.
pub proof fn law_digest_chained(msg: Seq<u8>, n: nat, data: Seq<u8>)
    ensures
        chain(msg, 0) == (Words {
            a: 0x67452301,
            b: 0xEFCDAB89,
            c: 0x98BADCFE,
            d: 0x10325476,
            e: 0xC3D2E1F0,
        }),
        chain(msg, n + 1) == compress(
            chain(msg, n),
            msg.subrange(64 * n as int, 64 * n as int + 64),
        ),
        ({
            let w = chain(padded(data), padded(data).len() / 64);
            sha1_digest(data) == seq![
                (w.a >> 24u32) as u8,
                (w.a >> 16u32) as u8,
                (w.a >> 8u32) as u8,
                w.a as u8,
                (w.b >> 24u32) as u8,
                (w.b >> 16u32) as u8,
                (w.b >> 8u32) as u8,
                w.b as u8,
                (w.c >> 24u32) as u8,
                (w.c >> 16u32) as u8,
                (w.c >> 8u32) as u8,
                w.c as u8,
                (w.d >> 24u32) as u8,
                (w.d >> 16u32) as u8,
                (w.d >> 8u32) as u8,
                w.d as u8,
                (w.e >> 24u32) as u8,
                (w.e >> 16u32) as u8,
                (w.e >> 8u32) as u8,
                w.e as u8,
            ]
        }),
{
    reveal(sha1_digest);
    assert(64 * ((n + 1) - 1) == 64 * n && 64 * (n + 1) == 64 * n + 64);
}

} // verus!
