//! Access tokens: a scope and a deadline, signed with the secret key.

use vstd::prelude::*;
use vstd::string::*;
use vstd::utf8::*;
use crate::base64;
use crate::base64::b64url;
use crate::clock;
use crate::clock::now_secs;
use crate::sha1;
use crate::sha1::hmac_sha1;
use crate::text;
use crate::text::numeral;

verus! {

/// The statement that a token signs.
pub open spec fn scope_json(bucket: Seq<char>, key: Seq<char>, deadline: nat) -> Seq<char> {
    "{\"scope\":\""@ + bucket + ":"@ + key + "\",\"deadline\":"@ + text::decimal(deadline) + "}"@
}

/// The message of a token: the base64 text of the statement.
pub open spec fn token_message(bucket: Seq<char>, key: Seq<char>, deadline: nat) -> Seq<char> {
    base64::encode(encode_utf8(scope_json(bucket, key, deadline)))
}

/// The signature of a message under the digest of the secret key.
pub open spec fn signature(key_hash: Seq<u8>, message: Seq<char>) -> Seq<char> {
    base64::encode(sha1::hmac_digest(key_hash, encode_utf8(message)))
}

/// The token for `key` in `bucket` until `deadline`.
pub open spec fn token_text(
    ak: Seq<char>,
    key_hash: Seq<u8>,
    bucket: Seq<char>,
    key: Seq<char>,
    deadline: nat,
) -> Seq<char> {
    let message = token_message(bucket, key, deadline);
    ak + ":"@ + signature(key_hash, message) + ":"@ + message
}

/// The deadline that lies `ttl` seconds after `now`, modulo 2^64.
pub open spec fn deadline_after(now: u64, ttl: u64) -> u64 {
    if now + ttl <= u64::MAX {
        (now + ttl) as u64
    } else {
        (now + ttl - 0x1_0000_0000_0000_0000) as u64
    }
}

/// Signs tokens with one pair of keys.
pub struct Signer {
    ak: String,
    sk_hash: [u8; 20],
}

impl Signer {
    /// The access key.
    pub closed spec fn access_key(&self) -> Seq<char> {
        self.ak@
    }

    /// The digest of the secret key.
    pub closed spec fn key_hash(&self) -> Seq<u8> {
        self.sk_hash@
    }

    /// The token that this signer makes for `key` in `bucket`.
    pub open spec fn spec_token(
        &self,
        bucket: Seq<char>,
        key: Seq<char>,
        deadline: nat,
    ) -> Seq<char> {
        token_text(self.access_key(), self.key_hash(), bucket, key, deadline)
    }

    pub fn new(ak: &str, secret_key: &str) -> (s: Signer)
        ensures
            s.access_key() == ak@,
            s.key_hash() == sha1::sha1_digest(encode_utf8(secret_key@)),
    {
        Signer { ak: ak.to_string(), sk_hash: sha1::sha1(secret_key.as_bytes()) }
    }

    /// The token that is valid until `deadline`, in seconds since the epoch.
    pub fn token_at(&self, bucket: &str, key: &str, deadline: u64) -> (t: String)
        ensures
            t@ == self.spec_token(bucket@, key@, deadline as nat),
    {
        let mut json = String::new();
        json.append("{\"scope\":\"");
        json.append(bucket);
        json.append(":");
        json.append(key);
        json.append("\",\"deadline\":");
        json.append(numeral(deadline as u128).as_str());
        json.append("}");
        assert(json@ =~= scope_json(bucket@, key@, deadline as nat));
        let message = b64url(json.as_str().as_bytes());
        let sign = b64url(&hmac_sha1(&self.sk_hash, message.as_str().as_bytes()));
        let mut t = self.ak.clone();
        t.append(":");
        t.append(sign.as_str());
        t.append(":");
        t.append(message.as_str());
        t
    }

    /// The token that is valid for `ttl` seconds from `now` on.
    pub fn token_from(&self, bucket: &str, key: &str, ttl: u64, now: u64) -> (t: String)
        ensures
            t@ == self.spec_token(bucket@, key@, deadline_after(now, ttl) as nat),
    {
        let deadline: u64 = now.wrapping_add(ttl);
        assert(deadline == deadline_after(now, ttl));
        self.token_at(bucket, key, deadline)
    }

    /// The token that is valid for `ttl` seconds from what the clock reads on.
    pub fn token(&self, bucket: &str, key: &str, ttl: u64) -> (t: String)
        ensures
            exists|r: Result<std::time::Duration, std::time::SystemTimeError>, now: u64|
                #[trigger] clock::secs_read(r, now) && t@ == self.spec_token(
                    bucket@,
                    key@,
                    deadline_after(now, ttl) as nat,
                ),
    {
        let now: u64 = now_secs();
        self.token_from(bucket, key, ttl, now)
    }
}

/// A token is the access key, the signature and the message, separated by
/// colons. Signature and message hold no colon, and the message decodes to the
/// statement that was signed.
pub proof fn law_token_parts(
    ak: Seq<char>,
    key_hash: Seq<u8>,
    bucket: Seq<char>,
    key: Seq<char>,
    deadline: nat,
)
    ensures
        ({
            let message = token_message(bucket, key, deadline);
            let sign = signature(key_hash, message);
            &&& token_text(ak, key_hash, bucket, key, deadline) == ak + ":"@ + sign + ":"@
                + message
            &&& !sign.contains(':')
            &&& !message.contains(':')
            &&& sign.len() == 28
            &&& decode_utf8(base64::decode(message)) == scope_json(bucket, key, deadline)
        }),
{
    let message = token_message(bucket, key, deadline);
    let json = scope_json(bucket, key, deadline);
    let mac = sha1::hmac_digest(key_hash, encode_utf8(message));
    sha1::lemma_hmac_len(key_hash, encode_utf8(message));
    base64::law_base64_shape(encode_utf8(json));
    base64::law_base64_shape(mac);
    base64::law_base64_round_trip(encode_utf8(json));
    encode_utf8_decode_utf8(json);
}

/// The statement of a token: the bucket and the key as they were given, character
/// by character, and the deadline in decimal. The message decodes to it.
pub proof fn law_message_says(bucket: Seq<char>, key: Seq<char>, deadline: nat)
    ensures
        decode_utf8(base64::decode(token_message(bucket, key, deadline))) == "{\"scope\":\""@
            + bucket + ":"@ + key + "\",\"deadline\":"@ + text::decimal(deadline) + "}"@,
{
    law_token_parts(Seq::empty(), Seq::empty(), bucket, key, deadline);
}

/// A token is the access key, the signature and the message, with colons
/// between them. The message decodes to the statement, with bucket and key as
/// they were given, and the signature to the keyed digest of the message.
pub proof fn law_token_at(
    s: &Signer,
    bucket: &str,
    key: &str,
    deadline: u64,
    t: String,
) -> (parts: (Seq<char>, Seq<char>))
    requires
        call_ensures(Signer::token_at, (s, bucket, key, deadline), t),
    ensures
        t@ == s.access_key() + ":"@ + parts.0 + ":"@ + parts.1,
        !parts.0.contains(':'),
        !parts.1.contains(':'),
        decode_utf8(base64::decode(parts.1)) == "{\"scope\":\""@ + bucket@ + ":"@ + key@
            + "\",\"deadline\":"@ + text::decimal(deadline as nat) + "}"@,
        base64::decode(parts.0) == sha1::hmac_digest(s.key_hash(), encode_utf8(parts.1)),
{
    let message = token_message(bucket@, key@, deadline as nat);
    let sign = signature(s.key_hash(), message);
    law_token_parts(s.access_key(), s.key_hash(), bucket@, key@, deadline as nat);
    base64::law_base64_round_trip(sha1::hmac_digest(s.key_hash(), encode_utf8(message)));
    (sign, message)
}

/// A signer keeps the access key, and of the secret key only its digest.
pub proof fn law_signer(ak: &str, secret_key: &str, s: Signer)
    requires
        call_ensures(Signer::new, (ak, secret_key), s),
    ensures
        s.access_key() == ak@,
        s.key_hash() == sha1::sha1_digest(encode_utf8(secret_key@)),
{
}

/// A token that is made at `now` is the one whose deadline lies `ttl` seconds
/// later.
pub proof fn law_token_deadline(
    s: &Signer,
    bucket: &str,
    key: &str,
    ttl: u64,
    now: u64,
    t: String,
    at: String,
)
    requires
        now + ttl <= u64::MAX,
        call_ensures(Signer::token_from, (s, bucket, key, ttl, now), t),
        call_ensures(Signer::token_at, (s, bucket, key, (now + ttl) as u64), at),
    ensures
        t@ == at@,
{
}

/// Two tokens of the same signer are the same only where bucket and key, with
/// the colon between them, and the deadline are.
pub proof fn law_tokens_distinct(
    ak: Seq<char>,
    key_hash: Seq<u8>,
    bucket: Seq<char>,
    key: Seq<char>,
    deadline: nat,
    other: Seq<char>,
)
    requires
        token_text(ak, key_hash, bucket, key, deadline) == token_text(
            ak,
            key_hash,
            bucket,
            other,
            deadline,
        ),
    ensures
        key == other,
{
    let m = token_message(bucket, key, deadline);
    let n = token_message(bucket, other, deadline);
    let a = signature(key_hash, m);
    let b = signature(key_hash, n);
    law_token_parts(ak, key_hash, bucket, key, deadline);
    law_token_parts(ak, key_hash, bucket, other, deadline);
    reveal_strlit(":");
    let k = (ak.len() + 30) as int;
    assert((ak + ":"@ + a + ":"@ + m).skip(k) =~= m);
    assert((ak + ":"@ + b + ":"@ + n).skip(k) =~= n);
    let p = scope_json(bucket, key, deadline);
    let q = scope_json(bucket, other, deadline);
    assert(p == q);
    reveal_strlit("{\"scope\":\"");
    let h = ("{\"scope\":\""@.len() + bucket.len() + 1) as int;
    assert(p.len() == q.len());
    assert(p.subrange(h, h + key.len()) =~= key);
    assert(q.subrange(h, h + other.len()) =~= other);
}

} // verus!
