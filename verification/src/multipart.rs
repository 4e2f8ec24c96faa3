//! Uploading a file in parts: start, one request for each part, and the
//! request that joins them.

use vstd::prelude::*;
use vstd::string::*;
use vstd::utf8::*;
use crate::config;
use crate::error;
use crate::error::{AppError, Res};
use crate::iobs;
use crate::iobs::{Iobs, Request, MIN_CHUNK};
use crate::json;
use crate::json::json_get;
use crate::percent;
use crate::percent::percent_encode;
use crate::size;
use crate::size::human_bytes;
use crate::text;
use crate::text::{numeral, starts_with_char, trimmed, trimmed_start};
use crate::token;

verus! {

// ---------------------------------------------------------------------------
// How a file is cut.
// ---------------------------------------------------------------------------

/// The size of the parts, where `chunk` is configured: no less than the server
/// takes.
pub open spec fn part_size(chunk: nat) -> nat {
    if chunk < MIN_CHUNK {
        MIN_CHUNK as nat
    } else {
        chunk
    }
}

/// The number of parts of a file. An empty file has one, which is empty.
pub open spec fn part_count(size: nat, chunk: nat) -> nat {
    if size == 0 {
        1
    } else {
        (size + chunk - 1) as nat / chunk
    }
}

/// Where the part `i`, counted from zero, starts.
pub open spec fn part_start(chunk: nat, i: nat) -> nat {
    i * chunk
}

/// The length of the part of a file of which `sent` bytes are sent.
pub open spec fn part_length(size: nat, chunk: nat, sent: nat) -> nat {
    if size - sent < chunk {
        (size - sent) as nat
    } else {
        chunk
    }
}

/// The parts of a file cover it: they start one behind the other, the first at
/// the start, the last ends at the end, every other one has the full size, and
/// none but that of an empty file is empty.
pub proof fn law_parts_cover(size: nat, chunk: nat, i: nat)
    requires
        chunk > 0,
        i < part_count(size, chunk),
    ensures
        part_start(chunk, 0) == 0,
        part_start(chunk, i) <= size,
        part_start(chunk, i) + part_length(size, chunk, part_start(chunk, i)) == (if i + 1
            < part_count(size, chunk) {
            part_start(chunk, i + 1)
        } else {
            size
        }),
        i + 1 < part_count(size, chunk) ==> part_length(size, chunk, part_start(chunk, i))
            == chunk,
        size > 0 ==> part_length(size, chunk, part_start(chunk, i)) > 0,
        part_length(size, chunk, part_start(chunk, i)) <= chunk,
{
    let n = part_count(size, chunk);
    assert(0 * chunk == 0) by (nonlinear_arith);
    assert((i + 1) * chunk == i * chunk + chunk) by (nonlinear_arith);
    if size > 0 {
        let s = size + chunk - 1;
        vstd::arithmetic::div_mod::lemma_fundamental_div_mod(s as int, chunk as int);
        let r = s as int % chunk as int;
        assert(n * chunk == chunk * n) by (nonlinear_arith);
        assert(n * chunk + r == s && 0 <= r < chunk);
        assert(i * chunk + chunk <= n * chunk) by (nonlinear_arith)
            requires
                i + 1 <= n,
                chunk > 0,
        ;
        if i + 1 < n {
            assert((i + 1) * chunk + chunk <= n * chunk) by (nonlinear_arith)
                requires
                    i + 2 <= n,
                    chunk > 0,
            ;
        } else {
            assert(i + 1 == n);
        }
    }
}

// ---------------------------------------------------------------------------
// Requests and replies.
// ---------------------------------------------------------------------------

/// The URL of the request that starts an upload.
pub open spec fn start_url(
    c: config::Settings,
    key: Seq<char>,
    name: Seq<char>,
    size: nat,
    token: Seq<char>,
) -> Seq<char> {
    iobs::resource(c, "/initUploadPart/"@, key) + "?token="@ + token + "&fileSize="@
        + text::decimal(size) + "&fileName="@ + percent::percent_encoded(name)
}

/// The URL of the request for the part with this number, counted from one.
pub open spec fn part_url(
    c: config::Settings,
    key: Seq<char>,
    token: Seq<char>,
    upload_id: Seq<char>,
    number: nat,
) -> Seq<char> {
    iobs::resource(c, "/uploadPart/"@, key) + "?token="@ + token + "&uploadId="@
        + percent::percent_encoded(upload_id) + "&partNumber="@ + text::decimal(number)
}

/// The URL of the request that joins the parts.
pub open spec fn join_url(
    c: config::Settings,
    key: Seq<char>,
    token: Seq<char>,
    upload_id: Seq<char>,
) -> Seq<char> {
    iobs::resource(c, "/completeUpload/"@, key) + "?token="@ + token + "&uploadId="@
        + percent::percent_encoded(upload_id)
}

/// The member of the part map for the part with this number.
pub open spec fn part_member(number: nat, hash: Seq<char>) -> Seq<char> {
    "\""@ + text::decimal(number) + "\":\""@ + hash + "\""@
}

/// The members of the part map, separated by commas.
pub open spec fn part_members(hashes: Seq<Seq<char>>) -> Seq<char>
    decreases hashes.len(),
{
    if hashes.len() == 0 {
        Seq::empty()
    } else {
        let last = part_member(hashes.len(), hashes.last());
        if hashes.len() == 1 {
            last
        } else {
            part_members(hashes.drop_last()) + ","@ + last
        }
    }
}

/// The part map: the number of each part with its hash.
pub open spec fn part_map(hashes: Seq<Seq<char>>) -> Seq<char> {
    "{"@ + part_members(hashes) + "}"@
}

/// The body of the request that joins the parts.
pub open spec fn join_body(hashes: Seq<Seq<char>>) -> Seq<char> {
    "partMap="@ + percent::percent_encoded(part_map(hashes))
}

/// The upload id in the reply to the request that starts an upload: the whole
/// reply, or the member `uploadId` or `data` of a JSON object.
pub open spec fn reply_id(raw: Seq<char>) -> Seq<char> {
    let t = text::trim_start(raw);
    if t.len() > 0 && t[0] == '{' {
        config::or_else(
            config::first_of(
                json::json_text(raw, "uploadId"@),
                json::json_text(raw, "data"@),
            ),
            text::trim(raw),
        )
    } else {
        text::trim(raw)
    }
}

/// The hash in the reply to the request for a part: the member `hash` of a JSON
/// object, or the whole reply.
pub open spec fn reply_hash(raw: Seq<char>) -> Seq<char> {
    config::or_else(json::json_text(raw, "hash"@), text::trim(raw))
}

/// Whether a token that was made `elapsed` seconds ago needs to be renewed: a
/// minute before it ends.
pub open spec fn needs_renewal(elapsed: nat, ttl: nat) -> bool {
    elapsed + 60 >= ttl
}

fn id_of(raw: &str) -> (r: String)
    ensures
        r@ == reply_id(raw@),
{
    let t = trimmed_start(raw);
    if starts_with_char(t.as_str(), '{') {
        match json_get(raw, "uploadId") {
            Some(v) => v,
            None => match json_get(raw, "data") {
                Some(v) => v,
                None => trimmed(raw),
            },
        }
    } else {
        trimmed(raw)
    }
}

fn hash_of(raw: &str) -> (r: String)
    ensures
        r@ == reply_hash(raw@),
{
    match json_get(raw, "hash") {
        Some(v) => v,
        None => trimmed(raw),
    }
}

fn map_of_parts(hashes: &Vec<String>) -> (s: String)
    ensures
        s@ == part_map(text::texts(hashes@)),
{
    let ghost all = text::texts(hashes@);
    let mut s = "{".to_string();
    let n: usize = hashes.len();
    let mut i: usize = 0;
    assert(s@ =~= "{"@ + part_members(all.take(0)));
    while i < n
        invariant
            i <= n,
            n == hashes@.len(),
            all == text::texts(hashes@),
            s@ == "{"@ + part_members(all.take(i as int)),
        decreases n - i,
    {
        let ghost before = s@;
        let ghost next = all.take(i + 1);
        assert(next.drop_last() =~= all.take(i as int));
        assert(next.last() == hashes@[i as int]@);
        if i > 0 {
            s.append(",");
        }
        s.append("\"");
        s.append(numeral(i as u128 + 1).as_str());
        s.append("\":\"");
        s.append(hashes[i].as_str());
        s.append("\"");
        i = i + 1;
        assert(s@ =~= "{"@ + part_members(next));
    }
    assert(all.take(n as int) =~= all);
    s.append("}");
    s
}

// ---------------------------------------------------------------------------
// An upload under way.
// ---------------------------------------------------------------------------

/// How far an upload has come.
#[derive(Debug, Clone, Copy, PartialEq, Eq, Structural)]
pub enum Stage {
    /// The request that starts it waits for its reply.
    Starting,
    /// The next part has to be read.
    Reading,
    /// The request for a part waits for its reply.
    Sending,
    /// The request that joins the parts waits for its reply.
    Joining,
    /// All is done.
    Finished,
}

/// What is known of an upload.
#[verifier::ext_equal]
pub ghost struct UploadState {
    pub key: Seq<char>,
    pub size: nat,
    /// The size of the parts.
    pub chunk: nat,
    pub token: Seq<char>,
    pub upload_id: Seq<char>,
    /// The hashes of the parts that are sent.
    pub hashes: Seq<Seq<char>>,
    pub stage: Stage,
}

impl UploadState {
    /// The number of parts.
    pub open spec fn parts(self) -> nat {
        part_count(self.size, self.chunk)
    }

    /// The bytes that are sent.
    pub open spec fn sent(self) -> nat {
        if self.hashes.len() == self.parts() {
            self.size
        } else {
            part_start(self.chunk, self.hashes.len())
        }
    }

    /// The length of the next part.
    pub open spec fn next_length(self) -> nat {
        part_length(self.size, self.chunk, self.sent())
    }
}

/// An upload in parts.
pub struct Upload {
    key: String,
    size: u64,
    chunk: u64,
    parts: u64,
    sent: u64,
    token: String,
    upload_id: String,
    hashes: Vec<String>,
    stage: Stage,
}

/// What is to be done next.
pub enum Next {
    /// Read as many bytes of the file.
    Read(u64),
    /// Make the request that joins the parts.
    Join(Request),
    /// Nothing: the file can be fetched from this URL.
    Done(String),
}

/// The request for a part. Its body is what was read.
pub struct PartRequest {
    pub url: String,
    /// Whether the token was renewed.
    pub renewed: bool,
}

impl View for Upload {
    type V = UploadState;

    closed spec fn view(&self) -> UploadState {
        UploadState {
            key: self.key@,
            size: self.size as nat,
            chunk: self.chunk as nat,
            token: self.token@,
            upload_id: self.upload_id@,
            hashes: text::texts(self.hashes@),
            stage: self.stage,
        }
    }
}

/// The number of parts of a file.
pub fn count_parts(size: u64, chunk: u64) -> (n: u64)
    requires
        chunk > 0,
    ensures
        n == part_count(size as nat, chunk as nat),
        n > 0,
{
    if size == 0 {
        return 1;
    }
    let q: u64 = size / chunk;
    let r: u64 = size % chunk;
    proof {
        let c = chunk as int;
        let s = size as int;
        vstd::arithmetic::div_mod::lemma_fundamental_div_mod(s, c);
        if r == 0 {
            assert(s + c - 1 == q * c + (c - 1)) by (nonlinear_arith)
                requires
                    s == c * q,
            ;
            vstd::arithmetic::div_mod::lemma_fundamental_div_mod_converse(
                s + c - 1,
                c,
                q as int,
                c - 1,
            );
            assert(q > 0) by (nonlinear_arith)
                requires
                    s == c * q,
                    s > 0,
                    q >= 0,
            ;
        } else {
            assert(s + c - 1 == (q + 1) * c + (r - 1)) by (nonlinear_arith)
                requires
                    s == c * q + r,
            ;
            vstd::arithmetic::div_mod::lemma_fundamental_div_mod_converse(
                s + c - 1,
                c,
                q as int + 1,
                r - 1,
            );
            assert(q < s) by (nonlinear_arith)
                requires
                    s == c * q + r,
                    c >= 1,
                    r > 0,
                    q >= 0,
            ;
        }
    }
    if r == 0 {
        q
    } else {
        q + 1
    }
}

/// The size of the parts, where `chunk` is configured.
pub fn size_of_parts(chunk: u64) -> (n: u64)
    ensures
        n == part_size(chunk as nat),
{
    if chunk < MIN_CHUNK {
        MIN_CHUNK
    } else {
        chunk
    }
}

/// What is logged where the configured size of parts is less than the server
/// takes.
pub fn chunk_warning(chunk: u64) -> (r: Option<String>)
    ensures
        text::text_of(r) == (if chunk < MIN_CHUNK {
            Some(
                "警告：分片大小 "@ + size::size_text(
                    if chunk < 1 {
                        1
                    } else {
                        chunk as nat
                    },
                ) + " 小于服务端下限，已自动调整为 "@ + size::size_text(MIN_CHUNK as nat),
            )
        } else {
            None
        }),
{
    if chunk < MIN_CHUNK {
        let mut s = "警告：分片大小 ".to_string();
        let shown: u64 = if chunk < 1 {
            1
        } else {
            chunk
        };
        s.append(human_bytes(shown).as_str());
        s.append(" 小于服务端下限，已自动调整为 ");
        s.append(human_bytes(MIN_CHUNK).as_str());
        Some(s)
    } else {
        None
    }
}

/// What is logged before a file is uploaded in parts.
pub fn upload_note(key: &str, name: &str, size: u64, chunk: u64) -> (s: String)
    ensures
        s@ == "分片上传：key="@ + key@ + " 文件名="@ + name@ + " 大小="@ + size::size_text(
            size as nat,
        ) + " 分片="@ + text::decimal(part_count(size as nat, part_size(chunk as nat))) + " x "@
            + size::size_text(part_size(chunk as nat)),
{
    let part: u64 = size_of_parts(chunk);
    let mut s = "分片上传：key=".to_string();
    s.append(key);
    s.append(" 文件名=");
    s.append(name);
    s.append(" 大小=");
    s.append(human_bytes(size).as_str());
    s.append(" 分片=");
    s.append(numeral(count_parts(size, part) as u128).as_str());
    s.append(" x ");
    s.append(human_bytes(part).as_str());
    s
}

/// What is logged after a file was uploaded in parts.
pub fn joined_note(key: &str) -> (s: String)
    ensures
        s@ == "上传成功（分片合并）："@ + key@,
{
    "上传成功（分片合并）：".to_string().concat(key)
}

/// The state after the reply to the request that starts an upload.
pub open spec fn after_start(s: UploadState, reply: Seq<char>) -> UploadState {
    UploadState { upload_id: reply_id(reply), stage: Stage::Reading, ..s }
}

/// The state after the reply to the request for a part.
pub open spec fn after_part(s: UploadState, reply: Seq<char>) -> UploadState {
    let hashes = s.hashes.push(reply_hash(reply));
    UploadState {
        hashes,
        stage: if hashes.len() < s.parts() {
            Stage::Reading
        } else {
            Stage::Joining
        },
        ..s
    }
}

/// Whether `r` is the request that joins the parts, made at `now`.
pub open spec fn is_join(r: Request, c: config::Settings, s: UploadState, now: u64) -> bool {
    &&& r.url@ == join_url(c, s.key, iobs::access_token(c, s.key, now), s.upload_id)
    &&& r.content_type@ == "application/x-www-form-urlencoded; charset=utf-8"@
    &&& r.body@ == encode_utf8(join_body(s.hashes))
}

/// Whether a reply to an upload in the state `s` leads to `r` and the state
/// `after`.
pub open spec fn is_reply_step(
    c: config::Settings,
    s: UploadState,
    reply: Seq<char>,
    now: u64,
    r: Res<Next>,
    after: UploadState,
) -> bool {
    match s.stage {
        Stage::Starting => if reply_id(reply).len() == 0 {
            &&& error::failed(r, 4, "初始化分片上传失败，响应："@ + reply)
            &&& after == s
        } else {
            &&& r matches Ok(Next::Read(n)) && n == after.next_length()
            &&& after == after_start(s, reply)
        },
        Stage::Sending => if reply_hash(reply).len() == 0 {
            &&& error::failed(
                r,
                4,
                "第 "@ + text::decimal(s.hashes.len() + 1) + " 片上传未返回 hash，响应："@ + reply,
            )
            &&& after == s
        } else {
            &&& after == after_part(s, reply)
            &&& if after.stage == Stage::Reading {
                r matches Ok(Next::Read(n)) && n == after.next_length()
            } else {
                r matches Ok(Next::Join(q)) && is_join(q, c, after, now)
            }
        },
        Stage::Joining => {
            &&& after == (UploadState { stage: Stage::Finished, ..s })
            &&& r matches Ok(Next::Done(url)) && url@ == iobs::download_text(
                c,
                s.key,
                iobs::access_token(c, s.key, now),
            )
        },
        _ => false,
    }
}

impl Upload {
    #[verifier::type_invariant]
    spec fn consistent(&self) -> bool {
        &&& self.chunk > 0
        &&& self.parts == self@.parts()
        &&& self.sent == self@.sent()
        &&& self.hashes@.len() <= self.parts
        &&& (self.stage == Stage::Starting || self.stage == Stage::Reading || self.stage
            == Stage::Sending) ==> self.hashes@.len() < self.parts
    }

    /// Starts to upload a file as `key`, under `name`. The token is made at
    /// `now`.
    pub fn start(io: &Iobs, key: &str, name: &str, size: u64, now: u64) -> (r: (Upload, Request))
        ensures
            ({
                let c = io.settings();
                let token = iobs::access_token(c, key@, now);
                &&& r.0@ == (UploadState {
                    key: key@,
                    size: size as nat,
                    chunk: part_size(c.chunk_size),
                    token,
                    upload_id: Seq::empty(),
                    hashes: Seq::empty(),
                    stage: Stage::Starting,
                })
                &&& r.1.url@ == start_url(c, key@, name@, size as nat, token)
                &&& r.1.content_type@ == "application/x-www-form-urlencoded"@
                &&& r.1.body@.len() == 0
            }),
    {
        let token = io.token_from(key, now);
        let mut url = io.resource_url("/initUploadPart/", key);
        url.append("?token=");
        url.append(token.as_str());
        url.append("&fileSize=");
        url.append(numeral(size as u128).as_str());
        url.append("&fileName=");
        url.append(percent_encode(name).as_str());
        let chunk: u64 = size_of_parts(io.config().chunk_size);
        let parts: u64 = count_parts(size, chunk);
        let hashes: Vec<String> = Vec::new();
        assert(text::texts(hashes@) =~= Seq::<Seq<char>>::empty());
        assert(part_start(chunk as nat, 0) == 0) by (nonlinear_arith);
        let upload = Upload {
            key: key.to_string(),
            size,
            chunk,
            parts,
            sent: 0,
            token,
            upload_id: String::new(),
            hashes,
            stage: Stage::Starting,
        };
        assert(upload@.upload_id =~= Seq::<char>::empty());
        let request = Request {
            url,
            content_type: "application/x-www-form-urlencoded".to_string(),
            body: Vec::new(),
        };
        (upload, request)
    }

    /// The number of parts.
    pub fn parts(&self) -> (n: u64)
        ensures
            n == self@.parts(),
    {
        proof {
            use_type_invariant(self);
        }
        self.parts
    }

    /// The bytes that are sent.
    pub fn sent(&self) -> (n: u64)
        ensures
            n == self@.sent(),
    {
        proof {
            use_type_invariant(self);
        }
        self.sent
    }

    /// The number of parts that are sent.
    pub fn parts_sent(&self) -> (n: usize)
        ensures
            n == self@.hashes.len(),
    {
        self.hashes.len()
    }

    /// The id that the server gave the upload.
    pub fn upload_id(&self) -> (s: &str)
        ensures
            s@ == self@.upload_id,
    {
        self.upload_id.as_str()
    }

    /// The request for the part that was read. The token was made `elapsed`
    /// seconds ago; where it has to be renewed, this is done at `now`.
    pub fn part(self, io: &Iobs, elapsed: u64, now: u64) -> (r: (Upload, PartRequest))
        requires
            self@.stage == Stage::Reading,
        ensures
            ({
                let c = io.settings();
                let renewed = needs_renewal(elapsed as nat, c.token_ttl);
                let s = UploadState {
                    token: if renewed {
                        iobs::access_token(c, self@.key, now)
                    } else {
                        self@.token
                    },
                    stage: Stage::Sending,
                    ..self@
                };
                &&& r.0@ == s
                &&& r.1.renewed == renewed
                &&& r.1.url@ == part_url(c, s.key, s.token, s.upload_id, s.hashes.len() + 1)
            }),
    {
        proof {
            use_type_invariant(&self);
        }
        let renewed: bool = elapsed as u128 + 60 >= io.config().token_ttl as u128;
        let token: String = if renewed {
            io.token_from(self.key.as_str(), now)
        } else {
            self.token
        };
        let mut url = io.resource_url("/uploadPart/", self.key.as_str());
        url.append("?token=");
        url.append(token.as_str());
        url.append("&uploadId=");
        url.append(percent_encode(self.upload_id.as_str()).as_str());
        url.append("&partNumber=");
        url.append(numeral(self.hashes.len() as u128 + 1).as_str());
        let upload = Upload {
            key: self.key,
            size: self.size,
            chunk: self.chunk,
            parts: self.parts,
            sent: self.sent,
            token,
            upload_id: self.upload_id,
            hashes: self.hashes,
            stage: Stage::Sending,
        };
        (upload, PartRequest { url, renewed })
    }

    /// Takes the reply to the request that was made last. A token that is
    /// needed next is made at `now`.
    pub fn replied(self, io: &Iobs, reply: &str, now: u64) -> (r: (Upload, Res<Next>))
        requires
            self@.stage == Stage::Starting || self@.stage == Stage::Sending || self@.stage
                == Stage::Joining,
        ensures
            is_reply_step(io.settings(), self@, reply@, now, r.1, r.0@),
    {
        match self.stage {
            Stage::Starting => self.started(io, reply, now),
            Stage::Sending => self.part_sent(io, reply, now),
            _ => {
                proof {
                    use_type_invariant(&self);
                }
                let url = io.download_url_from(self.key.as_str(), now);
                (self.at(Stage::Finished), Ok(Next::Done(url)))
            },
        }
    }

    /// The same upload, at another stage.
    fn at(self, stage: Stage) -> (r: Upload)
        requires
            stage == Stage::Starting || stage == Stage::Reading || stage == Stage::Sending
                ==> self@.hashes.len() < self@.parts(),
        ensures
            r@ == (UploadState { stage, ..self@ }),
    {
        proof {
            use_type_invariant(&self);
        }
        Upload {
            key: self.key,
            size: self.size,
            chunk: self.chunk,
            parts: self.parts,
            sent: self.sent,
            token: self.token,
            upload_id: self.upload_id,
            hashes: self.hashes,
            stage,
        }
    }

    fn next_len(&self) -> (n: u64)
        requires
            self@.hashes.len() < self@.parts(),
        ensures
            n == self@.next_length(),
    {
        proof {
            use_type_invariant(self);
            law_parts_cover(self.size as nat, self.chunk as nat, self@.hashes.len());
        }
        let left: u64 = self.size - self.sent;
        if left < self.chunk {
            left
        } else {
            self.chunk
        }
    }

    fn started(self, io: &Iobs, reply: &str, now: u64) -> (r: (Upload, Res<Next>))
        requires
            self@.stage == Stage::Starting,
        ensures
            is_reply_step(io.settings(), self@, reply@, now, r.1, r.0@),
    {
        proof {
            use_type_invariant(&self);
        }
        let id = id_of(reply);
        if id.as_str().is_empty() {
            let msg = "初始化分片上传失败，响应：".to_string().concat(reply);
            return (self, Err(AppError::new(4, msg)));
        }
        let upload = Upload {
            key: self.key,
            size: self.size,
            chunk: self.chunk,
            parts: self.parts,
            sent: self.sent,
            token: self.token,
            upload_id: id,
            hashes: self.hashes,
            stage: Stage::Reading,
        };
        let n: u64 = upload.next_len();
        (upload, Ok(Next::Read(n)))
    }

    fn part_sent(self, io: &Iobs, reply: &str, now: u64) -> (r: (Upload, Res<Next>))
        requires
            self@.stage == Stage::Sending,
        ensures
            is_reply_step(io.settings(), self@, reply@, now, r.1, r.0@),
    {
        proof {
            use_type_invariant(&self);
            law_parts_cover(self.size as nat, self.chunk as nat, self@.hashes.len());
        }
        let hash = hash_of(reply);
        if hash.as_str().is_empty() {
            let mut msg = "第 ".to_string();
            msg.append(numeral(self.hashes.len() as u128 + 1).as_str());
            msg.append(" 片上传未返回 hash，响应：");
            msg.append(reply);
            return (self, Err(AppError::new(4, msg)));
        }
        let ghost before = self@;
        let sent: u64 = self.sent + self.next_len();
        let mut hashes = self.hashes;
        hashes.push(hash);
        assert(text::texts(hashes@) =~= before.hashes.push(hash@));
        let more: bool = (hashes.len() as u64) < self.parts;
        let upload = Upload {
            key: self.key,
            size: self.size,
            chunk: self.chunk,
            parts: self.parts,
            sent,
            token: self.token,
            upload_id: self.upload_id,
            hashes,
            stage: if more {
                Stage::Reading
            } else {
                Stage::Joining
            },
        };
        if more {
            let n: u64 = upload.next_len();
            (upload, Ok(Next::Read(n)))
        } else {
            let request = upload.join(io, now);
            (upload, Ok(Next::Join(request)))
        }
    }

    fn join(&self, io: &Iobs, now: u64) -> (r: Request)
        ensures
            is_join(r, io.settings(), self@, now),
    {
        let mut url = io.resource_url("/completeUpload/", self.key.as_str());
        url.append("?token=");
        url.append(io.token_from(self.key.as_str(), now).as_str());
        url.append("&uploadId=");
        url.append(percent_encode(self.upload_id.as_str()).as_str());
        let map = map_of_parts(&self.hashes);
        let mut form = "partMap=".to_string();
        form.append(percent_encode(map.as_str()).as_str());
        let mut body: Vec<u8> = Vec::new();
        iobs::push_bytes(&mut body, form.as_str().as_bytes());
        assert(body@ =~= encode_utf8(join_body(self@.hashes)));
        Request {
            url,
            content_type: "application/x-www-form-urlencoded; charset=utf-8".to_string(),
            body,
        }
    }
}

/// The state after these replies to requests for parts.
pub open spec fn after_parts(s: UploadState, replies: Seq<Seq<char>>) -> UploadState
    decreases replies.len(),
{
    if replies.len() == 0 {
        s
    } else {
        after_part(after_parts(s, replies.drop_last()), replies.last())
    }
}

/// An upload sends each part once, and in order; after `n` parts the next one
/// starts behind them. When all are sent, the whole file is, and the request
/// that joins the parts lists the hash of every one of them, in order.
pub proof fn law_all_parts_joined(s: UploadState, replies: Seq<Seq<char>>)
    requires
        s.chunk > 0,
        s.stage == Stage::Reading,
        s.hashes.len() == 0,
        replies.len() <= s.parts(),
    ensures
        ({
            let after = after_parts(s, replies);
            &&& after.hashes == replies.map_values(|r: Seq<char>| reply_hash(r))
            &&& after.key == s.key && after.upload_id == s.upload_id && after.size == s.size
                && after.chunk == s.chunk
            &&& replies.len() < s.parts() ==> after.stage == Stage::Reading && after.sent()
                == part_start(s.chunk, replies.len())
            &&& replies.len() == s.parts() ==> after.stage == Stage::Joining && after.sent()
                == s.size
        }),
    decreases replies.len(),
{
    let hash = |r: Seq<char>| reply_hash(r);
    if replies.len() > 0 {
        law_all_parts_joined(s, replies.drop_last());
        assert(replies.map_values(hash) =~= replies.drop_last().map_values(hash).push(
            reply_hash(replies.last()),
        ));
    } else {
        assert(s.hashes =~= replies.map_values(hash));
        law_parts_exist(s.size, s.chunk);
    }
}

/// Every file has at least one part.
pub proof fn law_parts_exist(size: nat, chunk: nat)
    requires
        chunk > 0,
    ensures
        part_count(size, chunk) > 0,
{
    if size > 0 {
        vstd::arithmetic::div_mod::lemma_div_non_zero((size + chunk - 1) as int, chunk as int);
    }
}

/// Every part but the last is as large as the server asks for, whatever size
/// is configured.
pub proof fn law_parts_accepted(size: nat, chunk: nat, i: nat)
    requires
        i + 1 < part_count(size, part_size(chunk)),
    ensures
        part_length(size, part_size(chunk), part_start(part_size(chunk), i)) >= MIN_CHUNK,
{
    law_parts_cover(size, part_size(chunk), i);
}

/// A part is sent with a token that is valid for more than another minute, or
/// with one that was just made.
pub proof fn law_token_outlives_request(made: u64, elapsed: nat, ttl: u64)
    requires
        made + ttl <= u64::MAX,
        !needs_renewal(elapsed, ttl as nat),
    ensures
        token::deadline_after(made, ttl) > made + elapsed + 60,
{
}

// ---------------------------------------------------------------------------
// What an upload does, call by call.
// ---------------------------------------------------------------------------

/// Parts have the configured size, but no less than five megabytes.
pub proof fn law_part_size(chunk: u64, n: u64)
    requires
        call_ensures(size_of_parts, (chunk,), n),
    ensures
        chunk >= 5 * 1024 * 1024 ==> n == chunk,
        chunk < 5 * 1024 * 1024 ==> n == 5 * 1024 * 1024,
{
}

/// There are as many parts as it takes, and no more.
pub proof fn law_part_count(size: u64, chunk: u64, n: u64)
    requires
        chunk > 0,
        call_ensures(count_parts, (size, chunk), n),
    ensures
        n >= 1,
        n * chunk >= size,
        n > 1 ==> (n - 1) * chunk < size,
{
    law_parts_exist(size as nat, chunk as nat);
    let last = (n - 1) as nat;
    law_parts_cover(size as nat, chunk as nat, last);
    assert(n * chunk == last * chunk + chunk) by (nonlinear_arith)
        requires
            n == last + 1,
    ;
    if n > 1 {
        assert(size > 0);
    }
}

/// The request that starts an upload has the parameters that the server wants,
/// and the token that is kept for the parts.
pub proof fn law_start_request(
    io: &Iobs,
    key: &str,
    name: &str,
    size: u64,
    now: u64,
    r: (Upload, Request),
)
    requires
        call_ensures(Upload::start, (io, key, name, size, now), r),
    ensures
        r.1.url@ == io.settings().base_url + "/initUploadPart/"@ + percent::percent_encoded(
            io.settings().bucket,
        ) + "/"@ + percent::percent_encoded(key@) + "?token="@ + r.0@.token + "&fileSize="@
            + text::decimal(size as nat) + "&fileName="@ + percent::percent_encoded(name@),
        r.1.content_type@ == "application/x-www-form-urlencoded"@,
        r.1.body@.len() == 0,
        r.0@.token == iobs::access_token(io.settings(), key@, now),
        r.0@.key == key@,
        r.0@.size == size,
        r.0@.hashes.len() == 0,
        r.0@.stage == Stage::Starting,
        r.0@.chunk == if io.settings().chunk_size < 5 * 1024 * 1024 {
            5 * 1024 * 1024
        } else {
            io.settings().chunk_size
        },
{
}

/// The request for a part has the parameters that the server wants: the parts
/// are numbered from one. Its token is the one that the upload began with, or,
/// in the last minute of that, one that is made now; the upload goes on with
/// it, and is otherwise as it was.
pub proof fn law_part_request(
    u: Upload,
    io: &Iobs,
    elapsed: u64,
    now: u64,
    r: (Upload, PartRequest),
)
    requires
        u@.stage == Stage::Reading,
        call_ensures(Upload::part, (u, io, elapsed, now), r),
    ensures
        r.1.url@ == io.settings().base_url + "/uploadPart/"@ + percent::percent_encoded(
            io.settings().bucket,
        ) + "/"@ + percent::percent_encoded(u@.key) + "?token="@ + r.0@.token + "&uploadId="@
            + percent::percent_encoded(u@.upload_id) + "&partNumber="@ + text::decimal(
            u@.hashes.len() + 1,
        ),
        r.1.renewed <==> elapsed + 60 >= io.settings().token_ttl,
        r.1.renewed ==> r.0@.token == iobs::access_token(io.settings(), u@.key, now),
        !r.1.renewed ==> r.0@.token == u@.token,
        r.0@ == (UploadState { token: r.0@.token, stage: Stage::Sending, ..u@ }),
{
}

/// The reply to the request that starts an upload is the upload id: without
/// white space around it where it is no JSON object, else the value of the
/// member `uploadId`.
pub proof fn law_upload_id_taken(
    u: Upload,
    io: &Iobs,
    reply: &str,
    now: u64,
    r: (Upload, Res<Next>),
    id: Seq<char>,
    before: Seq<char>,
    w1: Seq<char>,
    w2: Seq<char>,
    after: Seq<char>,
)
    requires
        u@.stage == Stage::Starting,
        call_ensures(Upload::replied, (u, io, reply, now), r),
        id.len() > 0,
        ({
            ||| reply@ == before + id + after && text::all_white(before) && text::all_white(after)
                && id[0] != '{' && !text::is_white_space(id[0]) && !text::is_white_space(id.last())
            ||| text::trim_start(before).len() > 0 && text::trim_start(before)[0] == '{'
                && json::holds_member(
                reply@,
                "uploadId"@,
                id,
                before,
                w1,
                w2,
                after,
            )
        }),
    ensures
        r.0@ == (UploadState { upload_id: id, stage: Stage::Reading, ..u@ }),
        r.1 is Ok && r.1->Ok_0 is Read,
{
    if text::trim_start(before).len() > 0 && text::trim_start(before)[0] == '{'
        && json::holds_member(reply@, "uploadId"@, id, before, w1, w2, after) {
        json::law_member_text(reply@, "uploadId"@, id, before, w1, w2, after);
        assert(reply@.take(before.len() as int) =~= before);
        lemma_starts_object(before, reply@);
    } else {
        text::law_trim(before, id, after);
        assert(reply@ =~= before + (id + after));
        text::law_trim_start(before, id + after);
    }
}

/// An object without the member `uploadId` gives the upload id by its member
/// `data`.
pub proof fn law_upload_id_in_data(
    u: Upload,
    io: &Iobs,
    reply: &str,
    now: u64,
    r: (Upload, Res<Next>),
    id: Seq<char>,
    before: Seq<char>,
    w1: Seq<char>,
    w2: Seq<char>,
    after: Seq<char>,
)
    requires
        u@.stage == Stage::Starting,
        call_ensures(Upload::replied, (u, io, reply, now), r),
        id.len() > 0,
        text::trim_start(before).len() > 0,
        text::trim_start(before)[0] == '{',
        json::holds_member(reply@, "data"@, id, before, w1, w2, after),
        forall|j: int|
            0 <= j && j + "uploadId"@.len() + 2 <= reply@.len() ==> #[trigger] reply@.subrange(
                j,
                j + "uploadId"@.len() + 2,
            ) != seq!['"'] + "uploadId"@ + seq!['"'],
    ensures
        r.0@ == (UploadState { upload_id: id, stage: Stage::Reading, ..u@ }),
        r.1 is Ok && r.1->Ok_0 is Read,
{
    json::law_member_text(reply@, "data"@, id, before, w1, w2, after);
    json::law_no_member(reply@, "uploadId"@);
    assert(reply@.take(before.len() as int) =~= before);
    lemma_starts_object(before, reply@);
}

proof fn lemma_starts_object(before: Seq<char>, s: Seq<char>)
    requires
        before.len() <= s.len(),
        s.take(before.len() as int) == before,
        text::trim_start(before).len() > 0,
    ensures
        text::trim_start(s).len() > 0,
        text::trim_start(s)[0] == text::trim_start(before)[0],
    decreases before.len(),
{
    assert(s[0] == before[0]);
    if text::is_white_space(before[0]) {
        let b = before.skip(1);
        let t = s.skip(1);
        assert(t.take(b.len() as int) =~= b) by {
            assert forall|i: int| 0 <= i < b.len() implies t[i] == b[i] by {
                assert(s.take(before.len() as int)[i + 1] == s[i + 1]);
            }
        }
        lemma_starts_object(b, t);
        assert(text::trim_start(before) == text::trim_start(b));
        assert(text::trim_start(s) == text::trim_start(t));
    }
}

/// An object with neither member is taken for the upload id as a whole.
pub proof fn law_object_as_upload_id(
    u: Upload,
    io: &Iobs,
    reply: &str,
    now: u64,
    r: (Upload, Res<Next>),
    before: Seq<char>,
    id: Seq<char>,
    after: Seq<char>,
)
    requires
        u@.stage == Stage::Starting,
        call_ensures(Upload::replied, (u, io, reply, now), r),
        reply@ == before + id + after,
        text::all_white(before),
        text::all_white(after),
        id.len() > 0,
        id[0] == '{',
        !text::is_white_space(id.last()),
        forall|v: Seq<char>, b: Seq<char>, w1: Seq<char>, w2: Seq<char>, a: Seq<char>|
            !#[trigger] json::holds_member(reply@, "uploadId"@, v, b, w1, w2, a),
        forall|v: Seq<char>, b: Seq<char>, w1: Seq<char>, w2: Seq<char>, a: Seq<char>|
            !#[trigger] json::holds_member(reply@, "data"@, v, b, w1, w2, a),
    ensures
        r.0@ == (UploadState { upload_id: id, stage: Stage::Reading, ..u@ }),
        r.1 is Ok && r.1->Ok_0 is Read,
{
    json::law_unreadable_member(reply@, "uploadId"@);
    json::law_unreadable_member(reply@, "data"@);
    text::law_trim(before, id, after);
}

/// An upload does not start without an id: a reply of white space alone is a
/// failure, which shows the reply, and changes nothing.
pub proof fn law_no_upload_id(
    u: Upload,
    io: &Iobs,
    reply: &str,
    now: u64,
    r: (Upload, Res<Next>),
)
    requires
        u@.stage == Stage::Starting,
        call_ensures(Upload::replied, (u, io, reply, now), r),
        text::all_white(reply@),
    ensures
        r.0@ == u@,
        r.1 is Err && r.1->Err_0.code == 4 && r.1->Err_0.msg@ == "初始化分片上传失败，响应："@
            + reply@,
{
    let none = Seq::<char>::empty();
    text::law_trim(none, none, reply@);
    assert(none + none + reply@ =~= reply@);
    text::law_trim_start(reply@, none);
    assert(reply@ + none =~= reply@);
}

/// The hash that is recorded for a part is the value of the member `hash` in the
/// reply, whatever other members stand around it. The hashes of the parts
/// before it stay as they are.
pub proof fn law_part_hash_recorded(
    u: Upload,
    io: &Iobs,
    reply: &str,
    now: u64,
    r: (Upload, Res<Next>),
    hash: Seq<char>,
    before: Seq<char>,
    w1: Seq<char>,
    w2: Seq<char>,
    after: Seq<char>,
)
    requires
        u@.stage == Stage::Sending,
        call_ensures(Upload::replied, (u, io, reply, now), r),
        json::holds_member(reply@, "hash"@, hash, before, w1, w2, after),
        hash.len() > 0,
    ensures
        r.0@.hashes == u@.hashes.push(hash),
        r.0@ == (UploadState { hashes: r.0@.hashes, stage: r.0@.stage, ..u@ }),
        r.1 is Ok,
{
    json::law_member_text(reply@, "hash"@, hash, before, w1, w2, after);
}

/// A reply without the member `hash` is the hash itself, without the white space
/// around it.
pub proof fn law_plain_hash_recorded(
    u: Upload,
    io: &Iobs,
    reply: &str,
    now: u64,
    r: (Upload, Res<Next>),
    before: Seq<char>,
    hash: Seq<char>,
    after: Seq<char>,
)
    requires
        u@.stage == Stage::Sending,
        call_ensures(Upload::replied, (u, io, reply, now), r),
        reply@ == before + hash + after,
        text::all_white(before),
        text::all_white(after),
        hash.len() > 0,
        !text::is_white_space(hash[0]),
        !text::is_white_space(hash.last()),
        forall|v: Seq<char>, b: Seq<char>, w1: Seq<char>, w2: Seq<char>, a: Seq<char>|
            !#[trigger] json::holds_member(reply@, "hash"@, v, b, w1, w2, a),
    ensures
        r.0@.hashes == u@.hashes.push(hash),
        r.1 is Ok,
{
    json::law_unreadable_member(reply@, "hash"@);
    text::law_trim(before, hash, after);
}

/// A part without a hash is a failure, which shows the number of the part and
/// the reply, and changes nothing.
pub proof fn law_no_hash(u: Upload, io: &Iobs, reply: &str, now: u64, r: (Upload, Res<Next>))
    requires
        u@.stage == Stage::Sending,
        call_ensures(Upload::replied, (u, io, reply, now), r),
        text::all_white(reply@),
    ensures
        r.0@ == u@,
        r.1 is Err && r.1->Err_0.code == 4 && r.1->Err_0.msg@ == "第 "@ + text::decimal(
            u@.hashes.len() + 1,
        ) + " 片上传未返回 hash，响应："@ + reply@,
{
    let none = Seq::<char>::empty();
    text::law_trim(none, none, reply@);
    assert(none + none + reply@ =~= reply@);
    assert forall|j: int| 0 <= j && j + "hash"@.len() + 2 <= reply@.len() implies #[trigger]
        reply@.subrange(j, j + "hash"@.len() + 2) != seq!['"'] + "hash"@ + seq!['"'] by {
        let part = reply@.subrange(j, j + "hash"@.len() + 2);
        assert(part[0] == reply@[j]);
        assert(text::is_white_space(reply@[j]));
        assert((seq!['"'] + "hash"@ + seq!['"'])[0] == '"');
    }
    json::law_no_member(reply@, "hash"@);
}

/// As long as parts are missing, the next one is read: as many bytes as a part
/// has, or as are left.
pub proof fn law_next_part_read(
    u: Upload,
    io: &Iobs,
    reply: &str,
    now: u64,
    r: (Upload, Res<Next>),
)
    requires
        u@.stage == Stage::Starting || u@.stage == Stage::Sending,
        u@.chunk > 0,
        call_ensures(Upload::replied, (u, io, reply, now), r),
        r.1 is Ok,
        r.0@.hashes.len() < u@.parts(),
    ensures
        r.0@.stage == Stage::Reading,
        r.1->Ok_0 is Read,
        ({
            let left = u@.size - r.0@.hashes.len() * u@.chunk;
            &&& left >= 0
            &&& r.1->Ok_0->Read_0 == if left < u@.chunk {
                left
            } else {
                u@.chunk as int
            }
        }),
{
    law_parts_cover(u@.size, u@.chunk, r.0@.hashes.len());
}

/// When the last part is sent, the parts are joined: the request names the
/// upload, and its body is a form that holds the part map of all hashes.
pub proof fn law_parts_joined(
    u: Upload,
    io: &Iobs,
    reply: &str,
    now: u64,
    r: (Upload, Res<Next>),
)
    requires
        u@.stage == Stage::Sending,
        call_ensures(Upload::replied, (u, io, reply, now), r),
        r.1 is Ok,
        r.0@.hashes.len() >= u@.parts(),
    ensures
        r.0@.stage == Stage::Joining,
        r.1->Ok_0 is Join,
        ({
            let q = r.1->Ok_0->Join_0;
            let c = io.settings();
            &&& q.url@ == c.base_url + "/completeUpload/"@ + percent::percent_encoded(c.bucket)
                + "/"@ + percent::percent_encoded(u@.key) + "?token="@ + iobs::access_token(
                c,
                u@.key,
                now,
            ) + "&uploadId="@ + percent::percent_encoded(u@.upload_id)
            &&& q.content_type@ == "application/x-www-form-urlencoded; charset=utf-8"@
            &&& q.body@ == encode_utf8(
                "partMap="@ + percent::percent_encoded(part_map(r.0@.hashes)),
            )
        }),
{
}

/// The part map is a JSON object that lists the parts by their numbers, from
/// one on, each with its hash: that of one part, and that of one part more.
pub proof fn law_part_map(hashes: Seq<Seq<char>>, hash: Seq<char>)
    ensures
        part_map(seq![hash]) == "{\"1\":\""@ + hash + "\"}"@,
        hashes.len() > 0 ==> part_map(hashes.push(hash)) == part_map(hashes).drop_last() + ",\""@
            + text::decimal(hashes.len() + 1) + "\":\""@ + hash + "\"}"@,
{
    reveal_strlit("{\"1\":\"");
    reveal_strlit("\"}");
    reveal_strlit(",\"");
    reveal_strlit("{");
    reveal_strlit("}");
    reveal_strlit("\"");
    reveal_strlit("\":\"");
    reveal_strlit(",");
    text::law_decimal(0, 1);
    reveal_strlit("0123456789");
    let one = seq![hash];
    assert(one.last() == hash);
    assert(part_members(one) == part_member(1, hash));
    assert(part_map(one) =~= "{\"1\":\""@ + hash + "\"}"@);
    let more = hashes.push(hash);
    assert(more.drop_last() =~= hashes);
    if hashes.len() > 0 {
        assert(part_members(more) == part_members(hashes) + ","@ + part_member(more.len(), hash));
        assert(part_map(hashes).drop_last() =~= "{"@ + part_members(hashes));
        assert(part_map(more) =~= part_map(hashes).drop_last() + ",\""@ + text::decimal(
            hashes.len() + 1,
        ) + "\":\""@ + hash + "\"}"@);
    }
}

/// Whether every reply holds its hash as the member `hash`.
pub open spec fn hold_hashes(replies: Seq<Seq<char>>, hashes: Seq<Seq<char>>) -> bool {
    &&& replies.len() == hashes.len()
    &&& forall|i: int|
        0 <= i < replies.len() ==> exists|
            before: Seq<char>,
            w1: Seq<char>,
            w2: Seq<char>,
            after: Seq<char>,
        |
            json::holds_member(
                #[trigger] replies[i],
                "hash"@,
                hashes[i],
                before,
                w1,
                w2,
                after,
            )
}

/// After the replies for all parts, the upload holds just the hashes that the
/// replies hold, one for each part and in their order.
pub proof fn law_hashes_of_replies(
    s: UploadState,
    replies: Seq<Seq<char>>,
    hashes: Seq<Seq<char>>,
)
    requires
        s.chunk > 0,
        s.stage == Stage::Reading,
        s.hashes.len() == 0,
        replies.len() <= s.parts(),
        hold_hashes(replies, hashes),
    ensures
        after_parts(s, replies).hashes == hashes,
{
    law_all_parts_joined(s, replies);
    let found = replies.map_values(|r: Seq<char>| reply_hash(r));
    assert forall|i: int| 0 <= i < replies.len() implies found[i] == hashes[i] by {
        let (before, w1, w2, after) = choose|
            before: Seq<char>,
            w1: Seq<char>,
            w2: Seq<char>,
            after: Seq<char>,
        |
            json::holds_member(
                #[trigger] replies[i],
                "hash"@,
                hashes[i],
                before,
                w1,
                w2,
                after,
            );
        json::law_member_text(replies[i], "hash"@, hashes[i], before, w1, w2, after);
    }
    assert(found =~= hashes);
}

/// When the parts are joined, the upload is done, and the file can be fetched.
pub proof fn law_joined_done(u: Upload, io: &Iobs, reply: &str, now: u64, r: (Upload, Res<Next>))
    requires
        u@.stage == Stage::Joining,
        call_ensures(Upload::replied, (u, io, reply, now), r),
    ensures
        r.0@.stage == Stage::Finished,
        r.1 is Ok && r.1->Ok_0 is Done,
        r.1->Ok_0->Done_0@ == io.settings().base_url + "/download/"@ + percent::percent_encoded(
            io.settings().bucket,
        ) + "/"@ + percent::percent_encoded(u@.key) + "?token="@ + iobs::access_token(
            io.settings(),
            u@.key,
            now,
        ),
{
}

/// An upload has as many parts as its file takes, and has sent as many bytes as
/// the parts that are sent hold.
pub proof fn law_upload_progress(u: &Upload, parts: u64, sent: u64, n: usize)
    requires
        u@.chunk > 0,
        u@.hashes.len() <= u@.parts(),
        call_ensures(Upload::parts, (u,), parts),
        call_ensures(Upload::sent, (u,), sent),
        call_ensures(Upload::parts_sent, (u,), n),
    ensures
        n == u@.hashes.len(),
        parts >= 1,
        parts * u@.chunk >= u@.size,
        parts > 1 ==> (parts - 1) * u@.chunk < u@.size,
        sent == if n * u@.chunk < u@.size {
            n * u@.chunk
        } else {
            u@.size as int
        },
{
    let size = u@.size;
    let chunk = u@.chunk;
    law_parts_exist(size, chunk);
    let last = (parts - 1) as nat;
    law_parts_cover(size, chunk, last);
    assert(parts * chunk == last * chunk + chunk) by (nonlinear_arith)
        requires
            parts == last + 1,
    ;
    if n < parts {
        law_parts_cover(size, chunk, n as nat);
    }
}

/// Parts that are configured too small are warned of, and only these.
pub proof fn law_chunk_warned_of(chunk: u64, r: Option<String>)
    requires
        call_ensures(chunk_warning, (chunk,), r),
    ensures
        r is Some <==> chunk < 5 * 1024 * 1024,
{
}

} // verus!
