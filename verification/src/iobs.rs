//! The service: its URLs, and the requests for files that need only one.

use vstd::prelude::*;
use vstd::string::*;
use vstd::utf8::*;
use crate::base64;
use crate::clock;
use crate::clock::now_secs;
use crate::config;
use crate::config::Config;
use crate::percent;
use crate::percent::percent_encode;
use crate::sha1;
use crate::size;
use crate::size::human_bytes;
use crate::text;
use crate::text::numeral;
use crate::token;
use crate::token::Signer;

verus! {

/// The header `User-Agent` of every request that sends something.
pub const UA: &'static str = "csp-iobs-java-sdk/1.3.4";

/// The least size of a part, other than the last, that the server takes.
pub const MIN_CHUNK: u64 = 5242880;

/// How many bytes of a file are taken up between two reports of progress.
pub const BLOCK: usize = 262144;

/// The key and the bucket of a request, behind its verb.
pub open spec fn resource(c: config::Settings, verb: Seq<char>, key: Seq<char>) -> Seq<char> {
    c.base_url + verb + percent::percent_encoded(c.bucket) + "/"@ + percent::percent_encoded(key)
}

/// The URL from which the file `key` can be fetched with a token.
pub open spec fn download_text(
    c: config::Settings,
    key: Seq<char>,
    token: Seq<char>,
) -> Seq<char> {
    resource(c, "/download/"@, key) + "?token="@ + token
}

/// The token for `key` that is made at `now`.
pub open spec fn access_token(c: config::Settings, key: Seq<char>, now: u64) -> Seq<char> {
    token::token_text(
        c.access_key,
        sha1::sha1_digest(encode_utf8(c.secret_key)),
        c.bucket,
        key,
        token::deadline_after(now, c.token_ttl as u64) as nat,
    )
}

/// A request that sends something.
pub struct Request {
    pub url: String,
    pub content_type: String,
    pub body: Vec<u8>,
}

/// The service, with a configuration.
pub struct Iobs {
    cfg: Config,
    signer: Signer,
}

impl Iobs {
    /// The settings.
    pub closed spec fn settings(&self) -> config::Settings {
        self.cfg@
    }

    #[verifier::type_invariant]
    spec fn signs_for_config(&self) -> bool {
        &&& self.signer.access_key() == self.cfg.access_key@
        &&& self.signer.key_hash() == sha1::sha1_digest(encode_utf8(self.cfg.secret_key@))
    }

    pub fn new(cfg: Config) -> (io: Iobs)
        ensures
            io.settings() == cfg@,
    {
        let signer = Signer::new(cfg.access_key.as_str(), cfg.secret_key.as_str());
        Iobs { cfg, signer }
    }

    /// The configuration.
    pub fn config(&self) -> (c: &Config)
        ensures
            c@ == self.settings(),
    {
        &self.cfg
    }

    /// The token for `key`, made at `now`.
    pub fn token_from(&self, key: &str, now: u64) -> (t: String)
        ensures
            t@ == access_token(self.settings(), key@, now),
    {
        proof {
            use_type_invariant(self);
        }
        self.signer.token_from(self.cfg.bucket.as_str(), key, self.cfg.token_ttl, now)
    }

    /// The token for `key`, made at the time that the clock reads.
    pub fn token(&self, key: &str) -> (t: String)
        ensures
            exists|r: Result<std::time::Duration, std::time::SystemTimeError>, now: u64|
                #[trigger] clock::secs_read(r, now) && t@ == access_token(
                    self.settings(),
                    key@,
                    now,
                ),
    {
        let now: u64 = now_secs();
        self.token_from(key, now)
    }

    /// The URL of `key` for a request.
    pub(crate) fn resource_url(&self, verb: &str, key: &str) -> (s: String)
        ensures
            s@ == resource(self.settings(), verb@, key@),
    {
        let mut s = self.cfg.base_url.clone();
        s.append(verb);
        s.append(percent_encode(self.cfg.bucket.as_str()).as_str());
        s.append("/");
        s.append(percent_encode(key).as_str());
        s
    }

    /// The URL from which the file `key` can be fetched, made at `now`.
    pub fn download_url_from(&self, key: &str, now: u64) -> (s: String)
        ensures
            s@ == download_text(self.settings(), key@, access_token(self.settings(), key@, now)),
    {
        let mut s = self.resource_url("/download/", key);
        s.append("?token=");
        s.append(self.token_from(key, now).as_str());
        s
    }

    /// The URL from which the file `key` can be fetched, made at the time that
    /// the clock reads.
    pub fn download_url(&self, key: &str) -> (s: String)
        ensures
            exists|r: Result<std::time::Duration, std::time::SystemTimeError>, now: u64|
                #[trigger] clock::secs_read(r, now) && s@ == download_text(
                    self.settings(),
                    key@,
                    access_token(self.settings(), key@, now),
                ),
    {
        let now: u64 = now_secs();
        self.download_url_from(key, now)
    }
}

// ---------------------------------------------------------------------------
// Uploading in one request.
// ---------------------------------------------------------------------------

/// The line that separates the fields of a form.
pub open spec fn boundary(millis: nat) -> Seq<char> {
    "---------------------------"@ + text::decimal(millis)
}

/// The field of a form that holds the token.
pub open spec fn token_field(line: Seq<char>, token: Seq<char>) -> Seq<char> {
    "--"@ + line + "\r\nContent-Disposition: form-data; name=\"token\"\r\n\r\n"@ + token
        + "\r\n"@
}

/// The head of the field of a form that holds the file.
pub open spec fn file_field(line: Seq<char>, name: Seq<char>) -> Seq<char> {
    "--"@ + line + "\r\nContent-Disposition: form-data; name=\"file\"; filename=\""@ + name
        + "\"\r\nContent-Type: multipart/form-data; charset=ISO-8859-1\r\n\r\n"@
}

/// The end of a form.
pub open spec fn form_end(line: Seq<char>) -> Seq<char> {
    "\r\n--"@ + line + "--\r\n"@
}

/// The form that uploads a file.
pub open spec fn upload_form(
    line: Seq<char>,
    token: Seq<char>,
    name: Seq<char>,
    data: Seq<u8>,
) -> Seq<u8> {
    encode_utf8(token_field(line, token)) + encode_utf8(file_field(line, name)) + data
        + encode_utf8(form_end(line))
}

/// What is logged before a file is uploaded in one request.
pub open spec fn small_note(key: Seq<char>, name: Seq<char>, len: nat) -> Seq<char> {
    "小文件直传：key="@ + key + " 文件名="@ + name + " 大小="@ + size::size_text(len)
}

pub(crate) fn push_bytes(v: &mut Vec<u8>, data: &[u8])
    ensures
        final(v)@ == old(v)@ + data@,
{
    let ghost start = v@;
    let n: usize = data.len();
    let mut i: usize = 0;
    while i < n
        invariant
            i <= n,
            n == data@.len(),
            v@ == start + data@.take(i as int),
        decreases n - i,
    {
        v.push(data[i]);
        i = i + 1;
        assert(v@ =~= start + data@.take(i as int));
    }
    assert(data@.take(n as int) =~= data@);
}

impl Iobs {
    /// The request that uploads `data` as the file `key`, under `name`. The
    /// token is made at `now`; `millis` makes the boundary of the form.
    /// Nothing is requested for an empty file.
    pub fn small_upload(&self, key: &str, name: &str, data: &[u8], now: u64, millis: u128) -> (r:
        Option<Request>)
        ensures
            data@.len() == 0 ==> r is None,
            data@.len() > 0 ==> r is Some && ({
                let q = r->Some_0;
                let c = self.settings();
                let line = boundary(millis as nat);
                &&& q.url@ == resource(c, "/upload/"@, key@)
                &&& q.content_type@ == "multipart/form-data; boundary="@ + line
                &&& q.body@ == upload_form(line, access_token(c, key@, now), name@, data@)
            }),
    {
        if data.len() == 0 {
            return None;
        }
        let mut line = "---------------------------".to_string();
        line.append(numeral(millis).as_str());
        let token = self.token_from(key, now);

        let mut first = "--".to_string();
        first.append(line.as_str());
        first.append("\r\nContent-Disposition: form-data; name=\"token\"\r\n\r\n");
        first.append(token.as_str());
        first.append("\r\n");

        let mut second = "--".to_string();
        second.append(line.as_str());
        second.append("\r\nContent-Disposition: form-data; name=\"file\"; filename=\"");
        second.append(name);
        second.append(
            "\"\r\nContent-Type: multipart/form-data; charset=ISO-8859-1\r\n\r\n",
        );

        let mut end = "\r\n--".to_string();
        end.append(line.as_str());
        end.append("--\r\n");

        let mut body: Vec<u8> = Vec::new();
        push_bytes(&mut body, first.as_str().as_bytes());
        push_bytes(&mut body, second.as_str().as_bytes());
        push_bytes(&mut body, data);
        push_bytes(&mut body, end.as_str().as_bytes());
        assert(body@ =~= upload_form(
            line@,
            access_token(self.settings(), key@, now),
            name@,
            data@,
        ));

        let mut content_type = "multipart/form-data; boundary=".to_string();
        content_type.append(line.as_str());
        Some(Request { url: self.resource_url("/upload/", key), content_type, body })
    }
}

/// Different files have different URLs.
pub proof fn law_resources_distinct(
    c: config::Settings,
    verb: Seq<char>,
    key: Seq<char>,
    other: Seq<char>,
)
    requires
        resource(c, verb, key) == resource(c, verb, other),
    ensures
        key == other,
{
    let head = c.base_url + verb + percent::percent_encoded(c.bucket) + "/"@;
    let n = head.len() as int;
    assert(resource(c, verb, key).skip(n) =~= percent::percent_encoded(key));
    assert(resource(c, verb, other).skip(n) =~= percent::percent_encoded(other));
    percent::law_percent_round_trip(key);
    percent::law_percent_round_trip(other);
}

/// The form of an upload holds the file, byte by byte, behind the token and
/// the name.
pub proof fn law_form_holds_file(
    line: Seq<char>,
    token: Seq<char>,
    name: Seq<char>,
    data: Seq<u8>,
)
    ensures
        ({
            let head = encode_utf8(token_field(line, token)) + encode_utf8(file_field(line, name));
            let form = upload_form(line, token, name, data);
            &&& form.take(head.len() as int) == head
            &&& form.subrange(head.len() as int, (head.len() + data.len()) as int) == data
            &&& form.skip((head.len() + data.len()) as int) == encode_utf8(form_end(line))
        }),
{
    let head = encode_utf8(token_field(line, token)) + encode_utf8(file_field(line, name));
    let form = upload_form(line, token, name, data);
    assert(form.take(head.len() as int) =~= head);
    assert(form.subrange(head.len() as int, (head.len() + data.len()) as int) =~= data);
    assert(form.skip((head.len() + data.len()) as int) =~= encode_utf8(form_end(line)));
}

/// The message that is logged before a file is uploaded in one request.
pub fn small_upload_note(key: &str, name: &str, len: u64) -> (s: String)
    ensures
        s@ == small_note(key@, name@, len as nat),
{
    let mut s = "小文件直传：key=".to_string();
    s.append(key);
    s.append(" 文件名=");
    s.append(name);
    s.append(" 大小=");
    s.append(human_bytes(len).as_str());
    s
}

/// The message that is logged after a file was uploaded in one request.
pub fn uploaded_note(key: &str) -> (s: String)
    ensures
        s@ == "上传成功："@ + key@,
{
    "上传成功：".to_string().concat(key)
}

/// The number of bytes from `off` on that are taken up before progress is
/// reported again.
pub fn next_block(len: usize, off: usize) -> (n: usize)
    requires
        off <= len,
    ensures
        n == (if len - off < BLOCK {
            len - off
        } else {
            BLOCK as int
        }),
{
    if len - off < BLOCK {
        len - off
    } else {
        BLOCK
    }
}

// ---------------------------------------------------------------------------
// Downloading.
// ---------------------------------------------------------------------------

/// Where a file is written while it is fetched: to be resumed, beside its
/// place, under its name and `.part`.
pub open spec fn target_path(out: Seq<char>, resume: bool) -> Seq<char> {
    if resume {
        out + ".part"@
    } else {
        out
    }
}

/// How a file is fetched.
pub struct DownloadPlan {
    /// Where it is written.
    pub target: String,
    /// From which byte on it is fetched, and appended to what is there. A
    /// file that is fetched from the start takes the place of what is there.
    pub start: u64,
    /// Whether it has to be moved to its place in the end.
    pub rename: bool,
}

/// Where a file is written while it is fetched.
pub fn download_target(out: &str, resume: bool) -> (s: String)
    ensures
        s@ == target_path(out@, resume),
{
    let mut s = out.to_string();
    if resume {
        s.append(".part");
    }
    s
}

/// How a file is fetched to `out`, where `existing` is the size of the file
/// that is at the target, if there is one.
pub fn plan_download(out: &str, resume: bool, existing: Option<u64>) -> (p: DownloadPlan)
    ensures
        p.target@ == target_path(out@, resume),
        p.rename == resume,
        p.start == (match existing {
            Some(n) if resume => n,
            _ => 0,
        }),
{
    let start: u64 = match existing {
        Some(n) => if resume {
            n
        } else {
            0
        },
        None => 0,
    };
    DownloadPlan { target: download_target(out, resume), start, rename: resume }
}

/// The message that is logged before a file is fetched.
pub fn download_note(key: &str, out: &str) -> (s: String)
    ensures
        s@ == "开始下载："@ + key@ + " -> "@ + out@,
{
    let mut s = "开始下载：".to_string();
    s.append(key);
    s.append(" -> ");
    s.append(out);
    s
}

/// The message that is logged after fetching a file failed that can be
/// resumed.
pub fn interrupted_note(target: &str) -> (s: String)
    ensures
        s@ == "下载中断，已保留 "@ + target@ + "，重新执行 --resume 可续传"@,
{
    let mut s = "下载中断，已保留 ".to_string();
    s.append(target);
    s.append("，重新执行 --resume 可续传");
    s
}

/// The message that is logged after a file was fetched.
pub fn downloaded_note(key: &str, out: &str, len: u64) -> (s: String)
    ensures
        s@ == "下载完成："@ + key@ + " -> "@ + out@ + "（"@ + size::size_text(len as nat) + "）"@,
{
    let mut s = "下载完成：".to_string();
    s.append(key);
    s.append(" -> ");
    s.append(out);
    s.append("（");
    s.append(human_bytes(len).as_str());
    s.append("）");
    s
}

// ---------------------------------------------------------------------------
// What the requests say, call by call.
// ---------------------------------------------------------------------------

/// A token is made with the configured keys, for the configured bucket, and is
/// valid for the configured time: its message decodes to the bucket and the key
/// as they are, and to the deadline.
pub proof fn law_configured_token(io: &Iobs, key: &str, now: u64, t: String) -> (parts: (
    Seq<char>,
    Seq<char>,
))
    requires
        call_ensures(Iobs::token_from, (io, key, now), t),
        now + io.settings().token_ttl <= u64::MAX,
    ensures
        t@ == io.settings().access_key + ":"@ + parts.0 + ":"@ + parts.1,
        !parts.0.contains(':'),
        !parts.1.contains(':'),
        decode_utf8(base64::decode(parts.1)) == "{\"scope\":\""@ + io.settings().bucket + ":"@
            + key@ + "\",\"deadline\":"@ + text::decimal(now as nat + io.settings().token_ttl)
            + "}"@,
        base64::decode(parts.0) == sha1::hmac_digest(
            sha1::sha1_digest(encode_utf8(io.settings().secret_key)),
            encode_utf8(parts.1),
        ),
{
    let c = io.settings();
    let hash = sha1::sha1_digest(encode_utf8(c.secret_key));
    let deadline = now as nat + c.token_ttl;
    let message = token::token_message(c.bucket, key@, deadline);
    let sign = token::signature(hash, message);
    token::law_token_parts(c.access_key, hash, c.bucket, key@, deadline);
    token::law_message_says(c.bucket, key@, deadline);
    base64::law_base64_round_trip(sha1::hmac_digest(hash, encode_utf8(message)));
    (sign, message)
}

/// The URL of a file is the address of the service, `download`, the bucket and
/// the key, each encoded by itself, and a token for that key.
pub proof fn law_download_url(io: &Iobs, key: &str, now: u64, url: String, t: String)
    requires
        call_ensures(Iobs::download_url_from, (io, key, now), url),
        call_ensures(Iobs::token_from, (io, key, now), t),
    ensures
        url@ == io.settings().base_url + "/download/"@ + percent::percent_encoded(
            io.settings().bucket,
        ) + "/"@ + percent::percent_encoded(key@) + "?token="@ + t@,
{
}

/// The configuration is the one that the service was made with.
pub proof fn law_config_kept(cfg: Config, io: Iobs, c: &Config)
    requires
        call_ensures(Iobs::new, (cfg,), io),
        call_ensures(Iobs::config, (&io,), c),
    ensures
        c@ == cfg@,
{
}

/// A file that is not empty is uploaded by one form: to the URL of its key, with
/// a token for the key as it is, the name as it is, and the file byte by byte,
/// each field between two of the same lines.
pub proof fn law_small_upload(
    io: &Iobs,
    key: &str,
    name: &str,
    data: &[u8],
    now: u64,
    millis: u128,
    r: Option<Request>,
    t: String,
)
    requires
        call_ensures(Iobs::small_upload, (io, key, name, data, now, millis), r),
        call_ensures(Iobs::token_from, (io, key, now), t),
    ensures
        data@.len() == 0 <==> r is None,
        r is Some ==> ({
            let q = r->Some_0;
            let line = "---------------------------"@ + text::decimal(millis as nat);
            &&& q.url@ == io.settings().base_url + "/upload/"@ + percent::percent_encoded(
                io.settings().bucket,
            ) + "/"@ + percent::percent_encoded(key@)
            &&& q.content_type@ == "multipart/form-data; boundary="@ + line
            &&& q.body@ == encode_utf8(
                "--"@ + line + "\r\nContent-Disposition: form-data; name=\"token\"\r\n\r\n"@ + t@
                    + "\r\n"@,
            ) + encode_utf8(
                "--"@ + line
                    + "\r\nContent-Disposition: form-data; name=\"file\"; filename=\""@
                    + name@
                    + "\"\r\nContent-Type: multipart/form-data; charset=ISO-8859-1\r\n\r\n"@,
            ) + data@ + encode_utf8("\r\n--"@ + line + "--\r\n"@)
        }),
{
}

/// Blocks follow one another without a gap, none is longer than 256 kilobytes,
/// and none is empty before the end.
pub proof fn law_next_block(len: usize, off: usize, n: usize)
    requires
        off <= len,
        call_ensures(next_block, (len, off), n),
    ensures
        off + n <= len,
        n <= 256 * 1024,
        n < 256 * 1024 ==> off + n == len,
{
}

/// A file that is to be resumed is fetched beside its place, from where it broke
/// off, and moved in the end; any other is fetched from the start, in its place.
pub proof fn law_download_plan(
    out: &str,
    resume: bool,
    existing: Option<u64>,
    p: DownloadPlan,
    target: String,
)
    requires
        call_ensures(plan_download, (out, resume, existing), p),
        call_ensures(download_target, (out, resume), target),
    ensures
        p.target@ == target@,
        resume ==> p.target@ == out@ + ".part"@ && p.rename,
        !resume ==> p.target@ == out@ && !p.rename && p.start == 0,
        existing is None ==> p.start == 0,
        resume && existing is Some ==> p.start == existing->Some_0,
{
}

} // verus!
