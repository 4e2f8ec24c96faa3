//! Requests: which outcomes are tried again, when, and what the others come to.

use vstd::prelude::*;
use vstd::string::*;
use crate::error;
use crate::error::AppError;
use crate::text;
use crate::text::{numeral, parse_u64, pieces, trimmed};

verus! {

/// What a request is for.
#[derive(Debug, Clone, Copy, PartialEq, Eq, Structural)]
pub enum Purpose {
    /// To send something: a `POST`.
    Send,
    /// To fetch a file: a `GET`.
    Fetch,
}

/// How a request went.
pub enum Outcome {
    /// The server did what was asked, with this reply.
    Answered(String),
    /// The server replied with an error status, and this text.
    Refused(u16, String),
    /// There was no reply, for this reason.
    Broken(String),
}

/// What is to be done next.
pub enum Action {
    /// The request is done, with this reply.
    Done(String),
    /// The request has failed.
    Fail(AppError),
    /// The request is to be made again after `wait` milliseconds. `note` is to
    /// be logged as a warning.
    Again { note: String, wait: u64 },
}

/// A request that may be made several times.
pub struct Attempts {
    purpose: Purpose,
    retry: u32,
    attempt: u32,
}

impl Attempts {
    pub closed spec fn purpose(&self) -> Purpose {
        self.purpose
    }

    /// How often the request may be made again.
    pub closed spec fn limit(&self) -> nat {
        self.retry as nat
    }

    /// How often the request has been made again.
    pub closed spec fn repeated(&self) -> nat {
        self.attempt as nat
    }

    #[verifier::type_invariant]
    spec fn within_limit(&self) -> bool {
        self.attempt <= self.retry
    }
}

/// Whether a request that got this status is worth another try: the server was
/// at fault, or was asked too often.
pub open spec fn is_retryable(code: int) -> bool {
    500 <= code < 600 || code == 429
}

/// The milliseconds before the next try, after `n` of them.
pub open spec fn backoff(n: nat) -> nat {
    if n == 0 {
        300
    } else if n == 1 {
        600
    } else if n == 2 {
        1200
    } else if n == 3 {
        2400
    } else if n == 4 {
        4800
    } else {
        9600
    }
}

/// The status and the text of a refusal.
pub open spec fn refusal_text(code: nat, body: Seq<char>) -> Seq<char> {
    "HTTP "@ + text::decimal(code) + " "@ + body
}

/// The message of a request that the server refused.
pub open spec fn refusal_message(purpose: Purpose, code: nat, body: Seq<char>) -> Seq<char> {
    match purpose {
        Purpose::Send => refusal_text(code, body),
        Purpose::Fetch => "下载失败："@ + refusal_text(code, body),
    }
}

/// What is logged before the try after `n` of them.
pub open spec fn retry_note(purpose: Purpose, n: nat, reason: Seq<char>) -> Seq<char> {
    let start = match purpose {
        Purpose::Send => "  请求失败（第 "@,
        Purpose::Fetch => "  下载中断（第 "@,
    };
    start + text::decimal(n + 1) + " 次重试）："@ + reason
}

/// Whether `a` is to try again after `n` tries that failed for this reason.
pub open spec fn tries_again(a: Action, purpose: Purpose, n: nat, reason: Seq<char>) -> bool {
    match a {
        Action::Again { note, wait } => note@ == retry_note(purpose, n, reason) && wait == backoff(
            n,
        ),
        _ => false,
    }
}

/// Whether `a` is to fail with this code and this message.
pub open spec fn fails(a: Action, code: int, msg: Seq<char>) -> bool {
    match a {
        Action::Fail(e) => error::is_error(e, code, msg),
        _ => false,
    }
}

/// Whether an outcome leads to another try, after `n` of them.
pub open spec fn is_tried_again(o: Outcome, n: nat, limit: nat) -> bool {
    match o {
        Outcome::Answered(_) => false,
        Outcome::Refused(code, _) => is_retryable(code as int) && n < limit,
        Outcome::Broken(_) => n < limit,
    }
}

/// Whether `a` is what an outcome comes to, after `n` tries.
pub open spec fn is_next(a: Action, o: Outcome, purpose: Purpose, n: nat, limit: nat) -> bool {
    match o {
        Outcome::Answered(reply) => a matches Action::Done(r) && r@ == reply@,
        Outcome::Refused(code, body) => if is_retryable(code as int) && n < limit {
            tries_again(a, purpose, n, refusal_text(code as nat, body@))
        } else {
            fails(a, 4, refusal_message(purpose, code as nat, body@))
        },
        Outcome::Broken(reason) => if n < limit {
            tries_again(a, purpose, n, reason@)
        } else {
            fails(a, 3, "网络错误: "@ + reason@)
        },
    }
}

fn wait_after(n: u32) -> (ms: u64)
    ensures
        ms == backoff(n as nat),
{
    if n == 0 {
        300
    } else if n == 1 {
        600
    } else if n == 2 {
        1200
    } else if n == 3 {
        2400
    } else if n == 4 {
        4800
    } else {
        9600
    }
}

fn refusal(code: u16, body: &str) -> (s: String)
    ensures
        s@ == refusal_text(code as nat, body@),
{
    let mut s = "HTTP ".to_string();
    s.append(numeral(code as u128).as_str());
    s.append(" ");
    s.append(body);
    s
}

impl Attempts {
    /// A request that has not been made yet, and may be made again `retry`
    /// times.
    pub fn new(purpose: Purpose, retry: u32) -> (a: Attempts)
        ensures
            a.purpose() == purpose,
            a.limit() == retry,
            a.repeated() == 0,
    {
        Attempts { purpose, retry, attempt: 0 }
    }

    fn again(&mut self, reason: &str) -> (a: Action)
        requires
            old(self).repeated() < old(self).limit(),
        ensures
            tries_again(a, old(self).purpose(), old(self).repeated(), reason@),
            final(self).purpose() == old(self).purpose(),
            final(self).limit() == old(self).limit(),
            final(self).repeated() == old(self).repeated() + 1,
    {
        let mut note: String = match self.purpose {
            Purpose::Send => "  请求失败（第 ".to_string(),
            Purpose::Fetch => "  下载中断（第 ".to_string(),
        };
        note.append(numeral(self.attempt as u128 + 1).as_str());
        note.append(" 次重试）：");
        note.append(reason);
        let wait: u64 = wait_after(self.attempt);
        self.attempt = self.attempt + 1;
        Action::Again { note, wait }
    }

    /// What is to be done after the request has had this outcome.
    pub fn next(&mut self, o: Outcome) -> (a: Action)
        ensures
            is_next(a, o, old(self).purpose(), old(self).repeated(), old(self).limit()),
            final(self).purpose() == old(self).purpose(),
            final(self).limit() == old(self).limit(),
            final(self).repeated() == old(self).repeated() + (if is_tried_again(
                o,
                old(self).repeated(),
                old(self).limit(),
            ) {
                1int
            } else {
                0int
            }),
            final(self).repeated() <= final(self).limit(),
    {
        proof {
            use_type_invariant(&*self);
        }
        match o {
            Outcome::Answered(reply) => Action::Done(reply),
            Outcome::Refused(code, body) => {
                let retryable: bool = (500 <= code && code < 600) || code == 429;
                let text = refusal(code, body.as_str());
                if retryable && self.attempt < self.retry {
                    self.again(text.as_str())
                } else {
                    match self.purpose {
                        Purpose::Send => Action::Fail(AppError::new(4, text)),
                        Purpose::Fetch => {
                            let mut msg = "下载失败：".to_string();
                            msg.append(text.as_str());
                            Action::Fail(AppError::new(4, msg))
                        },
                    }
                }
            },
            Outcome::Broken(reason) => {
                if self.attempt < self.retry {
                    self.again(reason.as_str())
                } else {
                    Action::Fail(AppError::from_network(false, reason.as_str()))
                }
            },
        }
    }
}

/// A request that the server refuses is made again only after a fault of the
/// server (5xx), or after being asked too often (429). Otherwise it fails, and
/// the message holds what the server said.
pub proof fn law_refusals_not_repeated(
    a: Action,
    code: u16,
    body: String,
    purpose: Purpose,
    n: nat,
    limit: nat,
)
    requires
        !(500 <= code < 600),
        code != 429,
        is_next(a, Outcome::Refused(code, body), purpose, n, limit),
    ensures
        fails(a, 4, refusal_message(purpose, code as nat, body@)),
{
}

/// How often a request has been made again after these outcomes, each of which
/// came to another try.
pub open spec fn repeated_after(outcomes: Seq<Outcome>, limit: nat) -> Option<nat>
    decreases outcomes.len(),
{
    if outcomes.len() == 0 {
        Some(0)
    } else {
        match repeated_after(outcomes.drop_last(), limit) {
            Some(n) => if is_tried_again(outcomes.last(), n, limit) {
                Some(n + 1)
            } else {
                None
            },
            None => None,
        }
    }
}

/// A request is made at most one time more than it may be made again, whatever
/// the outcomes are.
pub proof fn law_attempts_bounded(outcomes: Seq<Outcome>, limit: nat)
    requires
        repeated_after(outcomes, limit) is Some,
    ensures
        repeated_after(outcomes, limit) == Some(outcomes.len()),
        outcomes.len() <= limit,
    decreases outcomes.len(),
{
    if outcomes.len() > 0 {
        law_attempts_bounded(outcomes.drop_last(), limit);
    }
}

/// Each wait is twice the one before, up to the sixth, and no longer than that
/// one.
pub proof fn law_backoff_doubles(n: nat)
    ensures
        n < 5 ==> backoff(n + 1) == 2 * backoff(n),
        backoff(n) <= 9600,
        backoff(n) <= backoff(n + 1),
        backoff(0) == 300,
{
}

// ---------------------------------------------------------------------------
// Fetching.
// ---------------------------------------------------------------------------

/// The sum, modulo 2^64.
pub open spec fn wrapped_sum(a: nat, b: nat) -> nat {
    if a + b <= u64::MAX {
        a + b
    } else {
        (a + b - 0x1_0000_0000_0000_0000) as nat
    }
}

/// The length of a reply, by its header `Content-Length`; zero where this says
/// nothing.
pub open spec fn reply_length(header: Option<Seq<char>>) -> nat {
    match header {
        Some(h) => match text::bounded_value(h, u64::MAX as nat) {
            Some(n) => n,
            None => 0,
        },
        None => 0,
    }
}

/// The size of the whole file, by the header `Content-Range`: what stands
/// behind the last slash.
pub open spec fn whole_size(header: Option<Seq<char>>) -> Option<nat> {
    match header {
        Some(h) => text::bounded_value(text::trim(text::split(h, '/').last()), u64::MAX as nat),
        None => None,
    }
}

/// The size of the file that is fetched from `start` on.
pub open spec fn file_size(
    code: nat,
    start: nat,
    length: Option<Seq<char>>,
    range: Option<Seq<char>>,
) -> nat {
    let rest = wrapped_sum(start, reply_length(length));
    if code == 206 {
        match whole_size(range) {
            Some(n) => n,
            None => rest,
        }
    } else {
        rest
    }
}

/// The value of the header `Range` that asks for a file from `start` on, where
/// it is needed.
pub fn range_header(start: u64) -> (r: Option<String>)
    ensures
        text::text_of(r) == (if start > 0 {
            Some("bytes="@ + text::decimal(start as nat) + "-"@)
        } else {
            None
        }),
{
    if start > 0 {
        let mut s = "bytes=".to_string();
        s.append(numeral(start as u128).as_str());
        s.append("-");
        Some(s)
    } else {
        None
    }
}

/// The size of the file that a reply brings from `start` on. A status other
/// than that of a whole or a partial file is a failure.
pub fn fetched_size(
    code: u16,
    status_text: &str,
    start: u64,
    length: Option<&str>,
    range: Option<&str>,
) -> (r: error::Res<u64>)
    ensures
        code != 200 && code != 206 ==> error::failed(
            r,
            4,
            refusal_message(Purpose::Fetch, code as nat, status_text@),
        ),
        code == 200 || code == 206 ==> r is Ok && r->Ok_0 == file_size(
            code as nat,
            start as nat,
            match length {
                Some(h) => Some(h@),
                None => None,
            },
            match range {
                Some(h) => Some(h@),
                None => None,
            },
        ),
{
    if code != 200 && code != 206 {
        let mut msg = "下载失败：".to_string();
        msg.append(refusal(code, status_text).as_str());
        return Err(AppError::new(4, msg));
    }
    let len: u64 = match length {
        Some(h) => match parse_u64(h) {
            Some(n) => n,
            None => 0,
        },
        None => 0,
    };
    let rest: u64 = start.wrapping_add(len);
    if code == 206 {
        match range {
            Some(h) => {
                let parts = pieces(h, '/');
                proof {
                    lemma_split_some(h@, '/');
                    assert(text::texts(parts@).len() == parts@.len());
                }
                let last = trimmed(parts[parts.len() - 1].as_str());
                assert(text::split(h@, '/').last() == parts@.last()@);
                match parse_u64(last.as_str()) {
                    Some(n) => Ok(n),
                    None => Ok(rest),
                }
            },
            None => Ok(rest),
        }
    } else {
        Ok(rest)
    }
}

proof fn lemma_split_some(s: Seq<char>, c: char)
    ensures
        text::split(s, c).len() > 0,
{
}

/// The seconds after which a request is given up: at least one.
pub fn request_timeout(timeout_secs: u64) -> (n: u64)
    ensures
        n == (if timeout_secs < 1 {
            1
        } else {
            timeout_secs
        }),
{
    if timeout_secs < 1 {
        1
    } else {
        timeout_secs
    }
}

// ---------------------------------------------------------------------------
// What is made again, and what is not, call by call.
// ---------------------------------------------------------------------------

/// After a fault of the server (5xx), or after being asked too often (429), a
/// request is made again, whatever it is for, as long as it may be. What is
/// logged shows the number of the try, and what the server said.
pub proof fn law_faults_repeated(a: &mut Attempts, code: u16, body: String, r: Action)
    requires
        call_ensures(Attempts::next, (a, Outcome::Refused(code, body)), r),
        500 <= code <= 599 || code == 429,
        old(a).repeated() < old(a).limit(),
    ensures
        r is Again,
        final(a).repeated() == old(a).repeated() + 1,
        r->note@ == (match old(a).purpose() {
            Purpose::Send => "  请求失败（第 "@,
            Purpose::Fetch => "  下载中断（第 "@,
        }) + text::decimal(old(a).repeated() + 1) + " 次重试）："@ + ("HTTP "@ + text::decimal(
            code as nat,
        ) + " "@ + body@),
{
}

/// A request whose connection broke is made again, whatever it is for, as long
/// as it may be.
pub proof fn law_breaks_repeated(a: &mut Attempts, reason: String, r: Action)
    requires
        call_ensures(Attempts::next, (a, Outcome::Broken(reason)), r),
        old(a).repeated() < old(a).limit(),
    ensures
        r is Again,
        final(a).repeated() == old(a).repeated() + 1,
        r->note@ == (match old(a).purpose() {
            Purpose::Send => "  请求失败（第 "@,
            Purpose::Fetch => "  下载中断（第 "@,
        }) + text::decimal(old(a).repeated() + 1) + " 次重试）："@ + reason@,
{
}

/// Where a request is made again, there is a wait of 300 milliseconds first,
/// and twice as long each time, up to the sixth.
pub proof fn law_waits(a: &mut Attempts, o: Outcome, r: Action)
    requires
        call_ensures(Attempts::next, (a, o), r),
        r is Again,
    ensures
        old(a).repeated() <= 5 ==> r->wait == 300 * vstd::arithmetic::power2::pow2(
            old(a).repeated(),
        ),
        old(a).repeated() >= 5 ==> r->wait == 9600,
        old(a).repeated() < old(a).limit(),
{
    vstd::arithmetic::power2::lemma2_to64();
}

/// A request that has been made again as often as it may be fails, and the
/// error holds what went wrong.
pub proof fn law_gives_up(a: &mut Attempts, o: Outcome, r: Action)
    requires
        call_ensures(Attempts::next, (a, o), r),
        old(a).repeated() == old(a).limit(),
        !(o is Answered),
    ensures
        r is Fail,
        final(a).repeated() == old(a).repeated(),
        match o {
            Outcome::Refused(code, body) => {
                &&& r->Fail_0.code == 4
                &&& r->Fail_0.msg@ == (if old(a).purpose() == Purpose::Fetch {
                    "下载失败："@ + ("HTTP "@ + text::decimal(code as nat) + " "@ + body@)
                } else {
                    "HTTP "@ + text::decimal(code as nat) + " "@ + body@
                })
            },
            Outcome::Broken(reason) => r->Fail_0.code == 3 && r->Fail_0.msg@ == "网络错误: "@
                + reason@,
            _ => true,
        },
{
}

/// Any other refusal fails at once, however often the request may still be
/// made, and the error holds what the server said.
pub proof fn law_refusal_fails(a: &mut Attempts, code: u16, body: String, r: Action)
    requires
        call_ensures(Attempts::next, (a, Outcome::Refused(code, body)), r),
        !(500 <= code <= 599),
        code != 429,
    ensures
        r is Fail,
        final(a).repeated() == old(a).repeated(),
        r->Fail_0.code == 4,
        r->Fail_0.msg@ == (if old(a).purpose() == Purpose::Fetch {
            "下载失败："@ + ("HTTP "@ + text::decimal(code as nat) + " "@ + body@)
        } else {
            "HTTP "@ + text::decimal(code as nat) + " "@ + body@
        }),
{
}

/// A reply ends the request, and is handed on as it is.
pub proof fn law_answer_handed_on(a: &mut Attempts, reply: String, r: Action)
    requires
        call_ensures(Attempts::next, (a, Outcome::Answered(reply)), r),
    ensures
        r is Done,
        r->Done_0@ == reply@,
        final(a).repeated() == old(a).repeated(),
{
}

/// Nothing but the number of tries ever changes, and it starts at none.
pub proof fn law_attempts_kept(
    purpose: Purpose,
    retry: u32,
    fresh: Attempts,
    a: &mut Attempts,
    o: Outcome,
    r: Action,
)
    requires
        call_ensures(Attempts::new, (purpose, retry), fresh),
        call_ensures(Attempts::next, (a, o), r),
    ensures
        fresh.purpose() == purpose,
        fresh.limit() == retry,
        fresh.repeated() == 0,
        final(a).purpose() == old(a).purpose(),
        final(a).limit() == old(a).limit(),
{
}

/// A file is asked for from where it broke off, and as a whole where nothing is
/// there.
pub proof fn law_range_header(start: u64, r: Option<String>)
    requires
        call_ensures(range_header, (start,), r),
    ensures
        start == 0 <==> r is None,
        start > 0 ==> r->Some_0@ == "bytes="@ + text::decimal(start as nat) + "-"@,
{
}

/// A reply with a status other than 200 and 206 is no file.
pub proof fn law_no_file(
    code: u16,
    status_text: &str,
    start: u64,
    length: Option<&str>,
    range: Option<&str>,
    r: error::Res<u64>,
)
    requires
        call_ensures(fetched_size, (code, status_text, start, length, range), r),
    ensures
        r is Ok <==> code == 200 || code == 206,
        r is Err ==> r->Err_0.code == 4 && r->Err_0.msg@ == "下载失败："@ + ("HTTP "@
            + text::decimal(code as nat) + " "@ + status_text@),
{
}

/// The size of a file of which a part is sent is what stands behind the last
/// slash of the header `Content-Range`, white space around it aside.
pub proof fn law_size_by_range(
    status_text: &str,
    start: u64,
    length: Option<&str>,
    range: &str,
    r: error::Res<u64>,
    head: Seq<char>,
    w1: Seq<char>,
    n: u64,
    w2: Seq<char>,
)
    requires
        call_ensures(fetched_size, (206u16, status_text, start, length, Some(range)), r),
        range@ == head + seq!['/'] + (w1 + text::decimal(n as nat) + w2),
        text::all_white(w1),
        text::all_white(w2),
    ensures
        r is Ok,
        r->Ok_0 == n,
{
    let last = w1 + text::decimal(n as nat) + w2;
    let d = text::decimal(n as nat);
    text::lemma_decimal_digits(n as nat);
    assert(text::is_digit(d[0]) && text::is_digit(d[d.len() - 1]));
    assert forall|i: int| 0 <= i < last.len() implies #[trigger] last[i] != '/' by {
        if i < w1.len() {
            assert(text::is_white_space(w1[i]));
        } else if i < w1.len() + d.len() {
            assert(text::is_digit(d[i - w1.len()]));
        } else {
            assert(text::is_white_space(w2[i - w1.len() - d.len()]));
        }
    }
    text::law_last_piece(head, '/', last);
    text::law_trim(w1, d, w2);
    text::law_number_read(n as nat, 0, u64::MAX as nat);
    assert(Seq::new(0, |i: int| '0') + d =~= d);
}

/// The size of a file is otherwise what is there already, and what is sent, by
/// the header `Content-Length`.
pub proof fn law_size_by_length(
    code: u16,
    status_text: &str,
    start: u64,
    length: &str,
    r: error::Res<u64>,
    n: u64,
)
    requires
        code == 200 || code == 206,
        call_ensures(
            fetched_size,
            (code, status_text, start, Some(length), None::<&str>),
            r,
        ),
        length@ == text::decimal(n as nat),
        start + n <= u64::MAX,
    ensures
        r is Ok,
        r->Ok_0 == start + n,
{
    text::law_number_read(n as nat, 0, u64::MAX as nat);
    assert(Seq::new(0, |i: int| '0') + text::decimal(n as nat) =~= text::decimal(n as nat));
}

/// A whole file has the size that its length says, whatever range is named.
pub proof fn law_whole_file_size(
    status_text: &str,
    start: u64,
    length: Option<&str>,
    range: Option<&str>,
    r: error::Res<u64>,
    s: error::Res<u64>,
)
    requires
        call_ensures(fetched_size, (200u16, status_text, start, length, range), r),
        call_ensures(fetched_size, (200u16, status_text, start, length, None::<&str>), s),
    ensures
        r is Ok && s is Ok,
        r->Ok_0 == s->Ok_0,
        length is None ==> r->Ok_0 == start,
{
}

/// A request has as long as is configured, and at least a second.
pub proof fn law_request_timeout(secs: u64, n: u64)
    requires
        call_ensures(request_timeout, (secs,), n),
    ensures
        secs > 0 ==> n == secs,
        secs == 0 ==> n == 1,
{
}

/// A header that says no number counts for nothing: without the size of the
/// whole file, its size is what is there already and what is sent; without a
/// length, what is there already.
pub proof fn law_unreadable_headers(
    status_text: &str,
    start: u64,
    length: &str,
    range: &str,
    bad: &str,
    r: error::Res<u64>,
    s: error::Res<u64>,
    n: u64,
    i: int,
    head: Seq<char>,
)
    requires
        call_ensures(fetched_size, (206u16, status_text, start, Some(length), Some(range)), r),
        call_ensures(fetched_size, (206u16, status_text, start, Some(bad), None::<&str>), s),
        length@ == text::decimal(n as nat),
        start + n <= u64::MAX,
        text::is_trimmed(bad@),
        range@ == head + seq!['/'] + bad@,
        forall|k: int| 0 <= k < bad@.len() ==> #[trigger] bad@[k] != '/',
        0 <= i < bad@.len(),
        !('0' <= bad@[i] && bad@[i] <= '9'),
        i == 0 ==> bad@[0] != '+',
    ensures
        r is Ok && r->Ok_0 == start + n,
        s is Ok && s->Ok_0 == start,
{
    let none = Seq::<char>::empty();
    text::law_last_piece(head, '/', bad@);
    text::law_trim(none, bad@, none);
    assert(none + bad@ + none =~= bad@);
    text::law_no_number(bad@, i, u64::MAX as nat);
    text::law_number_read(n as nat, 0, u64::MAX as nat);
    assert(Seq::new(0, |i: int| '0') + text::decimal(n as nat) =~= text::decimal(n as nat));
}

} // verus!
