//! The list of transfers that the window shows.

use vstd::prelude::*;
use vstd::string::*;
use crate::binary;
use crate::binary::Float;
use crate::error::Res;
use crate::progress;
use crate::progress::{find_task, TaskState};
use crate::size;
use crate::size::human_bytes;
use crate::text;
use crate::text::{numeral, same_text};

verus! {

/// How many transfers are shown.
pub const VISIBLE: usize = 12;

/// How good or bad what is shown is.
#[derive(Debug, Clone, Copy, PartialEq, Eq, Structural)]
pub enum Severity {
    Neutral,
    Good,
    Warning,
    Bad,
}

/// A transfer that starts.
pub open spec fn started_task(
    id: nat,
    kind: Seq<char>,
    name: Seq<char>,
    key: Seq<char>,
    out: Seq<char>,
    total: nat,
) -> progress::Task {
    progress::Task {
        id,
        kind,
        name,
        key,
        out,
        total,
        done: 0,
        speed: 0,
        status: "running"@,
        error: Seq::empty(),
        url: Seq::empty(),
    }
}

/// Adds a transfer that starts, under the next id, and returns this.
pub fn push_task(
    v: &mut Vec<TaskState>,
    next_id: &mut u64,
    kind: &str,
    name: &str,
    key: &str,
    out: &str,
    total: u64,
) -> (id: u64)
    requires
        *old(next_id) < u64::MAX,
    ensures
        id == *old(next_id),
        *final(next_id) == *old(next_id) + 1,
        progress::tasks(final(v)@) == progress::tasks(old(v)@).push(
            started_task(id as nat, kind@, name@, key@, out@, total as nat),
        ),
{
    let ghost before = progress::tasks(v@);
    let id: u64 = *next_id;
    *next_id = id + 1;
    let t = TaskState {
        id,
        kind: kind.to_string(),
        name: name.to_string(),
        key: key.to_string(),
        out: out.to_string(),
        total,
        done: 0,
        speed: 0,
        status: "running".to_string(),
        error: String::new(),
        url: String::new(),
    };
    assert(t@ =~= started_task(id as nat, kind@, name@, key@, out@, total as nat));
    v.push(t);
    assert(progress::tasks(v@) =~= before.push(t@));
    id
}

/// Whether all ids are below `next`, and no two are the same.
pub open spec fn ids_distinct(v: Seq<progress::Task>, next: nat) -> bool {
    &&& forall|i: int| 0 <= i < v.len() ==> (#[trigger] v[i]).id < next
    &&& forall|i: int, j: int|
        0 <= i < j < v.len() ==> (#[trigger] v[i]).id != (#[trigger] v[j]).id
}

/// A new transfer gets an id that no other has.
pub proof fn law_ids_stay_distinct(v: Seq<progress::Task>, t: progress::Task)
    requires
        ids_distinct(v, t.id),
    ensures
        ids_distinct(v.push(t), t.id + 1),
{
}

/// What a transfer is listed as when it has ended: with its URL, or with its
/// error.
pub open spec fn ended_task(t: progress::Task, result: Res<Seq<char>>) -> progress::Task {
    match result {
        Ok(url) => progress::Task {
            url,
            status: if t.status == "running"@ {
                "done"@
            } else {
                t.status
            },
            ..t
        },
        Err(e) => progress::Task { status: "error"@, error: e.msg@, ..t },
    }
}

/// The level and the message that are logged of a transfer that has ended.
pub open spec fn ended_note(t: progress::Task) -> Option<(Seq<char>, Seq<char>)> {
    if t.status == "error"@ {
        Some(("ERR"@, "["@ + t.kind + "] "@ + t.name + " 失败："@ + t.error))
    } else if t.status == "done"@ {
        Some(("OK"@, "["@ + t.kind + "] "@ + t.name + " 完成"@))
    } else {
        None
    }
}

/// The URL of a result, as a text.
pub open spec fn result_text(r: Res<String>) -> Res<Seq<char>> {
    match r {
        Ok(s) => Ok(s@),
        Err(e) => Err(e),
    }
}

/// An entry for the log: its level and its message.
pub struct Note {
    pub level: &'static str,
    pub msg: String,
}

/// What a note says.
pub open spec fn note_text(n: Option<Note>) -> Option<(Seq<char>, Seq<char>)> {
    match n {
        Some(n) => Some((n.level@, n.msg@)),
        None => None,
    }
}

/// Lists the transfer `id` as ended. Returns what is to be logged.
pub fn finish_task(v: &mut Vec<TaskState>, id: u64, result: Res<String>) -> (r: Option<Note>)
    ensures
        ({
            let before = progress::tasks(old(v)@);
            match progress::task_at(before, id as nat) {
                Some(i) => {
                    let t = ended_task(before[i], result_text(result));
                    &&& progress::tasks(final(v)@) == before.update(i, t)
                    &&& note_text(r) == ended_note(t)
                },
                None => progress::tasks(final(v)@) == before && r is None,
            }
        }),
{
    let ghost before = progress::tasks(v@);
    match find_task(v, id) {
        Some(i) => {
            let mut t = v.remove(i);
            let ghost t0 = t@;
            assert(t0 == before[i as int]);
            match result {
                Ok(url) => {
                    t.url = url;
                    if same_text(t.status.as_str(), "running") {
                        t.status = "done".to_string();
                    }
                },
                Err(e) => {
                    t.status = "error".to_string();
                    t.error = e.msg;
                },
            }
            assert(t@ =~= ended_task(t0, result_text(result)));
            let mut msg = "[".to_string();
            msg.append(t.kind.as_str());
            msg.append("] ");
            msg.append(t.name.as_str());
            let note: Option<Note> = if same_text(t.status.as_str(), "error") {
                msg.append(" 失败：");
                msg.append(t.error.as_str());
                Some(Note { level: "ERR", msg })
            } else if same_text(t.status.as_str(), "done") {
                msg.append(" 完成");
                Some(Note { level: "OK", msg })
            } else {
                None
            };
            v.insert(i, t);
            assert(progress::tasks(v@) =~= before.update(i as int, t@));
            note
        },
        None => None,
    }
}

/// A transfer that failed is listed and logged as failed, with what went
/// wrong.
pub proof fn law_failure_shown(t: progress::Task, result: Res<Seq<char>>)
    requires
        result is Err,
    ensures
        ended_task(t, result).status == "error"@,
        ended_task(t, result).error == result->Err_0.msg@,
        ended_note(ended_task(t, result)) == Some(
            ("ERR"@, "["@ + t.kind + "] "@ + t.name + " 失败："@ + result->Err_0.msg@),
        ),
{
}

/// Whether a transfer is under way.
pub open spec fn is_running(t: progress::Task) -> bool {
    t.status == "running"@
}

/// Whether one of the transfers is under way.
pub open spec fn some_running(v: Seq<progress::Task>) -> bool {
    exists|i: int| 0 <= i < v.len() && is_running(#[trigger] v[i])
}

/// Whether a transfer is under way.
pub fn any_running(v: &Vec<TaskState>) -> (b: bool)
    ensures
        b == some_running(progress::tasks(v@)),
{
    let ghost all = progress::tasks(v@);
    let n: usize = v.len();
    let mut i: usize = 0;
    while i < n
        invariant
            i <= n,
            n == v@.len(),
            all == progress::tasks(v@),
            forall|k: int| 0 <= k < i ==> !is_running(#[trigger] all[k]),
        decreases n - i,
    {
        assert(all[i as int] == v@[i as int]@);
        if same_text(v[i].status.as_str(), "running") {
            assert(is_running(all[i as int]));
            return true;
        }
        i = i + 1;
    }
    false
}

/// The transfers that are under way.
pub open spec fn running(v: Seq<progress::Task>) -> Seq<progress::Task>
    decreases v.len(),
{
    if v.len() == 0 {
        Seq::empty()
    } else if is_running(v[0]) {
        seq![v[0]] + running(v.skip(1))
    } else {
        running(v.skip(1))
    }
}

/// Removes the transfers that are not under way.
pub fn clear_finished(v: &mut Vec<TaskState>)
    ensures
        progress::tasks(final(v)@) == running(progress::tasks(old(v)@)),
{
    let ghost all = progress::tasks(v@);
    let mut i: usize = 0;
    assert(all.take(0) + all.skip(0) =~= all);
    assert(Seq::<progress::Task>::empty() + running(all) =~= running(all));
    assert(all.take(0) =~= Seq::<progress::Task>::empty());
    assert(all.skip(0) =~= all);
    while i < v.len()
        invariant
            i <= v@.len(),
            running(all) == progress::tasks(v@).take(i as int) + running(
                progress::tasks(v@).skip(i as int),
            ),
        decreases v@.len() - i,
    {
        let ghost now = progress::tasks(v@);
        let ghost rest = now.skip(i as int);
        assert(rest[0] == v@[i as int]@);
        if same_text(v[i].status.as_str(), "running") {
            assert(now.skip(i + 1) =~= rest.skip(1));
            assert(now.take(i + 1) + running(now.skip(i + 1)) =~= now.take(i as int) + running(
                rest,
            ));
            i = i + 1;
        } else {
            v.remove(i);
            let ghost after = progress::tasks(v@);
            assert(after.take(i as int) =~= now.take(i as int));
            assert(after.skip(i as int) =~= rest.skip(1));
        }
    }
    assert(progress::tasks(v@).skip(i as int).len() == 0);
    assert(progress::tasks(v@).take(i as int) =~= progress::tasks(v@));
    assert(progress::tasks(v@) + running(progress::tasks(v@).skip(i as int)) =~= progress::tasks(
        v@,
    ));
}

/// How many transfers are shown.
pub fn visible_count(n: usize) -> (r: usize)
    ensures
        r == (if n < VISIBLE {
            n
        } else {
            VISIBLE
        }),
{
    if n < VISIBLE {
        n
    } else {
        VISIBLE
    }
}

// ---------------------------------------------------------------------------
// What is shown of a transfer.
// ---------------------------------------------------------------------------

/// The part that is done, with single precision, at most one.
pub open spec fn fraction(done: nat, total: nat) -> binary::Dyadic {
    let x = binary::over(binary::nearest(done, 1, 24), binary::nearest(total, 1, 24), 24);
    if progress::exceeds_one(x) {
        binary::Dyadic { m: 1, e: 0 }
    } else {
        x
    }
}

/// The percentage that is done, of a transfer whose size is known.
pub open spec fn percentage(done: nat, total: nat) -> nat {
    binary::truncated(binary::times(fraction(done, total), 100, 24)) as nat
}

/// The seconds that are left, at this speed.
pub open spec fn seconds_left(done: nat, total: nat, speed: nat) -> nat {
    binary::truncated(
        binary::over(
            binary::nearest((total - done) as nat, 1, 53),
            binary::nearest(speed, 1, 53),
            53,
        ),
    ) as nat
}

/// How far a transfer has come, in words.
pub open spec fn detail_text(done: nat, total: nat, speed: nat) -> Seq<char> {
    let so_far = if total > 0 {
        text::decimal(percentage(done, total)) + "% · "@ + size::size_text(done) + " / "@
            + size::size_text(total) + " · "@ + size::size_text(speed) + "/s"@
    } else {
        "已接收 "@ + size::size_text(done) + " · "@ + size::size_text(speed) + "/s"@
    };
    if total > 0 && done < total && speed > 0 {
        so_far + " · 剩余 "@ + text::decimal(seconds_left(done, total, speed)) + "s"@
    } else {
        so_far
    }
}

/// The percentage that is listed is never more than 100.
pub proof fn law_listed_percentage_bounded(done: nat, total: nat)
    ensures
        percentage(done, total) <= 100,
{
    vstd::arithmetic::power2::lemma2_to64();
    vstd::arithmetic::power2::lemma2_to64_rest();
    let x = fraction(done, total);
    assert(1 * vstd::arithmetic::power2::pow2(0) == 1);
    assert(x.num() <= x.den());
    binary::lemma_times_bounded(x, 100, 24);
}

fn percent_done(done: u64, total: u64) -> (n: u64)
    requires
        total > 0,
    ensures
        n == percentage(done as nat, total as nat),
{
    let x = Float::over(Float::from_u64(done, 24), Float::from_u64(total, 24), 24);
    let f: Float = if x.exceeds_one() {
        Float { m: 1, e: 0 }
    } else {
        x
    };
    Float::times(f, 100, 24).to_u64()
}

/// How far a transfer has come, in words.
pub fn task_detail(done: u64, total: u64, speed: u64) -> (s: String)
    ensures
        s@ == detail_text(done as nat, total as nat, speed as nat),
{
    let mut s: String = if total > 0 {
        let mut s = numeral(percent_done(done, total) as u128);
        s.append("% · ");
        s.append(human_bytes(done).as_str());
        s.append(" / ");
        s.append(human_bytes(total).as_str());
        s.append(" · ");
        s.append(human_bytes(speed).as_str());
        s.append("/s");
        s
    } else {
        let mut s = "已接收 ".to_string();
        s.append(human_bytes(done).as_str());
        s.append(" · ");
        s.append(human_bytes(speed).as_str());
        s.append("/s");
        s
    };
    if total > 0 && done < total && speed > 0 {
        let left = Float::over(Float::from_u64(total - done, 53), Float::from_u64(speed, 53), 53);
        s.append(" · 剩余 ");
        s.append(numeral(left.to_u64() as u128).as_str());
        s.append("s");
    }
    s
}

/// The status of a transfer, in words, and how good it is.
pub open spec fn status_words(status: Seq<char>) -> (Seq<char>, Severity) {
    if status == "running"@ {
        ("进行中"@, Severity::Neutral)
    } else if status == "done"@ {
        ("完成"@, Severity::Good)
    } else {
        ("失败"@, Severity::Bad)
    }
}

/// The status of a transfer, in words, and how good it is.
pub fn status_label(status: &str) -> (r: (&'static str, Severity))
    ensures
        (r.0@, r.1) == status_words(status@),
{
    if same_text(status, "running") {
        ("进行中", Severity::Neutral)
    } else if same_text(status, "done") {
        ("完成", Severity::Good)
    } else {
        ("失败", Severity::Bad)
    }
}

/// The tag of a level of the log, and how good or bad it is.
pub open spec fn level_tag(level: Seq<char>) -> (Seq<char>, Severity) {
    if level == "OK"@ {
        ("OK  "@, Severity::Good)
    } else if level == "WARN"@ {
        ("WARN"@, Severity::Warning)
    } else if level == "ERR"@ {
        ("ERR "@, Severity::Bad)
    } else {
        ("INFO"@, Severity::Neutral)
    }
}

/// The tag of a level of the log, and how good or bad it is.
pub fn log_style(level: &str) -> (r: (&'static str, Severity))
    ensures
        (r.0@, r.1) == level_tag(level@),
{
    if same_text(level, "OK") {
        ("OK  ", Severity::Good)
    } else if same_text(level, "WARN") {
        ("WARN", Severity::Warning)
    } else if same_text(level, "ERR") {
        ("ERR ", Severity::Bad)
    } else {
        ("INFO", Severity::Neutral)
    }
}

/// Whether the key is shown beside the name: where it says more.
pub fn shows_key(name: &str, key: &str) -> (b: bool)
    ensures
        b == (key@.len() > 0 && key@ != name@),
{
    !key.is_empty() && !same_text(key, name)
}

// ---------------------------------------------------------------------------
// What the list does, call by call.
// ---------------------------------------------------------------------------

/// A transfer is listed behind the others, as running, with nothing done, under
/// the next id, and the ids go up.
pub proof fn law_task_pushed(
    v: &mut Vec<TaskState>,
    next_id: &mut u64,
    kind: &str,
    name: &str,
    key: &str,
    out: &str,
    total: u64,
    id: u64,
)
    requires
        *old(next_id) < u64::MAX,
        call_ensures(push_task, (v, next_id, kind, name, key, out, total), id),
    ensures
        id == *old(next_id),
        *final(next_id) == id + 1,
        ({
            let before = progress::tasks(old(v)@);
            let after = progress::tasks(final(v)@);
            let t = after.last();
            &&& after.drop_last() == before
            &&& t.id == id && t.kind == kind@ && t.name == name@ && t.key == key@ && t.out == out@
            &&& t.total == total && t.done == 0 && t.speed == 0 && t.status == "running"@
            &&& t.error.len() == 0 && t.url.len() == 0
        }),
{
    let before = progress::tasks(old(v)@);
    let after = progress::tasks(final(v)@);
    assert(after.drop_last() =~= before);
}

/// A transfer that ends well gets its URL, and is done if it was running; one
/// that fails gets its error. What is logged says which it was. No other
/// transfer changes, and without such a transfer nothing does.
pub proof fn law_task_finished(
    v: &mut Vec<TaskState>,
    id: u64,
    result: Res<String>,
    r: Option<Note>,
    i: int,
)
    requires
        call_ensures(finish_task, (v, id, result), r),
        0 <= i < old(v)@.len(),
        progress::tasks(old(v)@)[i].id == id,
        forall|k: int| 0 <= k < i ==> (#[trigger] progress::tasks(old(v)@)[k]).id != id,
    ensures
        ({
            let before = progress::tasks(old(v)@);
            let after = progress::tasks(final(v)@);
            let t = before[i];
            &&& after.len() == before.len()
            &&& forall|k: int| 0 <= k < before.len() && k != i ==> #[trigger] after[k] == before[k]
            &&& after[i].id == t.id && after[i].kind == t.kind && after[i].name == t.name
                && after[i].key == t.key && after[i].out == t.out && after[i].total == t.total
                && after[i].done == t.done
            &&& result is Ok ==> after[i].url == result->Ok_0@ && after[i].error == t.error
            &&& result is Ok && t.status == "running"@ ==> after[i].status == "done"@ && r is Some
                && r->Some_0.level@ == "OK"@ && r->Some_0.msg@ == "["@ + t.kind + "] "@ + t.name
                + " 完成"@
            &&& result is Ok && t.status != "running"@ ==> after[i].status == t.status
            &&& result is Ok && t.status == "done"@ ==> r is Some && r->Some_0.level@ == "OK"@
                && r->Some_0.msg@ == "["@ + t.kind + "] "@ + t.name + " 完成"@
            &&& result is Ok && t.status == "error"@ ==> r is Some && r->Some_0.level@ == "ERR"@
                && r->Some_0.msg@ == "["@ + t.kind + "] "@ + t.name + " 失败："@ + t.error
            &&& result is Err ==> after[i].status == "error"@ && after[i].error
                == result->Err_0.msg@ && after[i].url == t.url && r is Some && r->Some_0.level@
                == "ERR"@ && r->Some_0.msg@ == "["@ + t.kind + "] "@ + t.name + " 失败："@
                + result->Err_0.msg@
        }),
{
    let before = progress::tasks(old(v)@);
    progress::lemma_task_at(before, id as nat);
    reveal_strlit("error");
    reveal_strlit("done");
    reveal_strlit("running");
    assert("error"@[0] != "done"@[0] && "error"@[0] != "running"@[0] && "done"@[0]
        != "running"@[0]);
    match progress::task_at(before, id as nat) {
        Some(k) => {
            if k < i {
                assert(before[k].id != id);
            }
            if i < k {
                assert(before[i].id != id);
            }
        },
        None => {
            assert(before[i].id != id);
        },
    }
}

proof fn lemma_running_is_filter(v: Seq<progress::Task>)
    ensures
        running(v) == v.filter(|t: progress::Task| t.status == "running"@),
    decreases v.len(),
{
    let f = |t: progress::Task| t.status == "running"@;
    if v.len() > 0 {
        lemma_running_is_filter(v.skip(1));
        assert(v =~= seq![v[0]] + v.skip(1));
        Seq::filter_distributes_over_add(seq![v[0]], v.skip(1), f);
        reveal(Seq::filter);
        assert(seq![v[0]].drop_last() =~= Seq::empty());
        assert(seq![v[0]].last() == v[0]);
        if f(v[0]) {
            assert(seq![v[0]].filter(f) =~= seq![v[0]]);
        } else {
            assert(seq![v[0]].drop_last().filter(f) =~= Seq::empty());
            assert(seq![v[0]].filter(f) =~= Seq::empty());
        }
        assert(running(v) =~= v.filter(f));
    } else {
        reveal(Seq::filter);
        assert(running(v) =~= v.filter(f));
    }
}

/// To clear the list leaves the transfers that are running, in their order, and
/// no other.
pub proof fn law_finished_cleared(v: &mut Vec<TaskState>, r: ())
    requires
        call_ensures(clear_finished, (v,), r),
    ensures
        progress::tasks(final(v)@) == progress::tasks(old(v)@).filter(
            |t: progress::Task| t.status == "running"@,
        ),
{
    lemma_running_is_filter(progress::tasks(old(v)@));
}

/// Something is running where one of the transfers is.
pub proof fn law_any_running(v: &Vec<TaskState>, b: bool)
    requires
        call_ensures(any_running, (v,), b),
    ensures
        b <==> exists|i: int| 0 <= i < v@.len() && (#[trigger] v@[i]).status@ == "running"@,
{
    let all = progress::tasks(v@);
    assert forall|i: int| 0 <= i < v@.len() implies (#[trigger] all[i]).status == v@[i].status@ by {}
    if b {
        let i = choose|i: int| 0 <= i < all.len() && is_running(#[trigger] all[i]);
        assert(v@[i].status@ == "running"@);
    } else {
        assert forall|i: int| 0 <= i < v@.len() implies (#[trigger] v@[i]).status@
            != "running"@ by {
            assert(!is_running(all[i]));
        }
    }
}

/// At most twelve transfers are shown.
pub proof fn law_visible_count(n: usize, r: usize)
    requires
        call_ensures(visible_count, (n,), r),
    ensures
        n <= 12 ==> r == n,
        n >= 12 ==> r == 12,
{
}

/// What is shown of a transfer: the percentage, the bytes that are done and
/// those that there are, where these are known, and the speed; and, where the
/// rest has a time, that time.
pub proof fn law_task_detail(
    done: u64,
    total: u64,
    speed: u64,
    s: String,
    d: String,
    t: String,
    v: String,
)
    requires
        call_ensures(task_detail, (done, total, speed), s),
        call_ensures(human_bytes, (done,), d),
        call_ensures(human_bytes, (total,), t),
        call_ensures(human_bytes, (speed,), v),
    ensures
        total == 0 ==> s@ == "已接收 "@ + d@ + " · "@ + v@ + "/s"@,
        total > 0 && (done >= total || speed == 0) ==> s@ == text::decimal(
            percentage(done as nat, total as nat),
        ) + "% · "@ + d@ + " / "@ + t@ + " · "@ + v@ + "/s"@,
        total > 0 && done < total && speed > 0 ==> s@ == text::decimal(
            percentage(done as nat, total as nat),
        ) + "% · "@ + d@ + " / "@ + t@ + " · "@ + v@ + "/s"@ + " · 剩余 "@ + text::decimal(
            seconds_left(done as nat, total as nat, speed as nat),
        ) + "s"@,
{
}

/// The words for a status, and how good it is.
pub proof fn law_status_label(status: &str, r: (&'static str, Severity))
    requires
        call_ensures(status_label, (status,), r),
    ensures
        status@ == "running"@ ==> r.0@ == "进行中"@ && r.1 == Severity::Neutral,
        status@ == "done"@ ==> r.0@ == "完成"@ && r.1 == Severity::Good,
        status@ != "running"@ && status@ != "done"@ ==> r.0@ == "失败"@ && r.1 == Severity::Bad,
{
    reveal_strlit("running");
    reveal_strlit("done");
    assert("running"@[0] != "done"@[0]);
}

/// The tag for a level of the log, and how good or bad it is.
pub proof fn law_log_style(level: &str, r: (&'static str, Severity))
    requires
        call_ensures(log_style, (level,), r),
    ensures
        level@ == "OK"@ ==> r.0@ == "OK  "@ && r.1 == Severity::Good,
        level@ == "WARN"@ ==> r.0@ == "WARN"@ && r.1 == Severity::Warning,
        level@ == "ERR"@ ==> r.0@ == "ERR "@ && r.1 == Severity::Bad,
        level@ != "OK"@ && level@ != "WARN"@ && level@ != "ERR"@ ==> r.0@ == "INFO"@ && r.1
            == Severity::Neutral,
{
    reveal_strlit("OK");
    reveal_strlit("WARN");
    reveal_strlit("ERR");
    assert("OK"@[0] != "WARN"@[0] && "OK"@[0] != "ERR"@[0] && "WARN"@[0] != "ERR"@[0]);
}

/// The key is shown where it says more than the name.
pub proof fn law_key_shown(name: &str, key: &str, b: bool)
    requires
        call_ensures(shows_key, (name, key), b),
    ensures
        b <==> key@.len() > 0 && key@ != name@,
{
}

/// Nothing done is listed as no per cent, and all done, or more, as a hundred.
pub proof fn law_listed_percentage_ends(done: nat, total: nat)
    requires
        total > 0,
    ensures
        percentage(0, total) == 0,
        done >= total ==> percentage(done, total) == 100,
{
    vstd::arithmetic::power2::lemma2_to64();
    vstd::arithmetic::power2::lemma2_to64_rest();
    let y = binary::nearest(total, 1, 24);
    binary::lemma_nearest_bounds(total, 1, 24);
    progress::lemma_positive(y);
    let zero = binary::nearest(0, 1, 24);
    binary::lemma_nearest_zero(1, 24);
    assert(zero.num() == 0) by (nonlinear_arith)
        requires
            zero.num() == 0 * vstd::arithmetic::power2::pow2(0),
    ;
    let q = zero.den() * y.num();
    assert(zero.num() * y.den() == 0 * q && q > 0) by (nonlinear_arith)
        requires
            zero.num() == 0,
            zero.den() == 1,
            y.num() > 0,
            q == zero.den() * y.num(),
    ;
    binary::lemma_nearest_whole(zero.num() * y.den(), q, 0, 24);
    let none = binary::over(zero, y, 24);
    lemma_den_positive(none);
    assert(0 * none.den() == 0 && 0 * 100 == 0) by (nonlinear_arith);
    assert(fraction(0, total) == none);
    binary::lemma_times_whole(none, 0, 100, 24);
    if done >= total {
        let x = binary::nearest(done, 1, 24);
        let r = binary::over(x, y, 24);
        let z = binary::nearest(1, 1, 24);
        binary::lemma_nearest_bounds(done, 1, 24);
        progress::lemma_positive(x);
        assert(total * 1 <= done * 1);
        binary::lemma_nearest_monotone(total, 1, done, 1, 24);
        let p = x.num() * y.den();
        let d = x.den() * y.num();
        assert(p > 0 && d > 0 && 1 * d <= p * 1) by (nonlinear_arith)
            requires
                p == x.num() * y.den(),
                d == x.den() * y.num(),
                y.num() * x.den() <= x.num() * y.den(),
                x.num() > 0,
                y.num() > 0,
                x.den() > 0,
                y.den() > 0,
        ;
        binary::lemma_nearest_monotone(1, 1, p, d, 24);
        binary::lemma_nearest_exact(1, 24);
        lemma_den_positive(r);
        lemma_den_positive(z);
        assert(r.num() >= r.den()) by (nonlinear_arith)
            requires
                z.num() * r.den() <= r.num() * z.den(),
                z.num() == 1 * z.den(),
                z.den() > 0,
        ;
        let f = fraction(done, total);
        let one = binary::Dyadic { m: 1, e: 0 };
        assert(one.num() == 1) by (nonlinear_arith)
            requires
                one.num() == 1 * vstd::arithmetic::power2::pow2(0),
                vstd::arithmetic::power2::pow2(0) == 1,
        ;
        assert(f.num() == 1 * f.den());
        binary::lemma_times_whole(f, 1, 100, 24);
    }
}

proof fn lemma_den_positive(x: binary::Dyadic)
    ensures
        x.den() > 0,
{
    if x.e < 0 {
        vstd::arithmetic::power2::lemma_pow2_pos((-x.e) as nat);
    }
}

/// Where `k` times the speed is left, `k` seconds are.
pub proof fn law_seconds_left(done: nat, total: nat, speed: nat, k: nat)
    requires
        speed > 0,
        done + k * speed == total,
        speed <= 0x20_0000_0000_0000,
        k * speed <= 0x20_0000_0000_0000,
        k <= 0x20_0000_0000_0000,
    ensures
        seconds_left(done, total, speed) == k,
{
    vstd::arithmetic::power2::lemma2_to64();
    vstd::arithmetic::power2::lemma2_to64_rest();
    binary::lemma_nearest_exact(k * speed, 53);
    binary::lemma_nearest_exact(speed, 53);
    binary::lemma_over_whole(
        binary::nearest(k * speed, 1, 53),
        binary::nearest(speed, 1, 53),
        k * speed,
        speed,
        k,
        53,
    );
}

/// Where no transfer has the id, nothing changes, and nothing is logged.
pub proof fn law_no_such_task(
    v: &mut Vec<TaskState>,
    id: u64,
    result: Res<String>,
    r: Option<Note>,
)
    requires
        call_ensures(finish_task, (v, id, result), r),
        forall|k: int|
            0 <= k < old(v)@.len() ==> (#[trigger] progress::tasks(old(v)@)[k]).id != id,
    ensures
        progress::tasks(final(v)@) == progress::tasks(old(v)@),
        r is None,
{
    let before = progress::tasks(old(v)@);
    progress::lemma_task_at(before, id as nat);
}

} // verus!
