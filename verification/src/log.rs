//! The log of what the program does, for display.

use vstd::prelude::*;
use vstd::string::*;
use crate::clock;
use crate::clock::now_secs;

verus! {

/// The number of entries that are kept.
pub const CAPACITY: usize = 2000;

/// An entry: when it was made, in seconds since the epoch, its level (`INFO`,
/// `OK`, `WARN` or `ERR`), and its text.
#[derive(Clone)]
pub struct LogEntry {
    pub t: u64,
    pub level: &'static str,
    pub msg: String,
}

/// What an entry says.
#[verifier::ext_equal]
pub ghost struct EntryText {
    pub t: u64,
    pub level: Seq<char>,
    pub msg: Seq<char>,
}

impl View for LogEntry {
    type V = EntryText;

    open spec fn view(&self) -> EntryText {
        EntryText { t: self.t, level: self.level@, msg: self.msg@ }
    }
}

/// What the entries say.
pub open spec fn entry_texts(v: Seq<LogEntry>) -> Seq<EntryText> {
    v.map_values(|e: LogEntry| e@)
}

/// The latest entries.
pub struct LogBuf {
    entries: Vec<LogEntry>,
}

impl View for LogBuf {
    type V = Seq<EntryText>;

    closed spec fn view(&self) -> Seq<EntryText> {
        entry_texts(self.entries@)
    }
}

impl LogBuf {
    #[verifier::type_invariant]
    spec fn bounded(&self) -> bool {
        self.entries@.len() <= CAPACITY
    }

    /// The number of entries, which never exceeds the capacity.
    pub fn len(&self) -> (n: usize)
        ensures
            n == self@.len(),
            n <= CAPACITY,
    {
        proof {
            use_type_invariant(self);
        }
        self.entries.len()
    }
}

/// The entries that stay when one more is added: those that leave room for it
/// within the capacity, the latest.
pub open spec fn kept(entries: Seq<EntryText>) -> Seq<EntryText> {
    if entries.len() >= CAPACITY {
        entries.skip(entries.len() - CAPACITY + 1)
    } else {
        entries
    }
}

/// The last `n` of the entries.
pub open spec fn latest(entries: Seq<EntryText>, n: nat) -> Seq<EntryText> {
    if entries.len() > n {
        entries.skip(entries.len() - n)
    } else {
        entries
    }
}

/// A log without entries.
pub fn new_buf() -> (log: LogBuf)
    ensures
        log@ == Seq::<EntryText>::empty(),
{
    let log = LogBuf { entries: Vec::new() };
    assert(log@ =~= Seq::<EntryText>::empty());
    log
}

/// Adds an entry made at `t`.
pub fn push_at(log: &mut LogBuf, t: u64, level: &'static str, msg: String)
    ensures
        final(log)@ == kept(old(log)@).push((EntryText { t, level: level@, msg: msg@ })),
{
    let ghost before = log@;
    let mut entries: Vec<LogEntry> = Vec::new();
    std::mem::swap(&mut entries, &mut log.entries);
    let mut gone: usize = 0;
    let total: usize = entries.len();
    let ghost all = entries@;
    assert(all.skip(0) =~= all);
    while entries.len() >= CAPACITY
        invariant
            gone <= total,
            total == all.len(),
            entries@ == all.skip(gone as int),
            gone > 0 ==> entries@.len() >= CAPACITY - 1,
        decreases entries@.len(),
    {
        entries.remove(0);
        gone = gone + 1;
        assert(entries@ =~= all.skip(gone as int));
    }
    assert(entry_texts(entries@) =~= kept(before));
    entries.push(LogEntry { t, level, msg });
    assert(entry_texts(entries@) =~= kept(before).push(
        (EntryText { t, level: level@, msg: msg@ }),
    ));
    log.entries = entries;
}

/// Adds an entry made at the time that the clock reads.
pub fn push(log: &mut LogBuf, level: &'static str, msg: String)
    ensures
        exists|r: Result<std::time::Duration, std::time::SystemTimeError>, t: u64|
            #[trigger] clock::secs_read(r, t) && final(log)@ == kept(old(log)@).push(
                (EntryText { t, level: level@, msg: msg@ }),
            ),
{
    let t: u64 = now_secs();
    push_at(log, t, level, msg);
}

/// Removes all entries.
pub fn clear(log: &mut LogBuf)
    ensures
        final(log)@ == Seq::<EntryText>::empty(),
{
    log.entries = Vec::new();
    assert(log@ =~= Seq::<EntryText>::empty());
}

/// Copies of the last `n` entries.
pub fn recent(log: &LogBuf, n: usize) -> (r: Vec<LogEntry>)
    ensures
        entry_texts(r@) == latest(log@, n as nat),
{
    let total: usize = log.entries.len();
    let start: usize = if total > n {
        total - n
    } else {
        0
    };
    let mut r: Vec<LogEntry> = Vec::new();
    let mut i: usize = start;
    while i < total
        invariant
            start <= i <= total,
            total == log.entries@.len(),
            entry_texts(r@) == entry_texts(log.entries@.subrange(start as int, i as int)),
        decreases total - i,
    {
        let ghost before = r@;
        let ghost part = log.entries@.subrange(start as int, i as int);
        let e = &log.entries[i];
        let copy = LogEntry { t: e.t, level: e.level, msg: e.msg.clone() };
        assert(copy@ =~= e@);
        r.push(copy);
        assert(entry_texts(r@) =~= entry_texts(before).push(e@));
        assert(log.entries@.subrange(start as int, i + 1) =~= part.push(*e));
        assert(entry_texts(part.push(*e)) =~= entry_texts(part).push(e@));
        i = i + 1;
    }
    assert(entry_texts(r@) =~= latest(log@, n as nat));
    r
}

/// A new entry is the last, it is never dropped, and of the others the latest
/// stay, in their order.
pub proof fn law_latest_kept(entries: Seq<EntryText>, e: EntryText)
    ensures
        ({
            let after = kept(entries).push(e);
            &&& after.len() <= CAPACITY
            &&& after.last() == e
            &&& forall|i: int|
                0 <= i < after.len() - 1 ==> #[trigger] after[i] == entries[entries.len()
                    - after.len() + 1 + i]
            &&& entries.len() < CAPACITY ==> after.len() == entries.len() + 1
        }),
{
}

/// A new entry is the last, with its time, its level and its text; before it
/// stand the entries that were there, in their order, but no more than 1999, the
/// latest.
pub proof fn law_entry_added(log: &mut LogBuf, t: u64, level: &'static str, msg: String, r: ())
    requires
        call_ensures(push_at, (log, t, level, msg), r),
    ensures
        ({
            let before = old(log)@;
            let after = final(log)@;
            let stay = if before.len() < 1999 {
                before.len() as int
            } else {
                1999
            };
            &&& after.len() == stay + 1
            &&& after.last().t == t && after.last().level == level@ && after.last().msg == msg@
            &&& forall|i: int|
                0 <= i < stay ==> #[trigger] after[i] == before[before.len() - stay + i]
        }),
{
}

/// What is shown are the last entries, in their order, and no more than there
/// are.
pub proof fn law_recent(log: &LogBuf, n: usize, r: Vec<LogEntry>)
    requires
        call_ensures(recent, (log, n), r),
    ensures
        ({
            let shown = if log@.len() < n {
                log@.len() as int
            } else {
                n as int
            };
            &&& r@.len() == shown
            &&& forall|i: int|
                0 <= i < shown ==> (#[trigger] r@[i])@ == log@[log@.len() - shown + i]
        }),
{
    let texts = entry_texts(r@);
    assert(texts.len() == r@.len());
    assert forall|i: int| 0 <= i < r@.len() implies (#[trigger] r@[i])@ == texts[i] by {}
}

/// A cleared log and a new one have no entries.
pub proof fn law_log_cleared(log: &mut LogBuf, r: (), fresh: LogBuf)
    requires
        call_ensures(clear, (log,), r),
        call_ensures(new_buf, (), fresh),
    ensures
        final(log)@.len() == 0,
        fresh@.len() == 0,
{
}

} // verus!
