//! The latest uploads, kept as a file of the service itself.

use vstd::prelude::*;
use vstd::string::*;
use crate::text;
use crate::text::{numeral, same_text};

verus! {

/// The key of the file that holds the latest uploads.
pub const HISTORY_KEY: &'static str = "cztesthistoryupload10";

/// How many uploads are kept.
pub const HISTORY_LIMIT: usize = 10;

/// An upload: its key, the name of the file, and when it was made, in seconds
/// since the epoch.
#[derive(Debug, Clone)]
pub struct HistoryItem {
    pub key: String,
    pub name: String,
    pub time: u64,
}

/// What is kept of an upload.
#[verifier::ext_equal]
pub ghost struct Record {
    pub key: Seq<char>,
    pub name: Seq<char>,
    pub time: u64,
}

impl View for HistoryItem {
    type V = Record;

    open spec fn view(&self) -> Record {
        Record { key: self.key@, name: self.name@, time: self.time }
    }
}

/// Whether an upload has a key other than the name of the file, which is then
/// shown beside the name.
pub fn has_other_key(item: &HistoryItem) -> (b: bool)
    ensures
        b == (item@.key != item@.name),
{
    !same_text(item.key.as_str(), item.name.as_str())
}

/// What is kept of the uploads.
pub open spec fn records(items: Seq<HistoryItem>) -> Seq<Record> {
    items.map_values(|it: HistoryItem| it@)
}

/// The records of uploads to other keys.
pub open spec fn without_key(items: Seq<Record>, key: Seq<char>) -> Seq<Record>
    decreases items.len(),
{
    if items.len() == 0 {
        Seq::empty()
    } else if items.last().key == key {
        without_key(items.drop_last(), key)
    } else {
        without_key(items.drop_last(), key).push(items.last())
    }
}

/// The first `n` of the records.
pub open spec fn shortened(items: Seq<Record>, n: nat) -> Seq<Record> {
    if items.len() > n {
        items.take(n as int)
    } else {
        items
    }
}

/// The records with a new one in front: it takes the place of the one with its
/// key, and only the latest stay.
pub open spec fn recorded(items: Seq<Record>, item: Record) -> Seq<Record> {
    shortened(seq![item] + without_key(items, item.key), HISTORY_LIMIT as nat)
}

/// The records with a new upload in front.
pub fn with_upload(items: Vec<HistoryItem>, key: &str, name: &str, now: u64) -> (r: Vec<
    HistoryItem,
>)
    ensures
        records(r@) == recorded(
            records(items@),
            (Record { key: key@, name: name@, time: now }),
        ),
{
    let ghost all = records(items@);
    let first = HistoryItem { key: key.to_string(), name: name.to_string(), time: now };
    let mut out: Vec<HistoryItem> = Vec::new();
    out.push(first);
    let n: usize = items.len();
    let mut i: usize = 0;
    assert(records(out@) =~= seq![first@] + without_key(all.take(0), key@));
    while i < n
        invariant
            i <= n,
            n == items@.len(),
            all == records(items@),
            records(out@) == seq![first@] + without_key(all.take(i as int), key@),
        decreases n - i,
    {
        let ghost before = out@;
        let ghost next = all.take(i + 1);
        assert(next.drop_last() =~= all.take(i as int));
        assert(next.last() == items@[i as int]@);
        let it = &items[i];
        if !same_text(it.key.as_str(), key) {
            let copy = HistoryItem { key: it.key.clone(), name: it.name.clone(), time: it.time };
            assert(copy@ =~= it@);
            out.push(copy);
            assert(records(out@) =~= records(before).push(it@));
        }
        i = i + 1;
        assert(records(out@) =~= seq![first@] + without_key(next, key@));
    }
    assert(all.take(n as int) =~= all);
    let ghost full = records(out@);
    if out.len() > HISTORY_LIMIT {
        out.truncate(HISTORY_LIMIT);
        assert(records(out@) =~= full.take(HISTORY_LIMIT as int));
    }
    out
}

/// The name under which the file with the latest uploads is uploaded.
pub fn history_file_name() -> (s: String)
    ensures
        s@ == HISTORY_KEY@ + ".png"@,
{
    HISTORY_KEY.to_string().concat(".png")
}

/// What is logged after an upload was recorded.
pub fn recorded_note(count: usize) -> (s: String)
    ensures
        s@ == "最近上传已更新："@ + text::decimal(count as nat) + " 条记录"@,
{
    let mut s = "最近上传已更新：".to_string();
    s.append(numeral(count as u128).as_str());
    s.append(" 条记录");
    s
}

proof fn lemma_without_key(items: Seq<Record>, key: Seq<char>)
    ensures
        without_key(items, key).len() <= items.len(),
        forall|i: int|
            0 <= i < without_key(items, key).len() ==> (#[trigger] without_key(items, key)[i]).key
                != key && items.contains(without_key(items, key)[i]),
        forall|x: Record|
            items.contains(x) && x.key != key ==> #[trigger] without_key(items, key).contains(x),
    decreases items.len(),
{
    if items.len() > 0 {
        let rest = items.drop_last();
        let w = without_key(items, key);
        lemma_without_key(rest, key);
        assert forall|i: int| 0 <= i < w.len() implies (#[trigger] w[i]).key != key
            && items.contains(w[i]) by {
            if i < without_key(rest, key).len() {
                assert(w[i] == without_key(rest, key)[i]);
                let k = choose|k: int| 0 <= k < rest.len() && rest[k] == w[i];
                assert(items[k] == w[i]);
            } else {
                assert(items[items.len() - 1] == w[i]);
            }
        }
        assert forall|x: Record| items.contains(x) && x.key != key implies #[trigger] w.contains(
            x,
        ) by {
            let k = choose|k: int| 0 <= k < items.len() && items[k] == x;
            if k == items.len() - 1 {
                assert(w[w.len() - 1] == x);
            } else {
                assert(rest[k] == x);
                assert(rest.contains(x));
                assert(without_key(rest, key).contains(x));
                let j = choose|j: int|
                    0 <= j < without_key(rest, key).len() && without_key(rest, key)[j] == x;
                assert(w[j] == x);
            }
        }
    }
}

/// The latest upload stands first, no other record has its key, there are at
/// most as many records as are kept, and each of the others was there before.
pub proof fn law_latest_first(items: Seq<Record>, item: Record)
    ensures
        ({
            let r = recorded(items, item);
            &&& 0 < r.len() <= HISTORY_LIMIT
            &&& r[0] == item
            &&& forall|i: int|
                0 < i < r.len() ==> (#[trigger] r[i]).key != item.key && items.contains(r[i])
        }),
{
    lemma_without_key(items, item.key);
    let w = without_key(items, item.key);
    let r = recorded(items, item);
    assert forall|i: int| 0 < i < r.len() implies (#[trigger] r[i]).key != item.key
        && items.contains(r[i]) by {
        assert(r[i] == w[i - 1]);
    }
}

/// Where there is room, no record of another key is lost.
pub proof fn law_others_kept(items: Seq<Record>, item: Record, other: Record)
    requires
        items.len() < HISTORY_LIMIT,
        items.contains(other),
        other.key != item.key,
    ensures
        recorded(items, item).contains(other),
{
    lemma_without_key(items, item.key);
    let w = without_key(items, item.key);
    assert(w.contains(other));
    let k = choose|k: int| 0 <= k < w.len() && w[k] == other;
    assert(recorded(items, item)[k + 1] == other);
}

/// Whether no two records have the same key.
pub open spec fn distinct_keys(items: Seq<Record>) -> bool {
    forall|i: int, j: int|
        0 <= i < j < items.len() ==> (#[trigger] items[i]).key != (#[trigger] items[j]).key
}

proof fn lemma_distinct_without(items: Seq<Record>, key: Seq<char>)
    requires
        distinct_keys(items),
    ensures
        distinct_keys(without_key(items, key)),
    decreases items.len(),
{
    if items.len() > 0 {
        let rest = items.drop_last();
        assert(distinct_keys(rest)) by {
            assert forall|i: int, j: int| 0 <= i < j < rest.len() implies (#[trigger] rest[i]).key
                != (#[trigger] rest[j]).key by {
                assert(items[i].key != items[j].key);
            }
        }
        lemma_distinct_without(rest, key);
        lemma_without_key(rest, key);
        let w = without_key(items, key);
        let u = without_key(rest, key);
        assert forall|i: int, j: int| 0 <= i < j < w.len() implies (#[trigger] w[i]).key != (
        #[trigger] w[j]).key by {
            assert(w[i] == u[i]);
            if j < u.len() {
                assert(w[j] == u[j]);
            } else {
                assert(w[j] == items.last());
                assert(rest.contains(u[i]));
                let k = choose|k: int| 0 <= k < rest.len() && rest[k] == u[i];
                assert(items[k].key != items[items.len() - 1].key);
            }
        }
    }
}

/// Records with distinct keys keep them distinct.
pub proof fn law_keys_stay_distinct(items: Seq<Record>, item: Record)
    requires
        distinct_keys(items),
    ensures
        distinct_keys(recorded(items, item)),
{
    lemma_distinct_without(items, item.key);
    lemma_without_key(items, item.key);
    let w = without_key(items, item.key);
    let r = recorded(items, item);
    assert forall|i: int, j: int| 0 <= i < j < r.len() implies (#[trigger] r[i]).key != (
    #[trigger] r[j]).key by {
        assert(r[j] == w[j - 1]);
        if i > 0 {
            assert(r[i] == w[i - 1]);
        }
    }
}

proof fn lemma_without_is_filter(items: Seq<Record>, key: Seq<char>)
    ensures
        without_key(items, key) == items.filter(|x: Record| x.key != key),
    decreases items.len(),
{
    reveal(Seq::filter);
    if items.len() > 0 {
        lemma_without_is_filter(items.drop_last(), key);
    }
}

/// A new upload stands first, with its key, its name and its time; behind it
/// stand the uploads to other keys, in their order, and in all there are at most
/// ten.
pub proof fn law_upload_recorded(
    items: Vec<HistoryItem>,
    key: &str,
    name: &str,
    now: u64,
    r: Vec<HistoryItem>,
)
    requires
        call_ensures(with_upload, (items, key, name, now), r),
    ensures
        ({
            let others = records(items@).filter(|x: Record| x.key != key@);
            &&& r@.len() == if others.len() < 9 {
                others.len() + 1
            } else {
                10
            }
            &&& r@[0].key@ == key@ && r@[0].name@ == name@ && r@[0].time == now
            &&& forall|i: int| 0 < i < r@.len() ==> (#[trigger] r@[i])@ == others[i - 1]
        }),
{
    lemma_without_is_filter(records(items@), key@);
    let all = records(r@);
    assert(all.len() == r@.len());
    assert(all[0] == r@[0]@);
    assert forall|i: int| 0 < i < r@.len() implies (#[trigger] r@[i])@ == records(items@).filter(
        |x: Record| x.key != key@,
    )[i - 1] by {
        assert(all[i] == r@[i]@);
    }
}

/// The uploads are kept under a key of their own, in a file that the server
/// takes for a picture.
pub proof fn law_history_file(s: String)
    requires
        call_ensures(history_file_name, (), s),
    ensures
        HISTORY_KEY@ == "cztesthistoryupload10"@,
        s@ == "cztesthistoryupload10"@ + ".png"@,
{
}

} // verus!
