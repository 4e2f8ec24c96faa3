//! Looking up a value in a flat JSON object.

use vstd::prelude::*;
use vstd::string::*;
use crate::text;
use crate::text::{chars_of, position_of, position_of_char, text_between, trimmed_start};

verus! {

/// `key` in quotation marks.
pub open spec fn quoted(key: Seq<char>) -> Seq<char> {
    seq!['"'] + key + seq!['"']
}

/// What follows the character `c` at the start of `s`, after white space.
pub open spec fn after_char(s: Seq<char>, c: char) -> Option<Seq<char>> {
    let t = text::trim_start(s);
    if t.len() > 0 && t[0] == c {
        Some(t.skip(1))
    } else {
        None
    }
}

/// The text of `key`: what stands in quotation marks behind the first
/// occurrence of `key` in quotation marks and a colon.
pub open spec fn json_text(s: Seq<char>, key: Seq<char>) -> Option<Seq<char>> {
    let pat = quoted(key);
    match text::find(s, pat) {
        Some(i) => match after_char(s.skip(i + pat.len()), ':') {
            Some(rest) => match after_char(rest, '"') {
                Some(value) => match text::find_char(value, '"') {
                    Some(end) => Some(value.take(end)),
                    None => None,
                },
                None => None,
            },
            None => None,
        },
        None => None,
    }
}

fn rest_after(s: &str, c: char) -> (r: Option<String>)
    ensures
        text::text_of(r) == after_char(s@, c),
{
    let t = trimmed_start(s);
    let v = chars_of(t.as_str());
    let n: usize = v.len();
    if n > 0 && v[0] == c {
        assert(v@.subrange(1, n as int) =~= v@.skip(1));
        Some(text_between(&v, 1, n))
    } else {
        None
    }
}

/// The text of `key` in a flat JSON object.
pub fn json_get(s: &str, key: &str) -> (r: Option<String>)
    ensures
        text::text_of(r) == json_text(s@, key@),
{
    let mut pat: Vec<char> = chars_of(key);
    pat.insert(0, '"');
    pat.push('"');
    assert(pat@ =~= quoted(key@));
    let v = chars_of(s);
    let n: usize = v.len();
    let i: usize = match position_of(&v, &pat) {
        Some(i) => i,
        None => {
            return None;
        },
    };
    let from: usize = i + pat.len();
    assert(v@.subrange(from as int, n as int) =~= v@.skip(from as int));
    let behind = text_between(&v, from, n);
    let rest = match rest_after(behind.as_str(), ':') {
        Some(r) => r,
        None => {
            return None;
        },
    };
    let value = match rest_after(rest.as_str(), '"') {
        Some(r) => r,
        None => {
            return None;
        },
    };
    let w = chars_of(value.as_str());
    match position_of_char(&w, '"', 0) {
        Some(end) => {
            assert(w@.subrange(0, end as int) =~= w@.take(end as int));
            Some(text_between(&w, 0, end))
        },
        None => None,
    }
}

/// A member of an object is found by its key, where nothing before it looks
/// like the key, and its value holds no quotation mark.
pub proof fn law_member_found(
    before: Seq<char>,
    key: Seq<char>,
    value: Seq<char>,
    after: Seq<char>,
)
    requires
        forall|j: int|
            0 <= j < before.len() ==> !#[trigger] text::occurs_at(
                before + quoted(key) + seq![':'] + quoted(value) + after,
                quoted(key),
                j,
            ),
        forall|i: int| 0 <= i < value.len() ==> #[trigger] value[i] != '"',
    ensures
        json_text(before + quoted(key) + seq![':'] + quoted(value) + after, key) == Some(value),
{
    let pat = quoted(key);
    let s = before + pat + seq![':'] + quoted(value) + after;
    let at = before.len() as int;
    text::lemma_find_from(s, pat, 0);
    assert(s.subrange(at, at + pat.len()) =~= pat);
    assert(text::occurs_at(s, pat, at));
    match text::find(s, pat) {
        Some(p) => {
            if p < at {
                assert(text::occurs_at(s, pat, p));
            }
        },
        None => {},
    }
    let rest = s.skip(at + pat.len());
    assert(rest =~= seq![':'] + (quoted(value) + after));
    assert(rest[0] == ':');
    assert(text::trim_start(rest) == rest);
    assert(rest.skip(1) =~= quoted(value) + after);
    let open = rest.skip(1);
    assert(open[0] == '"');
    assert(text::trim_start(open) == open);
    let v = open.skip(1);
    assert(v =~= value + seq!['"'] + after);
    text::lemma_find_char_from(v, '"', 0);
    assert(v[value.len() as int] == '"');
    match text::find_char(v, '"') {
        Some(e) => {
            if e < value.len() {
                assert(v[e] == value[e]);
            }
        },
        None => {},
    }
    assert(v.take(value.len() as int) =~= value);
}

/// Whether `s` is `before`, the key in quotation marks, a colon, the value in
/// quotation marks, and `after`, with white space `w1` and `w2` around the colon,
/// where the key in quotation marks does not stand further to the left, and the
/// value holds no quotation mark.
pub open spec fn holds_member(
    s: Seq<char>,
    key: Seq<char>,
    value: Seq<char>,
    before: Seq<char>,
    w1: Seq<char>,
    w2: Seq<char>,
    after: Seq<char>,
) -> bool {
    &&& s == before + (seq!['"'] + key + seq!['"']) + w1 + seq![':'] + w2 + (seq!['"'] + value
        + seq!['"']) + after
    &&& forall|j: int|
        0 <= j < before.len() ==> #[trigger] s.subrange(j, j + key.len() + 2) != seq!['"'] + key
            + seq!['"']
    &&& text::all_white(w1)
    &&& text::all_white(w2)
    &&& forall|i: int| 0 <= i < value.len() ==> #[trigger] value[i] != '"'
}

proof fn lemma_after_space(w: Seq<char>, c: char, rest: Seq<char>)
    requires
        text::all_white(w),
        !text::is_white_space(c),
    ensures
        after_char(w + seq![c] + rest, c) == Some(rest),
    decreases w.len(),
{
    let s = w + seq![c] + rest;
    if w.len() > 0 {
        assert(s[0] == w[0]);
        assert(s.skip(1) =~= w.skip(1) + seq![c] + rest);
        assert forall|i: int| 0 <= i < w.skip(1).len() implies text::is_white_space(
            #[trigger] w.skip(1)[i],
        ) by {
            assert(w.skip(1)[i] == w[i + 1]);
        }
        lemma_after_space(w.skip(1), c, rest);
        assert(text::trim_start(s) == text::trim_start(s.skip(1)));
    } else {
        assert(s[0] == c);
        assert(text::trim_start(s) == s);
        assert(s.skip(1) =~= rest);
    }
}

/// What precedes what follows a character is white space.
proof fn lemma_space_before(s: Seq<char>, c: char) -> (w: Seq<char>)
    requires
        after_char(s, c) is Some,
    ensures
        text::all_white(w),
        s == w + seq![c] + after_char(s, c)->Some_0,
    decreases s.len(),
{
    let t = text::trim_start(s);
    if s.len() > 0 && text::is_white_space(s[0]) {
        assert(t == text::trim_start(s.skip(1)));
        let w = lemma_space_before(s.skip(1), c);
        let v = seq![s[0]] + w;
        assert forall|i: int| 0 <= i < v.len() implies text::is_white_space(#[trigger] v[i]) by {
            if i > 0 {
                assert(v[i] == w[i - 1]);
            }
        }
        assert(s =~= seq![s[0]] + s.skip(1));
        assert(s =~= v + seq![c] + after_char(s, c)->Some_0);
        v
    } else {
        assert(t == s);
        assert(s =~= Seq::<char>::empty() + seq![c] + s.skip(1));
        Seq::empty()
    }
}

/// A value that is found under a key is that of a member.
proof fn lemma_found_member(s: Seq<char>, key: Seq<char>, value: Seq<char>)
    requires
        json_text(s, key) == Some(value),
    ensures
        exists|before: Seq<char>, w1: Seq<char>, w2: Seq<char>, after: Seq<char>|
            holds_member(s, key, value, before, w1, w2, after),
{
    let pat = seq!['"'] + key + seq!['"'];
    assert(quoted(key) == pat);
    text::lemma_find_from(s, pat, 0);
    let i = text::find(s, pat)->Some_0;
    let before = s.take(i);
    let rest = s.skip(i + pat.len());
    let w1 = lemma_space_before(rest, ':');
    let behind = after_char(rest, ':')->Some_0;
    let w2 = lemma_space_before(behind, '"');
    let open = after_char(behind, '"')->Some_0;
    text::lemma_find_char_from(open, '"', 0);
    let end = text::find_char(open, '"')->Some_0;
    let after = open.skip(end + 1);
    let tail = seq!['"'] + value + seq!['"'];
    assert(open =~= value + seq!['"'] + after);
    assert(behind =~= w2 + tail + after) by {
        assert(seq!['"'] + open =~= tail + after);
        assert(behind == w2 + seq!['"'] + open);
        assert(w2 + seq!['"'] + open =~= w2 + (seq!['"'] + open));
        assert(w2 + (tail + after) =~= w2 + tail + after);
    }
    assert(s =~= before + pat + rest) by {
        assert(s.subrange(i, i + pat.len()) == pat);
        assert(s =~= s.take(i) + s.subrange(i, i + pat.len()) + s.skip(i + pat.len()));
    }
    assert(before + pat + rest =~= before + pat + w1 + seq![':'] + behind);
    assert(before + pat + w1 + seq![':'] + behind =~= before + pat + w1 + seq![':'] + w2 + tail
        + after);
    assert forall|j: int| 0 <= j < before.len() implies #[trigger] s.subrange(
        j,
        j + key.len() + 2,
    ) != pat by {
        assert(!text::occurs_at(s, pat, j));
    }
    assert forall|k: int| 0 <= k < value.len() implies #[trigger] value[k] != '"' by {
        assert(open[k] == value[k]);
    }
    assert(holds_member(s, key, value, before, w1, w2, after));
}

/// The text of a key does not depend on what follows it, nor on what stands
/// before it without the key in quotation marks.
pub proof fn law_member_text(
    s: Seq<char>,
    key: Seq<char>,
    value: Seq<char>,
    before: Seq<char>,
    w1: Seq<char>,
    w2: Seq<char>,
    after: Seq<char>,
)
    requires
        holds_member(s, key, value, before, w1, w2, after),
    ensures
        json_text(s, key) == Some(value),
{
    let pat = seq!['"'] + key + seq!['"'];
    assert(quoted(key) == pat);
    text::lemma_find_from(s, pat, 0);
    let at = before.len() as int;
    let tail = seq!['"'] + value + seq!['"'];
    assert(s.subrange(at, at + pat.len()) =~= pat);
    assert(text::occurs_at(s, pat, at));
    match text::find(s, pat) {
        Some(p) => {
            if p < at {
                assert(s.subrange(p, p + key.len() + 2) != pat);
                assert(text::occurs_at(s, pat, p));
            }
        },
        None => {},
    }
    let rest = s.skip(at + pat.len());
    assert(rest =~= w1 + seq![':'] + (w2 + tail + after));
    lemma_after_space(w1, ':', w2 + tail + after);
    let open = value + seq!['"'] + after;
    assert(w2 + tail + after =~= w2 + seq!['"'] + open);
    lemma_after_space(w2, '"', open);
    text::lemma_find_char_from(open, '"', 0);
    assert(open[value.len() as int] == '"');
    match text::find_char(open, '"') {
        Some(e) => {
            if e < value.len() {
                assert(open[e] == value[e]);
            }
        },
        None => {},
    }
    assert(open.take(value.len() as int) =~= value);
}

/// What is returned for a key is the value of the first member with that key,
/// whatever stands around it; where no value can be read behind the first
/// occurrence of the key in quotation marks, nothing is.
pub proof fn law_first_member(s: &str, key: &str, r: Option<String>, value: Seq<char>)
    requires
        call_ensures(json_get, (s, key), r),
    ensures
        (r is Some && r->Some_0@ == value) <==> exists|
            before: Seq<char>,
            w1: Seq<char>,
            w2: Seq<char>,
            after: Seq<char>,
        |
            holds_member(s@, key@, value, before, w1, w2, after),
{
    if json_text(s@, key@) == Some(value) {
        lemma_found_member(s@, key@, value);
    }
    if exists|before: Seq<char>, w1: Seq<char>, w2: Seq<char>, after: Seq<char>|
        holds_member(s@, key@, value, before, w1, w2, after) {
        let (before, w1, w2, after) = choose|
            before: Seq<char>,
            w1: Seq<char>,
            w2: Seq<char>,
            after: Seq<char>,
        |
            holds_member(s@, key@, value, before, w1, w2, after);
        law_member_text(s@, key@, value, before, w1, w2, after);
    }
}

/// A text that does not hold the key in quotation marks has no value for it.
pub proof fn law_no_member(s: Seq<char>, key: Seq<char>)
    requires
        forall|j: int|
            0 <= j && j + key.len() + 2 <= s.len() ==> #[trigger] s.subrange(
                j,
                j + key.len() + 2,
            ) != seq!['"'] + key + seq!['"'],
    ensures
        json_text(s, key) is None,
{
    text::lemma_find_from(s, quoted(key), 0);
    match text::find(s, quoted(key)) {
        Some(p) => {
            assert(text::occurs_at(s, quoted(key), p));
            assert(s.subrange(p, p + key.len() + 2) != seq!['"'] + key + seq!['"']);
        },
        None => {},
    }
}

/// A text that holds no member with the key has no value for it.
pub proof fn law_unreadable_member(s: Seq<char>, key: Seq<char>)
    requires
        forall|
            value: Seq<char>,
            before: Seq<char>,
            w1: Seq<char>,
            w2: Seq<char>,
            after: Seq<char>,
        |
            !#[trigger] holds_member(s, key, value, before, w1, w2, after),
    ensures
        json_text(s, key) is None,
{
    match json_text(s, key) {
        Some(value) => {
            lemma_found_member(s, key, value);
        },
        None => {},
    }
}

} // verus!
