//! Text primitives: searching, trimming, splitting, replacing, and decimal
//! numerals, all on sequences of characters.

use vstd::prelude::*;
use vstd::string::*;
use vstd::utf8::*;

verus! {

// ---------------------------------------------------------------------------
// What std does with text, and is taken on trust.
// ---------------------------------------------------------------------------

/// `String::push` appends its argument to the end of the string.
pub assume_specification[ String::push ](s: &mut String, c: char)
    ensures
        final(s)@ == old(s)@.push(c),
;

/// The Unicode lower case of a text, as `str::to_lowercase` computes it.
pub uninterp spec fn unicode_lowercase(s: Seq<char>) -> Seq<char>;

/// `str::to_lowercase` is a function of the text alone. On ASCII text it maps
/// each of `A` to `Z` to its lower case and keeps every other character.
pub assume_specification[ str::to_lowercase ](s: &str) -> (r: String)
    ensures
        r@ == unicode_lowercase(s@),
        is_ascii_chars(s@) ==> r@ == s@.map_values(|c: char| ascii_lower(c)),
;

/// The Unicode upper case of a text, as `str::to_uppercase` computes it.
pub uninterp spec fn unicode_uppercase(s: Seq<char>) -> Seq<char>;

/// `str::to_uppercase` is a function of the text alone. On ASCII text it maps
/// each of `a` to `z` to its upper case and keeps every other character.
pub assume_specification[ str::to_uppercase ](s: &str) -> (r: String)
    ensures
        r@ == unicode_uppercase(s@),
        is_ascii_chars(s@) ==> r@ == s@.map_values(|c: char| ascii_upper(c)),
;

/// Whether a character has the Unicode property `Alphabetic`, as
/// `char::is_alphabetic` reports it.
pub uninterp spec fn unicode_alphabetic(c: char) -> bool;

/// `char::is_alphabetic` is a function of the character alone. Of the ASCII
/// characters, the letters `A` to `Z` and `a` to `z` are alphabetic.
pub assume_specification[ char::is_alphabetic ](c: char) -> (b: bool)
    ensures
        b == unicode_alphabetic(c),
        (c as u32) < 128 ==> b == is_letter(c),
;

// ---------------------------------------------------------------------------
// Characters.
// ---------------------------------------------------------------------------

/// The lower case of an ASCII letter; any other character itself.
pub open spec fn ascii_lower(c: char) -> char {
    if 'A' <= c && c <= 'Z' {
        (c as int + 32) as char
    } else {
        c
    }
}

/// The upper case of an ASCII letter; any other character itself.
pub open spec fn ascii_upper(c: char) -> char {
    if 'a' <= c && c <= 'z' {
        (c as int - 32) as char
    } else {
        c
    }
}

/// The lower case of a text.
pub open spec fn lowercase(s: Seq<char>) -> Seq<char> {
    if is_ascii_chars(s) {
        s.map_values(|c: char| ascii_lower(c))
    } else {
        unicode_lowercase(s)
    }
}

/// The upper case of a text.
pub open spec fn uppercase(s: Seq<char>) -> Seq<char> {
    if is_ascii_chars(s) {
        s.map_values(|c: char| ascii_upper(c))
    } else {
        unicode_uppercase(s)
    }
}

/// Whether `c` is an ASCII letter.
pub open spec fn is_letter(c: char) -> bool {
    ('A' <= c && c <= 'Z') || ('a' <= c && c <= 'z')
}

/// Whether `c` is alphabetic.
pub open spec fn alphabetic(c: char) -> bool {
    if (c as u32) < 128 {
        is_letter(c)
    } else {
        unicode_alphabetic(c)
    }
}

/// Whether `c` has the Unicode property `White_Space`.
pub open spec fn is_white_space(c: char) -> bool {
    let n = c as u32;
    ||| 0x9 <= n <= 0xd
    ||| n == 0x20
    ||| n == 0x85
    ||| n == 0xa0
    ||| n == 0x1680
    ||| 0x2000 <= n <= 0x200a
    ||| n == 0x2028
    ||| n == 0x2029
    ||| n == 0x202f
    ||| n == 0x205f
    ||| n == 0x3000
}

/// Whether `c` is one of `0` to `9`.
pub open spec fn is_digit(c: char) -> bool {
    '0' <= c && c <= '9'
}

/// Whether `c` has the Unicode property `White_Space`.
pub fn is_space(c: char) -> (b: bool)
    ensures
        b == is_white_space(c),
{
    let n: u32 = c as u32;
    (0x9 <= n && n <= 0xd) || n == 0x20 || n == 0x85 || n == 0xa0 || n == 0x1680 || (0x2000 <= n
        && n <= 0x200a) || n == 0x2028 || n == 0x2029 || n == 0x202f || n == 0x205f || n == 0x3000
}

// ---------------------------------------------------------------------------
// Trimming.
// ---------------------------------------------------------------------------

/// `s` without the white space at its start.
pub open spec fn trim_start(s: Seq<char>) -> Seq<char>
    decreases s.len(),
{
    if s.len() > 0 && is_white_space(s[0]) {
        trim_start(s.skip(1))
    } else {
        s
    }
}

/// `s` without the white space at its end.
pub open spec fn trim_end(s: Seq<char>) -> Seq<char>
    decreases s.len(),
{
    if s.len() > 0 && is_white_space(s.last()) {
        trim_end(s.drop_last())
    } else {
        s
    }
}

/// `s` without the white space at either end.
pub open spec fn trim(s: Seq<char>) -> Seq<char> {
    trim_end(trim_start(s))
}

/// `s` without the occurrences of `c` at its start.
pub open spec fn trim_start_char(s: Seq<char>, c: char) -> Seq<char>
    decreases s.len(),
{
    if s.len() > 0 && s[0] == c {
        trim_start_char(s.skip(1), c)
    } else {
        s
    }
}

/// `s` without the occurrences of `c` at its end.
pub open spec fn trim_end_char(s: Seq<char>, c: char) -> Seq<char>
    decreases s.len(),
{
    if s.len() > 0 && s.last() == c {
        trim_end_char(s.drop_last(), c)
    } else {
        s
    }
}

/// Whether `s` has no white space at either end.
pub open spec fn is_trimmed(s: Seq<char>) -> bool {
    s.len() > 0 ==> !is_white_space(s[0]) && !is_white_space(s.last())
}

/// White space at the end is trimmed away.
pub proof fn lemma_trim_push(s: Seq<char>, w: char)
    requires
        is_white_space(w),
    ensures
        trim(s.push(w)) == trim(s),
    decreases s.len(),
{
    let t = s.push(w);
    if s.len() == 0 {
        assert(t.skip(1) =~= s);
        assert(trim_start(t) == trim_start(t.skip(1)));
    } else if is_white_space(s[0]) {
        assert(t.skip(1) =~= s.skip(1).push(w));
        lemma_trim_push(s.skip(1), w);
        assert(trim_start(t) == trim_start(t.skip(1)));
    } else {
        assert(t.drop_last() =~= s);
    }
}

/// What is trimmed has no white space at either end.
pub proof fn lemma_trim_is_trimmed(s: Seq<char>)
    ensures
        is_trimmed(trim(s)),
    decreases s.len(),
{
    if s.len() > 0 && is_white_space(s[0]) {
        lemma_trim_is_trimmed(s.skip(1));
    } else {
        lemma_trim_end_prefix(s);
    }
}

/// Trimming at the end keeps a start of the text, without white space at its
/// end.
pub proof fn lemma_trim_end_prefix(s: Seq<char>)
    ensures
        trim_end(s).len() <= s.len(),
        trim_end(s) == s.take(trim_end(s).len() as int),
        trim_end(s).len() > 0 ==> !is_white_space(trim_end(s).last()),
    decreases s.len(),
{
    if s.len() > 0 && is_white_space(s.last()) {
        lemma_trim_end_prefix(s.drop_last());
        let n = trim_end(s).len() as int;
        assert(s.drop_last().take(n) =~= s.take(n));
    } else {
        assert(s.take(s.len() as int) =~= s);
    }
}

/// Trimming at the start keeps an end of the text.
pub proof fn lemma_trim_start_suffix(s: Seq<char>)
    ensures
        trim_start(s).len() <= s.len(),
        trim_start(s) == s.skip(s.len() - trim_start(s).len()),
    decreases s.len(),
{
    if s.len() > 0 && is_white_space(s[0]) {
        lemma_trim_start_suffix(s.skip(1));
        let n = trim_start(s).len();
        assert(s.skip(1).skip(s.len() - 1 - n) =~= s.skip(s.len() - n));
    } else {
        assert(s.skip(0) =~= s);
    }
}

/// What is trimmed is a part of the text.
pub proof fn lemma_trim_part(s: Seq<char>) -> (from: int)
    ensures
        0 <= from,
        from + trim(s).len() <= s.len(),
        trim(s) == s.subrange(from, from + trim(s).len()),
{
    lemma_trim_start_suffix(s);
    let t = trim_start(s);
    lemma_trim_end_prefix(t);
    let from = s.len() - t.len();
    assert(trim(s) =~= s.subrange(from, from + trim(s).len()));
    from
}

/// The characters of `s`, one by one.
pub fn chars_of(s: &str) -> (v: Vec<char>)
    ensures
        v@ == s@,
{
    let mut v: Vec<char> = Vec::new();
    for c in it: s.chars()
        invariant
            v@ == it.seq().take(it.index()),
            it.seq() == s@,
    {
        v.push(c);
    }
    v
}

/// The text of the characters of `v` from `from` up to `to`.
pub fn text_between(v: &Vec<char>, from: usize, to: usize) -> (s: String)
    requires
        from <= to <= v@.len(),
    ensures
        s@ == v@.subrange(from as int, to as int),
{
    let mut s = String::new();
    let mut i: usize = from;
    while i < to
        invariant
            from <= i <= to <= v@.len(),
            s@ == v@.subrange(from as int, i as int),
        decreases to - i,
    {
        s.push(v[i]);
        i = i + 1;
        assert(s@ =~= v@.subrange(from as int, i as int));
    }
    s
}

fn start_of_text(v: &Vec<char>) -> (i: usize)
    ensures
        i <= v@.len(),
        trim_start(v@) == v@.skip(i as int),
{
    let mut i: usize = 0;
    assert(v@.skip(0) =~= v@);
    while i < v.len() && is_space(v[i])
        invariant
            i <= v@.len(),
            trim_start(v@) == trim_start(v@.skip(i as int)),
        decreases v@.len() - i,
    {
        assert(v@.skip(i as int).skip(1) =~= v@.skip(i + 1));
        i = i + 1;
    }
    i
}

fn end_of_text(v: &Vec<char>, from: usize) -> (j: usize)
    requires
        from <= v@.len(),
    ensures
        from <= j <= v@.len(),
        trim_end(v@.skip(from as int)) == v@.subrange(from as int, j as int),
{
    let mut j: usize = v.len();
    assert(v@.skip(from as int) =~= v@.subrange(from as int, j as int));
    while from < j && is_space(v[j - 1])
        invariant
            from <= j <= v@.len(),
            trim_end(v@.skip(from as int)) == trim_end(v@.subrange(from as int, j as int)),
        decreases j,
    {
        assert(v@.subrange(from as int, j as int).drop_last() =~= v@.subrange(
            from as int,
            j - 1,
        ));
        j = j - 1;
    }
    j
}

/// `s` without the white space at either end.
pub fn trimmed(s: &str) -> (r: String)
    ensures
        r@ == trim(s@),
{
    let v = chars_of(s);
    let i = start_of_text(&v);
    let j = end_of_text(&v, i);
    text_between(&v, i, j)
}

/// `s` without the white space at its end.
pub fn trimmed_end(s: &str) -> (r: String)
    ensures
        r@ == trim_end(s@),
{
    let v = chars_of(s);
    let j = end_of_text(&v, 0);
    assert(v@.skip(0) =~= v@);
    text_between(&v, 0, j)
}

/// `s` without the white space at its start.
pub fn trimmed_start(s: &str) -> (r: String)
    ensures
        r@ == trim_start(s@),
{
    let v = chars_of(s);
    let i = start_of_text(&v);
    assert(v@.skip(i as int) =~= v@.subrange(i as int, v@.len() as int));
    text_between(&v, i, v.len())
}

/// `s` without the occurrences of `c` at its start.
pub fn without_leading(s: &str, c: char) -> (r: String)
    ensures
        r@ == trim_start_char(s@, c),
{
    let v = chars_of(s);
    let mut i: usize = 0;
    assert(v@.skip(0) =~= v@);
    while i < v.len() && v[i] == c
        invariant
            i <= v@.len(),
            trim_start_char(v@, c) == trim_start_char(v@.skip(i as int), c),
        decreases v@.len() - i,
    {
        assert(v@.skip(i as int).skip(1) =~= v@.skip(i + 1));
        i = i + 1;
    }
    assert(v@.skip(i as int) =~= v@.subrange(i as int, v@.len() as int));
    text_between(&v, i, v.len())
}

/// `s` without the occurrences of `c` at its end.
pub fn without_trailing(s: &str, c: char) -> (r: String)
    ensures
        r@ == trim_end_char(s@, c),
{
    let v = chars_of(s);
    let mut j: usize = v.len();
    assert(v@.take(j as int) =~= v@);
    while 0 < j && v[j - 1] == c
        invariant
            j <= v@.len(),
            trim_end_char(v@, c) == trim_end_char(v@.take(j as int), c),
        decreases j,
    {
        assert(v@.take(j as int).drop_last() =~= v@.take(j - 1));
        j = j - 1;
    }
    assert(v@.take(j as int) =~= v@.subrange(0, j as int));
    text_between(&v, 0, j)
}

// ---------------------------------------------------------------------------
// Comparing.
// ---------------------------------------------------------------------------

/// Whether `pat` occurs in `s` at position `i`.
pub open spec fn occurs_at(s: Seq<char>, pat: Seq<char>, i: int) -> bool {
    0 <= i && i + pat.len() <= s.len() && s.subrange(i, i + pat.len()) == pat
}

/// Whether `s` starts with `pat`.
pub open spec fn has_prefix(s: Seq<char>, pat: Seq<char>) -> bool {
    occurs_at(s, pat, 0)
}

fn match_at(v: &Vec<char>, pat: &Vec<char>, i: usize) -> (b: bool)
    requires
        i <= v@.len(),
    ensures
        b == occurs_at(v@, pat@, i as int),
{
    let total: usize = v.len();
    if pat.len() > total - i {
        return false;
    }
    let mut k: usize = 0;
    while k < pat.len()
        invariant
            k <= pat@.len(),
            total == v@.len(),
            i + pat@.len() <= total,
            forall|m: int| 0 <= m < k ==> v@[i + m] == pat@[m],
        decreases pat@.len() - k,
    {
        if v[i + k] != pat[k] {
            assert(v@.subrange(i as int, i + pat@.len())[k as int] != pat@[k as int]);
            return false;
        }
        k = k + 1;
    }
    assert(v@.subrange(i as int, i + pat@.len()) =~= pat@);
    true
}

/// Whether `a` and `b` are the same text.
pub fn same_text(a: &str, b: &str) -> (r: bool)
    ensures
        r == (a@ == b@),
{
    let x = chars_of(a);
    let y = chars_of(b);
    if x.len() != y.len() {
        return false;
    }
    let r = match_at(&x, &y, 0);
    assert(x@.subrange(0, x@.len() as int) =~= x@);
    r
}

/// Whether `a` and `b` are the same text, the case of ASCII letters aside.
pub open spec fn same_ignoring_case(a: Seq<char>, b: Seq<char>) -> bool {
    a.map_values(|c: char| ascii_lower(c)) == b.map_values(|c: char| ascii_lower(c))
}

fn lower(c: char) -> (r: char)
    ensures
        r == ascii_lower(c),
{
    if 'A' <= c && c <= 'Z' {
        (c as u8 + 32) as char
    } else {
        c
    }
}

/// Whether `a` and `b` are the same text, the case of ASCII letters aside.
pub fn same_text_ignoring_case(a: &str, b: &str) -> (r: bool)
    ensures
        r == same_ignoring_case(a@, b@),
{
    let x = chars_of(a);
    let y = chars_of(b);
    let ghost p = a@.map_values(|c: char| ascii_lower(c));
    let ghost q = b@.map_values(|c: char| ascii_lower(c));
    if x.len() != y.len() {
        assert(p.len() != q.len());
        return false;
    }
    let mut k: usize = 0;
    while k < x.len()
        invariant
            k <= x@.len(),
            x@.len() == y@.len(),
            x@ == a@,
            y@ == b@,
            p == a@.map_values(|c: char| ascii_lower(c)),
            q == b@.map_values(|c: char| ascii_lower(c)),
            forall|m: int| 0 <= m < k ==> p[m] == q[m],
        decreases x@.len() - k,
    {
        if lower(x[k]) != lower(y[k]) {
            assert(p[k as int] != q[k as int]);
            return false;
        }
        k = k + 1;
    }
    assert(p =~= q);
    true
}

/// Whether `s` starts with `pat`.
pub fn begins_with(s: &str, pat: &str) -> (r: bool)
    ensures
        r == has_prefix(s@, pat@),
{
    match_at(&chars_of(s), &chars_of(pat), 0)
}

/// Whether the last character of `s` is `c`.
pub fn ends_with_char(s: &str, c: char) -> (r: bool)
    ensures
        r == (s@.len() > 0 && s@.last() == c),
{
    let v = chars_of(s);
    v.len() > 0 && v[v.len() - 1] == c
}

/// Whether the first character of `s` is `c`.
pub fn starts_with_char(s: &str, c: char) -> (r: bool)
    ensures
        r == (s@.len() > 0 && s@[0] == c),
{
    let v = chars_of(s);
    v.len() > 0 && v[0] == c
}

// ---------------------------------------------------------------------------
// Searching and replacing.
// ---------------------------------------------------------------------------

/// The first position at or after `i` at which `pat` occurs in `s`.
pub open spec fn find_from(s: Seq<char>, pat: Seq<char>, i: int) -> Option<int>
    decreases s.len() + 1 - i,
{
    if i < 0 || i + pat.len() > s.len() {
        None
    } else if occurs_at(s, pat, i) {
        Some(i)
    } else {
        find_from(s, pat, i + 1)
    }
}

/// The first position at which `pat` occurs in `s`.
pub open spec fn find(s: Seq<char>, pat: Seq<char>) -> Option<int> {
    find_from(s, pat, 0)
}

/// The first position at or after `i` at which `s` holds `c`.
pub open spec fn find_char_from(s: Seq<char>, c: char, i: int) -> Option<int>
    decreases s.len() - i,
{
    if i < 0 || i >= s.len() {
        None
    } else if s[i] == c {
        Some(i)
    } else {
        find_char_from(s, c, i + 1)
    }
}

/// The first position at which `s` holds `c`.
pub open spec fn find_char(s: Seq<char>, c: char) -> Option<int> {
    find_char_from(s, c, 0)
}

/// What stands before and after the first `c` in `s`.
pub open spec fn split_once(s: Seq<char>, c: char) -> Option<(Seq<char>, Seq<char>)> {
    match find_char(s, c) {
        Some(i) => Some((s.take(i), s.skip(i + 1))),
        None => None,
    }
}

/// `s` with every occurrence of `pat`, taken from the left and without
/// overlap, replaced by `rep`. An empty `pat` is not looked for.
pub open spec fn replace(s: Seq<char>, pat: Seq<char>, rep: Seq<char>) -> Seq<char>
    decreases s.len(),
{
    if pat.len() == 0 || s.len() < pat.len() {
        s
    } else if has_prefix(s, pat) {
        rep + replace(s.skip(pat.len() as int), pat, rep)
    } else {
        seq![s[0]] + replace(s.skip(1), pat, rep)
    }
}

/// The pieces of `s` between its occurrences of `c`.
pub open spec fn split(s: Seq<char>, c: char) -> Seq<Seq<char>>
    decreases s.len(),
{
    match find_char(s, c) {
        Some(i) => if 0 <= i < s.len() {
            seq![s.take(i)] + split(s.skip(i + 1), c)
        } else {
            seq![s]
        },
        None => seq![s],
    }
}

/// The first position of `c` lies inside the text, holds `c`, and has no `c`
/// before it; there is none if and only if `c` does not occur.
pub proof fn lemma_find_char_from(s: Seq<char>, c: char, i: int)
    requires
        0 <= i <= s.len(),
    ensures
        match find_char_from(s, c, i) {
            Some(p) => i <= p < s.len() && s[p] == c && forall|j: int| i <= j < p ==> s[j] != c,
            None => forall|j: int| i <= j < s.len() ==> s[j] != c,
        },
    decreases s.len() - i,
{
    if i < s.len() && s[i] != c {
        lemma_find_char_from(s, c, i + 1);
    }
}

/// The first occurrence of `pat` is an occurrence, and there is none before it.
pub proof fn lemma_find_from(s: Seq<char>, pat: Seq<char>, i: int)
    requires
        0 <= i <= s.len(),
    ensures
        match find_from(s, pat, i) {
            Some(p) => i <= p && p + pat.len() <= s.len() && occurs_at(s, pat, p) && forall|j: int|
                i <= j < p ==> !occurs_at(s, pat, j),
            None => forall|j: int| i <= j ==> !occurs_at(s, pat, j),
        },
    decreases s.len() - i,
{
    if i + pat.len() <= s.len() && !occurs_at(s, pat, i) {
        if i < s.len() {
            lemma_find_from(s, pat, i + 1);
        } else {
            assert(s.subrange(i, i + pat.len()) =~= pat);
        }
    }
}

/// The first position of `c` in `v` at or after `from`.
pub fn position_of_char(v: &Vec<char>, c: char, from: usize) -> (r: Option<usize>)
    requires
        from <= v@.len(),
    ensures
        match r {
            Some(p) => find_char_from(v@, c, from as int) == Some(p as int) && p < v@.len(),
            None => find_char_from(v@, c, from as int) is None,
        },
{
    let mut i: usize = from;
    while i < v.len()
        invariant
            from <= i <= v@.len(),
            find_char_from(v@, c, from as int) == find_char_from(v@, c, i as int),
        decreases v@.len() - i,
    {
        if v[i] == c {
            return Some(i);
        }
        i = i + 1;
    }
    None
}

/// The first position of `pat` in `v`.
pub fn position_of(v: &Vec<char>, pat: &Vec<char>) -> (r: Option<usize>)
    ensures
        match r {
            Some(p) => find(v@, pat@) == Some(p as int) && p + pat@.len() <= v@.len(),
            None => find(v@, pat@) is None,
        },
{
    let mut i: usize = 0;
    while i <= v.len() && pat.len() <= v.len() - i
        invariant
            i <= v@.len() + 1,
            find(v@, pat@) == find_from(v@, pat@, i as int),
        decreases v@.len() + 1 - i,
    {
        if match_at(v, pat, i) {
            return Some(i);
        }
        if i == v.len() {
            assert(find_from(v@, pat@, i + 1) is None);
            return None;
        }
        i = i + 1;
    }
    None
}

/// What stands before and after the first `c` in `s`.
pub fn cut_at(s: &str, c: char) -> (r: Option<(String, String)>)
    ensures
        match r {
            Some(p) => split_once(s@, c) == Some((p.0@, p.1@)),
            None => split_once(s@, c) is None,
        },
{
    let v = chars_of(s);
    let total: usize = v.len();
    match position_of_char(&v, c, 0) {
        Some(i) => {
            assert(v@.take(i as int) =~= v@.subrange(0, i as int));
            assert(v@.skip(i + 1) =~= v@.subrange(i + 1, v@.len() as int));
            Some((text_between(&v, 0, i), text_between(&v, i + 1, total)))
        },
        None => None,
    }
}

/// `s` with every occurrence of `pat` replaced by `rep`.
pub fn replaced(s: &str, pat: &str, rep: &str) -> (r: String)
    ensures
        r@ == replace(s@, pat@, rep@),
{
    let v = chars_of(s);
    let p = chars_of(pat);
    let mut out = String::new();
    let mut i: usize = 0;
    assert(v@.skip(0) =~= v@);
    while i < v.len() && p.len() > 0 && p.len() <= v.len() - i
        invariant
            i <= v@.len(),
            p@ == pat@,
            replace(v@, p@, rep@) == out@ + replace(v@.skip(i as int), p@, rep@),
        decreases v@.len() - i,
    {
        let ghost rest = v@.skip(i as int);
        let ghost before = out@;
        if match_at(&v, &p, i) {
            assert(rest.subrange(0, p@.len() as int) =~= v@.subrange(i as int, i + p@.len()));
            out.append(rep);
            i = i + p.len();
            assert(v@.skip(i as int) =~= rest.skip(p@.len() as int));
        } else {
            assert(rest.subrange(0, p@.len() as int) =~= v@.subrange(i as int, i + p@.len()));
            out.push(v[i]);
            i = i + 1;
            assert(v@.skip(i as int) =~= rest.skip(1));
        }
        assert(out@ + replace(v@.skip(i as int), p@, rep@) =~= before + replace(
            rest,
            p@,
            rep@,
        ));
    }
    let tail = text_between(&v, i, v.len());
    assert(tail@ =~= v@.skip(i as int));
    out.append(tail.as_str());
    out
}

/// The texts of a sequence of strings.
pub open spec fn texts(v: Seq<String>) -> Seq<Seq<char>> {
    v.map_values(|s: String| s@)
}

/// The text of a string, where there is one.
pub open spec fn text_of(o: Option<String>) -> Option<Seq<char>> {
    match o {
        Some(s) => Some(s@),
        None => None,
    }
}

/// The pieces of `s` between its occurrences of `c`.
pub fn pieces(s: &str, c: char) -> (r: Vec<String>)
    ensures
        texts(r@) == split(s@, c),
{
    let v = chars_of(s);
    let total: usize = v.len();
    let mut out: Vec<String> = Vec::new();
    let mut from: usize = 0;
    assert(v@.skip(0) =~= v@);
    assert(texts(out@) + split(v@, c) =~= split(v@, c));
    loop
        invariant
            from <= v@.len(),
            total == v@.len(),
            v@ == s@,
            split(v@, c) == texts(out@) + split(v@.skip(from as int), c),
        decreases v@.len() - from,
    {
        let ghost rest = v@.skip(from as int);
        let ghost before = out@;
        proof {
            lemma_find_char_from(v@, c, from as int);
            lemma_find_char_from(rest, c, 0);
        }
        match position_of_char(&v, c, from) {
            Some(p) => {
                let ghost q = p - from;
                assert(find_char(rest, c) == Some(q as int)) by {
                    assert(rest[q as int] == c);
                    match find_char(rest, c) {
                        Some(x) => {
                            assert(rest[x] == v@[from + x]);
                            if x > q {
                                assert(rest[q as int] != c);
                            }
                            if x < q {
                                assert(v@[from + x] != c);
                            }
                        },
                        None => {},
                    }
                }
                let piece = text_between(&v, from, p);
                assert(piece@ =~= rest.take(q as int));
                out.push(piece);
                from = p + 1;
                assert(v@.skip(from as int) =~= rest.skip(q + 1));
                assert(texts(out@) =~= texts(before).push(piece@));
                assert(texts(out@) + split(v@.skip(from as int), c) =~= texts(before) + split(
                    rest,
                    c,
                ));
            },
            None => {
                assert(find_char(rest, c) is None) by {
                    match find_char(rest, c) {
                        Some(x) => {
                            assert(rest[x] == v@[from + x]);
                        },
                        None => {},
                    }
                }
                let piece = text_between(&v, from, v.len());
                assert(piece@ =~= rest);
                out.push(piece);
                assert(texts(out@) =~= texts(before).push(piece@));
                assert(texts(out@) =~= texts(before) + split(rest, c));
                return out;
            },
        }
    }
}

// ---------------------------------------------------------------------------
// Decimal numerals.
// ---------------------------------------------------------------------------

/// The digit `d`, for `d` below ten.
pub open spec fn digit_char(d: nat) -> char {
    (48 + d) as char
}

/// The value of a digit.
pub open spec fn digit_value(c: char) -> nat {
    (c as int - 48) as nat
}

/// The decimal numeral of `n`.
pub open spec fn decimal(n: nat) -> Seq<char>
    decreases n,
{
    if n < 10 {
        seq![digit_char(n)]
    } else {
        decimal(n / 10).push(digit_char(n % 10))
    }
}

/// Whether `s` consists of digits only.
pub open spec fn all_digits(s: Seq<char>) -> bool {
    forall|i: int| 0 <= i < s.len() ==> is_digit(#[trigger] s[i])
}

/// The number that a sequence of digits stands for.
pub open spec fn digits_value(s: Seq<char>) -> nat
    decreases s.len(),
{
    if s.len() == 0 {
        0
    } else {
        digits_value(s.drop_last()) * 10 + digit_value(s.last())
    }
}

/// The number that `s` stands for: at least one digit, after an optional plus
/// sign.
pub open spec fn unsigned_value(s: Seq<char>) -> Option<nat> {
    let d = if s.len() > 0 && s[0] == '+' {
        s.skip(1)
    } else {
        s
    };
    if d.len() > 0 && all_digits(d) {
        Some(digits_value(d))
    } else {
        None
    }
}

/// `unsigned_value`, where it does not exceed `max`.
pub open spec fn bounded_value(s: Seq<char>, max: nat) -> Option<nat> {
    match unsigned_value(s) {
        Some(n) => if n <= max {
            Some(n)
        } else {
            None
        },
        None => None,
    }
}

/// `s` filled up with zeros on the left to at least `width` characters.
pub open spec fn zero_padded(s: Seq<char>, width: nat) -> Seq<char> {
    if s.len() < width {
        Seq::new((width - s.len()) as nat, |i: int| '0') + s
    } else {
        s
    }
}

/// A decimal numeral consists of digits and has at least one.
pub proof fn lemma_decimal_digits(n: nat)
    ensures
        all_digits(decimal(n)),
        decimal(n).len() > 0,
    decreases n,
{
    if n >= 10 {
        lemma_decimal_digits(n / 10);
    }
}

/// Reading a decimal numeral gives back the number it was written for.
pub proof fn law_decimal_round_trip(n: nat)
    ensures
        unsigned_value(decimal(n)) == Some(n),
{
    lemma_decimal_digits(n);
    lemma_digits_value_decimal(n);
    assert(is_digit(decimal(n)[0]));
}

proof fn lemma_digits_value_decimal(n: nat)
    ensures
        digits_value(decimal(n)) == n,
    decreases n,
{
    assert(digit_value(digit_char(n % 10)) == n % 10);
    if n >= 10 {
        lemma_digits_value_decimal(n / 10);
        assert(decimal(n).drop_last() =~= decimal(n / 10));
        assert(decimal(n).last() == digit_char(n % 10));
    } else {
        assert(decimal(n).drop_last().len() == 0);
        assert(digits_value(decimal(n).drop_last()) == 0);
    }
}

fn digit(d: u8) -> (c: char)
    requires
        d < 10,
    ensures
        c == digit_char(d as nat),
{
    (48 + d) as char
}

/// The decimal numeral of `n`.
pub fn numeral(n: u128) -> (s: String)
    ensures
        s@ == decimal(n as nat),
    decreases n,
{
    if n < 10 {
        let mut s = String::new();
        s.push(digit(n as u8));
        assert(s@ =~= decimal(n as nat));
        s
    } else {
        let mut s = numeral(n / 10);
        s.push(digit((n % 10) as u8));
        s
    }
}

/// The decimal numeral of `n`, filled up with zeros to at least `width`
/// characters.
pub fn padded_numeral(n: u128, width: usize) -> (s: String)
    ensures
        s@ == zero_padded(decimal(n as nat), width as nat),
{
    let body = numeral(n);
    let len: usize = body.as_str().unicode_len();
    let mut out = String::new();
    let mut i: usize = len;
    while i < width
        invariant
            len <= i,
            len == body@.len(),
            i <= width || i == len,
            out@ == Seq::new((i - len) as nat, |k: int| '0'),
        decreases width - i,
    {
        out.push('0');
        i = i + 1;
        assert(out@ =~= Seq::new((i - len) as nat, |k: int| '0'));
    }
    out.append(body.as_str());
    assert(out@ =~= zero_padded(decimal(n as nat), width as nat));
    out
}

/// The number that `s` stands for, if it is one and does not exceed `max`.
fn number_up_to(s: &str, max: u64) -> (r: Option<u64>)
    ensures
        match r {
            Some(n) => bounded_value(s@, max as nat) == Some(n as nat) && n <= max,
            None => bounded_value(s@, max as nat) is None,
        },
{
    let v = chars_of(s);
    let start: usize = if v.len() > 0 && v[0] == '+' {
        1
    } else {
        0
    };
    let ghost d = v@.skip(start as int);
    assert(start == 0 ==> d =~= v@);
    if start == v.len() {
        return None;
    }
    let mut i: usize = start;
    let mut acc: u64 = 0;
    let mut over: bool = false;
    while i < v.len()
        invariant
            start <= i <= v@.len(),
            v@ == s@,
            start == (if s@.len() > 0 && s@[0] == '+' {
                1int
            } else {
                0int
            }),
            d == v@.skip(start as int),
            start == 0 ==> d == v@,
            all_digits(d.take(i - start)),
            over ==> digits_value(d.take(i - start)) > max,
            !over ==> digits_value(d.take(i - start)) == acc && acc <= max,
        decreases v@.len() - i,
    {
        let c: char = v[i];
        assert(d[i - start] == c);
        if !('0' <= c && c <= '9') {
            assert(!is_digit(d[i - start]));
            return None;
        }
        let x: u64 = (c as u32 - 48) as u64;
        assert(d.take(i - start + 1).drop_last() =~= d.take(i - start));
        if !over {
            let next: u128 = acc as u128 * 10 + x as u128;
            if next > max as u128 {
                over = true;
            } else {
                acc = next as u64;
            }
        }
        i = i + 1;
    }
    assert(d.take(i - start) =~= d);
    if over {
        None
    } else {
        Some(acc)
    }
}

/// The number that `s` stands for, if it is one and fits in 64 bits.
pub fn parse_u64(s: &str) -> (r: Option<u64>)
    ensures
        match r {
            Some(n) => bounded_value(s@, u64::MAX as nat) == Some(n as nat),
            None => bounded_value(s@, u64::MAX as nat) is None,
        },
{
    number_up_to(s, u64::MAX)
}

/// The number that `s` stands for, if it is one and fits in 32 bits.
pub fn parse_u32(s: &str) -> (r: Option<u32>)
    ensures
        match r {
            Some(n) => bounded_value(s@, u32::MAX as nat) == Some(n as nat),
            None => bounded_value(s@, u32::MAX as nat) is None,
        },
{
    match number_up_to(s, u32::MAX as u64) {
        Some(n) => Some(n as u32),
        None => None,
    }
}

// ---------------------------------------------------------------------------
// What the primitives are for.
// ---------------------------------------------------------------------------

/// Whether all of `w` is white space.
pub open spec fn all_white(w: Seq<char>) -> bool {
    forall|i: int| 0 <= i < w.len() ==> is_white_space(#[trigger] w[i])
}

/// Space, tab and line breaks are white space; no other ASCII character that
/// can be seen is.
pub proof fn law_white_space(c: char)
    ensures
        c == ' ' || c == '\t' || c == '\n' || c == '\r' ==> is_white_space(c),
        0x21 <= c as u32 <= 0x7e ==> !is_white_space(c),
{
}

/// Trimming takes white space from both ends, all of it, and nothing else:
/// what has no white space at its ends is found again, whatever white space is
/// put around it.
pub proof fn law_trim(a: Seq<char>, s: Seq<char>, b: Seq<char>)
    requires
        all_white(a),
        all_white(b),
        s.len() > 0 ==> !is_white_space(s[0]) && !is_white_space(s.last()),
    ensures
        trim(a + s + b) == s,
    decreases a.len() + b.len(),
{
    let all = a + s + b;
    if b.len() > 0 {
        assert(is_white_space(b[b.len() - 1]));
        assert forall|i: int| 0 <= i < b.drop_last().len() implies is_white_space(
            #[trigger] b.drop_last()[i],
        ) by {
            assert(b.drop_last()[i] == b[i]);
        }
        law_trim(a, s, b.drop_last());
        lemma_trim_push(a + s + b.drop_last(), b.last());
        assert((a + s + b.drop_last()).push(b.last()) =~= all);
    } else if a.len() > 0 {
        assert(is_white_space(a[0]));
        assert forall|i: int| 0 <= i < a.skip(1).len() implies is_white_space(
            #[trigger] a.skip(1)[i],
        ) by {
            assert(a.skip(1)[i] == a[i + 1]);
        }
        law_trim(a.skip(1), s, b);
        assert(all[0] == a[0]);
        assert(all.skip(1) =~= a.skip(1) + s + b);
        assert(trim_start(all) == trim_start(all.skip(1)));
    } else {
        assert(all =~= s);
    }
}

/// Trimming at the start takes white space from there, all of it, and nothing
/// else.
pub proof fn law_trim_start(a: Seq<char>, s: Seq<char>)
    requires
        all_white(a),
        s.len() > 0 ==> !is_white_space(s[0]),
    ensures
        trim_start(a + s) == s,
    decreases a.len(),
{
    let all = a + s;
    if a.len() > 0 {
        assert(is_white_space(a[0]));
        assert forall|i: int| 0 <= i < a.skip(1).len() implies is_white_space(
            #[trigger] a.skip(1)[i],
        ) by {
            assert(a.skip(1)[i] == a[i + 1]);
        }
        law_trim_start(a.skip(1), s);
        assert(all.skip(1) =~= a.skip(1) + s);
        assert(trim_start(all) == trim_start(all.skip(1)));
    } else {
        assert(all =~= s);
    }
}

/// Trimming at the end takes white space from there, all of it, and nothing
/// else.
pub proof fn law_trim_end(s: Seq<char>, b: Seq<char>)
    requires
        all_white(b),
        s.len() > 0 ==> !is_white_space(s.last()),
    ensures
        trim_end(s + b) == s,
    decreases b.len(),
{
    let all = s + b;
    if b.len() > 0 {
        assert(is_white_space(b[b.len() - 1]));
        assert forall|i: int| 0 <= i < b.drop_last().len() implies is_white_space(
            #[trigger] b.drop_last()[i],
        ) by {
            assert(b.drop_last()[i] == b[i]);
        }
        law_trim_end(s, b.drop_last());
        assert(all.drop_last() =~= s + b.drop_last());
        assert(trim_end(all) == trim_end(all.drop_last()));
    } else {
        assert(all =~= s);
    }
}

/// Any number of a character is taken from the start, and nothing else.
pub proof fn law_trim_start_char(n: nat, c: char, s: Seq<char>)
    requires
        s.len() > 0 ==> s[0] != c,
    ensures
        trim_start_char(Seq::new(n, |i: int| c) + s, c) == s,
    decreases n,
{
    let all = Seq::new(n, |i: int| c) + s;
    if n > 0 {
        law_trim_start_char((n - 1) as nat, c, s);
        assert(all.skip(1) =~= Seq::new((n - 1) as nat, |i: int| c) + s);
        assert(trim_start_char(all, c) == trim_start_char(all.skip(1), c));
    } else {
        assert(all =~= s);
    }
}

/// Any number of a character is taken from the end, and nothing else.
pub proof fn law_trim_end_char(s: Seq<char>, c: char, n: nat)
    requires
        s.len() > 0 ==> s.last() != c,
    ensures
        trim_end_char(s + Seq::new(n, |i: int| c), c) == s,
    decreases n,
{
    let all = s + Seq::new(n, |i: int| c);
    if n > 0 {
        law_trim_end_char(s, c, (n - 1) as nat);
        assert(all.drop_last() =~= s + Seq::new((n - 1) as nat, |i: int| c));
        assert(trim_end_char(all, c) == trim_end_char(all.drop_last(), c));
    } else {
        assert(all =~= s);
    }
}

/// A text is cut at the first occurrence of a character.
pub proof fn law_split_once(a: Seq<char>, c: char, b: Seq<char>)
    requires
        forall|i: int| 0 <= i < a.len() ==> #[trigger] a[i] != c,
    ensures
        split_once(a + seq![c] + b, c) == Some((a, b)),
        split_once(a, c) is None,
{
    let s = a + seq![c] + b;
    lemma_find_char_from(s, c, 0);
    lemma_find_char_from(a, c, 0);
    assert(s[a.len() as int] == c);
    match find_char(s, c) {
        Some(p) => {
            if p < a.len() {
                assert(s[p] == a[p]);
            }
        },
        None => {},
    }
    assert(s.take(a.len() as int) =~= a);
    assert(s.skip(a.len() as int + 1) =~= b);
}

/// A text without the character is one piece; a character more makes one piece
/// more, the one before it.
pub proof fn law_split(a: Seq<char>, c: char, b: Seq<char>)
    requires
        forall|i: int| 0 <= i < a.len() ==> #[trigger] a[i] != c,
    ensures
        split(a, c) == seq![a],
        split(a + seq![c] + b, c) == seq![a] + split(b, c),
{
    let s = a + seq![c] + b;
    law_split_once(a, c, b);
    lemma_find_char_from(s, c, 0);
    let p = find_char(s, c)->Some_0;
    assert(s.take(p) == a && s.skip(p + 1) == b);
}

/// The last piece is what follows the last occurrence of the character.
pub proof fn law_last_piece(a: Seq<char>, c: char, b: Seq<char>)
    requires
        forall|i: int| 0 <= i < b.len() ==> #[trigger] b[i] != c,
    ensures
        split(b, c).last() == b,
        split(a + seq![c] + b, c).last() == b,
    decreases a.len(),
{
    let s = a + seq![c] + b;
    law_split(b, c, Seq::empty());
    lemma_find_char_from(a, c, 0);
    match find_char(a, c) {
        Some(p) => {
            let head = a.take(p);
            let tail = a.skip(p + 1);
            assert(s =~= head + seq![c] + (tail + seq![c] + b));
            law_split(head, c, tail + seq![c] + b);
            law_last_piece(tail, c, b);
            assert(split(tail + seq![c] + b, c).len() > 0);
            assert((seq![head] + split(tail + seq![c] + b, c)).last() == split(
                tail + seq![c] + b,
                c,
            ).last());
        },
        None => {
            law_split(a, c, b);
            assert((seq![a] + seq![b]).last() == b);
        },
    }
}

/// What does not hold the pattern is left as it is.
pub proof fn law_replace_nothing(s: Seq<char>, pat: Seq<char>, rep: Seq<char>)
    requires
        forall|j: int|
            0 <= j && j + pat.len() <= s.len() ==> #[trigger] s.subrange(j, j + pat.len()) != pat,
    ensures
        replace(s, pat, rep) == s,
    decreases s.len(),
{
    if pat.len() > 0 && s.len() >= pat.len() {
        assert(s.subrange(0, 0int + pat.len()) != pat);
        let t = s.skip(1);
        assert forall|j: int| 0 <= j && j + pat.len() <= t.len() implies #[trigger] t.subrange(
            j,
            j + pat.len(),
        ) != pat by {
            assert(t.subrange(j, j + pat.len()) =~= s.subrange(j + 1, j + 1 + pat.len()));
        }
        law_replace_nothing(t, pat, rep);
        assert(seq![s[0]] + t =~= s);
    }
}

/// The first occurrence of the pattern is replaced, what stands before it stays,
/// and the rest is treated in the same way.
pub proof fn law_replace_first(a: Seq<char>, pat: Seq<char>, b: Seq<char>, rep: Seq<char>)
    requires
        pat.len() > 0,
        forall|j: int|
            0 <= j < a.len() ==> #[trigger] (a + pat + b).subrange(j, j + pat.len()) != pat,
    ensures
        replace(a + pat + b, pat, rep) == a + rep + replace(b, pat, rep),
    decreases a.len(),
{
    let s = a + pat + b;
    if a.len() > 0 {
        assert(s.subrange(0, 0int + pat.len()) != pat);
        let t = a.skip(1);
        assert(s.skip(1) =~= t + pat + b);
        assert forall|j: int| 0 <= j < t.len() implies #[trigger] (t + pat + b).subrange(
            j,
            j + pat.len(),
        ) != pat by {
            assert((t + pat + b).subrange(j, j + pat.len()) =~= s.subrange(
                j + 1,
                j + 1 + pat.len(),
            ));
        }
        law_replace_first(t, pat, b, rep);
        assert(s[0] == a[0]);
        assert(seq![a[0]] + (t + rep + replace(b, pat, rep)) =~= a + rep + replace(b, pat, rep));
    } else {
        assert(s.subrange(0, pat.len() as int) =~= pat);
        assert(s.skip(pat.len() as int) =~= b);
        assert(a + rep + replace(b, pat, rep) =~= rep + replace(b, pat, rep));
    }
}

/// The numeral of a number below ten is its digit; any other is the numeral of
/// the number without its last digit, and that digit.
pub proof fn law_decimal(n: nat, d: nat)
    requires
        d < 10,
    ensures
        decimal(d) == seq!["0123456789"@[d as int]],
        n > 0 ==> decimal(10 * n + d) == decimal(n).push("0123456789"@[d as int]),
{
    reveal_strlit("0123456789");
    assert("0123456789"@[d as int] == digit_char(d));
    assert((10 * n + d) / 10 == n && (10 * n + d) % 10 == d);
}

/// A number is read from its numeral, with or without a plus sign and zeros in
/// front of it, unless it is too large.
pub proof fn law_number_read(n: nat, zeros: nat, max: nat)
    ensures
        bounded_value(Seq::new(zeros, |i: int| '0') + decimal(n), max) == (if n <= max {
            Some(n)
        } else {
            None
        }),
        bounded_value(seq!['+'] + Seq::new(zeros, |i: int| '0') + decimal(n), max) == (if n
            <= max {
            Some(n)
        } else {
            None
        }),
{
    let z = Seq::new(zeros, |i: int| '0');
    let s = z + decimal(n);
    lemma_decimal_digits(n);
    lemma_zeros_value(zeros, decimal(n));
    lemma_digits_value_decimal(n);
    assert(all_digits(s)) by {
        assert forall|i: int| 0 <= i < s.len() implies is_digit(#[trigger] s[i]) by {
            if i >= zeros {
                assert(s[i] == decimal(n)[i - zeros]);
            }
        }
    }
    assert(is_digit(s[0]));
    let p = seq!['+'] + z + decimal(n);
    assert(p.skip(1) =~= s);
}

proof fn lemma_zeros_value(zeros: nat, d: Seq<char>)
    ensures
        digits_value(Seq::new(zeros, |i: int| '0') + d) == digits_value(d),
    decreases zeros + d.len(),
{
    let s = Seq::new(zeros, |i: int| '0') + d;
    if d.len() > 0 {
        lemma_zeros_value(zeros, d.drop_last());
        assert(s.drop_last() =~= Seq::new(zeros, |i: int| '0') + d.drop_last());
        assert(s.last() == d.last());
    } else if zeros > 0 {
        lemma_zeros_value((zeros - 1) as nat, d);
        assert(s.drop_last() =~= Seq::new((zeros - 1) as nat, |i: int| '0') + d);
        assert(s.last() == '0');
    } else {
        assert(s =~= d);
    }
}

/// A text that holds anything but digits, a plus sign at its start aside, is no
/// number, and neither is one without a digit.
pub proof fn law_no_number(s: Seq<char>, i: int, max: nat)
    requires
        0 <= i < s.len(),
        !('0' <= s[i] && s[i] <= '9'),
        i == 0 ==> s[0] != '+',
    ensures
        bounded_value(s, max) is None,
        bounded_value(Seq::empty(), max) is None,
        bounded_value(seq!['+'], max) is None,
{
    let d = s.skip(1);
    assert(!is_digit(s[i]));
    if i > 0 {
        assert(d[i - 1] == s[i]);
    }
    assert(seq!['+'].skip(1).len() == 0);
}

/// A numeral that is filled up has zeros in front of it, and no more than are
/// needed.
pub proof fn law_zero_padded(s: Seq<char>, width: nat)
    ensures
        ({
            let p = zero_padded(s, width);
            &&& p.len() == if s.len() < width {
                width
            } else {
                s.len()
            }
            &&& p.skip(p.len() - s.len()) == s
            &&& forall|i: int| 0 <= i < p.len() - s.len() ==> #[trigger] p[i] == '0'
        }),
{
    let p = zero_padded(s, width);
    assert(p.skip(p.len() - s.len()) =~= s);
}

/// Two texts are the same, the case of ASCII letters aside, where they are as
/// long, and each character of one is that of the other, or the same ASCII
/// letter in the other case.
pub proof fn law_same_ignoring_case(a: &str, b: &str, r: bool)
    requires
        call_ensures(same_text_ignoring_case, (a, b), r),
    ensures
        r <==> a@.len() == b@.len() && forall|i: int|
            0 <= i < a@.len() ==> {
                ||| #[trigger] a@[i] == b@[i]
                ||| 'A' <= a@[i] && a@[i] <= 'Z' && b@[i] as u32 == a@[i] as u32 + 32
                ||| 'A' <= b@[i] && b@[i] <= 'Z' && a@[i] as u32 == b@[i] as u32 + 32
            },
{
    let p = a@.map_values(|c: char| ascii_lower(c));
    let q = b@.map_values(|c: char| ascii_lower(c));
    if r {
        assert(p.len() == q.len());
        assert forall|i: int| 0 <= i < a@.len() implies {
            ||| #[trigger] a@[i] == b@[i]
            ||| 'A' <= a@[i] && a@[i] <= 'Z' && b@[i] as u32 == a@[i] as u32 + 32
            ||| 'A' <= b@[i] && b@[i] <= 'Z' && a@[i] as u32 == b@[i] as u32 + 32
        } by {
            assert(p[i] == q[i]);
        }
    }
    if a@.len() == b@.len() && forall|i: int|
        0 <= i < a@.len() ==> {
            ||| #[trigger] a@[i] == b@[i]
            ||| 'A' <= a@[i] && a@[i] <= 'Z' && b@[i] as u32 == a@[i] as u32 + 32
            ||| 'A' <= b@[i] && b@[i] <= 'Z' && a@[i] as u32 == b@[i] as u32 + 32
        } {
        assert forall|i: int| 0 <= i < p.len() implies p[i] == q[i] by {
            assert(a@[i] == a@[i]);
        }
        assert(p =~= q);
    }
}

/// A text starts with what it is put behind.
pub proof fn law_prefix(s: &str, pat: &str, r: bool)
    requires
        call_ensures(begins_with, (s, pat), r),
    ensures
        r <==> exists|rest: Seq<char>| s@ == #[trigger] (pat@ + rest),
{
    if r {
        let rest = s@.skip(pat@.len() as int);
        assert(s@ =~= pat@ + rest);
    }
    if exists|rest: Seq<char>| s@ == #[trigger] (pat@ + rest) {
        let rest = choose|rest: Seq<char>| s@ == #[trigger] (pat@ + rest);
        assert(s@.subrange(0, pat@.len() as int) =~= pat@);
    }
}

} // verus!
