//! Configuration files: sections of keys and values.

use vstd::prelude::*;
use vstd::string::*;
use vstd::utf8::*;
use crate::table;
use crate::table::Table;
use crate::text;
use crate::text::{chars_of, cut_at, pieces, same_text, text_between, trimmed, trimmed_end};

verus! {

/// The keys and values of a section.
pub type Section = Table<String>;

/// The sections of a configuration file, by name.
pub type Sections = Table<Section>;

/// What a section stands for.
pub type SectionMap = Map<Seq<char>, Seq<char>>;

/// What the sections of a file stand for.
pub type SectionsMap = Map<Seq<char>, SectionMap>;

// ---------------------------------------------------------------------------
// Reading.
// ---------------------------------------------------------------------------

/// What a line stands for.
pub enum Line {
    /// An empty line, a comment, or a line that is none of the others.
    Nothing,
    /// `[name]`: what follows belongs to the section `name`.
    Header(Seq<char>),
    /// `key = value`.
    Pair(Seq<char>, Seq<char>),
}

/// Whether `c` starts a comment.
pub open spec fn starts_comment(c: char) -> bool {
    c == ';' || c == '#'
}

/// The characters of `s` before the first comment.
pub open spec fn before_comment(s: Seq<char>) -> Seq<char>
    decreases s.len(),
{
    if s.len() == 0 || starts_comment(s[0]) {
        Seq::empty()
    } else {
        seq![s[0]] + before_comment(s.skip(1))
    }
}

/// What a line stands for, white space around it, its key and its value
/// aside. The case of a key does not matter.
pub open spec fn line_of(raw: Seq<char>) -> Line {
    let line = text::trim(raw);
    if line.len() == 0 || starts_comment(line[0]) {
        Line::Nothing
    } else if line[0] == '[' && line.last() == ']' {
        Line::Header(text::trim(line.subrange(1, line.len() - 1)))
    } else {
        match text::split_once(line, '=') {
            Some((k, v)) => Line::Pair(
                text::lowercase(text::trim(k)),
                text::trim(before_comment(text::trim(v))),
            ),
            None => Line::Nothing,
        }
    }
}

/// How far a file has been read.
#[verifier::ext_equal]
pub struct Reading {
    /// The section that keys and values belong to.
    pub current: Seq<char>,
    pub sections: SectionsMap,
}

/// The section `name`, empty where there is none.
pub open spec fn section_of(sections: SectionsMap, name: Seq<char>) -> SectionMap {
    if sections.contains_key(name) {
        sections[name]
    } else {
        Map::empty()
    }
}

/// What reading one more line comes to.
pub open spec fn read_line(r: Reading, raw: Seq<char>) -> Reading {
    match line_of(raw) {
        Line::Nothing => r,
        Line::Header(name) => Reading {
            current: name,
            sections: r.sections.insert(name, section_of(r.sections, name)),
        },
        Line::Pair(k, v) => Reading {
            current: r.current,
            sections: r.sections.insert(
                r.current,
                section_of(r.sections, r.current).insert(k, v),
            ),
        },
    }
}

/// What reading the lines one by one comes to.
pub open spec fn read_lines(r: Reading, lines: Seq<Seq<char>>) -> Reading
    decreases lines.len(),
{
    if lines.len() == 0 {
        r
    } else {
        read_lines(read_line(r, lines[0]), lines.skip(1))
    }
}

/// Before the first line: the section `common`, without keys.
pub open spec fn unread() -> Reading {
    Reading {
        current: "common"@,
        sections: Map::<Seq<char>, SectionMap>::empty().insert("common"@, Map::empty()),
    }
}

/// The sections of a file.
pub open spec fn ini_sections(s: Seq<char>) -> SectionsMap {
    read_lines(unread(), text::split(s, '\n')).sections
}

/// Gives `key` the value `value` in the section `name`.
pub fn put(sections: &mut Sections, name: &str, key: String, value: String)
    ensures
        final(sections)@ == old(sections)@.insert(
            name@,
            section_of(old(sections)@, name@).insert(key@, value@),
        ),
{
    let ghost before = sections@;
    let mut section: Section = match sections.position(name) {
        Some(i) => sections.replace_at(i, Table::new()),
        None => Table::new(),
    };
    section.insert(key, value);
    sections.insert(name.to_string(), section);
    assert(sections@ =~= before.insert(name@, section_of(before, name@).insert(key@, value@)));
}

fn without_comment(s: &str) -> (r: String)
    ensures
        r@ == before_comment(s@),
{
    let v = chars_of(s);
    let mut i: usize = 0;
    assert(v@.skip(0) =~= v@);
    assert(v@.take(0) + before_comment(v@) =~= before_comment(v@));
    while i < v.len() && v[i] != ';' && v[i] != '#'
        invariant
            i <= v@.len(),
            before_comment(v@) == v@.take(i as int) + before_comment(v@.skip(i as int)),
        decreases v@.len() - i,
    {
        let ghost rest = v@.skip(i as int);
        assert(rest.skip(1) =~= v@.skip(i + 1));
        assert(v@.take(i + 1) + before_comment(v@.skip(i + 1)) =~= v@.take(i as int)
            + before_comment(rest));
        i = i + 1;
    }
    assert(v@.take(i as int) + before_comment(v@.skip(i as int)) =~= v@.subrange(0, i as int));
    text_between(&v, 0, i)
}

/// The sections of a file.
pub fn parse_ini(s: &str) -> (r: Sections)
    ensures
        r@ == ini_sections(s@),
{
    let mut sections: Sections = Table::new();
    let mut current: String = "common".to_string();
    sections.insert(current.clone(), Table::new());
    let lines = pieces(s, '\n');
    let ghost all = text::texts(lines@);
    let mut i: usize = 0;
    assert(all.skip(0) =~= all);
    assert(sections@ =~= unread().sections);
    while i < lines.len()
        invariant
            i <= lines@.len(),
            all == text::texts(lines@),
            all == text::split(s@, '\n'),
            read_lines(unread(), all) == read_lines(
                (Reading { current: current@, sections: sections@ }),
                all.skip(i as int),
            ),
        decreases lines@.len() - i,
    {
        let ghost before = Reading { current: current@, sections: sections@ };
        let ghost rest = all.skip(i as int);
        assert(rest[0] == lines@[i as int]@);
        assert(rest.skip(1) =~= all.skip(i + 1));
        let line = trimmed(lines[i].as_str());
        let v = chars_of(line.as_str());
        let n: usize = v.len();
        if n == 0 || v[0] == ';' || v[0] == '#' {
        } else if v[0] == '[' && v[n - 1] == ']' {
            current = trimmed(text_between(&v, 1, n - 1).as_str());
            match sections.position(current.as_str()) {
                Some(_) => {
                    assert(sections@ =~= before.sections.insert(
                        current@,
                        section_of(before.sections, current@),
                    ));
                },
                None => {
                    sections.insert(current.clone(), Table::new());
                },
            }
        } else {
            match cut_at(line.as_str(), '=') {
                Some((k, v)) => {
                    let key = trimmed(k.as_str()).as_str().to_lowercase();
                    let value = trimmed(without_comment(trimmed(v.as_str()).as_str()).as_str());
                    put(&mut sections, current.as_str(), key, value);
                },
                None => {},
            }
        }
        assert(read_line(before, rest[0]) =~= (Reading {
            current: current@,
            sections: sections@,
        }));
        i = i + 1;
    }
    assert(all.skip(i as int).len() == 0);
    sections
}

// ---------------------------------------------------------------------------
// Writing.
// ---------------------------------------------------------------------------

/// The line of a key and its value.
pub open spec fn pair_line(k: Seq<char>, v: Seq<char>) -> Seq<char> {
    k + " = "@ + v
}

/// The lines of the keys and values of a section.
pub open spec fn pairs_text(items: Seq<(String, String)>) -> Seq<char>
    decreases items.len(),
{
    if items.len() == 0 {
        Seq::empty()
    } else {
        pair_line(items[0].0@, items[0].1@) + "\n"@ + pairs_text(items.skip(1))
    }
}

/// Whether a section is left out of the file: `common`, where it is empty.
pub open spec fn left_out(name: Seq<char>, section: Section) -> bool {
    name == "common"@ && section.items().len() == 0
}

/// The lines of a section, and an empty one.
pub open spec fn section_text(name: Seq<char>, section: Section) -> Seq<char> {
    if left_out(name, section) {
        Seq::empty()
    } else {
        "["@ + name + "]\n"@ + pairs_text(section.items()) + "\n"@
    }
}

/// The lines of all sections.
pub open spec fn sections_text(items: Seq<(String, Section)>) -> Seq<char>
    decreases items.len(),
{
    if items.len() == 0 {
        Seq::empty()
    } else {
        section_text(items[0].0@, items[0].1) + sections_text(items.skip(1))
    }
}

/// The file with these sections.
pub open spec fn ini_text(items: Seq<(String, Section)>) -> Seq<char> {
    text::trim_end(sections_text(items)) + "\n"@
}

fn write_pairs(out: &mut String, section: &Section)
    ensures
        final(out)@ == old(out)@ + pairs_text(section.items()),
{
    let ghost start = out@;
    let n: usize = section.len();
    let ghost items = section.items();
    let mut i: usize = 0;
    assert(items.skip(0) =~= items);
    while i < n
        invariant
            i <= n,
            n == items.len(),
            items == section.items(),
            start + pairs_text(items) == out@ + pairs_text(items.skip(i as int)),
        decreases n - i,
    {
        let ghost before = out@;
        let ghost rest = items.skip(i as int);
        assert(rest.skip(1) =~= items.skip(i + 1));
        out.append(section.name_at(i));
        out.append(" = ");
        out.append(section.value_at(i).as_str());
        out.append("\n");
        i = i + 1;
        assert(out@ + pairs_text(items.skip(i as int)) =~= before + pairs_text(rest));
    }
    assert(items.skip(i as int).len() == 0);
    assert(out@ + pairs_text(items.skip(i as int)) =~= out@);
}

/// The file with these sections.
pub fn write_sections(sections: &Sections) -> (s: String)
    ensures
        s@ == ini_text(sections.items()),
{
    let mut out = String::new();
    let n: usize = sections.len();
    let ghost items = sections.items();
    let mut i: usize = 0;
    assert(items.skip(0) =~= items);
    assert(out@ + sections_text(items) =~= sections_text(items));
    while i < n
        invariant
            i <= n,
            n == items.len(),
            items == sections.items(),
            sections_text(items) == out@ + sections_text(items.skip(i as int)),
        decreases n - i,
    {
        let ghost before = out@;
        let ghost rest = items.skip(i as int);
        assert(rest.skip(1) =~= items.skip(i + 1));
        let name = sections.name_at(i);
        let section = sections.value_at(i);
        if !(same_text(name, "common") && section.is_empty()) {
            out.append("[");
            out.append(name);
            out.append("]\n");
            write_pairs(&mut out, section);
            out.append("\n");
        }
        i = i + 1;
        assert(out@ + sections_text(items.skip(i as int)) =~= before + sections_text(rest));
    }
    assert(items.skip(i as int).len() == 0);
    assert(out@ + sections_text(items.skip(i as int)) =~= out@);
    let mut s = trimmed_end(out.as_str());
    s.append("\n");
    s
}

// ---------------------------------------------------------------------------
// What is written is read back.
// ---------------------------------------------------------------------------

/// Whether no character of `s` is `c`.
pub open spec fn lacks(s: Seq<char>, c: char) -> bool {
    forall|i: int| 0 <= i < s.len() ==> #[trigger] s[i] != c
}

/// Whether a key and a value can have been read from a line: neither has a
/// line break or white space at an end, the key is in lower case, holds no
/// equals sign and starts no comment, and the value holds no comment.
pub open spec fn readable_pair(k: Seq<char>, v: Seq<char>) -> bool {
    &&& text::is_trimmed(k)
    &&& text::is_trimmed(v)
    &&& text::lowercase(k) == k
    &&& lacks(k, '\n')
    &&& lacks(k, '=')
    &&& lacks(v, '\n')
    &&& lacks(v, ';')
    &&& lacks(v, '#')
    &&& k.len() > 0 ==> !starts_comment(k[0])
}

/// Whether the line of a key and its value looks like a header.
pub open spec fn like_header(k: Seq<char>, v: Seq<char>) -> bool {
    k.len() > 0 && k[0] == '[' && v.len() > 0 && v.last() == ']'
}

/// Whether the line of a key and its value stands for them again.
pub open spec fn writable_pair(k: Seq<char>, v: Seq<char>) -> bool {
    readable_pair(k, v) && !like_header(k, v)
}

/// Whether the header of a section stands for its name again.
pub open spec fn writable_name(name: Seq<char>) -> bool {
    text::is_trimmed(name) && lacks(name, '\n')
}

/// Whether no name occurs twice in a section, and each of its lines stands for
/// its key and value again.
pub open spec fn writable_section(section: Section) -> bool {
    &&& table::distinct_names(section.items())
    &&& forall|i: int|
        0 <= i < section.items().len() ==> writable_pair(
            (#[trigger] section.items()[i]).0@,
            section.items()[i].1@,
        )
}

/// Whether no name occurs twice, and every line of the file stands again for
/// what it was written for.
pub open spec fn writable(items: Seq<(String, Section)>) -> bool {
    &&& table::distinct_names(items)
    &&& forall|i: int|
        0 <= i < items.len() ==> writable_name((#[trigger] items[i]).0@) && writable_section(
            items[i].1,
        )
}

/// What reading a text comes to.
pub open spec fn read_text(r: Reading, s: Seq<char>) -> Reading {
    read_lines(r, text::split(s, '\n'))
}

proof fn lemma_find_newline(line: Seq<char>, rest: Seq<char>)
    requires
        lacks(line, '\n'),
    ensures
        text::find_char(line + seq!['\n'] + rest, '\n') == Some(line.len() as int),
        text::find_char(line, '\n') is None,
{
    let s = line + seq!['\n'] + rest;
    text::lemma_find_char_from(s, '\n', 0);
    text::lemma_find_char_from(line, '\n', 0);
    assert(s[line.len() as int] == '\n');
    match text::find_char(s, '\n') {
        Some(p) => {
            if p < line.len() {
                assert(s[p] == line[p]);
            }
        },
        None => {},
    }
}

proof fn lemma_read_first_line(r: Reading, line: Seq<char>, rest: Seq<char>)
    requires
        lacks(line, '\n'),
    ensures
        read_text(r, line + seq!['\n'] + rest) == read_text(read_line(r, line), rest),
{
    let s = line + seq!['\n'] + rest;
    lemma_find_newline(line, rest);
    assert(s.take(line.len() as int) =~= line);
    assert(s.skip(line.len() as int + 1) =~= rest);
    let lines = text::split(s, '\n');
    assert(lines =~= seq![line] + text::split(rest, '\n'));
    assert(lines.skip(1) =~= text::split(rest, '\n'));
}

proof fn lemma_read_last_line(r: Reading, line: Seq<char>)
    requires
        lacks(line, '\n'),
    ensures
        read_text(r, line) == read_line(r, line),
{
    lemma_find_newline(line, Seq::empty());
    let lines = text::split(line, '\n');
    assert(lines =~= seq![line]);
    assert(lines.skip(1).len() == 0);
    assert(read_lines(read_line(r, line), lines.skip(1)) == read_line(r, line));
}

/// White space at the end of a text changes nothing.
proof fn lemma_read_trailing(r: Reading, s: Seq<char>, w: char)
    requires
        text::is_white_space(w),
    ensures
        read_text(r, s.push(w)) == read_text(r, s),
    decreases s.len(),
{
    text::lemma_find_char_from(s, '\n', 0);
    match text::find_char(s, '\n') {
        Some(i) => {
            let line = s.take(i);
            let rest = s.skip(i + 1);
            assert(lacks(line, '\n'));
            assert(s =~= line + seq!['\n'] + rest);
            assert(s.push(w) =~= line + seq!['\n'] + rest.push(w));
            lemma_read_first_line(r, line, rest);
            lemma_read_first_line(r, line, rest.push(w));
            lemma_read_trailing(read_line(r, line), rest, w);
        },
        None => {
            assert(lacks(s, '\n'));
            lemma_read_last_line(r, s);
            if w == '\n' {
                let empty = Seq::<char>::empty();
                assert(s.push(w) =~= s + seq!['\n'] + empty);
                lemma_read_first_line(r, s, empty);
                lemma_read_last_line(read_line(r, s), empty);
                assert(text::trim(empty).len() == 0);
            } else {
                lemma_read_last_line(r, s.push(w));
                text::lemma_trim_push(s, w);
            }
        },
    }
}

proof fn lemma_read_trimmed(r: Reading, s: Seq<char>)
    ensures
        read_text(r, text::trim_end(s)) == read_text(r, s),
    decreases s.len(),
{
    if s.len() > 0 && text::is_white_space(s.last()) {
        lemma_read_trimmed(r, s.drop_last());
        lemma_read_trailing(r, s.drop_last(), s.last());
        assert(s.drop_last().push(s.last()) =~= s);
    }
}

proof fn lemma_no_comment(s: Seq<char>)
    requires
        lacks(s, ';'),
        lacks(s, '#'),
    ensures
        before_comment(s) == s,
    decreases s.len(),
{
    if s.len() > 0 {
        assert(s[0] != ';' && s[0] != '#');
        assert forall|i: int| 0 <= i < s.skip(1).len() implies #[trigger] s.skip(1)[i] != ';'
            && s.skip(1)[i] != '#' by {
            assert(s.skip(1)[i] == s[i + 1]);
        }
        lemma_no_comment(s.skip(1));
        assert(seq![s[0]] + s.skip(1) =~= s);
    }
}

/// The line of a pair stands for it.
proof fn lemma_pair_line(k: Seq<char>, v: Seq<char>)
    requires
        writable_pair(k, v),
    ensures
        lacks(pair_line(k, v), '\n'),
        line_of(pair_line(k, v)) == Line::Pair(k, v),
{
    reveal_strlit(" = ");
    let raw = pair_line(k, v);
    let eq = seq![' ', '=', ' '];
    assert(raw =~= k + eq + v);
    let kpart = if k.len() == 0 {
        Seq::empty()
    } else {
        k.push(' ')
    };
    let vpart = if v.len() == 0 {
        Seq::empty()
    } else {
        seq![' '] + v
    };
    let line = kpart + seq!['='] + vpart;
    // The line, without white space around it.
    assert(text::trim_start(raw) == if k.len() == 0 {
        raw.skip(1)
    } else {
        raw
    }) by {
        if k.len() == 0 {
            assert(raw[0] == ' ');
            assert(raw.skip(1)[0] == '=');
            assert(text::trim_start(raw.skip(1)) == raw.skip(1));
        } else {
            assert(raw[0] == k[0]);
        }
    }
    let started = text::trim_start(raw);
    assert(text::trim_end(started) == line) by {
        if v.len() == 0 {
            assert(started.last() == ' ');
            assert(started.drop_last() =~= line);
            assert(line.last() == '=');
            assert(text::trim_end(line) == line);
        } else {
            assert(started.last() == v.last());
            assert(started =~= line);
        }
    }
    assert(text::trim(raw) == line);
    assert(line[0] == if k.len() == 0 {
        '='
    } else {
        k[0]
    });
    assert(line.last() == if v.len() == 0 {
        '='
    } else {
        v.last()
    });
    // The first equals sign.
    text::lemma_find_char_from(line, '=', 0);
    let at = kpart.len() as int;
    assert(line[at] == '=');
    match text::find_char(line, '=') {
        Some(p) => {
            if p < at {
                assert(line[p] == kpart[p]);
                if p < k.len() {
                    assert(kpart[p] == k[p]);
                }
            }
        },
        None => {},
    }
    assert(line.take(at) =~= kpart);
    assert(line.skip(at + 1) =~= vpart);
    // The key and the value.
    assert(text::trim(kpart) == k) by {
        if k.len() > 0 {
            text::lemma_trim_push(k, ' ');
        }
    }
    assert(text::trim(vpart) == v) by {
        if v.len() > 0 {
            assert(vpart[0] == ' ');
            assert(vpart.skip(1) =~= v);
            assert(text::trim_start(v) == v);
            assert(text::trim_start(vpart) == v);
        }
    }
    lemma_no_comment(v);
    assert(text::trim(v) == v);
    assert forall|i: int| 0 <= i < raw.len() implies #[trigger] raw[i] != '\n' by {
        if i < k.len() {
            assert(raw[i] == k[i]);
        } else if i >= k.len() + 3 {
            assert(raw[i] == v[i - k.len() - 3]);
        }
    }
}

/// The header of a section stands for its name.
proof fn lemma_header_line(name: Seq<char>)
    requires
        writable_name(name),
    ensures
        ({
            let line = seq!['['] + name + seq![']'];
            lacks(line, '\n') && line_of(line) == Line::Header(name)
        }),
{
    let line = seq!['['] + name + seq![']'];
    assert(line[0] == '[' && line.last() == ']');
    assert(text::trim(line) == line);
    assert(line.subrange(1, line.len() - 1) =~= name);
    assert(text::trim(name) == name);
    assert forall|i: int| 0 <= i < line.len() implies #[trigger] line[i] != '\n' by {
        if 0 < i < line.len() - 1 {
            assert(line[i] == name[i - 1]);
        }
    }
}

/// A section with the keys and values added one by one.
spec fn with_pairs(m: SectionMap, items: Seq<(String, String)>) -> SectionMap
    decreases items.len(),
{
    if items.len() == 0 {
        m
    } else {
        with_pairs(m.insert(items[0].0@, items[0].1@), items.skip(1))
    }
}

proof fn lemma_distinct_tail<V>(items: Seq<(String, V)>)
    requires
        table::distinct_names(items),
        items.len() > 0,
    ensures
        table::distinct_names(items.skip(1)),
        !table::has_name(items.skip(1), items[0].0@),
{
    let rest = items.skip(1);
    assert forall|i: int, j: int| 0 <= i < j < rest.len() implies (#[trigger] rest[i]).0@ != (
    #[trigger] rest[j]).0@ by {
        assert(items[i + 1].0@ != items[j + 1].0@);
    }
    assert forall|i: int| !table::is_named(rest, items[0].0@, i) by {
        if 0 <= i < rest.len() {
            assert(items[0].0@ != items[i + 1].0@);
        }
    }
}

proof fn lemma_map_of_tail<V: View>(items: Seq<(String, V)>)
    requires
        table::distinct_names(items),
        items.len() > 0,
    ensures
        table::map_of(items) == table::map_of(items.skip(1)).insert(items[0].0@, items[0].1@),
{
    let rest = items.skip(1);
    lemma_distinct_tail(items);
    let a = table::map_of(items);
    let b = table::map_of(rest).insert(items[0].0@, items[0].1@);
    table::lemma_item(items, 0);
    assert forall|n: Seq<char>|
        #![trigger a.contains_key(n)]
        #![trigger b.contains_key(n)]
        a.contains_key(n) == b.contains_key(n) && (a.contains_key(n) ==> a[n] == b[n]) by {
        if table::has_name(items, n) {
            let k = table::index_of(items, n);
            assert(table::is_named(items, n, k));
            table::lemma_item(items, k);
            if k > 0 {
                assert(table::is_named(rest, n, k - 1));
                table::lemma_item(rest, k - 1);
            }
        }
        if table::has_name(rest, n) {
            let k = table::index_of(rest, n);
            assert(table::is_named(rest, n, k));
            assert(table::is_named(items, n, k + 1));
        }
    }
    assert(a =~= b);
}

proof fn lemma_with_pairs(m: SectionMap, items: Seq<(String, String)>)
    requires
        table::distinct_names(items),
    ensures
        with_pairs(m, items) == m.union_prefer_right(table::map_of(items)),
    decreases items.len(),
{
    let a = m.union_prefer_right(table::map_of(items));
    if items.len() == 0 {
        assert(a =~= m);
    } else {
        lemma_distinct_tail(items);
        lemma_map_of_tail(items);
        lemma_with_pairs(m.insert(items[0].0@, items[0].1@), items.skip(1));
        assert(m.insert(items[0].0@, items[0].1@).union_prefer_right(
            table::map_of(items.skip(1)),
        ) =~= a);
    }
}

proof fn lemma_read_pairs(r: Reading, items: Seq<(String, String)>, rest: Seq<char>)
    requires
        r.sections.contains_key(r.current),
        forall|i: int|
            0 <= i < items.len() ==> writable_pair((#[trigger] items[i]).0@, items[i].1@),
    ensures
        read_text(r, pairs_text(items) + rest) == read_text(
            (Reading {
                current: r.current,
                sections: r.sections.insert(r.current, with_pairs(r.sections[r.current], items)),
            }),
            rest,
        ),
    decreases items.len(),
{
    if items.len() == 0 {
        assert(pairs_text(items) + rest =~= rest);
        assert(r.sections.insert(r.current, r.sections[r.current]) =~= r.sections);
    } else {
        let k = items[0].0@;
        let v = items[0].1@;
        let line = pair_line(k, v);
        let tail = items.skip(1);
        reveal_strlit("\n");
        assert(pairs_text(items) + rest =~= line + seq!['\n'] + (pairs_text(tail) + rest));
        lemma_pair_line(k, v);
        lemma_read_first_line(r, line, pairs_text(tail) + rest);
        let next = read_line(r, line);
        assert forall|i: int| 0 <= i < tail.len() implies writable_pair(
            (#[trigger] tail[i]).0@,
            tail[i].1@,
        ) by {
            assert(tail[i] == items[i + 1]);
        }
        lemma_read_pairs(next, tail, rest);
        assert(next.sections.insert(r.current, with_pairs(next.sections[r.current], tail))
            =~= r.sections.insert(r.current, with_pairs(r.sections[r.current], items)));
    }
}

/// The sections with those of a file added one by one.
spec fn with_sections(m: SectionsMap, items: Seq<(String, Section)>) -> SectionsMap
    decreases items.len(),
{
    if items.len() == 0 {
        m
    } else {
        let name = items[0].0@;
        let next = if left_out(name, items[0].1) {
            m
        } else {
            m.insert(name, with_pairs(section_of(m, name), items[0].1.items()))
        };
        with_sections(next, items.skip(1))
    }
}

proof fn lemma_read_sections(r: Reading, items: Seq<(String, Section)>)
    requires
        writable(items),
    ensures
        read_text(r, sections_text(items)).sections == with_sections(r.sections, items),
    decreases items.len(),
{
    if items.len() == 0 {
        lemma_read_last_line(r, Seq::empty());
        assert(text::trim(Seq::<char>::empty()).len() == 0);
    } else {
        let name = items[0].0@;
        let section = items[0].1;
        let tail = items.skip(1);
        lemma_distinct_tail(items);
        assert forall|i: int| 0 <= i < tail.len() implies writable_name((#[trigger] tail[i]).0@)
            && writable_section(tail[i].1) by {
            assert(tail[i] == items[i + 1]);
        }
        assert(writable_name(items[0].0@) && writable_section(items[0].1));
        let rest = sections_text(tail);
        if left_out(name, section) {
            assert(sections_text(items) =~= rest);
            lemma_read_sections(r, tail);
        } else {
            reveal_strlit("[");
            reveal_strlit("]\n");
            reveal_strlit("\n");
            let header = seq!['['] + name + seq![']'];
            let pairs = pairs_text(section.items());
            let empty = Seq::<char>::empty();
            let after_pairs = empty + seq!['\n'] + rest;
            assert(sections_text(items) =~= header + seq!['\n'] + (pairs + after_pairs));
            lemma_header_line(name);
            lemma_read_first_line(r, header, pairs + after_pairs);
            let r1 = read_line(r, header);
            lemma_read_pairs(r1, section.items(), after_pairs);
            let r2 = Reading {
                current: r1.current,
                sections: r1.sections.insert(
                    r1.current,
                    with_pairs(r1.sections[r1.current], section.items()),
                ),
            };
            lemma_read_first_line(r2, empty, rest);
            assert(text::trim(empty).len() == 0);
            assert(read_line(r2, empty) == r2);
            lemma_read_sections(r2, tail);
            assert(r2.sections =~= r.sections.insert(
                name,
                with_pairs(section_of(r.sections, name), section.items()),
            ));
        }
    }
}

/// Whether reading the file with these sections gives something for `name`.
spec fn is_written(items: Seq<(String, Section)>, name: Seq<char>) -> bool {
    table::has_name(items, name) && !left_out(name, items[table::index_of(items, name)].1)
}

proof fn lemma_with_sections(m: SectionsMap, items: Seq<(String, Section)>, name: Seq<char>)
    requires
        table::distinct_names(items),
        forall|i: int|
            0 <= i < items.len() ==> table::distinct_names((#[trigger] items[i]).1.items()),
        forall|i: int|
            0 <= i < items.len() ==> section_of(m, (#[trigger] items[i]).0@)
                == Map::<Seq<char>, Seq<char>>::empty(),
    ensures
        with_sections(m, items).contains_key(name) == (is_written(items, name) || m.contains_key(
            name,
        )),
        with_sections(m, items).contains_key(name) ==> with_sections(m, items)[name] == (
        if is_written(items, name) {
            table::map_of(items)[name]
        } else {
            m[name]
        }),
    decreases items.len(),
{
    if items.len() > 0 {
        let first = items[0].0@;
        let section = items[0].1;
        let tail = items.skip(1);
        let next = if left_out(first, section) {
            m
        } else {
            m.insert(first, with_pairs(section_of(m, first), section.items()))
        };
        lemma_distinct_tail(items);
        lemma_map_of_tail(items);
        table::lemma_item(items, 0);
        assert(table::distinct_names(items[0].1.items()));
        assert(section_of(m, items[0].0@) == Map::<Seq<char>, Seq<char>>::empty());
        lemma_with_pairs(Map::empty(), section.items());
        assert(with_pairs(Map::empty(), section.items()) =~= section@);
        assert forall|i: int| 0 <= i < tail.len() implies table::distinct_names(
            (#[trigger] tail[i]).1.items(),
        ) && section_of(next, tail[i].0@) == Map::<Seq<char>, Seq<char>>::empty() by {
            assert(tail[i] == items[i + 1]);
            assert(items[0].0@ != items[i + 1].0@);
        }
        lemma_with_sections(next, tail, name);
        if table::has_name(tail, name) {
            let k = table::index_of(tail, name);
            assert(table::is_named(tail, name, k));
            table::lemma_item(items, k + 1);
            assert(name != first);
        } else if table::has_name(items, name) {
            let k = table::index_of(items, name);
            assert(table::is_named(items, name, k));
            if k > 0 {
                assert(table::is_named(tail, name, k - 1));
            }
        }
    } else {
        assert(!table::is_named(items, name, table::index_of(items, name)));
    }
}

/// Reading the file that was written for some sections gives these sections
/// again, and an empty section `common` if they had none.
pub proof fn law_ini_round_trip(items: Seq<(String, Section)>)
    requires
        writable(items),
    ensures
        ini_sections(ini_text(items)) == table::map_of(items).insert(
            "common"@,
            section_of(table::map_of(items), "common"@),
        ),
{
    let all = sections_text(items);
    let got = ini_sections(ini_text(items));
    let m = unread().sections;
    let want = table::map_of(items).insert(
        "common"@,
        section_of(table::map_of(items), "common"@),
    );
    reveal_strlit("\n");
    assert(ini_text(items) =~= text::trim_end(all).push('\n'));
    lemma_read_trailing(unread(), text::trim_end(all), '\n');
    lemma_read_trimmed(unread(), all);
    lemma_read_sections(unread(), items);
    assert(got == with_sections(m, items));
    assert forall|i: int| 0 <= i < items.len() implies table::distinct_names(
        (#[trigger] items[i]).1.items(),
    ) && section_of(m, items[i].0@) == Map::<Seq<char>, Seq<char>>::empty() by {
        assert(writable_section(items[i].1));
    }
    assert forall|name: Seq<char>|
        #![trigger got.contains_key(name)]
        #![trigger want.contains_key(name)]
        got.contains_key(name) == want.contains_key(name) && (got.contains_key(name) ==> got[name]
            == want[name]) by {
        lemma_with_sections(m, items, name);
        if table::has_name(items, name) {
            let k = table::index_of(items, name);
            assert(table::is_named(items, name, k));
            table::lemma_item(items, k);
            if left_out(name, items[k].1) {
                assert(items[k].1@ =~= Map::<Seq<char>, Seq<char>>::empty()) by {
                    assert forall|n: Seq<char>| !table::has_name(items[k].1.items(), n) by {}
                }
            }
        }
    }
    assert(got =~= want);
}

// ---------------------------------------------------------------------------
// What is read can be written.
// ---------------------------------------------------------------------------

/// Whether every name, key and value can have been read from a line.
pub open spec fn readable(m: SectionsMap) -> bool {
    forall|name: Seq<char>|
        #![trigger m.contains_key(name)]
        m.contains_key(name) ==> writable_name(name) && forall|k: Seq<char>|
            #![trigger m[name].contains_key(k)]
            m[name].contains_key(k) ==> readable_pair(k, m[name][k])
}

/// Whether the key of a line, if it has one, is written in ASCII characters.
pub open spec fn has_ascii_key(raw: Seq<char>) -> bool {
    line_of(raw) is Pair ==> is_ascii_chars(
        text::trim(text::split_once(text::trim(raw), '=')->Some_0.0),
    )
}

proof fn lemma_part_of_line(s: Seq<char>, from: int, to: int)
    requires
        lacks(s, '\n'),
        0 <= from <= to <= s.len(),
    ensures
        lacks(s.subrange(from, to), '\n'),
{
    let t = s.subrange(from, to);
    assert forall|i: int| 0 <= i < t.len() implies #[trigger] t[i] != '\n' by {
        assert(t[i] == s[from + i]);
    }
}

proof fn lemma_trimmed_line(s: Seq<char>)
    requires
        lacks(s, '\n'),
    ensures
        lacks(text::trim(s), '\n'),
        text::is_trimmed(text::trim(s)),
{
    let from = text::lemma_trim_part(s);
    lemma_part_of_line(s, from, from + text::trim(s).len());
    text::lemma_trim_is_trimmed(s);
}

proof fn lemma_before_comment(s: Seq<char>)
    ensures
        before_comment(s).len() <= s.len(),
        before_comment(s) == s.take(before_comment(s).len() as int),
        lacks(before_comment(s), ';'),
        lacks(before_comment(s), '#'),
    decreases s.len(),
{
    if s.len() > 0 && !starts_comment(s[0]) {
        let rest = before_comment(s.skip(1));
        lemma_before_comment(s.skip(1));
        let b = before_comment(s);
        assert forall|i: int| 0 <= i < b.len() implies #[trigger] b[i] == s[i] && b[i] != ';'
            && b[i] != '#' by {
            if i > 0 {
                assert(b[i] == rest[i - 1]);
                assert(rest[i - 1] == s.skip(1)[i - 1]);
            }
        }
        assert(b =~= s.take(b.len() as int));
    } else {
        assert(before_comment(s) =~= s.take(0));
    }
}

/// A key in lower case keeps what it had to have.
proof fn lemma_lower_key(k: Seq<char>)
    requires
        is_ascii_chars(k),
        lacks(k, '\n'),
        text::is_trimmed(k),
        lacks(k, '='),
    ensures
        ({
            let l = text::lowercase(k);
            &&& l.len() == k.len()
            &&& lacks(l, '\n')
            &&& text::is_trimmed(l)
            &&& text::lowercase(l) == l
            &&& lacks(l, '=')
            &&& k.len() > 0 && !starts_comment(k[0]) ==> !starts_comment(l[0])
        }),
{
    let l = text::lowercase(k);
    assert forall|i: int| 0 <= i < l.len() implies #[trigger] l[i] == text::ascii_lower(k[i])
        && '\0' <= l[i] && l[i] <= '\u{7f}' && l[i] != '\n' && l[i] != '=' && text::ascii_lower(
        l[i],
    ) == l[i] && text::is_white_space(l[i]) == text::is_white_space(k[i]) && starts_comment(l[i])
        == starts_comment(k[i]) by {
        assert('\0' <= k[i] && k[i] <= '\u{7f}');
        assert(k[i] != '\n' && k[i] != '=');
    }
    assert(text::lowercase(l) =~= l);
}

/// What a line stands for can be written.
proof fn lemma_line_readable(raw: Seq<char>)
    requires
        lacks(raw, '\n'),
        has_ascii_key(raw),
    ensures
        match line_of(raw) {
            Line::Nothing => true,
            Line::Header(name) => writable_name(name),
            Line::Pair(k, v) => readable_pair(k, v),
        },
{
    let line = text::trim(raw);
    lemma_trimmed_line(raw);
    if line.len() > 0 && !starts_comment(line[0]) {
        if line[0] == '[' && line.last() == ']' {
            lemma_part_of_line(line, 1, line.len() - 1);
            lemma_trimmed_line(line.subrange(1, line.len() - 1));
        } else {
            text::lemma_find_char_from(line, '=', 0);
            match text::find_char(line, '=') {
                Some(p) => {
                    let kpart = line.take(p);
                    let vpart = line.skip(p + 1);
                    assert(kpart =~= line.subrange(0, p));
                    assert(vpart =~= line.subrange(p + 1, line.len() as int));
                    lemma_part_of_line(line, 0, p);
                    lemma_part_of_line(line, p + 1, line.len() as int);
                    // The key.
                    let k = text::trim(kpart);
                    lemma_trimmed_line(kpart);
                    let from = text::lemma_trim_part(kpart);
                    assert forall|i: int| 0 <= i < k.len() implies #[trigger] k[i] != '=' by {
                        assert(k[i] == kpart[from + i]);
                        assert(kpart[from + i] == line[from + i]);
                    }
                    if k.len() > 0 {
                        assert(kpart.len() > 0);
                        assert(kpart[0] == line[0]);
                        assert(!text::is_white_space(kpart[0]));
                        assert(text::trim_start(kpart) == kpart);
                        text::lemma_trim_end_prefix(kpart);
                        assert(k[0] == line[0]);
                    }
                    lemma_lower_key(k);
                    // The value.
                    let v = text::trim(vpart);
                    lemma_trimmed_line(vpart);
                    let b = before_comment(v);
                    lemma_before_comment(v);
                    assert(b =~= v.subrange(0, b.len() as int));
                    lemma_part_of_line(v, 0, b.len() as int);
                    lemma_trimmed_line(b);
                    let at = text::lemma_trim_part(b);
                    let value = text::trim(b);
                    assert forall|i: int| 0 <= i < value.len() implies #[trigger] value[i] != ';'
                        && value[i] != '#' by {
                        assert(value[i] == b[at + i]);
                    }
                },
                None => {},
            }
        }
    }
}

/// The pieces of a text lack the separator.
proof fn lemma_split_lines(s: Seq<char>)
    ensures
        forall|i: int|
            0 <= i < text::split(s, '\n').len() ==> lacks(#[trigger] text::split(s, '\n')[i], '\n'),
    decreases s.len(),
{
    text::lemma_find_char_from(s, '\n', 0);
    let lines = text::split(s, '\n');
    match text::find_char(s, '\n') {
        Some(p) => {
            let first = s.take(p);
            let rest = s.skip(p + 1);
            assert(lacks(first, '\n'));
            lemma_split_lines(rest);
            assert forall|i: int| 0 <= i < lines.len() implies lacks(#[trigger] lines[i], '\n') by {
                if i > 0 {
                    assert(lines[i] == text::split(rest, '\n')[i - 1]);
                }
            }
        },
        None => {
            assert(lacks(s, '\n'));
        },
    }
}

proof fn lemma_read_readable(r: Reading, lines: Seq<Seq<char>>)
    requires
        readable(r.sections),
        writable_name(r.current),
        forall|i: int|
            0 <= i < lines.len() ==> lacks(#[trigger] lines[i], '\n') && has_ascii_key(lines[i]),
    ensures
        readable(read_lines(r, lines).sections),
    decreases lines.len(),
{
    if lines.len() > 0 {
        let next = read_line(r, lines[0]);
        assert(lacks(lines[0], '\n') && has_ascii_key(lines[0]));
        lemma_line_readable(lines[0]);
        let tail = lines.skip(1);
        assert forall|i: int| 0 <= i < tail.len() implies lacks(#[trigger] tail[i], '\n')
            && has_ascii_key(tail[i]) by {
            assert(tail[i] == lines[i + 1]);
        }
        assert(readable(next.sections)) by {
            let m = next.sections;
            assert forall|name: Seq<char>|
                #![trigger m.contains_key(name)]
                m.contains_key(name) implies writable_name(name) && forall|k: Seq<char>|
                #![trigger m[name].contains_key(k)]
                m[name].contains_key(k) ==> readable_pair(k, m[name][k]) by {
                if r.sections.contains_key(name) {
                    assert(writable_name(name));
                    let before = r.sections[name];
                    assert forall|k: Seq<char>|
                        #![trigger m[name].contains_key(k)]
                        m[name].contains_key(k) implies readable_pair(k, m[name][k]) by {
                        if before.contains_key(k) {
                            assert(readable_pair(k, before[k]));
                        }
                    }
                }
            }
        }
        lemma_read_readable(next, tail);
    }
}

/// What is read from a file whose keys are ASCII, written to a file, and read
/// from that, is the same, unless one of its lines would look like a header.
pub proof fn law_rewriting_keeps(s: Seq<char>, items: Seq<(String, Section)>)
    requires
        forall|i: int|
            0 <= i < text::split(s, '\n').len() ==> has_ascii_key(
                #[trigger] text::split(s, '\n')[i],
            ),
        table::map_of(items) == ini_sections(s),
        table::distinct_names(items),
        forall|i: int|
            0 <= i < items.len() ==> table::distinct_names((#[trigger] items[i]).1.items()),
        forall|name: Seq<char>, k: Seq<char>|
            #![trigger ini_sections(s)[name].contains_key(k)]
            ini_sections(s).contains_key(name) && ini_sections(s)[name].contains_key(k)
                ==> !like_header(k, ini_sections(s)[name][k]),
    ensures
        writable(items),
        ini_sections(ini_text(items)) == ini_sections(s),
{
    let m = ini_sections(s);
    lemma_split_lines(s);
    assert(writable_name("common"@)) by {
        reveal_strlit("common");
    }
    assert(readable(unread().sections));
    lemma_read_readable(unread(), text::split(s, '\n'));
    assert(readable(m));
    assert forall|i: int| 0 <= i < items.len() implies writable_name((#[trigger] items[i]).0@)
        && writable_section(items[i].1) by {
        table::lemma_item(items, i);
        let name = items[i].0@;
        let section = items[i].1;
        assert(m.contains_key(name));
        assert(m[name] == section@);
        assert(table::distinct_names(items[i].1.items()));
        assert forall|j: int| 0 <= j < section.items().len() implies writable_pair(
            (#[trigger] section.items()[j]).0@,
            section.items()[j].1@,
        ) by {
            table::lemma_item(section.items(), j);
            let k = section.items()[j].0@;
            assert(m[name].contains_key(k));
            assert(!like_header(k, m[name][k]));
        }
    }
    law_ini_round_trip(items);
    lemma_common_kept(unread(), text::split(s, '\n'));
    assert(m.insert("common"@, section_of(m, "common"@)) =~= m);
}

/// Reading never removes a section.
proof fn lemma_common_kept(r: Reading, lines: Seq<Seq<char>>)
    requires
        r.sections.contains_key("common"@),
    ensures
        read_lines(r, lines).sections.contains_key("common"@),
    decreases lines.len(),
{
    if lines.len() > 0 {
        lemma_common_kept(read_line(r, lines[0]), lines.skip(1));
    }
}

// ---------------------------------------------------------------------------
// What each line of a file does.
// ---------------------------------------------------------------------------

/// A file is read line by line, from the top: one line more has its effect on
/// what was read before it.
pub proof fn law_line_by_line(r: Reading, s: Seq<char>, line: Seq<char>)
    requires
        lacks(line, '\n'),
    ensures
        read_text(r, s + seq!['\n'] + line) == read_line(read_text(r, s), line),
        read_text(r, line) == read_line(r, line),
    decreases s.len(),
{
    lemma_read_last_line(r, line);
    text::lemma_find_char_from(s, '\n', 0);
    match text::find_char(s, '\n') {
        Some(i) => {
            let first = s.take(i);
            let rest = s.skip(i + 1);
            assert(lacks(first, '\n'));
            assert(s =~= first + seq!['\n'] + rest);
            assert(s + seq!['\n'] + line =~= first + seq!['\n'] + (rest + seq!['\n'] + line));
            lemma_read_first_line(r, first, rest);
            lemma_read_first_line(r, first, rest + seq!['\n'] + line);
            law_line_by_line(read_line(r, first), rest, line);
        },
        None => {
            assert(lacks(s, '\n'));
            lemma_read_last_line(r, s);
            lemma_read_first_line(r, s, line);
            lemma_read_last_line(read_line(r, s), line);
        },
    }
}

/// What is returned of a file is what was read of all its lines. Before the
/// first line there is the section `common`, without keys, and keys belong to
/// it.
pub proof fn law_file_read(s: &str, r: Sections)
    requires
        call_ensures(parse_ini, (s,), r),
    ensures
        r@ == read_text(unread(), s@).sections,
        unread().current == "common"@,
        unread().sections == Map::<Seq<char>, SectionMap>::empty().insert(
            "common"@,
            Map::empty(),
        ),
{
}

proof fn lemma_trim_end_behind(p: Seq<char>, r: Seq<char>)
    requires
        p.len() > 0,
        !text::is_white_space(p.last()),
    ensures
        text::trim_end(p + r) == p + text::trim_end(r),
    decreases r.len(),
{
    let s = p + r;
    if r.len() > 0 {
        assert(s.last() == r.last());
        if text::is_white_space(r.last()) {
            lemma_trim_end_behind(p, r.drop_last());
            assert(s.drop_last() =~= p + r.drop_last());
        }
    } else {
        assert(s =~= p);
        assert(p + text::trim_end(r) =~= p);
    }
}

proof fn lemma_trim_trimmed_end(r: Seq<char>)
    ensures
        text::trim(text::trim_end(r)) == text::trim(r),
    decreases r.len(),
{
    if r.len() > 0 && text::is_white_space(r.last()) {
        lemma_trim_trimmed_end(r.drop_last());
        text::lemma_trim_push(r.drop_last(), r.last());
        assert(r.drop_last().push(r.last()) =~= r);
    }
}

proof fn lemma_comment_cut(a: Seq<char>, c: char, rest: Seq<char>)
    requires
        lacks(a, ';'),
        lacks(a, '#'),
        c == ';' || c == '#',
    ensures
        before_comment(a + seq![c] + rest) == a,
    decreases a.len(),
{
    let s = a + seq![c] + rest;
    if a.len() > 0 {
        assert(s[0] == a[0]);
        assert(a[0] != ';' && a[0] != '#');
        let t = a.skip(1);
        assert(s.skip(1) =~= t + seq![c] + rest);
        assert forall|i: int| 0 <= i < t.len() implies #[trigger] t[i] != ';' && t[i] != '#' by {
            assert(t[i] == a[i + 1]);
        }
        lemma_comment_cut(t, c, rest);
        assert(seq![a[0]] + t =~= a);
    } else {
        assert(s[0] == c);
    }
}

/// Whether `tail` is white space alone, or white space and a comment.
pub open spec fn is_tail(tail: Seq<char>, w: Seq<char>, comment: Seq<char>) -> bool {
    &&& tail == w + comment
    &&& text::all_white(w)
    &&& comment.len() > 0 ==> comment[0] == ';' || comment[0] == '#'
}

proof fn lemma_value(w2: Seq<char>, v: Seq<char>, tail: Seq<char>, w: Seq<char>, comment: Seq<char>)
    requires
        text::all_white(w2),
        text::is_trimmed(v),
        lacks(v, ';'),
        lacks(v, '#'),
        is_tail(tail, w, comment),
    ensures
        text::trim(before_comment(text::trim(w2 + v + tail))) == v,
{
    let none = Seq::<char>::empty();
    let r = w2 + v + tail;
    text::law_trim(none, v, none);
    assert(none + v + none =~= v);
    if comment.len() == 0 {
        assert(tail =~= w);
        text::law_trim(w2, v, w);
        lemma_no_comment(v);
    } else {
        let c = comment[0];
        let rest = comment.skip(1);
        assert(comment =~= seq![c] + rest);
        let lead = if v.len() > 0 {
            w2
        } else {
            w2 + w
        };
        let head = if v.len() > 0 {
            v + w
        } else {
            none
        };
        assert(text::all_white(lead)) by {
            assert forall|i: int| 0 <= i < lead.len() implies text::is_white_space(
                #[trigger] lead[i],
            ) by {
                if i < w2.len() {
                    assert(lead[i] == w2[i]);
                } else {
                    assert(lead[i] == w[i - w2.len()]);
                }
            }
        }
        let p = head + seq![c];
        assert(r =~= lead + (p + rest));
        assert((p + rest)[0] == if v.len() > 0 {
            v[0]
        } else {
            c
        });
        text::law_trim_start(lead, p + rest);
        assert(p.last() == c);
        lemma_trim_end_behind(p, rest);
        assert(text::trim(r) == head + seq![c] + text::trim_end(rest));
        assert forall|i: int| 0 <= i < head.len() implies #[trigger] head[i] != ';' && head[i]
            != '#' by {
            if i < v.len() {
                assert(head[i] == v[i]);
            } else {
                assert(text::is_white_space(w[i - v.len()]));
            }
        }
        lemma_comment_cut(head, c, text::trim_end(rest));
        if v.len() > 0 {
            text::law_trim(none, v, w);
            assert(none + v + w =~= head);
        } else {
            text::law_trim(none, none, none);
            assert(none + none + none =~= head);
        }
    }
}

/// `key = value` gives the key, in lower case, the value, in the section that
/// was named last; what it had before is gone, and nothing else changes. White
/// space around key and value does not count, nor does a comment behind the
/// value.
pub proof fn law_pair_read(
    r: Reading,
    w0: Seq<char>,
    k: Seq<char>,
    w1: Seq<char>,
    w2: Seq<char>,
    v: Seq<char>,
    tail: Seq<char>,
    w: Seq<char>,
    comment: Seq<char>,
)
    requires
        text::all_white(w0),
        text::all_white(w1),
        text::all_white(w2),
        k.len() > 0,
        text::is_trimmed(k),
        lacks(k, '='),
        k[0] != ';' && k[0] != '#',
        k[0] == '[' ==> comment.len() == 0 && v.len() > 0 && v.last() != ']',
        text::is_trimmed(v),
        lacks(v, ';'),
        lacks(v, '#'),
        is_tail(tail, w, comment),
    ensures
        read_line(r, w0 + (k + w1 + seq!['='] + (w2 + v + tail))) == (Reading {
            current: r.current,
            sections: r.sections.insert(
                r.current,
                (if r.sections.contains_key(r.current) {
                    r.sections[r.current]
                } else {
                    Map::empty()
                }).insert(text::lowercase(k), v),
            ),
        }),
{
    let none = Seq::<char>::empty();
    let head = k + w1;
    let p = head + seq!['='];
    let rest = w2 + v + tail;
    let raw = w0 + (k + w1 + seq!['='] + rest);
    assert((p + rest)[0] == k[0]);
    text::law_trim_start(w0, p + rest);
    assert(p.last() == '=');
    lemma_trim_end_behind(p, rest);
    let line = head + seq!['='] + text::trim_end(rest);
    assert(text::trim(raw) == line);
    assert(line[0] == k[0]);
    if k[0] == '[' {
        text::law_trim_end(w2 + v, tail);
        assert(tail =~= w);
        assert(line.last() == v.last());
    }
    assert forall|i: int| 0 <= i < head.len() implies #[trigger] head[i] != '=' by {
        if i < k.len() {
            assert(head[i] == k[i]);
        } else {
            assert(text::is_white_space(w1[i - k.len()]));
        }
    }
    text::law_split_once(head, '=', text::trim_end(rest));
    text::law_trim(none, k, w1);
    assert(none + k + w1 =~= head);
    lemma_trim_trimmed_end(rest);
    lemma_value(w2, v, tail, w, comment);
}

/// `[name]` starts a section, or goes on with it: what it holds already stays.
/// White space around the line and the name does not count.
pub proof fn law_header_read(
    r: Reading,
    w0: Seq<char>,
    w1: Seq<char>,
    name: Seq<char>,
    w2: Seq<char>,
    w3: Seq<char>,
)
    requires
        text::all_white(w0),
        text::all_white(w1),
        text::all_white(w2),
        text::all_white(w3),
        text::is_trimmed(name),
    ensures
        read_line(r, w0 + (seq!['['] + (w1 + name + w2) + seq![']']) + w3) == (Reading {
            current: name,
            sections: if r.sections.contains_key(name) {
                r.sections
            } else {
                r.sections.insert(name, Map::empty())
            },
        }),
{
    let line = seq!['['] + (w1 + name + w2) + seq![']'];
    assert(line[0] == '[' && line.last() == ']');
    text::law_trim(w0, line, w3);
    assert(line.subrange(1, line.len() - 1) =~= w1 + name + w2);
    text::law_trim(w1, name, w2);
    let after = read_line(r, w0 + line + w3);
    if r.sections.contains_key(name) {
        assert(r.sections.insert(name, r.sections[name]) =~= r.sections);
    }
}

/// White space alone, a comment, and a line that is neither a header nor has an
/// equals sign change nothing.
pub proof fn law_line_skipped(r: Reading, w0: Seq<char>, s: Seq<char>, w1: Seq<char>)
    requires
        text::all_white(w0),
        text::all_white(w1),
        text::is_trimmed(s),
        s.len() == 0 || s[0] == ';' || s[0] == '#' || (!(s[0] == '[' && s.last() == ']')
            && lacks(s, '=')),
    ensures
        read_line(r, w0 + s + w1) == r,
{
    text::law_trim(w0, s, w1);
    if s.len() > 0 && lacks(s, '=') {
        text::law_split_once(s, '=', Seq::empty());
    }
}

/// To put a value changes that of its key in its section, and nothing else.
pub proof fn law_put(sections: &mut Sections, name: &str, key: String, value: String, r: ())
    requires
        call_ensures(put, (sections, name, key, value), r),
    ensures
        final(sections)@.contains_key(name@),
        final(sections)@[name@].contains_key(key@),
        final(sections)@[name@][key@] == value@,
        forall|other: Seq<char>|
            other != name@ ==> (#[trigger] final(sections)@.contains_key(other) <==> old(sections)@.contains_key(other)),
        forall|other: Seq<char>|
            other != name@ && old(sections)@.contains_key(other) ==> #[trigger] final(sections)@[other] == old(sections)@[other],
        forall|k: Seq<char>|
            k != key@ ==> (#[trigger] final(sections)@[name@].contains_key(k) <==> old(sections)@.contains_key(name@) && old(sections)@[name@].contains_key(k)),
        forall|k: Seq<char>|
            k != key@ && old(sections)@.contains_key(name@) && old(sections)@[name@].contains_key(k) ==> #[trigger] final(sections)@[name@][k] == old(sections)@[name@][k],
{
}

/// The case of the ASCII letters of a key does not matter; its other characters
/// stay.
pub proof fn law_key_case(k: Seq<char>)
    requires
        is_ascii_chars(k),
    ensures
        text::lowercase(k).len() == k.len(),
        forall|i: int|
            0 <= i < k.len() ==> (#[trigger] text::lowercase(k)[i]) as u32 == if 'A' <= k[i]
                && k[i] <= 'Z' {
                k[i] as u32 + 32
            } else {
                k[i] as u32 as int
            },
{
}

/// The text of a file is made of its sections in their order, each with a
/// header, a line for each key, and an empty line behind them.
pub proof fn law_sections_written(items: Seq<(String, Section)>, name: String, section: Section)
    ensures
        sections_text(Seq::empty()) == Seq::<char>::empty(),
        sections_text(seq![(name, section)] + items) == (if name@ == "common"@
            && section.items().len() == 0 {
            Seq::empty()
        } else {
            "["@ + name@ + "]\n"@ + pairs_text(section.items()) + "\n"@
        }) + sections_text(items),
{
    let all = seq![(name, section)] + items;
    assert(all.skip(1) =~= items);
    assert(all[0] == (name, section));
}

/// The lines of a section are its keys and values, in their order.
pub proof fn law_pairs_written(items: Seq<(String, String)>, k: String, v: String)
    ensures
        pairs_text(Seq::empty()) == Seq::<char>::empty(),
        pairs_text(seq![(k, v)] + items) == k@ + " = "@ + v@ + "\n"@ + pairs_text(items),
{
    let all = seq![(k, v)] + items;
    assert(all.skip(1) =~= items);
    assert(all[0] == (k, v));
}

/// A file ends in one line break.
pub proof fn law_file_written(sections: &Sections, s: String)
    requires
        call_ensures(write_sections, (sections,), s),
    ensures
        s@ == text::trim_end(sections_text(sections.items())) + "\n"@,
{
}

/// A line that starts with the equals sign gives its value to the empty key.
pub proof fn law_empty_key_read(
    r: Reading,
    w0: Seq<char>,
    w2: Seq<char>,
    v: Seq<char>,
    tail: Seq<char>,
    w: Seq<char>,
    comment: Seq<char>,
)
    requires
        text::all_white(w0),
        text::all_white(w2),
        text::is_trimmed(v),
        lacks(v, ';'),
        lacks(v, '#'),
        is_tail(tail, w, comment),
    ensures
        read_line(r, w0 + (seq!['='] + (w2 + v + tail))) == (Reading {
            current: r.current,
            sections: r.sections.insert(
                r.current,
                (if r.sections.contains_key(r.current) {
                    r.sections[r.current]
                } else {
                    Map::empty()
                }).insert(Seq::empty(), v),
            ),
        }),
{
    let none = Seq::<char>::empty();
    let p = seq!['='];
    let rest = w2 + v + tail;
    text::law_trim_start(w0, p + rest);
    lemma_trim_end_behind(p, rest);
    assert(none + p + text::trim_end(rest) =~= p + text::trim_end(rest));
    text::law_split_once(none, '=', text::trim_end(rest));
    text::law_trim(none, none, none);
    assert(none + none + none =~= none);
    assert(text::lowercase(none) =~= none);
    lemma_trim_trimmed_end(rest);
    lemma_value(w2, v, tail, w, comment);
}

} // verus!
