//! Command line arguments: positional arguments and options.

use vstd::prelude::*;
use crate::text;
use crate::text::{begins_with, chars_of, cut_at, same_text, starts_with_char};

verus! {

/// An option and its value, as texts.
pub type OptionText = (Seq<char>, Seq<char>);

/// What a list of arguments stands for.
pub struct Arguments {
    pub positional: Seq<Seq<char>>,
    pub options: Seq<OptionText>,
}

/// Whether `s` is an option that takes no value.
pub open spec fn is_flag(s: Seq<char>) -> bool {
    ||| s == "--insecure"@
    ||| s == "--verbose"@
    ||| s == "--no-progress"@
    ||| s == "--resume"@
    ||| s == "--force-small"@
    ||| s == "--force-multipart"@
    ||| s == "--help"@
    ||| s == "-v"@
    ||| s == "-h"@
}

/// The long form of a short option; an option without one itself.
pub open spec fn long_form(s: Seq<char>) -> Seq<char> {
    if s == "-c"@ {
        "--config"@
    } else if s == "-v"@ {
        "--verbose"@
    } else if s == "-h"@ {
        "--help"@
    } else {
        s
    }
}

/// Whether `s` is a dash and one more ASCII character.
pub open spec fn is_short(s: Seq<char>) -> bool {
    s.len() == 2 && s[0] == '-' && (s[1] as u32) < 128
}

/// `rest`, with one more option in front.
pub open spec fn with_option(option: OptionText, rest: Arguments) -> Arguments {
    Arguments { positional: rest.positional, options: seq![option] + rest.options }
}

/// `rest`, with one more positional argument in front.
pub open spec fn with_positional(arg: Seq<char>, rest: Arguments) -> Arguments {
    Arguments { positional: seq![arg] + rest.positional, options: rest.options }
}

/// What a list of arguments stands for.
///
/// After `--` every argument is positional. `--name=value` is an option with
/// its value. Another argument that starts with `--` is a flag, with the value
/// `1`, or takes the next argument as its value; a next argument that starts
/// with a dash is used up, and the value is empty. A short option stands for
/// its long form, and takes the next argument whatever it is. All else is
/// positional.
pub open spec fn arguments(args: Seq<Seq<char>>) -> Arguments
    decreases args.len(),
{
    if args.len() == 0 {
        Arguments { positional: Seq::empty(), options: Seq::empty() }
    } else {
        let a = args[0];
        let rest = args.skip(1);
        if a == "--"@ {
            Arguments { positional: rest, options: Seq::empty() }
        } else if text::has_prefix(a, "--"@) {
            match text::split_once(a, '=') {
                Some((name, value)) => with_option((name, value), arguments(rest)),
                None => if is_flag(a) {
                    with_option((a, "1"@), arguments(rest))
                } else if rest.len() == 0 {
                    with_option((a, Seq::empty()), arguments(rest))
                } else if rest[0].len() > 0 && rest[0][0] == '-' {
                    with_option((a, Seq::empty()), arguments(rest.skip(1)))
                } else {
                    with_option((a, rest[0]), arguments(rest.skip(1)))
                },
            }
        } else if is_short(a) {
            if is_flag(long_form(a)) {
                with_option((long_form(a), "1"@), arguments(rest))
            } else if rest.len() == 0 {
                with_option((long_form(a), Seq::empty()), arguments(rest))
            } else {
                with_option((long_form(a), rest[0]), arguments(rest.skip(1)))
            }
        } else {
            with_positional(a, arguments(rest))
        }
    }
}

/// The texts of a list of options.
pub open spec fn option_texts(opts: Seq<(String, String)>) -> Seq<OptionText> {
    opts.map_values(|p: (String, String)| (p.0@, p.1@))
}

/// The value of the option `name`: the last that is not empty.
pub open spec fn option_value(opts: Seq<OptionText>, name: Seq<char>) -> Option<Seq<char>>
    decreases opts.len(),
{
    if opts.len() == 0 {
        None
    } else if opts.last().0 == name && opts.last().1.len() > 0 {
        Some(opts.last().1)
    } else {
        option_value(opts.drop_last(), name)
    }
}

/// Whether the option `name` is given, with or without a value.
pub open spec fn option_given(opts: Seq<OptionText>, name: Seq<char>) -> bool {
    exists|i: int| 0 <= i < opts.len() && (#[trigger] opts[i]).0 == name
}

fn flag(s: &str) -> (b: bool)
    ensures
        b == is_flag(s@),
{
    same_text(s, "--insecure") || same_text(s, "--verbose") || same_text(s, "--no-progress")
        || same_text(s, "--resume") || same_text(s, "--force-small") || same_text(
        s,
        "--force-multipart",
    ) || same_text(s, "--help") || same_text(s, "-v") || same_text(s, "-h")
}

fn lengthened(s: &str) -> (r: String)
    ensures
        r@ == long_form(s@),
{
    if same_text(s, "-c") {
        "--config".to_string()
    } else if same_text(s, "-v") {
        "--verbose".to_string()
    } else if same_text(s, "-h") {
        "--help".to_string()
    } else {
        s.to_string()
    }
}

fn short(s: &str) -> (b: bool)
    ensures
        b == is_short(s@),
{
    let v = chars_of(s);
    v.len() == 2 && v[0] == '-' && (v[1] as u32) < 128
}

/// Splits the arguments of a command into positional arguments and options.
pub fn parse_argv(argv: Vec<String>) -> (r: (Vec<String>, Vec<(String, String)>))
    ensures
        text::texts(r.0@) == arguments(text::texts(argv@)).positional,
        option_texts(r.1@) == arguments(text::texts(argv@)).options,
{
    let mut pos: Vec<String> = Vec::new();
    let mut opts: Vec<(String, String)> = Vec::new();
    let n: usize = argv.len();
    let mut i: usize = 0;
    let ghost all = text::texts(argv@);
    assert(all.skip(0) =~= all);
    assert(text::texts(pos@) =~= Seq::empty());
    assert(option_texts(opts@) =~= Seq::empty());
    assert(arguments(all).positional =~= text::texts(pos@) + arguments(all).positional);
    assert(arguments(all).options =~= option_texts(opts@) + arguments(all).options);
    while i < n
        invariant
            i <= n,
            n == argv@.len(),
            all == text::texts(argv@),
            arguments(all).positional == text::texts(pos@) + arguments(all.skip(i as int)).positional,
            arguments(all).options == option_texts(opts@) + arguments(all.skip(i as int)).options,
        decreases n - i,
    {
        let a: &String = &argv[i];
        let ghost todo = all.skip(i as int);
        let ghost rest = todo.skip(1);
        let ghost pos0 = pos@;
        let ghost opts0 = opts@;
        assert(todo[0] == a@);
        assert(all.skip(i + 1) =~= rest);
        if same_text(a.as_str(), "--") {
            let mut j: usize = i + 1;
            assert(all.subrange(i + 1, j as int) =~= Seq::empty());
            while j < n
                invariant
                    i < n,
                    i + 1 <= j <= n,
                    n == argv@.len(),
                    all == text::texts(argv@),
                    text::texts(pos@) == text::texts(pos0) + all.subrange(i + 1, j as int),
                decreases n - j,
            {
                let ghost pos1 = pos@;
                pos.push(argv[j].clone());
                j = j + 1;
                assert(text::texts(pos@) =~= text::texts(pos1).push(all[j - 1]));
                assert(text::texts(pos@) =~= text::texts(pos0) + all.subrange(i + 1, j as int));
            }
            assert(all.subrange(i + 1, n as int) =~= rest);
            assert(arguments(todo).options =~= Seq::empty());
            assert(arguments(all).options =~= option_texts(opts@));
            return (pos, opts);
        }
        if begins_with(a.as_str(), "--") {
            match cut_at(a.as_str(), '=') {
                Some((name, value)) => {
                    opts.push((name, value));
                    i = i + 1;
                },
                None => {
                    if flag(a.as_str()) {
                        opts.push((a.clone(), "1".to_string()));
                        i = i + 1;
                    } else if i + 1 >= n {
                        opts.push((a.clone(), String::new()));
                        i = i + 1;
                    } else {
                        assert(rest[0] == argv@[i + 1]@);
                        assert(all.skip(i + 2) =~= rest.skip(1));
                        if starts_with_char(argv[i + 1].as_str(), '-') {
                            opts.push((a.clone(), String::new()));
                        } else {
                            opts.push((a.clone(), argv[i + 1].clone()));
                        }
                        i = i + 2;
                    }
                },
            }
            assert(option_texts(opts@) =~= option_texts(opts0).push(
                (opts@.last().0@, opts@.last().1@),
            ));
            assert(opts@.last().1@.len() == 0 ==> opts@.last().1@ =~= Seq::empty());
            assert(option_texts(opts@) + arguments(all.skip(i as int)).options =~= option_texts(
                opts0,
            ) + arguments(todo).options);
        } else if short(a.as_str()) {
            let name = lengthened(a.as_str());
            if flag(name.as_str()) {
                opts.push((name, "1".to_string()));
                i = i + 1;
            } else if i + 1 >= n {
                opts.push((name, String::new()));
                i = i + 1;
            } else {
                assert(rest[0] == argv@[i + 1]@);
                assert(all.skip(i + 2) =~= rest.skip(1));
                opts.push((name, argv[i + 1].clone()));
                i = i + 2;
            }
            assert(option_texts(opts@) =~= option_texts(opts0).push(
                (opts@.last().0@, opts@.last().1@),
            ));
            assert(option_texts(opts@) + arguments(all.skip(i as int)).options =~= option_texts(
                opts0,
            ) + arguments(todo).options);
        } else {
            pos.push(a.clone());
            i = i + 1;
            assert(text::texts(pos@) =~= text::texts(pos0).push(a@));
            assert(text::texts(pos@) + arguments(rest).positional =~= text::texts(pos0) + arguments(
                todo,
            ).positional);
        }
    }
    assert(all.skip(n as int).len() == 0);
    assert(text::texts(pos@) + arguments(all.skip(n as int)).positional =~= text::texts(pos@));
    assert(option_texts(opts@) + arguments(all.skip(n as int)).options =~= option_texts(opts@));
    (pos, opts)
}

/// The value of the option `name`: the last that is not empty.
pub fn opt(opts: &[(String, String)], name: &str) -> (r: Option<String>)
    ensures
        match r {
            Some(v) => option_value(option_texts(opts@), name@) == Some(v@),
            None => option_value(option_texts(opts@), name@) is None,
        },
{
    let mut i: usize = opts.len();
    let ghost all = option_texts(opts@);
    assert(all.take(i as int) =~= all);
    while i > 0
        invariant
            i <= opts@.len(),
            all == option_texts(opts@),
            option_value(all, name@) == option_value(all.take(i as int), name@),
        decreases i,
    {
        assert(all.take(i as int).drop_last() =~= all.take(i - 1));
        i = i - 1;
        if same_text(opts[i].0.as_str(), name) && !opts[i].1.as_str().is_empty() {
            return Some(opts[i].1.clone());
        }
    }
    None
}

/// Whether the option `name` is given.
pub fn has(opts: &[(String, String)], name: &str) -> (r: bool)
    ensures
        r == option_given(option_texts(opts@), name@),
{
    let n: usize = opts.len();
    let ghost all = option_texts(opts@);
    for i in 0..n
        invariant
            n == opts@.len(),
            all == option_texts(opts@),
            forall|j: int| 0 <= j < i ==> (#[trigger] all[j]).0 != name@,
    {
        if same_text(opts[i].0.as_str(), name) {
            assert(all[i as int].0 == name@);
            return true;
        }
    }
    false
}

/// A later option with a value overrides an earlier one of the same name, and
/// one with an empty value overrides nothing.
pub proof fn law_last_value_wins(opts: Seq<OptionText>, name: Seq<char>, value: Seq<char>)
    ensures
        value.len() > 0 ==> option_value(opts.push((name, value)), name) == Some(value),
        value.len() == 0 ==> option_value(opts.push((name, value)), name) == option_value(
            opts,
            name,
        ),
{
    assert(opts.push((name, value)).drop_last() =~= opts);
}

/// An option that has a value has one that is not empty.
pub proof fn lemma_option_not_empty(opts: Seq<OptionText>, name: Seq<char>)
    ensures
        option_value(opts, name) is Some ==> option_value(opts, name)->Some_0.len() > 0,
    decreases opts.len(),
{
    if opts.len() > 0 {
        lemma_option_not_empty(opts.drop_last(), name);
    }
}

/// An option of another name has no effect on the value of an option.
pub proof fn law_options_independent(
    opts: Seq<OptionText>,
    name: Seq<char>,
    other: Seq<char>,
    value: Seq<char>,
)
    requires
        name != other,
    ensures
        option_value(opts.push((other, value)), name) == option_value(opts, name),
        option_given(opts.push((other, value)), name) == option_given(opts, name),
{
    let more = opts.push((other, value));
    assert(more.drop_last() =~= opts);
    if option_given(opts, name) {
        let i = choose|i: int| 0 <= i < opts.len() && (#[trigger] opts[i]).0 == name;
        assert(more[i].0 == name);
    }
    if option_given(more, name) {
        let i = choose|i: int| 0 <= i < more.len() && (#[trigger] more[i]).0 == name;
        assert(opts[i].0 == name);
    }
}

// ---------------------------------------------------------------------------
// What each kind of argument stands for.
// ---------------------------------------------------------------------------

/// No arguments stand for nothing; after `--` all arguments are positional.
pub proof fn law_all_positional(rest: Seq<Seq<char>>)
    ensures
        arguments(Seq::empty()).positional == Seq::<Seq<char>>::empty(),
        arguments(Seq::empty()).options == Seq::<OptionText>::empty(),
        arguments(seq!["--"@] + rest).positional == rest,
        arguments(seq!["--"@] + rest).options == Seq::<OptionText>::empty(),
{
    assert((seq!["--"@] + rest).skip(1) =~= rest);
}

/// An argument without a dash at its start is positional, and stands before
/// those that follow it.
pub proof fn law_positional(a: Seq<char>, rest: Seq<Seq<char>>)
    requires
        a.len() == 0 || a[0] != '-',
    ensures
        arguments(seq![a] + rest).positional == seq![a] + arguments(rest).positional,
        arguments(seq![a] + rest).options == arguments(rest).options,
{
    reveal_strlit("--");
    let all = seq![a] + rest;
    assert(all[0] == a);
    assert(all.skip(1) =~= rest);
    if a.len() >= 2 {
        assert(a.subrange(0, 2)[0] == a[0]);
    }
}

/// `--name=value` is an option with its value, up to the first equals sign;
/// the value may hold further ones, and dashes.
pub proof fn law_option_with_equals(name: Seq<char>, value: Seq<char>, rest: Seq<Seq<char>>)
    requires
        name.len() >= 2,
        name[0] == '-' && name[1] == '-',
        forall|i: int| 0 <= i < name.len() ==> #[trigger] name[i] != '=',
    ensures
        arguments(seq![name + seq!['='] + value] + rest).positional == arguments(rest).positional,
        arguments(seq![name + seq!['='] + value] + rest).options == seq![(name, value)]
            + arguments(rest).options,
{
    reveal_strlit("--");
    let a = name + seq!['='] + value;
    let all = seq![a] + rest;
    assert(all[0] == a);
    assert(all.skip(1) =~= rest);
    assert(a.len() > 2);
    assert(a.subrange(0, 2) =~= "--"@);
    text::law_split_once(name, '=', value);
}

/// An option that takes a value has the next argument for it, unless that
/// starts with a dash; then its value is empty, and the next argument is gone.
pub proof fn law_option_with_value(name: Seq<char>, value: Seq<char>, rest: Seq<Seq<char>>)
    requires
        name.len() > 2,
        name[0] == '-' && name[1] == '-',
        forall|i: int| 0 <= i < name.len() ==> #[trigger] name[i] != '=',
        name != "--insecure"@ && name != "--verbose"@ && name != "--no-progress"@ && name
            != "--resume"@ && name != "--force-small"@ && name != "--force-multipart"@ && name
            != "--help"@,
    ensures
        arguments(seq![name, value] + rest).positional == arguments(rest).positional,
        arguments(seq![name, value] + rest).options == seq![
            (
                name,
                if value.len() > 0 && value[0] == '-' {
                    Seq::empty()
                } else {
                    value
                },
            ),
        ] + arguments(rest).options,
        arguments(seq![name]).options == seq![(name, Seq::<char>::empty())],
        arguments(seq![name]).positional == Seq::<Seq<char>>::empty(),
{
    lemma_long_option(name);
    let all = seq![name, value] + rest;
    assert(all[0] == name);
    assert(all.skip(1) =~= seq![value] + rest);
    assert(all.skip(1)[0] == value);
    assert(all.skip(1).skip(1) =~= rest);
    let one = seq![name];
    assert(one.skip(1) =~= Seq::empty());
    law_all_positional(Seq::empty());
    assert(one[0] == name);
    assert(arguments(one) == with_option((name, Seq::empty()), arguments(one.skip(1))));
    assert(arguments(one).options =~= seq![(name, Seq::<char>::empty())]);
    assert(arguments(one).positional =~= Seq::<Seq<char>>::empty());
}

proof fn lemma_long_option(name: Seq<char>)
    requires
        name.len() > 2,
        name[0] == '-' && name[1] == '-',
        forall|i: int| 0 <= i < name.len() ==> #[trigger] name[i] != '=',
    ensures
        name != "--"@,
        name != "-v"@,
        name != "-h"@,
        text::has_prefix(name, "--"@),
        text::split_once(name, '=') is None,
{
    reveal_strlit("--");
    reveal_strlit("-v");
    reveal_strlit("-h");
    assert(name.subrange(0, 2) =~= "--"@);
    text::law_split_once(name, '=', Seq::empty());
}

/// A flag has the value `1`, and leaves the next argument alone.
pub proof fn law_flag(name: Seq<char>, rest: Seq<Seq<char>>)
    requires
        name == "--insecure"@ || name == "--verbose"@ || name == "--no-progress"@ || name
            == "--resume"@ || name == "--force-small"@ || name == "--force-multipart"@ || name
            == "--help"@,
    ensures
        arguments(seq![name] + rest).positional == arguments(rest).positional,
        arguments(seq![name] + rest).options == seq![(name, "1"@)] + arguments(rest).options,
{
    reveal_strlit("--insecure");
    reveal_strlit("--verbose");
    reveal_strlit("--no-progress");
    reveal_strlit("--resume");
    reveal_strlit("--force-small");
    reveal_strlit("--force-multipart");
    reveal_strlit("--help");
    lemma_long_option(name);
    let all = seq![name] + rest;
    assert(all[0] == name);
    assert(all.skip(1) =~= rest);
}

/// The short options: `-v` and `-h` are the flags `--verbose` and `--help`, and
/// `-c` is `--config`, with the next argument for its value.
pub proof fn law_short_options(value: Seq<char>, rest: Seq<Seq<char>>)
    ensures
        arguments(seq!["-v"@] + rest).positional == arguments(rest).positional,
        arguments(seq!["-v"@] + rest).options == seq![("--verbose"@, "1"@)] + arguments(
            rest,
        ).options,
        arguments(seq!["-h"@] + rest).positional == arguments(rest).positional,
        arguments(seq!["-h"@] + rest).options == seq![("--help"@, "1"@)] + arguments(rest).options,
        arguments(seq!["-c"@, value] + rest).positional == arguments(rest).positional,
        arguments(seq!["-c"@, value] + rest).options == seq![("--config"@, value)] + arguments(
            rest,
        ).options,
{
    reveal_strlit("--");
    reveal_strlit("-v");
    reveal_strlit("-h");
    reveal_strlit("-c");
    reveal_strlit("--config");
    reveal_strlit("--insecure");
    reveal_strlit("--verbose");
    reveal_strlit("--no-progress");
    reveal_strlit("--resume");
    reveal_strlit("--force-small");
    reveal_strlit("--force-multipart");
    reveal_strlit("--help");
    assert("-v"@.subrange(0, 2)[1] != "--"@[1]);
    assert("-h"@.subrange(0, 2)[1] != "--"@[1]);
    assert("-c"@.subrange(0, 2)[1] != "--"@[1]);
    assert("-v"@[1] != "--"@[1] && "-h"@[1] != "--"@[1] && "-c"@[1] != "--"@[1]);
    assert("-v"@[1] != "-c"@[1] && "-h"@[1] != "-c"@[1] && "-h"@[1] != "-v"@[1]);
    assert(!is_flag("--config"@)) by {
        assert("--config"@.len() != "--insecure"@.len());
        assert("--config"@.len() != "--verbose"@.len());
        assert("--config"@.len() != "--no-progress"@.len());
        assert("--config"@[2] != "--resume"@[2]);
        assert("--config"@.len() != "--force-small"@.len());
        assert("--config"@.len() != "--force-multipart"@.len());
        assert("--config"@.len() != "--help"@.len());
    }
    let v = seq!["-v"@] + rest;
    let h = seq!["-h"@] + rest;
    let c = seq!["-c"@, value] + rest;
    assert(v[0] == "-v"@ && h[0] == "-h"@ && c[0] == "-c"@);
    assert(v.skip(1) =~= rest);
    assert(h.skip(1) =~= rest);
    assert(c.skip(1) =~= seq![value] + rest);
    assert(c.skip(1).skip(1) =~= rest);
}

/// What is split are the arguments, as they are given.
pub proof fn law_arguments_split(
    argv: Vec<String>,
    r: (Vec<String>, Vec<(String, String)>),
)
    requires
        call_ensures(parse_argv, (argv,), r),
    ensures
        text::texts(r.0@) == arguments(text::texts(argv@)).positional,
        option_texts(r.1@) == arguments(text::texts(argv@)).options,
{
}

/// The value of an option is the last that is not empty among those of its
/// name; it has none where all are empty.
pub proof fn law_option_value(opts: &[(String, String)], name: &str, r: Option<String>)
    requires
        call_ensures(opt, (opts, name), r),
    ensures
        r is Some ==> exists|i: int|
            0 <= i < opts@.len() && (#[trigger] opts@[i]).0@ == name@ && opts@[i].1@
                == r->Some_0@ && r->Some_0@.len() > 0 && forall|j: int|
                i < j < opts@.len() && (#[trigger] opts@[j]).0@ == name@ ==> opts@[j].1@.len()
                    == 0,
        r is None ==> forall|j: int|
            0 <= j < opts@.len() && (#[trigger] opts@[j]).0@ == name@ ==> opts@[j].1@.len() == 0,
{
    let all = option_texts(opts@);
    lemma_option_position(all, name@);
    assert forall|j: int| 0 <= j < opts@.len() implies (#[trigger] opts@[j]).0@ == all[j].0
        && opts@[j].1@ == all[j].1 by {}
    if r is Some {
        let i = choose|i: int|
            0 <= i < all.len() && (#[trigger] all[i]).0 == name@ && all[i].1 == r->Some_0@
                && all[i].1.len() > 0 && forall|j: int|
                i < j < all.len() && (#[trigger] all[j]).0 == name@ ==> all[j].1.len() == 0;
        assert(opts@[i].0@ == name@);
        assert forall|j: int| i < j < opts@.len() && (#[trigger] opts@[j]).0@ == name@ implies
            opts@[j].1@.len() == 0 by {
            assert(all[j].0 == name@);
        }
    } else {
        assert forall|j: int| 0 <= j < opts@.len() && (#[trigger] opts@[j]).0@ == name@ implies
            opts@[j].1@.len() == 0 by {
            assert(all[j].0 == name@);
        }
    }
}

proof fn lemma_option_position(opts: Seq<OptionText>, name: Seq<char>)
    ensures
        match option_value(opts, name) {
            Some(v) => exists|i: int|
                0 <= i < opts.len() && (#[trigger] opts[i]).0 == name && opts[i].1 == v
                    && opts[i].1.len() > 0 && forall|j: int|
                    i < j < opts.len() && (#[trigger] opts[j]).0 == name ==> opts[j].1.len() == 0,
            None => forall|j: int|
                0 <= j < opts.len() && (#[trigger] opts[j]).0 == name ==> opts[j].1.len() == 0,
        },
    decreases opts.len(),
{
    if opts.len() > 0 {
        let n = opts.len() - 1;
        let rest = opts.drop_last();
        if opts.last().0 == name && opts.last().1.len() > 0 {
            assert(opts[n].0 == name);
        } else {
            lemma_option_position(rest, name);
            match option_value(rest, name) {
                Some(v) => {
                    let i = choose|i: int|
                        0 <= i < rest.len() && (#[trigger] rest[i]).0 == name && rest[i].1 == v
                            && rest[i].1.len() > 0 && forall|j: int|
                            i < j < rest.len() && (#[trigger] rest[j]).0 == name
                                ==> rest[j].1.len() == 0;
                    assert(opts[i].0 == name);
                    assert forall|j: int| i < j < opts.len() && (#[trigger] opts[j]).0
                        == name implies opts[j].1.len() == 0 by {
                        if j < n {
                            assert(rest[j].0 == name);
                        }
                    }
                },
                None => {
                    assert forall|j: int| 0 <= j < opts.len() && (#[trigger] opts[j]).0
                        == name implies opts[j].1.len() == 0 by {
                        if j < n {
                            assert(rest[j].0 == name);
                        }
                    }
                },
            }
        }
    }
}

/// An option is given where one of its name is there, with or without a value.
pub proof fn law_option_given(opts: &[(String, String)], name: &str, r: bool)
    requires
        call_ensures(has, (opts, name), r),
    ensures
        r <==> exists|i: int| 0 <= i < opts@.len() && (#[trigger] opts@[i]).0@ == name@,
{
    let all = option_texts(opts@);
    if r {
        let i = choose|i: int| 0 <= i < all.len() && (#[trigger] all[i]).0 == name@;
        assert(opts@[i].0@ == name@);
    }
    if exists|i: int| 0 <= i < opts@.len() && (#[trigger] opts@[i]).0@ == name@ {
        let i = choose|i: int| 0 <= i < opts@.len() && (#[trigger] opts@[i]).0@ == name@;
        assert(all[i].0 == name@);
    }
}

/// A dash alone, a dash and more than one character, and a dash and a character
/// that is not ASCII are positional.
pub proof fn law_dash_positional(a: Seq<char>, rest: Seq<Seq<char>>)
    requires
        a.len() > 0,
        a[0] == '-',
        a.len() == 1 || (a[1] != '-' && (a.len() > 2 || a[1] as u32 >= 128)),
    ensures
        arguments(seq![a] + rest).positional == seq![a] + arguments(rest).positional,
        arguments(seq![a] + rest).options == arguments(rest).options,
{
    reveal_strlit("--");
    let all = seq![a] + rest;
    assert(all[0] == a);
    assert(all.skip(1) =~= rest);
    if a.len() >= 2 {
        assert(a.subrange(0, 2)[1] == a[1]);
    }
}

/// Any other short option is an option by its own name, with the next argument
/// for its value, whatever that is.
pub proof fn law_other_short_option(c: char, value: Seq<char>, rest: Seq<Seq<char>>)
    requires
        (c as u32) < 128,
        c != '-' && c != 'c' && c != 'v' && c != 'h',
    ensures
        arguments(seq![seq!['-', c], value] + rest).positional == arguments(rest).positional,
        arguments(seq![seq!['-', c], value] + rest).options == seq![(seq!['-', c], value)]
            + arguments(rest).options,
{
    reveal_strlit("--");
    reveal_strlit("-v");
    reveal_strlit("-h");
    reveal_strlit("-c");
    reveal_strlit("--insecure");
    reveal_strlit("--verbose");
    reveal_strlit("--no-progress");
    reveal_strlit("--resume");
    reveal_strlit("--force-small");
    reveal_strlit("--force-multipart");
    reveal_strlit("--help");
    let a = seq!['-', c];
    assert(a[1] == c && a.len() == 2);
    assert(a.subrange(0, 2)[1] == c);
    assert("--"@[1] != c && "-v"@[1] != c && "-h"@[1] != c && "-c"@[1] != c);
    assert(long_form(a) == a);
    assert(!is_flag(a));
    let all = seq![a, value] + rest;
    assert(all[0] == a);
    assert(all.skip(1) =~= seq![value] + rest);
    assert(all.skip(1).skip(1) =~= rest);
}

} // verus!
