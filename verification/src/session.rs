//! What the window does: environments, credentials, and the forms for uploads
//! and downloads.

use vstd::prelude::*;
use vstd::string::*;
use crate::cli;
use crate::commands;
use crate::commands::{safe_name, with_extension, FileParts, OutPath};
use crate::config;
use crate::config::{resolve_sections_relaxed, Config, KeySource, Surroundings};
use crate::error::Res;
use crate::ini;
use crate::ini::{put, write_sections, Sections};
use crate::order;
use crate::order::comes_before;
use crate::table;
use crate::tasks::Severity;
use crate::text;
use crate::text::{
    begins_with, chars_of, ends_with_char, pieces, same_text, text_between, trimmed,
    without_leading,
};

verus! {

// ---------------------------------------------------------------------------
// Environments.
// ---------------------------------------------------------------------------

/// Whether `name` is that of an environment: of a section other than `common`.
pub open spec fn is_env(sections: ini::SectionsMap, name: Seq<char>) -> bool {
    sections.contains_key(name) && name != "common"@
}

/// Whether `v` is the list of the environments, in order.
pub open spec fn is_env_list(v: Seq<Seq<char>>, sections: ini::SectionsMap) -> bool {
    order::ascending(v) && forall|name: Seq<char>| #[trigger]
        v.contains(name) <==> is_env(sections, name)
}

fn insert_sorted(v: &mut Vec<String>, name: String)
    requires
        order::ascending(text::texts(old(v)@)),
        !text::texts(old(v)@).contains(name@),
    ensures
        order::ascending(text::texts(final(v)@)),
        forall|t: Seq<char>| #[trigger]
            text::texts(final(v)@).contains(t) <==> (text::texts(old(v)@).contains(t) || t == name@),
{
    let ghost before = text::texts(v@);
    let mut i: usize = 0;
    while i < v.len() && comes_before(v[i].as_str(), name.as_str())
        invariant
            i <= v@.len(),
            before == text::texts(v@),
            forall|k: int| 0 <= k < i ==> order::precedes(#[trigger] before[k], name@),
        decreases v@.len() - i,
    {
        assert(before[i as int] == v@[i as int]@);
        i = i + 1;
    }
    let ghost p = i as int;
    proof {
        assert forall|k: int| p <= k < before.len() implies order::precedes(
            name@,
            #[trigger] before[k],
        ) by {
            assert(before[p] == v@[p]@);
            order::lemma_total(before[p], name@);
            if before[p] == name@ {
                assert(before.contains(name@));
            }
            if k > p {
                assert(order::precedes(before[p], before[k]));
                order::lemma_transitive(name@, before[p], before[k]);
            }
        }
    }
    let ghost added = name@;
    v.insert(i, name);
    let ghost after = text::texts(v@);
    proof {
        assert(after =~= before.insert(p, added));
        assert forall|a: int, b: int| 0 <= a < b < after.len() implies #[trigger] order::precedes(
            after[a],
            after[b],
        ) by {
            let x = if a < p {
                a
            } else {
                a - 1
            };
            let y = if b < p {
                b
            } else {
                b - 1
            };
            if a != p && b != p {
                assert(after[a] == before[x] && after[b] == before[y]);
                assert(order::precedes(before[x], before[y]));
            } else if a == p {
                assert(after[b] == before[y]);
            } else {
                assert(after[a] == before[x]);
            }
        }
        assert forall|t: Seq<char>| #[trigger] after.contains(t) <==> (before.contains(t) || t
            == added) by {
            if after.contains(t) {
                let k = choose|k: int| 0 <= k < after.len() && after[k] == t;
                if k < p {
                    assert(before[k] == t);
                } else if k > p {
                    assert(before[k - 1] == t);
                }
            }
            if before.contains(t) {
                let k = choose|k: int| 0 <= k < before.len() && before[k] == t;
                if k < p {
                    assert(after[k] == t);
                } else {
                    assert(after[k + 1] == t);
                }
            }
            assert(after[p] == added);
        }
    }
}

/// The environments, in order.
pub fn env_names(sections: &Sections) -> (v: Vec<String>)
    ensures
        is_env_list(text::texts(v@), sections@),
{
    let mut v: Vec<String> = Vec::new();
    let n: usize = sections.len();
    let ghost items = sections.items();
    let mut i: usize = 0;
    while i < n
        invariant
            i <= n,
            n == items.len(),
            items == sections.items(),
            table::distinct_names(items),
            order::ascending(text::texts(v@)),
            forall|t: Seq<char>| #[trigger]
                text::texts(v@).contains(t) <==> (exists|k: int|
                    0 <= k < i && (#[trigger] items[k]).0@ == t && t != "common"@),
        decreases n - i,
    {
        let name = sections.name_at(i);
        let ghost before = text::texts(v@);
        assert(items[i as int].0@ == name@);
        if !same_text(name, "common") {
            assert(!before.contains(name@)) by {
                if before.contains(name@) {
                    let k = choose|k: int|
                        0 <= k < i && (#[trigger] items[k]).0@ == name@ && name@ != "common"@;
                    assert(items[k].0@ != items[i as int].0@);
                }
            }
            insert_sorted(&mut v, name.to_string());
        }
        proof {
            assert forall|t: Seq<char>| #[trigger] text::texts(v@).contains(t) <==> (exists|k: int|
                0 <= k < i + 1 && (#[trigger] items[k]).0@ == t && t != "common"@) by {
                if before.contains(t) {
                    let k = choose|k: int|
                        0 <= k < i && (#[trigger] items[k]).0@ == t && t != "common"@;
                    assert(items[k].0@ == t);
                }
                if exists|k: int| 0 <= k < i + 1 && (#[trigger] items[k]).0@ == t && t
                    != "common"@ {
                    let k = choose|k: int|
                        0 <= k < i + 1 && (#[trigger] items[k]).0@ == t && t != "common"@;
                    if k < i {
                        assert(before.contains(t));
                    }
                }
            }
        }
        i = i + 1;
    }
    proof {
        assert forall|t: Seq<char>| #[trigger] text::texts(v@).contains(t) <==> is_env(
            sections@,
            t,
        ) by {
            if text::texts(v@).contains(t) {
                let k = choose|k: int|
                    0 <= k < n && (#[trigger] items[k]).0@ == t && t != "common"@;
                table::lemma_item(items, k);
            }
            if is_env(sections@, t) {
                let k = table::index_of(items, t);
                assert(table::is_named(items, t, k));
                assert(items[k].0@ == t);
            }
        }
    }
    v
}

/// The environment to begin with: the one that was used last, or else the
/// configured one, or else the first.
pub open spec fn first_env(
    envs: Seq<Seq<char>>,
    configured: Seq<char>,
    last: Option<Seq<char>>,
) -> Seq<char> {
    let wanted = match last {
        Some(l) if envs.contains(l) => l,
        _ => configured,
    };
    if envs.len() == 0 {
        configured
    } else if envs.contains(wanted) {
        wanted
    } else {
        envs[0]
    }
}

fn is_among(v: &Vec<String>, name: &str) -> (b: bool)
    ensures
        b == text::texts(v@).contains(name@),
{
    let ghost all = text::texts(v@);
    let n: usize = v.len();
    let mut i: usize = 0;
    while i < n
        invariant
            i <= n,
            n == v@.len(),
            all == text::texts(v@),
            forall|k: int| 0 <= k < i ==> #[trigger] all[k] != name@,
        decreases n - i,
    {
        assert(all[i as int] == v@[i as int]@);
        if same_text(v[i].as_str(), name) {
            return true;
        }
        i = i + 1;
    }
    false
}

/// The environment to begin with.
pub fn initial_env(envs: &Vec<String>, configured: &str, last: Option<&str>) -> (s: String)
    ensures
        s@ == first_env(
            text::texts(envs@),
            configured@,
            match last {
                Some(l) => Some(l@),
                None => None,
            },
        ),
{
    let ghost all = text::texts(envs@);
    if envs.len() == 0 {
        return configured.to_string();
    }
    assert(all[0] == envs@[0]@);
    match last {
        Some(l) => if is_among(envs, l) {
            return l.to_string();
        },
        None => {},
    }
    if is_among(envs, configured) {
        configured.to_string()
    } else {
        envs[0].clone()
    }
}

/// What is configured in an environment: with the options of the command line
/// that the window was opened with, the environment aside.
pub fn config_in(
    sections: &Sections,
    opts: &[(String, String)],
    env: &str,
    s: &Surroundings,
) -> (c: Config)
    ensures
        c@ == config::configured(
            sections@,
            cli::option_texts(opts@).push(("--env"@, env@)),
            *s,
        ),
{
    let ghost given = cli::option_texts(opts@);
    let mut all: Vec<(String, String)> = Vec::new();
    let mut i: usize = 0;
    while i < opts.len()
        invariant
            i <= opts@.len(),
            given == cli::option_texts(opts@),
            all@.len() == i,
            forall|k: int| #![trigger all@[k]] 0 <= k < i ==> (all@[k].0@, all@[k].1@) == given[k],
        decreases opts@.len() - i,
    {
        let pair: (String, String) = (opts[i].0.clone(), opts[i].1.clone());
        all.push(pair);
        i = i + 1;
    }
    all.push(("--env".to_string(), env.to_string()));
    assert(cli::option_texts(all@) =~= given.push(("--env"@, env@)));
    match resolve_sections_relaxed(sections, all.as_slice(), s) {
        Ok(c) => c,
        Err(_) => Config::default(),
    }
}

/// The configuration that the window begins with: that of the environment to
/// begin with, with the options of the command line.
pub fn session_config(
    cfg: Config,
    sections: &Sections,
    opts: &[(String, String)],
    envs: &Vec<String>,
    last: Option<&str>,
    s: &Surroundings,
) -> (c: Config)
    ensures
        ({
            let env = first_env(
                text::texts(envs@),
                cfg@.env,
                match last {
                    Some(l) => Some(l@),
                    None => None,
                },
            );
            c@ == if env.len() > 0 {
                config::configured(
                    sections@,
                    cli::option_texts(opts@).push(("--env"@, env)),
                    *s,
                )
            } else {
                cfg@
            }
        }),
{
    let env = initial_env(envs, cfg.env.as_str(), last);
    if env.as_str().is_empty() {
        cfg
    } else {
        config_in(sections, opts, env.as_str(), s)
    }
}

/// To choose an environment chooses it, whatever the command line chose, and
/// the keys of its section come before those of the section `common`.
pub proof fn law_env_chosen(
    sections: ini::SectionsMap,
    opts: Seq<cli::OptionText>,
    env: Seq<char>,
    key: Seq<char>,
    s: Surroundings,
)
    requires
        env.len() > 0,
    ensures
        config::configured(sections, opts.push(("--env"@, env)), s).env == env,
        ini::section_of(sections, env).contains_key(key) ==> config::in_file(sections, env, key)
            == Some(ini::section_of(sections, env)[key]),
{
    cli::law_last_value_wins(opts, "--env"@, env);
}

/// In every environment that is chosen, what the command line gives comes
/// before the variables and the file: the keys, the bucket and the address, and
/// which configuration file it names.
pub proof fn law_command_line_kept(
    sections: ini::SectionsMap,
    opts: Seq<cli::OptionText>,
    env: Seq<char>,
    s: Surroundings,
)
    ensures
        ({
            let c = config::configured(sections, opts.push(("--env"@, env)), s);
            let ak = cli::option_value(opts, "--ak"@);
            let sk = cli::option_value(opts, "--sk"@);
            let bucket = cli::option_value(opts, "--bucket"@);
            let url = cli::option_value(opts, "--base-url"@);
            &&& ak is Some ==> c.access_key == ak->Some_0
            &&& ak is Some ==> c.access_key_from == KeySource::CommandLine
            &&& sk is Some ==> c.secret_key == sk->Some_0
            &&& sk is Some ==> c.secret_key_from == KeySource::CommandLine
            &&& bucket is Some ==> c.bucket == bucket->Some_0
            &&& url is Some ==> c.base_url == text::trim_end_char(url->Some_0, '/')
            &&& c.config_path == config::found_config(config::named_config(opts), s)
            &&& c.config_explicit == (config::named_config(opts) is Some)
        }),
{
    reveal_strlit("--env");
    reveal_strlit("--ak");
    reveal_strlit("--sk");
    reveal_strlit("--bucket");
    reveal_strlit("--base-url");
    reveal_strlit("--config");
    reveal_strlit("-c");
    assert("--env"@[2] != "--ak"@[2]);
    assert("--env"@[2] != "--sk"@[2]);
    assert("--env"@[2] != "--bucket"@[2]);
    assert("--env"@[2] != "--base-url"@[2]);
    assert("--env"@[2] != "--config"@[2]);
    assert("--env"@[1] != "-c"@[1]);
    cli::law_options_independent(opts, "--ak"@, "--env"@, env);
    cli::law_options_independent(opts, "--sk"@, "--env"@, env);
    cli::law_options_independent(opts, "--bucket"@, "--env"@, env);
    cli::law_options_independent(opts, "--base-url"@, "--env"@, env);
    cli::law_options_independent(opts, "--config"@, "--env"@, env);
    cli::law_options_independent(opts, "-c"@, "--env"@, env);
}

/// What the window begins with is an environment that there is, unless there
/// is none.
pub proof fn law_first_env_exists(
    envs: Seq<Seq<char>>,
    configured: Seq<char>,
    last: Option<Seq<char>>,
)
    ensures
        envs.len() > 0 ==> envs.contains(first_env(envs, configured, last)),
        envs.len() == 0 ==> first_env(envs, configured, last) == configured,
        last is Some && envs.contains(last->Some_0) ==> first_env(envs, configured, last)
            == last->Some_0,
{
    if envs.len() > 0 {
        assert(envs.contains(envs[0]));
    }
}

/// The environment that was used last, by the state file: what follows
/// `last_env=` in the first line that starts with it.
pub open spec fn last_env_in(lines: Seq<Seq<char>>) -> Option<Seq<char>>
    decreases lines.len(),
{
    if lines.len() == 0 {
        None
    } else {
        let line = text::trim(lines[0]);
        if text::has_prefix(line, "last_env="@) {
            let v = text::trim(line.skip("last_env="@.len() as int));
            if v.len() == 0 {
                None
            } else {
                Some(v)
            }
        } else {
            last_env_in(lines.skip(1))
        }
    }
}

/// The environment that was used last, by the text of the state file.
pub fn load_last_env(file: &str) -> (r: Option<String>)
    ensures
        text::text_of(r) == last_env_in(text::split(file@, '\n')),
{
    let lines = pieces(file, '\n');
    let prefix = chars_of("last_env=");
    let ghost all = text::texts(lines@);
    let n: usize = lines.len();
    let mut i: usize = 0;
    assert(all.skip(0) =~= all);
    while i < n
        invariant
            i <= n,
            n == lines@.len(),
            all == text::texts(lines@),
            all == text::split(file@, '\n'),
            prefix@ == "last_env="@,
            last_env_in(all) == last_env_in(all.skip(i as int)),
        decreases n - i,
    {
        let ghost rest = all.skip(i as int);
        assert(rest[0] == lines@[i as int]@);
        assert(rest.skip(1) =~= all.skip(i + 1));
        let line = trimmed(lines[i].as_str());
        if begins_with(line.as_str(), "last_env=") {
            let v = chars_of(line.as_str());
            let m: usize = v.len();
            assert(v@.subrange(prefix@.len() as int, m as int) =~= v@.skip(prefix@.len() as int));
            let value = trimmed(text_between(&v, prefix.len(), m).as_str());
            if value.as_str().is_empty() {
                return None;
            }
            return Some(value);
        }
        i = i + 1;
    }
    assert(all.skip(i as int).len() == 0);
    None
}

/// The text of the state file that remembers an environment.
pub fn save_last_env(env: &str) -> (r: Option<String>)
    ensures
        text::text_of(r) == (if env@.len() > 0 {
            Some("last_env="@ + env@ + "\n"@)
        } else {
            None
        }),
{
    if env.is_empty() {
        return None;
    }
    let mut s = "last_env=".to_string();
    s.append(env);
    s.append("\n");
    Some(s)
}

/// The environment that is remembered is the one that is found again, where it
/// has no line break and no white space at its ends, as the name of a section
/// that was read has none.
pub proof fn law_last_env_remembered(env: Seq<char>)
    requires
        env.len() > 0,
        text::is_trimmed(env),
        ini::lacks(env, '\n'),
    ensures
        last_env_in(text::split("last_env="@ + env + "\n"@, '\n')) == Some(env),
{
    reveal_strlit("last_env=");
    reveal_strlit("\n");
    let p = "last_env="@;
    let line = p + env;
    let all = p + env + "\n"@;
    text::lemma_find_char_from(all, '\n', 0);
    assert(all[line.len() as int] == '\n');
    match text::find_char(all, '\n') {
        Some(k) => {
            if k < line.len() {
                if k >= p.len() {
                    assert(all[k] == env[k - p.len()]);
                }
            }
        },
        None => {},
    }
    assert(all.take(line.len() as int) =~= line);
    let lines = text::split(all, '\n');
    assert(lines[0] == line);
    assert(line[0] == 'l');
    assert(line.last() == env.last());
    assert(text::trim(line) == line);
    assert(line.subrange(0, p.len() as int) =~= p);
    assert(line.skip(p.len() as int) =~= env);
    assert(text::trim(env) == env);
}

// ---------------------------------------------------------------------------
// Credentials.
// ---------------------------------------------------------------------------

/// What is shown where a transfer is asked for without credentials.
pub const NO_CREDENTIALS: &'static str =
    "请先在上方「连接凭据」填写 access_key / secret_key（可点保存）";

/// What is shown where credentials are to be saved of which one is empty.
pub const EMPTY_CREDENTIALS: &'static str = "access_key 与 secret_key 均不能为空";

/// The configured key, or else what is filled in.
pub open spec fn key_or(configured: Seq<char>, filled_in: Seq<char>) -> Seq<char> {
    if configured.len() == 0 {
        text::trim(filled_in)
    } else {
        configured
    }
}

fn fill(configured: &String, filled_in: &str) -> (r: String)
    ensures
        r@ == key_or(configured@, filled_in@),
{
    if configured.as_str().is_empty() {
        trimmed(filled_in)
    } else {
        configured.clone()
    }
}

/// Where a key comes from after what is filled in was looked at.
pub open spec fn source_or(
    configured: Seq<char>,
    from: KeySource,
    filled_in: Seq<char>,
) -> KeySource {
    if configured.len() == 0 && text::trim(filled_in).len() > 0 {
        KeySource::Form
    } else {
        from
    }
}

fn fill_source(configured: &String, from: KeySource, filled_in: &str) -> (r: KeySource)
    ensures
        r == source_or(configured@, from, filled_in@),
{
    if configured.as_str().is_empty() && !trimmed(filled_in).as_str().is_empty() {
        KeySource::Form
    } else {
        from
    }
}

/// Whether there are credentials. Those that are filled in count where none
/// are configured, also before they are saved.
pub fn has_credentials(cfg: &mut Config, ak: &str, sk: &str) -> (b: bool)
    ensures
        final(cfg)@ == (config::Settings {
            access_key: key_or(old(cfg)@.access_key, ak@),
            secret_key: key_or(old(cfg)@.secret_key, sk@),
            access_key_from: source_or(old(cfg)@.access_key, old(cfg)@.access_key_from, ak@),
            secret_key_from: source_or(old(cfg)@.secret_key, old(cfg)@.secret_key_from, sk@),
            ..old(cfg)@
        }),
        b == (final(cfg)@.access_key.len() > 0 && final(cfg)@.secret_key.len() > 0),
{
    cfg.access_key_from = fill_source(&cfg.access_key, cfg.access_key_from, ak);
    cfg.secret_key_from = fill_source(&cfg.secret_key, cfg.secret_key_from, sk);
    cfg.access_key = fill(&cfg.access_key, ak);
    cfg.secret_key = fill(&cfg.secret_key, sk);
    has_keys(cfg)
}

/// Whether both keys are configured.
pub fn has_keys(cfg: &Config) -> (b: bool)
    ensures
        b == (cfg@.access_key.len() > 0 && cfg@.secret_key.len() > 0),
{
    !cfg.access_key.as_str().is_empty() && !cfg.secret_key.as_str().is_empty()
}

/// The sections with credentials in the section `common`, which all
/// environments inherit.
pub open spec fn with_credentials(
    sections: ini::SectionsMap,
    ak: Seq<char>,
    sk: Seq<char>,
) -> ini::SectionsMap {
    sections.insert(
        "common"@,
        ini::section_of(sections, "common"@).insert("access_key"@, ak).insert("secret_key"@, sk),
    )
}

/// Puts the credentials into the sections, and returns the file to write.
/// Where one is empty, nothing changes, and nothing is written.
pub fn set_credentials(sections: &mut Sections, ak: &str, sk: &str) -> (r: Option<String>)
    ensures
        ({
            let a = text::trim(ak@);
            let b = text::trim(sk@);
            if a.len() == 0 || b.len() == 0 {
                r is None && *final(sections) == *old(sections)
            } else {
                &&& final(sections)@ == with_credentials(old(sections)@, a, b)
                &&& text::text_of(r) == Some(ini::ini_text(final(sections).items()))
            }
        }),
{
    let a = trimmed(ak);
    let b = trimmed(sk);
    if a.as_str().is_empty() || b.as_str().is_empty() {
        return None;
    }
    let ghost before = sections@;
    put(sections, "common", "access_key".to_string(), a);
    put(sections, "common", "secret_key".to_string(), b);
    assert(sections@ =~= with_credentials(before, a@, b@));
    Some(write_sections(sections))
}

/// Credentials that were saved are found in the file again, and so is every
/// other section, where what is written can be read back.
pub proof fn law_credentials_saved(
    before: ini::SectionsMap,
    items: Seq<(String, ini::Section)>,
    ak: Seq<char>,
    sk: Seq<char>,
)
    requires
        table::map_of(items) == with_credentials(before, ak, sk),
        ini::writable(items),
    ensures
        ({
            let read = ini::ini_sections(ini::ini_text(items));
            &&& read == with_credentials(before, ak, sk)
            &&& ini::section_of(read, "common"@)["access_key"@] == ak
            &&& ini::section_of(read, "common"@)["secret_key"@] == sk
            &&& forall|name: Seq<char>|
                name != "common"@ ==> #[trigger] ini::section_of(read, name) == ini::section_of(
                    before,
                    name,
                )
        }),
{
    ini::law_ini_round_trip(items);
    let m = with_credentials(before, ak, sk);
    assert(m.insert("common"@, ini::section_of(m, "common"@)) =~= m);
    reveal_strlit("access_key");
    reveal_strlit("secret_key");
    assert("access_key"@[0] != "secret_key"@[0]);
}

/// What is shown after credentials were saved to `path`.
pub fn saved_message(path: &str) -> (s: String)
    ensures
        s@ == "已保存到 "@ + path@,
{
    "已保存到 ".to_string().concat(path)
}

/// What is logged after credentials were saved to `path`.
pub fn saved_note(path: &str) -> (s: String)
    ensures
        s@ == "凭据已保存到 "@ + path@,
{
    "凭据已保存到 ".to_string().concat(path)
}

/// The name of the place that a key comes from.
pub open spec fn source_name(from: KeySource) -> Seq<char> {
    match from {
        KeySource::CommandLine => "命令行"@,
        KeySource::Variable => "环境变量"@,
        KeySource::File => "配置文件"@,
        KeySource::Form => "界面填写"@,
        KeySource::Nowhere => "未知"@,
    }
}

/// Where the keys come from that are not both from the file, in words.
pub open spec fn keys_text(c: config::Settings) -> Seq<char> {
    if c.access_key_from == c.secret_key_from {
        "凭据来自"@ + source_name(c.access_key_from)
    } else {
        "access_key 来自"@ + source_name(c.access_key_from) + "，secret_key 来自"@
            + source_name(c.secret_key_from)
    }
}

/// Whether both keys were read from the configuration file.
pub open spec fn keys_from_file(c: config::Settings) -> bool {
    c.access_key_from == KeySource::File && c.secret_key_from == KeySource::File
}

/// Whether a key was given to the process when it was started.
pub open spec fn given_at_start(from: KeySource) -> bool {
    from == KeySource::CommandLine || from == KeySource::Variable
}

/// Where the configuration and the credentials come from, in words.
pub open spec fn source_text(c: config::Settings, save_path: Seq<char>) -> (Seq<char>, Severity) {
    let has_keys = c.access_key.len() > 0 && c.secret_key.len() > 0;
    match c.config_path {
        Some(p) => if !has_keys {
            ("配置："@ + p + "（该文件里没有凭据）"@, Severity::Warning)
        } else {
            (
                "配置："@ + p + (if c.config_explicit {
                    "（--config 指定，"@
                } else {
                    "（按查找顺序命中，"@
                }) + (if keys_from_file(c) {
                    "凭据读自该文件"@
                } else {
                    keys_text(c)
                }) + "）"@,
                Severity::Good,
            )
        },
        None => if !has_keys {
            (
                "配置：未找到 iobs.ini，使用内置默认值；保存将写入 "@ + save_path,
                Severity::Bad,
            )
        } else if given_at_start(c.access_key_from) && given_at_start(c.secret_key_from) {
            ("配置：未找到 iobs.ini（凭据来自命令行或环境变量）"@, Severity::Warning)
        } else {
            ("配置：未找到 iobs.ini（"@ + keys_text(c) + "）"@, Severity::Warning)
        },
    }
}

fn name_of_source(from: KeySource) -> (s: &'static str)
    ensures
        s@ == source_name(from),
{
    match from {
        KeySource::CommandLine => "命令行",
        KeySource::Variable => "环境变量",
        KeySource::File => "配置文件",
        KeySource::Form => "界面填写",
        KeySource::Nowhere => "未知",
    }
}

fn sources_of_keys(cfg: &Config) -> (s: String)
    ensures
        s@ == keys_text(cfg@),
{
    let ak: &'static str = name_of_source(cfg.access_key_from);
    let sk: &'static str = name_of_source(cfg.secret_key_from);
    if cfg.access_key_from == cfg.secret_key_from {
        "凭据来自".to_string().concat(ak)
    } else {
        let mut s = "access_key 来自".to_string().concat(ak);
        s.append("，secret_key 来自");
        s.append(sk);
        s
    }
}

fn from_start(from: KeySource) -> (b: bool)
    ensures
        b == given_at_start(from),
{
    from == KeySource::CommandLine || from == KeySource::Variable
}

/// Where the configuration and the credentials come from, in words.
pub fn config_source(cfg: &Config, save_path: &str) -> (r: (String, Severity))
    ensures
        (r.0@, r.1) == source_text(cfg@, save_path@),
{
    let with_keys: bool = has_keys(cfg);
    match &cfg.config_path {
        Some(p) => {
            let mut s = "配置：".to_string();
            s.append(p.as_str());
            if !with_keys {
                s.append("（该文件里没有凭据）");
                return (s, Severity::Warning);
            }
            if cfg.config_explicit {
                s.append("（--config 指定，");
            } else {
                s.append("（按查找顺序命中，");
            }
            if cfg.access_key_from == KeySource::File && cfg.secret_key_from == KeySource::File {
                s.append("凭据读自该文件");
            } else {
                s.append(sources_of_keys(cfg).as_str());
            }
            s.append("）");
            (s, Severity::Good)
        },
        None => if !with_keys {
            (
                "配置：未找到 iobs.ini，使用内置默认值；保存将写入 ".to_string().concat(
                    save_path,
                ),
                Severity::Bad,
            )
        } else if from_start(cfg.access_key_from) && from_start(cfg.secret_key_from) {
            (
                "配置：未找到 iobs.ini（凭据来自命令行或环境变量）".to_string(),
                Severity::Warning,
            )
        } else {
            let mut s = "配置：未找到 iobs.ini（".to_string();
            s.append(sources_of_keys(cfg).as_str());
            s.append("）");
            (s, Severity::Warning)
        },
    }
}

/// What is shown for a file that was found. Its path is always shown. The file
/// is named as the source of the credentials just where both keys were read from
/// it; where the command line or the variables give both, these are named.
pub proof fn law_source_shown(
    sections: ini::SectionsMap,
    opts: Seq<cli::OptionText>,
    s: Surroundings,
    save_path: Seq<char>,
)
    requires
        config::configured(sections, opts, s).config_path is Some,
    ensures
        ({
            let c = config::configured(sections, opts, s);
            let shown = source_text(c, save_path).0;
            let head = "配置："@ + c.config_path->Some_0 + (if c.config_explicit {
                "（--config 指定，"@
            } else {
                "（按查找顺序命中，"@
            });
            let on_line = cli::option_value(opts, "--ak"@) is Some && cli::option_value(
                opts,
                "--sk"@,
            ) is Some;
            let no_option = cli::option_value(opts, "--ak"@) is None && cli::option_value(
                opts,
                "--sk"@,
            ) is None;
            let in_variables = config::variable(s.iobs_ak) is Some && config::variable(
                s.iobs_sk,
            ) is Some;
            let no_variable = config::variable(s.iobs_ak) is None && config::variable(
                s.iobs_sk,
            ) is None;
            let has_keys = c.access_key.len() > 0 && c.secret_key.len() > 0;
            &&& ("配置："@ + c.config_path->Some_0).is_prefix_of(shown)
            &&& on_line ==> shown == head + "凭据来自命令行"@ + "）"@
            &&& no_option && in_variables ==> shown == head + "凭据来自环境变量"@ + "）"@
            &&& has_keys ==> (shown == head + "凭据读自该文件"@ + "）"@ <==> no_option
                && no_variable)
        }),
{
    let c = config::configured(sections, opts, s);
    let shown = source_text(c, save_path).0;
    config::law_key_sources(sections, opts, s);
    reveal_strlit("凭据来自");
    reveal_strlit("命令行");
    reveal_strlit("环境变量");
    reveal_strlit("凭据来自命令行");
    reveal_strlit("凭据来自环境变量");
    reveal_strlit("凭据读自该文件");
    reveal_strlit("access_key 来自");
    assert("凭据来自"@ + "命令行"@ =~= "凭据来自命令行"@);
    assert("凭据来自"@ + "环境变量"@ =~= "凭据来自环境变量"@);
    let head = "配置："@ + c.config_path->Some_0 + (if c.config_explicit {
        "（--config 指定，"@
    } else {
        "（按查找顺序命中，"@
    });
    let by_file = head + "凭据读自该文件"@ + "）"@;
    if c.access_key.len() > 0 && c.secret_key.len() > 0 && !keys_from_file(c) {
        let n = head.len() as int;
        assert(shown == head + keys_text(c) + "）"@);
        assert(by_file[n] == "凭据读自该文件"@[0] && by_file[n + 2] == "凭据读自该文件"@[2]);
        if c.access_key_from == c.secret_key_from {
            assert(shown[n + 2] == "凭据来自"@[2]);
        } else {
            assert(shown[n] == "access_key 来自"@[0]);
        }
    }
}

/// After credentials were saved, the file that they were saved to is the one
/// that is shown, and, unless the command line or a variable gives a key, it is
/// shown as the one that the credentials were read from. An environment that
/// has an empty key of its own has none.
pub proof fn law_saved_source_shown(
    before: ini::SectionsMap,
    opts: Seq<cli::OptionText>,
    env: Seq<char>,
    ak: Seq<char>,
    sk: Seq<char>,
    s: Surroundings,
    save_path: Seq<char>,
)
    ensures
        ({
            let c = config::configured(
                with_credentials(before, ak, sk),
                opts.push(("--env"@, env)),
                config::after_save(opts, s),
            );
            let target = config::target_path(opts, s);
            let no_option = cli::option_value(opts, "--ak"@) is None && cli::option_value(
                opts,
                "--sk"@,
            ) is None;
            let no_variable = config::variable(s.iobs_ak) is None && config::variable(
                s.iobs_sk,
            ) is None;
            let has_keys = c.access_key.len() > 0 && c.secret_key.len() > 0;
            &&& c.config_path == Some(target)
            &&& no_option && no_variable && has_keys ==> source_text(c, save_path) == (
                "配置："@ + target + (if c.config_explicit {
                    "（--config 指定，"@
                } else {
                    "（按查找顺序命中，"@
                }) + "凭据读自该文件"@ + "）"@,
                Severity::Good,
            )
        }),
{
    let after = config::after_save(opts, s);
    let all = opts.push(("--env"@, env));
    law_command_line_kept(with_credentials(before, ak, sk), opts, env, after);
    config::law_saved_file_found(opts, s);
    law_source_shown(with_credentials(before, ak, sk), all, after, save_path);
    reveal_strlit("--env");
    reveal_strlit("--ak");
    reveal_strlit("--sk");
    assert("--env"@[2] != "--ak"@[2]);
    assert("--env"@[2] != "--sk"@[2]);
    cli::law_options_independent(opts, "--ak"@, "--env"@, env);
    cli::law_options_independent(opts, "--sk"@, "--env"@, env);
}

// ---------------------------------------------------------------------------
// The forms.
// ---------------------------------------------------------------------------

/// The key of an upload: what is filled in, or else the name of the file.
pub fn form_key(filled_in: &str, parts: &FileParts) -> (s: String)
    ensures
        s@ == (if text::trim(filled_in@).len() == 0 {
            parts.name_text()
        } else {
            text::trim(filled_in@)
        }),
{
    let k = trimmed(filled_in);
    if k.as_str().is_empty() {
        parts.name()
    } else {
        k
    }
}

/// The key of the file to download; none where nothing is filled in.
pub fn form_download_key(filled_in: &str) -> (r: Option<String>)
    ensures
        text::text_of(r) == (if text::trim(filled_in@).len() > 0 {
            Some(text::trim(filled_in@))
        } else {
            None
        }),
{
    let k = trimmed(filled_in);
    if k.as_str().is_empty() {
        None
    } else {
        Some(k)
    }
}

/// The name under which a file is uploaded: with the extension that is filled
/// in, or else with the configured one, or else as it is.
pub fn form_name(ext: &str, parts: &FileParts, default_ext: Option<&str>) -> (s: String)
    ensures
        s@ == (if text::trim(ext@).len() == 0 {
            match default_ext {
                Some(e) => commands::renamed(*parts, e@),
                None => parts.name_text(),
            }
        } else {
            parts.stem_text() + "."@ + text::trim_start_char(text::trim(ext@), '.')
        }),
{
    let e = trimmed(ext);
    if e.as_str().is_empty() {
        match default_ext {
            Some(d) => with_extension(parts, d),
            None => parts.name(),
        }
    } else {
        let mut s = parts.stem();
        s.append(".");
        s.append(without_leading(e.as_str(), '.').as_str());
        s
    }
}

/// The key that is shown after a file was picked: what is filled in, or else
/// the name of the file.
pub fn key_after_pick(filled_in: &str, file_name: Option<&str>) -> (s: String)
    ensures
        s@ == (if text::trim(filled_in@).len() == 0 {
            match file_name {
                Some(n) => n@,
                None => Seq::empty(),
            }
        } else {
            filled_in@
        }),
{
    if trimmed(filled_in).as_str().is_empty() {
        match file_name {
            Some(n) => n.to_string(),
            None => {
                let s = String::new();
                assert(s@ =~= Seq::<char>::empty());
                s
            },
        }
    } else {
        filled_in.to_string()
    }
}

/// The name of the file that a record of the history is downloaded to: its
/// name, or else one that is made of its key.
pub fn history_out_name(key: &str, name: &str) -> (s: String)
    ensures
        s@ == (if text::trim(name@).len() == 0 {
            commands::safe_text(key@)
        } else {
            name@
        }),
{
    if trimmed(name).as_str().is_empty() {
        safe_name(key)
    } else {
        name.to_string()
    }
}

/// Whether `r` is where a file with the name `name` is downloaded to, where
/// `out` is filled in.
pub open spec fn is_form_out(r: OutPath, out: Seq<char>, is_dir: bool, name: Seq<char>) -> bool {
    let o = text::trim(out);
    if o.len() == 0 {
        r matches OutPath::At(p) && p@ == name
    } else if is_dir || commands::ends_in_separator(out) {
        r matches OutPath::Inside(d, n) && d@ == o && n@ == name
    } else {
        r matches OutPath::At(p) && p@ == o
    }
}

/// Where a file with the name `name` is downloaded to, where `out` is filled
/// in and `is_dir` says whether that is a directory.
pub fn form_out(out: &str, is_dir: bool, name: &str) -> (r: OutPath)
    ensures
        is_form_out(r, out@, is_dir, name@),
{
    let o = trimmed(out);
    if o.as_str().is_empty() {
        OutPath::At(name.to_string())
    } else if is_dir || ends_with_char(out, '/') || ends_with_char(out, '\\') {
        OutPath::Inside(o, name.to_string())
    } else {
        OutPath::At(o)
    }
}

/// What is logged when an upload starts.
pub fn upload_started(file_name: &str, key: &str) -> (s: String)
    ensures
        s@ == "开始上传："@ + file_name@ + "（key="@ + key@ + "）"@,
{
    let mut s = "开始上传：".to_string();
    s.append(file_name);
    s.append("（key=");
    s.append(key);
    s.append("）");
    s
}

/// What is logged when a download starts.
pub fn download_started(from_history: bool, key: &str, out: &str) -> (s: String)
    ensures
        s@ == (if from_history {
            "从历史下载："@
        } else {
            "开始下载："@
        }) + key@ + " -> "@ + out@,
{
    let mut s: String = if from_history {
        "从历史下载：".to_string()
    } else {
        "开始下载：".to_string()
    };
    s.append(key);
    s.append(" -> ");
    s.append(out);
    s
}

// ---------------------------------------------------------------------------
// Fetching the history in the background.
// ---------------------------------------------------------------------------

/// Whether the history is to be fetched again, and whether it is being
/// fetched.
#[derive(Debug, Clone, Copy, PartialEq, Eq, Structural)]
pub struct Refresh {
    pub wanted: bool,
    pub loading: bool,
}

/// What to do about the history, in each frame: whether to start fetching it,
/// and what remains. It is fetched once at a time; a request that comes while
/// it is fetched waits. Without credentials nothing is fetched.
pub open spec fn refreshed(r: Refresh, credentials: bool) -> (bool, Refresh) {
    if !r.wanted {
        (false, r)
    } else if credentials && !r.loading {
        (true, Refresh { wanted: false, loading: true })
    } else {
        (false, Refresh { wanted: r.loading, loading: r.loading })
    }
}

/// What to do about the history: whether to start fetching it, and what
/// remains.
pub fn refresh_step(r: Refresh, credentials: bool) -> (n: (bool, Refresh))
    ensures
        n == refreshed(r, credentials),
{
    if !r.wanted {
        (false, r)
    } else if credentials && !r.loading {
        (true, Refresh { wanted: false, loading: true })
    } else {
        (false, Refresh { wanted: r.loading, loading: r.loading })
    }
}

/// A request is never lost: with credentials the history is fetched now, or
/// the request waits until the fetching that is under way has ended, and then
/// it is. Two are never under way.
pub proof fn law_refresh_not_lost(r: Refresh)
    requires
        r.wanted,
    ensures
        ({
            let (start, after) = refreshed(r, true);
            &&& start || after.wanted
            &&& start ==> !r.loading && after.loading
            &&& !start ==> refreshed((Refresh { loading: false, ..after }), true).0
        }),
{
}

// ---------------------------------------------------------------------------
// What the window does, call by call.
// ---------------------------------------------------------------------------

/// The environments are the sections other than `common`, each once, and in the
/// order of their characters.
pub proof fn law_environments(sections: &Sections, v: Vec<String>)
    requires
        call_ensures(env_names, (sections,), v),
    ensures
        forall|name: Seq<char>| #[trigger]
            text::texts(v@).contains(name) <==> sections@.contains_key(name) && name != "common"@,
        forall|i: int, j: int|
            0 <= i < j < v@.len() ==> order::precedes(
                (#[trigger] v@[i])@,
                (#[trigger] v@[j])@,
            ),
{
    let t = text::texts(v@);
    assert forall|i: int, j: int| 0 <= i < j < v@.len() implies order::precedes(
        (#[trigger] v@[i])@,
        (#[trigger] v@[j])@,
    ) by {
        assert(t[i] == v@[i]@ && t[j] == v@[j]@);
    }
}

/// The window begins with the environment that was used last, where there is
/// such; or else with the configured one, where there is such; or else with the
/// first. Without environments the configured one stays.
pub proof fn law_environment_to_begin_with(
    envs: &Vec<String>,
    configured: &str,
    last: Option<&str>,
    s: String,
)
    requires
        call_ensures(initial_env, (envs, configured, last), s),
    ensures
        ({
            let all = text::texts(envs@);
            let known = last is Some && all.contains(last->Some_0@);
            &&& envs@.len() == 0 ==> s@ == configured@
            &&& known ==> s@ == last->Some_0@
            &&& !known && all.contains(configured@) ==> s@ == configured@
            &&& envs@.len() > 0 && !known && !all.contains(configured@) ==> s@ == envs@[0]@
        }),
{
    let all = text::texts(envs@);
    if envs@.len() > 0 {
        assert(all[0] == envs@[0]@);
    }
}

/// The configuration of an environment is the one that the command line would
/// give, with that environment as its last option.
pub proof fn law_configuration_of_environment(
    sections: &Sections,
    opts: &[(String, String)],
    env: &str,
    s: &Surroundings,
    c: Config,
    all: &[(String, String)],
    r: Res<Config>,
)
    requires
        call_ensures(config_in, (sections, opts, env, s), c),
        call_ensures(resolve_sections_relaxed, (sections, all, s), r),
        cli::option_texts(all@) == cli::option_texts(opts@).push(("--env"@, env@)),
    ensures
        r is Ok,
        c@ == r->Ok_0@,
{
}

/// The window begins with the configuration of the environment to begin with.
pub proof fn law_configuration_to_begin_with(
    cfg: Config,
    configured: &str,
    sections: &Sections,
    opts: &[(String, String)],
    envs: &Vec<String>,
    last: Option<&str>,
    s: &Surroundings,
    env: String,
    chosen: &str,
    b: Config,
    c: Config,
)
    requires
        configured@ == cfg.env@,
        chosen@ == env@,
        call_ensures(initial_env, (envs, configured, last), env),
        call_ensures(session_config, (cfg, sections, opts, envs, last, s), b),
        call_ensures(config_in, (sections, opts, chosen, s), c),
    ensures
        env@.len() > 0 ==> b@ == c@,
        env@.len() == 0 ==> b@ == cfg@,
{
}

/// The first line that starts with `last_env=` names the environment that was
/// used last, white space aside; the lines before it do not matter.
pub proof fn law_last_env_line(
    line: Seq<char>,
    env: Seq<char>,
    rest: Seq<Seq<char>>,
    w0: Seq<char>,
    w1: Seq<char>,
    w2: Seq<char>,
)
    requires
        text::all_white(w0),
        text::all_white(w1),
        text::all_white(w2),
        env.len() > 0,
        text::is_trimmed(env),
        line.len() == 0 || line[0] != 'l',
        text::is_trimmed(line),
    ensures
        last_env_in(seq![w0 + ("last_env="@ + (w1 + env)) + w2] + rest) == Some(env),
        last_env_in(seq![w0 + line + w2] + rest) == last_env_in(rest),
        last_env_in(Seq::empty()) is None,
{
    reveal_strlit("last_env=");
    let none = Seq::<char>::empty();
    let p = "last_env="@;
    let named = p + (w1 + env);
    let all = seq![w0 + named + w2] + rest;
    assert(all[0] == w0 + named + w2);
    assert(named[0] == 'l');
    assert(named.last() == env.last());
    text::law_trim(w0, named, w2);
    assert(named.subrange(0, p.len() as int) =~= p);
    assert(named.skip(p.len() as int) =~= w1 + env + none);
    text::law_trim(w1, env, none);
    let other = seq![w0 + line + w2] + rest;
    assert(other[0] == w0 + line + w2);
    assert(other.skip(1) =~= rest);
    text::law_trim(w0, line, w2);
    if line.len() >= p.len() {
        assert(line.subrange(0, p.len() as int)[0] == line[0]);
    }
}

/// What is remembered of an environment is one line; of none, nothing.
pub proof fn law_env_saved(env: &str, r: Option<String>)
    requires
        call_ensures(save_last_env, (env,), r),
    ensures
        env@.len() == 0 <==> r is None,
        r is Some ==> r->Some_0@ == "last_env="@ + env@ + "\n"@,
{
}

/// The environment that was remembered is found in the file again.
pub proof fn law_saved_env_found(env: &str, saved: Option<String>, file: &str, r: Option<String>)
    requires
        env@.len() > 0,
        text::is_trimmed(env@),
        ini::lacks(env@, '\n'),
        call_ensures(save_last_env, (env,), saved),
        saved is Some ==> file@ == saved->Some_0@,
        call_ensures(load_last_env, (file,), r),
    ensures
        r is Some,
        r->Some_0@ == env@,
{
    law_last_env_remembered(env@);
}

/// A key that is configured stays; where there is none, the one that is filled
/// in is used, white space aside. There are credentials where there are both.
pub proof fn law_credentials_filled_in(cfg: &mut Config, ak: &str, sk: &str, b: bool)
    requires
        call_ensures(has_credentials, (cfg, ak, sk), b),
    ensures
        old(cfg)@.access_key.len() > 0 ==> final(cfg)@.access_key == old(cfg)@.access_key,
        old(cfg)@.access_key.len() == 0 ==> final(cfg)@.access_key == text::trim(ak@),
        old(cfg)@.secret_key.len() > 0 ==> final(cfg)@.secret_key == old(cfg)@.secret_key,
        old(cfg)@.secret_key.len() == 0 ==> final(cfg)@.secret_key == text::trim(sk@),
        b <==> final(cfg)@.access_key.len() > 0 && final(cfg)@.secret_key.len() > 0,
        final(cfg)@.base_url == old(cfg)@.base_url,
        final(cfg)@.bucket == old(cfg)@.bucket,
        final(cfg)@.env == old(cfg)@.env,
        final(cfg)@.file_ext == old(cfg)@.file_ext,
        final(cfg)@.token_ttl == old(cfg)@.token_ttl,
        final(cfg)@.chunk_size == old(cfg)@.chunk_size,
        final(cfg)@.small_file_limit == old(cfg)@.small_file_limit,
{
}

/// Both keys are configured just where neither is empty.
pub proof fn law_keys_configured(cfg: &Config, b: bool)
    requires
        call_ensures(has_keys, (cfg,), b),
    ensures
        b <==> cfg.access_key@.len() > 0 && cfg.secret_key@.len() > 0,
{
}

/// Credentials go to the section `common`, white space aside, and nothing else
/// changes; where one of them is empty, nothing changes, and nothing is to be
/// written. What is to be written are all sections.
pub proof fn law_credentials_set(
    sections: &mut Sections,
    ak: &str,
    sk: &str,
    r: Option<String>,
)
    requires
        call_ensures(set_credentials, (sections, ak, sk), r),
    ensures
        r is None <==> text::trim(ak@).len() == 0 || text::trim(sk@).len() == 0,
        r is None ==> final(sections)@ == old(sections)@,
        r is Some ==> r->Some_0@ == ini::ini_text(final(sections).items()),
        r is Some ==> final(sections)@.contains_key("common"@) && final(sections)@["common"@]["access_key"@] == text::trim(ak@) && final(sections)@["common"@]["secret_key"@] == text::trim(sk@),
        r is Some ==> final(sections)@["common"@].contains_key("access_key"@) && final(sections)@["common"@].contains_key("secret_key"@),
        forall|name: Seq<char>|
            name != "common"@ ==> (#[trigger] final(sections)@.contains_key(name) <==> old(sections)@.contains_key(name)),
        forall|name: Seq<char>|
            name != "common"@ && old(sections)@.contains_key(name) ==> #[trigger] final(sections)@[name] == old(sections)@[name],
        forall|k: Seq<char>|
            k != "access_key"@ && k != "secret_key"@ && old(sections)@.contains_key("common"@)
                && #[trigger] old(sections)@["common"@].contains_key(k) ==> final(sections)@["common"@].contains_key(k) && final(sections)@["common"@][k] == old(sections)@["common"@][k],
{
    reveal_strlit("access_key");
    reveal_strlit("secret_key");
    assert("access_key"@[0] != "secret_key"@[0]);
}

/// The key of an upload is what is filled in, white space aside, or else the
/// name of the file.
pub proof fn law_form_key(filled_in: &str, parts: &FileParts, s: String)
    requires
        call_ensures(form_key, (filled_in, parts), s),
    ensures
        text::trim(filled_in@).len() > 0 ==> s@ == text::trim(filled_in@),
        text::trim(filled_in@).len() == 0 && parts.file_name is Some ==> s@
            == parts.file_name->Some_0@,
        text::trim(filled_in@).len() == 0 && parts.file_name is None ==> s@ == "file"@,
{
}

/// The key to download is what is filled in, white space aside.
pub proof fn law_form_download_key(filled_in: &str, r: Option<String>)
    requires
        call_ensures(form_download_key, (filled_in,), r),
    ensures
        r is None <==> text::trim(filled_in@).len() == 0,
        r is Some ==> r->Some_0@ == text::trim(filled_in@),
{
}

/// An extension that is filled in takes the place of that of the file; where
/// none is, the configured one does, and without one the name stays as it is.
pub proof fn law_form_name(ext: &str, parts: &FileParts, default_ext: Option<&str>, s: String)
    requires
        call_ensures(form_name, (ext, parts, default_ext), s),
    ensures
        ({
            let filled = text::trim(ext@);
            let name = match parts.file_name {
                Some(n) => n@,
                None => "file"@,
            };
            let stem = match parts.stem {
                Some(n) => n@,
                None => name,
            };
            &&& filled.len() > 0 ==> s@ == stem + "."@ + text::trim_start_char(filled, '.')
            &&& filled.len() == 0 && default_ext is None ==> s@ == name
            &&& filled.len() == 0 && default_ext is Some && text::trim_start_char(
                default_ext->Some_0@,
                '.',
            ).len() > 0 ==> s@ == stem + "."@ + text::trim_start_char(default_ext->Some_0@, '.')
            &&& filled.len() == 0 && default_ext is Some && text::trim_start_char(
                default_ext->Some_0@,
                '.',
            ).len() == 0 ==> s@ == stem
        }),
{
}

/// To pick a file fills in its name as the key, unless a key is filled in.
pub proof fn law_key_after_pick(filled_in: &str, file_name: Option<&str>, s: String)
    requires
        call_ensures(key_after_pick, (filled_in, file_name), s),
    ensures
        text::trim(filled_in@).len() > 0 ==> s@ == filled_in@,
        text::trim(filled_in@).len() == 0 && file_name is Some ==> s@ == file_name->Some_0@,
        text::trim(filled_in@).len() == 0 && file_name is None ==> s@.len() == 0,
{
}

/// A record is downloaded under its name, or, without one, under its key, made
/// safe.
pub proof fn law_history_out_name(key: &str, name: &str, s: String, safe: String)
    requires
        call_ensures(history_out_name, (key, name), s),
        call_ensures(safe_name, (key,), safe),
    ensures
        text::trim(name@).len() > 0 ==> s@ == name@,
        text::trim(name@).len() == 0 ==> s@ == safe@,
{
}

/// A file is downloaded to the path that is filled in, white space aside; into
/// it, where it is a directory or ends in a separator; and to the current
/// directory, where none is.
pub proof fn law_form_out(out: &str, is_dir: bool, name: &str, r: OutPath)
    requires
        call_ensures(form_out, (out, is_dir, name), r),
    ensures
        ({
            let o = text::trim(out@);
            let inside = is_dir || (out@.len() > 0 && (out@.last() == '/' || out@.last()
                == '\\'));
            &&& o.len() == 0 ==> r is At && r->At_0@ == name@
            &&& o.len() > 0 && inside ==> r is Inside && r->Inside_0@ == o && r->Inside_1@
                == name@
            &&& o.len() > 0 && !inside ==> r is At && r->At_0@ == o
        }),
{
}

/// Fetching starts just where it is wanted, possible, and not under way; only
/// then is anything under way that was not, and a wish that cannot be met now
/// stays while fetching is under way.
pub proof fn law_refresh_step(r: Refresh, credentials: bool, n: (bool, Refresh))
    requires
        call_ensures(refresh_step, (r, credentials), n),
    ensures
        n.0 <==> r.wanted && credentials && !r.loading,
        n.1.loading <==> r.loading || n.0,
        n.1.wanted <==> r.wanted && r.loading,
{
}

/// Where the configuration comes from: its file is shown, where one was found,
/// and with it whether it holds the keys; where none was found and no keys are
/// there, the file that will be written is shown.
pub proof fn law_source_of_configuration(
    cfg: &Config,
    save_path: &str,
    r: (String, Severity),
)
    requires
        call_ensures(config_source, (cfg, save_path), r),
    ensures
        ({
            let keys = cfg.access_key@.len() > 0 && cfg.secret_key@.len() > 0;
            let a = cfg.access_key_from;
            let b = cfg.secret_key_from;
            let path = cfg.config_path;
            let how = if cfg.config_explicit {
                "（--config 指定，"@
            } else {
                "（按查找顺序命中，"@
            };
            &&& path is Some && !keys ==> r.0@ == "配置："@ + path->Some_0@
                + "（该文件里没有凭据）"@ && r.1 == Severity::Warning
            &&& path is Some && keys && a == KeySource::File && b == KeySource::File ==> r.0@
                == "配置："@ + path->Some_0@ + how + "凭据读自该文件"@ + "）"@ && r.1
                == Severity::Good
            &&& path is Some && keys && a == KeySource::CommandLine && b
                == KeySource::CommandLine ==> r.0@ == "配置："@ + path->Some_0@ + how + (
            "凭据来自"@ + "命令行"@) + "）"@ && r.1 == Severity::Good
            &&& path is Some && keys && a == KeySource::Variable && b == KeySource::Variable
                ==> r.0@ == "配置："@ + path->Some_0@ + how + ("凭据来自"@ + "环境变量"@)
                + "）"@ && r.1 == Severity::Good
            &&& path is Some && keys && a == KeySource::Form && b == KeySource::Form ==> r.0@
                == "配置："@ + path->Some_0@ + how + ("凭据来自"@ + "界面填写"@) + "）"@ && r.1
                == Severity::Good
            &&& path is None && keys && a == KeySource::Form && b == KeySource::Form ==> r.0@
                == "配置：未找到 iobs.ini（"@ + ("凭据来自"@ + "界面填写"@) + "）"@ && r.1
                == Severity::Warning
            &&& path is None && !keys ==> r.0@
                == "配置：未找到 iobs.ini，使用内置默认值；保存将写入 "@ + save_path@ && r.1
                == Severity::Bad
            &&& path is None && keys && (a == KeySource::CommandLine || a == KeySource::Variable)
                && (b == KeySource::CommandLine || b == KeySource::Variable) ==> r.0@
                == "配置：未找到 iobs.ini（凭据来自命令行或环境变量）"@ && r.1
                == Severity::Warning
        }),
{
}

/// A key that is filled in is known to come from there; where a configured key
/// is kept, or nothing is filled in, it comes from where it came before.
pub proof fn law_filled_in_source(cfg: &mut Config, ak: &str, sk: &str, b: bool)
    requires
        call_ensures(has_credentials, (cfg, ak, sk), b),
    ensures
        final(cfg)@.access_key_from == if old(cfg)@.access_key.len() == 0 && text::trim(ak@).len()
            > 0 {
            KeySource::Form
        } else {
            old(cfg)@.access_key_from
        },
        final(cfg)@.secret_key_from == if old(cfg)@.secret_key.len() == 0 && text::trim(sk@).len()
            > 0 {
            KeySource::Form
        } else {
            old(cfg)@.secret_key_from
        },
{
}

/// Where the keys of a configuration with a file come from different places,
/// each of these is shown with its key.
pub proof fn law_mixed_sources_shown(cfg: &Config, save_path: &str, r: (String, Severity))
    requires
        call_ensures(config_source, (cfg, save_path), r),
        cfg.config_path is Some,
        cfg.access_key@.len() > 0,
        cfg.secret_key@.len() > 0,
        cfg.access_key_from != cfg.secret_key_from,
        cfg.access_key_from != KeySource::Nowhere,
        cfg.secret_key_from != KeySource::Nowhere,
    ensures
        ({
            let a = match cfg.access_key_from {
                KeySource::CommandLine => "命令行"@,
                KeySource::Variable => "环境变量"@,
                KeySource::File => "配置文件"@,
                _ => "界面填写"@,
            };
            let b = match cfg.secret_key_from {
                KeySource::CommandLine => "命令行"@,
                KeySource::Variable => "环境变量"@,
                KeySource::File => "配置文件"@,
                _ => "界面填写"@,
            };
            r.0@ == "配置："@ + cfg.config_path->Some_0@ + (if cfg.config_explicit {
                "（--config 指定，"@
            } else {
                "（按查找顺序命中，"@
            }) + ("access_key 来自"@ + a + "，secret_key 来自"@ + b) + "）"@
        }),
{
}

/// A line that names no environment ends the search: none is remembered.
pub proof fn law_last_env_empty(w0: Seq<char>, w1: Seq<char>, rest: Seq<Seq<char>>)
    requires
        text::all_white(w0),
        text::all_white(w1),
    ensures
        last_env_in(seq![w0 + "last_env="@ + w1] + rest) is None,
{
    reveal_strlit("last_env=");
    let p = "last_env="@;
    let all = seq![w0 + p + w1] + rest;
    assert(all[0] == w0 + p + w1);
    text::law_trim(w0, p, w1);
    assert(p.subrange(0, p.len() as int) =~= p);
    assert(p.skip(p.len() as int) =~= Seq::empty());
}

} // verus!
