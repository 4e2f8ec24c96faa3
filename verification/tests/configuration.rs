use sync_iobs::config::{
    config_option, default_config_path, find_config, load_sections, resolve, resolve_sections,
    resolve_sections_relaxed, save_target, Candidate, Config, KeySource, Surroundings, DEFAULT_CHUNK_SIZE,
    DEFAULT_SMALL_FILE_LIMIT, SAMPLE_CONFIG,
};
use sync_iobs::ini::{parse_ini, put, write_sections, Sections};
use sync_iobs::session::{
    config_in, config_source, env_names, has_credentials, has_keys, initial_env, load_last_env,
    save_last_env, saved_message, saved_note, session_config, set_credentials,
};
use sync_iobs::tasks::Severity;

fn nowhere() -> Surroundings {
    Surroundings {
        explicit_exists: false,
        local_exists: false,
        beside_exe: None,
        app_data: None,
        iobs_env: None,
        iobs_base_url: None,
        iobs_bucket: None,
        iobs_ak: None,
        iobs_sk: None,
    }
}

fn place(path: &str, exists: bool) -> Option<Candidate> {
    Some(Candidate { path: path.to_string(), exists })
}

fn options(v: &[(&str, &str)]) -> Vec<(String, String)> {
    v.iter().map(|(k, x)| (k.to_string(), x.to_string())).collect()
}

fn value(s: &Sections, section: &str, key: &str) -> Option<String> {
    s.get(section).and_then(|t| t.get(key)).cloned()
}

fn text(s: &str) -> Option<String> {
    Some(s.to_string())
}

const FILE: &str = "
top = 1
[common]
bucket = all
ACCESS_KEY = ak ; comment
secret_key=sk#x
retry = 7
chunk_size = 8MB
timeout = soon
[ outer ]
base_url = https://outer.example.com///
bucket =
[inner]
base_url = https://inner.example.com
file_ext = ..png
insecure = TRUE
token_ttl = 90
small_file_limit = 1KB
noise
; comment = 1
# comment = 2
=nameless
";

#[test]
fn sections_keys_and_comments() {
    let s = parse_ini(FILE);
    assert_eq!(s.len(), 3);
    assert_eq!(value(&s, "common", "top"), text("1"));
    assert_eq!(value(&s, "common", "access_key"), text("ak"));
    assert_eq!(value(&s, "common", "secret_key"), text("sk"));
    assert_eq!(value(&s, "outer", "bucket"), text(""));
    assert_eq!(value(&s, "inner", "insecure"), text("TRUE"));
    assert_eq!(value(&s, "inner", ""), text("nameless"));
    assert_eq!(value(&s, "inner", "noise"), None);
    assert_eq!(value(&s, "inner", "; comment"), None);
    assert!(s.get(" outer ").is_none());
}

#[test]
fn line_ends_of_all_kinds() {
    let s = parse_ini("[a]\r\nx = 1\r\n[b]\rz\ny=2");
    assert_eq!(value(&s, "a", "x"), text("1"));
    // A carriage return inside a line is no line end.
    assert!(s.get("b").is_none());
    assert_eq!(value(&s, "a", "y"), text("2"));
    let s = parse_ini("[]\n[=]\n[x]y\nK\u{c4}=1\n[ [a] ]\n");
    assert!(s.get("").is_some());
    assert!(s.get("=").is_some());
    assert_eq!(value(&s, "=", "k\u{e4}"), text("1"));
    assert!(s.get("[a]").is_some());
}

#[test]
fn repeated_sections_are_one() {
    let s = parse_ini("[a]\nx=1\ny=1\n[b]\n[a]\nx=2\n");
    assert_eq!(value(&s, "a", "x"), text("2"));
    assert_eq!(value(&s, "a", "y"), text("1"));
    assert_eq!(parse_ini("").len(), 1);
    assert!(parse_ini("").get("common").unwrap().is_empty());
}

fn same(a: &Sections, b: &Sections) -> bool {
    let mut n = 0;
    for i in 0..a.len() {
        let (name, x) = (a.name_at(i), a.value_at(i));
        for j in 0..x.len() {
            if value(b, name, x.name_at(j)).as_ref() != Some(x.value_at(j)) {
                return false;
            }
        }
        if b.get(name).map(|y| y.len()) != Some(x.len()) {
            return false;
        }
        n += 1;
    }
    n == b.len()
}

#[test]
fn what_is_written_is_read_back() {
    for file in [FILE, SAMPLE_CONFIG, "", "[only]", "[a]\nk =\n[common]\nz = 中文 值\n"] {
        let s = parse_ini(file);
        let t = parse_ini(&write_sections(&s));
        assert!(same(&s, &t), "{}", file);
    }
    let mut s = load_sections(None);
    assert!(s.is_empty());
    put(&mut s, "outer", "base_url".to_string(), "u".to_string());
    assert_eq!(write_sections(&s), "[outer]\nbase_url = u\n");
    assert_eq!(write_sections(&load_sections(Some(""))), "\n");
}

#[test]
fn a_line_like_a_header_is_not_read_back() {
    let s = parse_ini("[a = b] ; c");
    assert_eq!(value(&s, "common", "[a"), text("b]"));
    let t = parse_ini(&write_sections(&s));
    assert_eq!(value(&t, "common", "[a"), None);
    assert!(t.get("a = b").is_some());
}

#[test]
fn defaults() {
    let c = Config::default();
    assert_eq!(c.env, "outer");
    assert_eq!(c.small_file_limit, 10 * 1024 * 1024);
    assert_eq!(c.chunk_size, 5 * 1024 * 1024);
    assert_eq!((c.timeout_secs, c.retry, c.token_ttl), (60, 3, 600));
    assert!(c.progress && !c.insecure && !c.verbose && !c.config_explicit);
    assert_eq!((c.file_ext, c.config_path), (None, None));
    let c = resolve_sections_relaxed(&load_sections(None), &[], &nowhere()).unwrap();
    assert_eq!((c.base_url.as_str(), c.bucket.as_str()), ("", ""));
    assert_eq!(c.small_file_limit, DEFAULT_SMALL_FILE_LIMIT);
}

#[test]
fn where_the_file_is_looked_for() {
    let mut s = nowhere();
    assert_eq!(find_config(None, &s), None);
    assert_eq!(default_config_path(&s), "iobs.ini");
    s.beside_exe = place("/exe/iobs.ini", false);
    assert_eq!(default_config_path(&s), "/exe/iobs.ini");
    s.app_data = place("/app/sync-iobs/iobs.ini", true);
    assert_eq!(find_config(None, &s), text("/app/sync-iobs/iobs.ini"));
    assert_eq!(default_config_path(&s), "/app/sync-iobs/iobs.ini");
    s.beside_exe = place("/exe/iobs.ini", true);
    assert_eq!(find_config(None, &s), text("/exe/iobs.ini"));
    s.local_exists = true;
    assert_eq!(find_config(None, &s), text("iobs.ini"));
    // A file that is named is the only one.
    assert_eq!(find_config(Some("x.ini"), &s), None);
    s.explicit_exists = true;
    assert_eq!(find_config(Some("x.ini"), &s), text("x.ini"));
    assert_eq!(config_option(&options(&[("--config", "x.ini")])), text("x.ini"));
    assert_eq!(config_option(&options(&[("-c", "y.ini")])), text("y.ini"));
    assert_eq!(config_option(&[]), None);
}

#[test]
fn file_settings() {
    let s = parse_ini(FILE);
    let c = resolve_sections(&s, &options(&[("--env", "inner")]), &nowhere()).unwrap();
    assert_eq!(c.env, "inner");
    assert_eq!(c.base_url, "https://inner.example.com");
    assert_eq!(c.bucket, "all");
    assert_eq!((c.access_key.as_str(), c.secret_key.as_str()), ("ak", "sk"));
    assert_eq!((c.retry, c.token_ttl, c.timeout_secs), (7, 90, 60));
    assert_eq!((c.small_file_limit, c.chunk_size), (1024, 8 * 1024 * 1024));
    assert_eq!(c.file_ext, text("png"));
    assert!(c.insecure);
}

#[test]
fn precedence() {
    let file = parse_ini(
        "[common]\nbucket=c\naccess_key=a\nsecret_key=s\nbase_url=u\n[outer]\nbucket=o\n",
    );
    let mut s = nowhere();
    let bucket = |opts: &[(&str, &str)], s: &Surroundings| {
        resolve_sections(&file, &options(opts), s).unwrap().bucket
    };
    assert_eq!(bucket(&[("--env", "elsewhere")], &s), "c");
    assert_eq!(bucket(&[], &s), "o");
    s.iobs_bucket = text("  v ");
    assert_eq!(bucket(&[], &s), "v");
    assert_eq!(bucket(&[("--bucket", "l")], &s), "l");
    assert_eq!(bucket(&[("--bucket", "")], &s), "v");
    s.iobs_bucket = text("  ");
    assert_eq!(bucket(&[], &s), "o");
    s.iobs_env = text("elsewhere");
    assert_eq!(bucket(&[], &s), "c");
    s.iobs_base_url = text("https://v/");
    s.iobs_ak = text("va");
    s.iobs_sk = text("vs");
    let c = resolve_sections(&file, &[], &s).unwrap();
    assert_eq!((c.base_url.as_str(), c.access_key.as_str(), c.secret_key.as_str()), ("https://v", "va", "vs"));
    let c = resolve_sections(
        &file,
        &options(&[("--base-url", "l//"), ("--ak", "la"), ("--sk", "ls")]),
        &s,
    )
    .unwrap();
    assert_eq!((c.base_url.as_str(), c.access_key.as_str(), c.secret_key.as_str()), ("l", "la", "ls"));
}

#[test]
fn options_on_the_line() {
    let file = parse_ini(FILE);
    let c = resolve_sections_relaxed(
        &file,
        &options(&[
            ("--timeout", "5"),
            ("--retry", "x"),
            ("--chunk", "0"),
            ("--ext", ".tar"),
            ("--small-limit", "2MB"),
            ("--token-ttl", "18446744073709551616"),
            ("--insecure", "1"),
            ("--verbose", "1"),
            ("--no-progress", "1"),
            ("--config", "gone.ini"),
        ]),
        &nowhere(),
    )
    .unwrap();
    assert_eq!((c.timeout_secs, c.retry, c.token_ttl), (5, 7, 600));
    assert_eq!((c.chunk_size, c.small_file_limit), (DEFAULT_CHUNK_SIZE, 2 * 1024 * 1024));
    assert_eq!(c.file_ext, text("tar"));
    assert!(c.insecure && c.verbose && !c.progress && c.config_explicit);
    assert_eq!(c.config_path, None);
    for (t, yes) in [("1", true), ("true", true), ("True", true), ("yes", false), ("", false)] {
        let f = parse_ini(&format!("insecure = {}", t));
        assert_eq!(resolve_sections_relaxed(&f, &[], &nowhere()).unwrap().insecure, yes);
    }
}

#[test]
fn what_is_missing_is_said() {
    let msg = |file: &str| match resolve(&[], Some(file), &nowhere()) {
        Ok(_) => panic!("accepted"),
        Err(e) => {
            assert_eq!(e.code, 2);
            e.msg
        }
    };
    let keys = "缺少 access_key / secret_key：请配置 iobs.ini，或用 --ak/--sk、IOBS_AK/IOBS_SK 提供";
    assert_eq!(msg(""), keys);
    assert_eq!(msg("access_key=a"), keys);
    assert_eq!(msg("secret_key=a"), keys);
    let file = "access_key=a\nsecret_key=b\n";
    assert_eq!(
        msg(file),
        "缺少 base_url：请在 iobs.ini 的环境段里配置，或用 --base-url / IOBS_BASE_URL 提供"
    );
    let file = "access_key=a\nsecret_key=b\nbase_url=/\n";
    assert!(msg(file).starts_with("缺少 base_url"));
    let file = "access_key=a\nsecret_key=b\nbase_url=u\n";
    assert_eq!(
        msg(file),
        "缺少 bucket：请在 iobs.ini 的 [common] 里配置，或用 --bucket / IOBS_BUCKET 提供"
    );
    let file = "access_key=a\nsecret_key=b\nbase_url=u\nbucket=c\n";
    assert_eq!(resolve(&[], Some(file), &nowhere()).unwrap().bucket, "c");
    assert!(resolve(&[], None, &nowhere()).is_err());
}

#[test]
fn environments_in_order() {
    let s = parse_ini("[outer]\n[inner]\n[Z]\n[common]\n[]\n");
    assert_eq!(env_names(&s), vec!["", "Z", "inner", "outer"]);
    assert!(env_names(&parse_ini("")).is_empty());
}

#[test]
fn the_environment_to_begin_with() {
    let envs = vec!["a".to_string(), "b".to_string()];
    assert_eq!(initial_env(&envs, "b", Some("a")), "a");
    assert_eq!(initial_env(&envs, "b", Some("gone")), "b");
    assert_eq!(initial_env(&envs, "gone", None), "a");
    assert_eq!(initial_env(&Vec::new(), "b", Some("a")), "b");
    let file = parse_ini("[a]\nbase_url=ua\n[b]\nbase_url=ub\n");
    let names = env_names(&file);
    let c = session_config(Config::default(), &file, &[], &names, Some("b"), &nowhere());
    assert_eq!((c.env.as_str(), c.base_url.as_str()), ("b", "ub"));
    let c = session_config(Config::default(), &file, &[], &names, None, &nowhere());
    assert_eq!((c.env.as_str(), c.base_url.as_str()), ("a", "ua"));
    assert_eq!(config_in(&file, &[], "b", &nowhere()).base_url, "ub");
    let file = parse_ini("[]\nbase_url=u\n");
    let c = session_config(Config::default(), &file, &[], &env_names(&file), None, &nowhere());
    assert_eq!((c.env.as_str(), c.base_url.as_str()), ("outer", ""));
}

#[test]
fn the_environment_is_remembered() {
    let file = save_last_env("inner").unwrap();
    assert_eq!(file, "last_env=inner\n");
    assert_eq!(load_last_env(&file), text("inner"));
    assert_eq!(save_last_env(""), None);
    assert_eq!(load_last_env("x\n  last_env= y \r\nlast_env=z"), text("y"));
    assert_eq!(load_last_env("last_env=\nlast_env=z"), None);
    assert_eq!(load_last_env("LAST_ENV=z"), None);
}

#[test]
fn credentials_that_are_filled_in() {
    let mut c = Config::default();
    assert!(!has_credentials(&mut c, " a ", "  "));
    assert_eq!((c.access_key.as_str(), c.secret_key.as_str()), ("a", ""));
    assert!(!has_keys(&c));
    assert!(has_credentials(&mut c, "b", "s"));
    assert!(has_keys(&c));
    assert_eq!((c.access_key.as_str(), c.secret_key.as_str()), ("a", "s"));
}

#[test]
fn credentials_are_saved_and_found() {
    let mut s = parse_ini("[outer]\nbase_url = u\naccess_key = own\n");
    assert_eq!(set_credentials(&mut s, "a", "  "), None);
    assert_eq!(value(&s, "common", "access_key"), None);
    let file = set_credentials(&mut s, " a ", "b").unwrap();
    let t = parse_ini(&file);
    assert_eq!(value(&t, "common", "access_key"), text("a"));
    assert_eq!(value(&t, "common", "secret_key"), text("b"));
    assert_eq!(value(&t, "outer", "base_url"), text("u"));
    assert!(same(&s, &t));
    assert_eq!(saved_message("p"), "已保存到 p");
    assert_eq!(saved_note("p"), "凭据已保存到 p");
}

fn source(file: &str, opts: &[(&str, &str)], s: &Surroundings) -> (String, Severity) {
    let c = resolve_sections_relaxed(&parse_ini(file), &options(opts), s).unwrap();
    config_source(&c, "p")
}

const KEYS: &str = "[common]\naccess_key = fa\nsecret_key = fs\n";

#[test]
fn the_source_is_shown() {
    let mut s = nowhere();
    assert_eq!(
        source("", &[], &s),
        ("配置：未找到 iobs.ini，使用内置默认值；保存将写入 p".to_string(), Severity::Bad)
    );
    s.local_exists = true;
    assert_eq!(
        source(KEYS, &[], &s),
        ("配置：iobs.ini（按查找顺序命中，凭据读自该文件）".to_string(), Severity::Good)
    );
    assert_eq!(
        source("access_key=a", &[], &s),
        ("配置：iobs.ini（该文件里没有凭据）".to_string(), Severity::Warning)
    );
    s.explicit_exists = true;
    assert_eq!(
        source(KEYS, &[("--config", "f")], &s),
        ("配置：f（--config 指定，凭据读自该文件）".to_string(), Severity::Good)
    );
}

#[test]
fn keys_from_elsewhere_are_said_to_be() {
    let line: &[(&str, &str)] = &[("--ak", "A"), ("--sk", "S")];
    let mut s = nowhere();
    let not_found = "配置：未找到 iobs.ini（凭据来自命令行或环境变量）";
    assert_eq!(source("", line, &s), (not_found.to_string(), Severity::Warning));
    s.iobs_ak = text("va");
    s.iobs_sk = text("vs");
    assert_eq!(source("", &[], &s), (not_found.to_string(), Severity::Warning));
    s.beside_exe = place("p/iobs.ini", true);
    let shown = |file: &str, opts: &[(&str, &str)], s: &Surroundings| source(file, opts, s).0;
    let variables = "配置：p/iobs.ini（按查找顺序命中，凭据来自环境变量）";
    assert_eq!(shown("", &[], &s), variables);
    assert_eq!(shown(KEYS, &[], &s), variables);
    let on_line = "配置：p/iobs.ini（按查找顺序命中，凭据来自命令行）";
    assert_eq!(shown("", line, &s), on_line);
    assert_eq!(shown(KEYS, line, &s), on_line);
    s.iobs_sk = None;
    assert_eq!(
        shown(KEYS, &[], &s),
        "配置：p/iobs.ini（按查找顺序命中，access_key 来自环境变量，secret_key 来自配置文件）"
    );
    assert_eq!(
        shown(KEYS, &[("--sk", "S")], &s),
        "配置：p/iobs.ini（按查找顺序命中，access_key 来自环境变量，secret_key 来自命令行）"
    );
    assert_eq!(shown("", &[], &s), "配置：p/iobs.ini（该文件里没有凭据）");
}

#[test]
fn keys_that_are_filled_in_are_said_to_be() {
    let mut c = Config::default();
    assert!(has_credentials(&mut c, "a", "s"));
    assert_eq!(config_source(&c, "p").0, "配置：未找到 iobs.ini（凭据来自界面填写）");
    let mut s = nowhere();
    s.local_exists = true;
    let file = parse_ini("access_key = fa\n[outer]\naccess_key = fo\n");
    let mut c = resolve_sections_relaxed(&file, &[], &s).unwrap();
    assert!(has_credentials(&mut c, "a", "s"));
    assert_eq!((c.access_key.as_str(), c.secret_key.as_str()), ("fo", "s"));
    assert_eq!(
        config_source(&c, "p").0,
        "配置：iobs.ini（按查找顺序命中，access_key 来自配置文件，secret_key 来自界面填写）"
    );
}

#[test]
fn keys_know_where_they_come_from() {
    let mut s = nowhere();
    s.iobs_sk = text("vs");
    let from = |file: &str, opts: &[(&str, &str)], s: &Surroundings| {
        let c = resolve_sections_relaxed(&parse_ini(file), &options(opts), s).unwrap();
        (c.access_key_from, c.secret_key_from)
    };
    assert_eq!(from("", &[], &s), (KeySource::Nowhere, KeySource::Variable));
    assert_eq!(from("access_key =", &[], &s), (KeySource::Nowhere, KeySource::Variable));
    assert_eq!(from(KEYS, &[], &s), (KeySource::File, KeySource::Variable));
    assert_eq!(
        from(KEYS, &[("--sk", "S"), ("--ak", "")], &s),
        (KeySource::File, KeySource::CommandLine)
    );
}

#[test]
fn the_window_keeps_the_command_line() {
    let file = parse_ini(
        "[common]\naccess_key=fa\nsecret_key=fs\nbucket=fb\n[a]\nbase_url=ua\n[b]\nbase_url=ub\n",
    );
    let names = env_names(&file);
    let opts = options(&[("--ak", "A"), ("--sk", "S"), ("--config", "f"), ("--env", "a")]);
    let mut s = nowhere();
    s.explicit_exists = true;
    s.local_exists = true;
    let start = resolve_sections_relaxed(&file, &opts, &s).unwrap();
    for c in [
        session_config(start, &file, &opts, &names, Some("b"), &s),
        config_in(&file, &opts, "b", &s),
    ] {
        assert_eq!((c.access_key.as_str(), c.secret_key.as_str()), ("A", "S"));
        assert_eq!((c.env.as_str(), c.base_url.as_str(), c.bucket.as_str()), ("b", "ub", "fb"));
        assert_eq!((c.config_path.as_deref(), c.config_explicit), (Some("f"), true));
        assert_eq!(config_source(&c, "p").0, "配置：f（--config 指定，凭据来自命令行）");
    }
    let opts = options(&[("--base-url", "l/"), ("--bucket", "lb")]);
    let c = config_in(&file, &opts, "a", &s);
    assert_eq!((c.base_url.as_str(), c.bucket.as_str()), ("l", "lb"));
    assert_eq!((c.env.as_str(), c.access_key.as_str()), ("a", "fa"));
    let c = config_in(&file, &options(&[("--env", "a")]), "", &s);
    assert_eq!((c.env.as_str(), c.base_url.as_str()), ("a", "ua"));
}

#[test]
fn keys_are_saved_to_the_file_that_is_shown() {
    let mut s = nowhere();
    s.local_exists = true;
    assert_eq!(save_target(&[], &s), "iobs.ini");
    for name in ["--config", "-c"] {
        assert_eq!(save_target(&options(&[(name, "x.ini")]), &s), "x.ini");
    }
    assert_eq!(save_target(&options(&[("--config", "")]), &s), "iobs.ini");
    s.local_exists = false;
    assert_eq!(save_target(&[], &s), "iobs.ini");
    s.beside_exe = place("/exe/iobs.ini", false);
    assert_eq!(save_target(&[], &s), "/exe/iobs.ini");
    // A named file that is not there yet is written, and then found.
    let opts = options(&[("--config", "x.ini")]);
    let target = save_target(&opts, &s);
    let mut file = parse_ini("[outer]\nbase_url=u\n");
    let before = config_in(&file, &opts, "outer", &s);
    assert_eq!(
        config_source(&before, &target).0,
        "配置：未找到 iobs.ini，使用内置默认值；保存将写入 x.ini"
    );
    set_credentials(&mut file, "a", "b").unwrap();
    s.explicit_exists = true;
    let after = config_in(&file, &opts, "outer", &s);
    assert_eq!(
        config_source(&after, &target),
        ("配置：x.ini（--config 指定，凭据读自该文件）".to_string(), Severity::Good)
    );
}

#[test]
fn the_extension_has_no_leading_point() {
    let ext = |file: &str, opts: &[(&str, &str)]| {
        resolve_sections_relaxed(&parse_ini(file), &options(opts), &nowhere()).unwrap().file_ext
    };
    assert_eq!(ext("file_ext = ..tar.gz", &[]), text("tar.gz"));
    assert_eq!(ext("file_ext = zip", &[("--ext", ".png")]), text("png"));
    assert_eq!(ext("file_ext = .", &[]), text(""));
    assert_eq!(ext("", &[]), None);
}
