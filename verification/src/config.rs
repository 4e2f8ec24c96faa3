//! The configuration: from the command line, environment variables, the
//! configuration file, and defaults.

use vstd::prelude::*;
use vstd::string::*;
use crate::cli;
use crate::cli::{has, opt};
use crate::error::{AppError, Res};
use crate::error;
use crate::ini;
use crate::ini::{parse_ini, Sections};
use crate::size;
use crate::size::parse_size;
use crate::table::Table;
use crate::text;
use crate::text::{
    parse_u32, parse_u64, same_text, same_text_ignoring_case, trimmed, without_leading,
    without_trailing,
};

verus! {

/// A configuration file to start from.
pub const SAMPLE_CONFIG: &'static str = "
# iobs 同步工具配置文件
# 用 --env <名称> 选择下面任意一个环境段（名字可自由增删）
# 请填写自己的 access_key / secret_key（或使用 GUI 的「连接凭据」）

# 请填写自己的服务地址 / bucket / access_key / secret_key
# 下方地址与桶名只是占位示例，必须替换成实际值

[common]
bucket           =
access_key       =
secret_key       =
small_file_limit = 10MB
chunk_size       = 5MB
timeout          = 60
retry            = 3
token_ttl        = 600

# 环境段名字可自由增删；运行时用 --env <名称> 选择，段内配置优先于 [common]
[outer]
base_url = https://iobs.example.com

[inner]
base_url = https://iobs-inner.example.com
";

/// The limit below which a file is uploaded in one request: 10 MB.
pub const DEFAULT_SMALL_FILE_LIMIT: u64 = 10485760;

/// The size of a part of a larger file: 5 MB.
pub const DEFAULT_CHUNK_SIZE: u64 = 5242880;

/// Where a key comes from.
#[derive(Debug, Clone, Copy, PartialEq, Eq, Structural)]
pub enum KeySource {
    CommandLine,
    Variable,
    File,
    /// Filled in in the window, and not saved.
    Form,
    /// There is no key.
    Nowhere,
}

/// The configuration.
#[derive(Debug, Clone)]
pub struct Config {
    pub env: String,
    pub base_url: String,
    pub bucket: String,
    pub access_key: String,
    pub secret_key: String,
    pub access_key_from: KeySource,
    pub secret_key_from: KeySource,
    pub small_file_limit: u64,
    pub chunk_size: u64,
    pub file_ext: Option<String>,
    pub timeout_secs: u64,
    pub retry: u32,
    pub token_ttl: u64,
    pub insecure: bool,
    pub verbose: bool,
    pub progress: bool,
    /// The configuration file that was read, if one was found.
    pub config_path: Option<String>,
    /// Whether that file was named on the command line.
    pub config_explicit: bool,
}

/// What a configuration says.
#[verifier::ext_equal]
pub ghost struct Settings {
    pub env: Seq<char>,
    pub base_url: Seq<char>,
    pub bucket: Seq<char>,
    pub access_key: Seq<char>,
    pub secret_key: Seq<char>,
    pub access_key_from: KeySource,
    pub secret_key_from: KeySource,
    pub small_file_limit: nat,
    pub chunk_size: nat,
    pub file_ext: Option<Seq<char>>,
    pub timeout_secs: nat,
    pub retry: nat,
    pub token_ttl: nat,
    pub insecure: bool,
    pub verbose: bool,
    pub progress: bool,
    pub config_path: Option<Seq<char>>,
    pub config_explicit: bool,
}

impl View for Config {
    type V = Settings;

    open spec fn view(&self) -> Settings {
        Settings {
            env: self.env@,
            base_url: self.base_url@,
            bucket: self.bucket@,
            access_key: self.access_key@,
            secret_key: self.secret_key@,
            access_key_from: self.access_key_from,
            secret_key_from: self.secret_key_from,
            small_file_limit: self.small_file_limit as nat,
            chunk_size: self.chunk_size as nat,
            file_ext: text::text_of(self.file_ext),
            timeout_secs: self.timeout_secs as nat,
            retry: self.retry as nat,
            token_ttl: self.token_ttl as nat,
            insecure: self.insecure,
            verbose: self.verbose,
            progress: self.progress,
            config_path: text::text_of(self.config_path),
            config_explicit: self.config_explicit,
        }
    }
}

/// The settings where nothing is configured.
pub open spec fn default_settings() -> Settings {
    Settings {
        env: "outer"@,
        base_url: Seq::empty(),
        bucket: Seq::empty(),
        access_key: Seq::empty(),
        secret_key: Seq::empty(),
        access_key_from: KeySource::Nowhere,
        secret_key_from: KeySource::Nowhere,
        small_file_limit: DEFAULT_SMALL_FILE_LIMIT as nat,
        chunk_size: DEFAULT_CHUNK_SIZE as nat,
        file_ext: None,
        timeout_secs: 60,
        retry: 3,
        token_ttl: 600,
        insecure: false,
        verbose: false,
        progress: true,
        config_path: None,
        config_explicit: false,
    }
}

impl Default for Config {
    fn default() -> (c: Config)
        ensures
            c@ == default_settings(),
    {
        Config {
            env: "outer".to_string(),
            base_url: String::new(),
            bucket: String::new(),
            access_key: String::new(),
            secret_key: String::new(),
            access_key_from: KeySource::Nowhere,
            secret_key_from: KeySource::Nowhere,
            small_file_limit: DEFAULT_SMALL_FILE_LIMIT,
            chunk_size: DEFAULT_CHUNK_SIZE,
            file_ext: None,
            timeout_secs: 60,
            retry: 3,
            token_ttl: 600,
            insecure: false,
            verbose: false,
            progress: true,
            config_path: None,
            config_explicit: false,
        }
    }
}

// ---------------------------------------------------------------------------
// Where the configuration comes from.
// ---------------------------------------------------------------------------

/// A place where a configuration file may be, and whether one is there.
pub struct Candidate {
    pub path: String,
    pub exists: bool,
}

/// What the process finds around it when it starts.
pub struct Surroundings {
    /// Whether the file that the command line names is there.
    pub explicit_exists: bool,
    /// Whether `iobs.ini` is in the current directory.
    pub local_exists: bool,
    /// `iobs.ini` in the directory of the executable.
    pub beside_exe: Option<Candidate>,
    /// `sync-iobs/iobs.ini` in the directory for application data.
    pub app_data: Option<Candidate>,
    /// The environment variable `IOBS_ENV`.
    pub iobs_env: Option<String>,
    /// The environment variable `IOBS_BASE_URL`.
    pub iobs_base_url: Option<String>,
    /// The environment variable `IOBS_BUCKET`.
    pub iobs_bucket: Option<String>,
    /// The environment variable `IOBS_AK`.
    pub iobs_ak: Option<String>,
    /// The environment variable `IOBS_SK`.
    pub iobs_sk: Option<String>,
}

/// The path of a candidate that is there.
pub open spec fn existing(c: Option<Candidate>) -> Option<Seq<char>> {
    match c {
        Some(c) => if c.exists {
            Some(c.path@)
        } else {
            None
        },
        None => None,
    }
}

/// The first of two that there is.
pub open spec fn first_of<T>(a: Option<T>, b: Option<T>) -> Option<T> {
    if a is Some {
        a
    } else {
        b
    }
}

/// What there is, or else `d`.
pub open spec fn or_else<T>(a: Option<T>, d: T) -> T {
    match a {
        Some(x) => x,
        None => d,
    }
}

/// The configuration file to read: the one that the command line names, or
/// else the first that is there of those in the current directory, beside the
/// executable, and in the directory for application data.
pub open spec fn found_config(explicit: Option<Seq<char>>, s: Surroundings) -> Option<Seq<char>> {
    match explicit {
        Some(p) => if s.explicit_exists {
            Some(p)
        } else {
            None
        },
        None => if s.local_exists {
            Some("iobs.ini"@)
        } else {
            first_of(existing(s.beside_exe), existing(s.app_data))
        },
    }
}

fn existing_path(c: &Option<Candidate>) -> (r: Option<String>)
    ensures
        text::text_of(r) == existing(*c),
{
    match c {
        Some(c) => if c.exists {
            Some(c.path.clone())
        } else {
            None
        },
        None => None,
    }
}

/// The configuration file to read.
pub fn find_config(explicit: Option<&str>, s: &Surroundings) -> (r: Option<String>)
    ensures
        text::text_of(r) == found_config(
            match explicit {
                Some(p) => Some(p@),
                None => None,
            },
            *s,
        ),
{
    match explicit {
        Some(p) => if s.explicit_exists {
            Some(p.to_string())
        } else {
            None
        },
        None => if s.local_exists {
            Some("iobs.ini".to_string())
        } else {
            match existing_path(&s.beside_exe) {
                Some(p) => Some(p),
                None => existing_path(&s.app_data),
            }
        },
    }
}

/// The file that a configuration is saved to where the command line names none:
/// the one that is read, or else the one beside the executable.
pub open spec fn save_path(s: Surroundings) -> Seq<char> {
    match found_config(None, s) {
        Some(p) => p,
        None => match s.beside_exe {
            Some(c) => c.path@,
            None => "iobs.ini"@,
        },
    }
}

/// The file that a configuration is saved to where the command line names none.
pub fn default_config_path(s: &Surroundings) -> (p: String)
    ensures
        p@ == save_path(*s),
{
    match find_config(None, s) {
        Some(p) => p,
        None => match &s.beside_exe {
            Some(c) => c.path.clone(),
            None => "iobs.ini".to_string(),
        },
    }
}

/// The configuration file that the command line names.
pub open spec fn named_config(opts: Seq<cli::OptionText>) -> Option<Seq<char>> {
    first_of(cli::option_value(opts, "--config"@), cli::option_value(opts, "-c"@))
}

/// The configuration file that the command line names.
pub fn config_option(opts: &[(String, String)]) -> (r: Option<String>)
    ensures
        text::text_of(r) == named_config(cli::option_texts(opts@)),
{
    match opt(opts, "--config") {
        Some(p) => Some(p),
        None => opt(opts, "-c"),
    }
}

/// The file that a configuration is saved to: the one that the command line
/// names, whether it is there or not, or else the one for where it names none.
pub open spec fn target_path(opts: Seq<cli::OptionText>, s: Surroundings) -> Seq<char> {
    match named_config(opts) {
        Some(n) => n,
        None => save_path(s),
    }
}

/// The file that a configuration is saved to.
pub fn save_target(opts: &[(String, String)], s: &Surroundings) -> (p: String)
    ensures
        p@ == target_path(cli::option_texts(opts@), *s),
{
    match config_option(opts) {
        Some(n) => n,
        None => default_config_path(s),
    }
}

/// What the process finds around it after a configuration was saved: the same,
/// and the file that it was saved to.
pub open spec fn after_save(opts: Seq<cli::OptionText>, s: Surroundings) -> Surroundings {
    if named_config(opts) is Some {
        Surroundings { explicit_exists: true, ..s }
    } else if found_config(None, s) is Some {
        s
    } else {
        match s.beside_exe {
            Some(c) => Surroundings {
                beside_exe: Some(Candidate { exists: true, ..c }),
                ..s
            },
            None => Surroundings { local_exists: true, ..s },
        }
    }
}

/// The file that a configuration is saved to is the one that is read from then
/// on.
pub proof fn law_saved_file_found(opts: Seq<cli::OptionText>, s: Surroundings)
    ensures
        found_config(named_config(opts), after_save(opts, s)) == Some(target_path(opts, s)),
{
}

/// The value of an environment variable, white space around it aside. One
/// that is empty counts for nothing.
pub open spec fn variable(raw: Option<String>) -> Option<Seq<char>> {
    match raw {
        Some(v) => if text::trim(v@).len() > 0 {
            Some(text::trim(v@))
        } else {
            None
        },
        None => None,
    }
}

/// The value of an environment variable.
fn env_var(raw: &Option<String>) -> (r: Option<String>)
    ensures
        text::text_of(r) == variable(*raw),
{
    match raw {
        Some(v) => {
            let t = trimmed(v.as_str());
            if t.as_str().is_empty() {
                None
            } else {
                Some(t)
            }
        },
        None => None,
    }
}

/// The sections of a file that was read; none where there was no file.
pub open spec fn loaded(file: Option<Seq<char>>) -> ini::SectionsMap {
    match file {
        Some(t) => ini::ini_sections(t),
        None => Map::empty(),
    }
}

/// The sections of a file that was read; none where there was no file.
pub fn load_sections(file: Option<&str>) -> (r: Sections)
    ensures
        r@ == loaded(
            match file {
                Some(t) => Some(t@),
                None => None,
            },
        ),
{
    match file {
        Some(t) => parse_ini(t),
        None => Table::new(),
    }
}

// ---------------------------------------------------------------------------
// What is configured.
// ---------------------------------------------------------------------------

/// The value of `key` in the file: that of the section `env`, or else that of
/// the section `common`.
pub open spec fn in_file(sections: ini::SectionsMap, env: Seq<char>, key: Seq<char>) -> Option<
    Seq<char>,
> {
    let of_env = ini::section_of(sections, env);
    let of_all = ini::section_of(sections, "common"@);
    if of_env.contains_key(key) {
        Some(of_env[key])
    } else if of_all.contains_key(key) {
        Some(of_all[key])
    } else {
        None
    }
}

/// The size that a text stands for, where there is one.
pub open spec fn as_size(t: Option<Seq<char>>) -> Option<nat> {
    match t {
        Some(t) => match size::size_value(t) {
            Some(n) => Some(n as nat),
            None => None,
        },
        None => None,
    }
}

/// The number up to `max` that a text stands for, where there is one.
pub open spec fn as_number(t: Option<Seq<char>>, max: nat) -> Option<nat> {
    match t {
        Some(t) => text::bounded_value(t, max),
        None => None,
    }
}

/// A file extension, without the points at its start.
pub open spec fn as_extension(t: Option<Seq<char>>) -> Option<Seq<char>> {
    match t {
        Some(t) => Some(text::trim_start_char(t, '.')),
        None => None,
    }
}

/// Whether a text stands for yes.
pub open spec fn is_yes(t: Option<Seq<char>>) -> bool {
    match t {
        Some(t) => t == "1"@ || text::same_ignoring_case(t, "true"@),
        None => false,
    }
}

/// The environment: from the command line, or else the variable, or else
/// `outer`.
pub open spec fn chosen_env(opts: Seq<cli::OptionText>, s: Surroundings) -> Seq<char> {
    or_else(first_of(cli::option_value(opts, "--env"@), variable(s.iobs_env)), "outer"@)
}

/// A text that the command line, a variable and the file can set, in this
/// order of precedence.
pub open spec fn chosen_text(
    sections: ini::SectionsMap,
    opts: Seq<cli::OptionText>,
    env: Seq<char>,
    option: Seq<char>,
    var: Option<String>,
    key: Seq<char>,
) -> Seq<char> {
    or_else(
        first_of(
            first_of(cli::option_value(opts, option), variable(var)),
            in_file(sections, env, key),
        ),
        Seq::empty(),
    )
}

/// Where a key comes from that the command line, a variable and the file can
/// set, in this order of precedence. An empty key in the file is none.
pub open spec fn key_source(
    sections: ini::SectionsMap,
    opts: Seq<cli::OptionText>,
    env: Seq<char>,
    option: Seq<char>,
    var: Option<String>,
    key: Seq<char>,
) -> KeySource {
    if cli::option_value(opts, option) is Some {
        KeySource::CommandLine
    } else if variable(var) is Some {
        KeySource::Variable
    } else {
        match in_file(sections, env, key) {
            Some(v) if v.len() > 0 => KeySource::File,
            _ => KeySource::Nowhere,
        }
    }
}

/// What the command line, the environment variables and the file configure.
///
/// The command line comes before the variables, these before the section of
/// the environment, this before the section `common`, and that before the
/// defaults. A number or a size that cannot be read counts for nothing.
pub open spec fn configured(
    sections: ini::SectionsMap,
    opts: Seq<cli::OptionText>,
    s: Surroundings,
) -> Settings {
    let env = chosen_env(opts, s);
    let d = default_settings();
    let chunk = or_else(
        first_of(
            as_size(cli::option_value(opts, "--chunk"@)),
            as_size(in_file(sections, env, "chunk_size"@)),
        ),
        d.chunk_size,
    );
    Settings {
        env,
        base_url: text::trim_end_char(
            chosen_text(sections, opts, env, "--base-url"@, s.iobs_base_url, "base_url"@),
            '/',
        ),
        bucket: chosen_text(sections, opts, env, "--bucket"@, s.iobs_bucket, "bucket"@),
        access_key: chosen_text(sections, opts, env, "--ak"@, s.iobs_ak, "access_key"@),
        secret_key: chosen_text(sections, opts, env, "--sk"@, s.iobs_sk, "secret_key"@),
        access_key_from: key_source(sections, opts, env, "--ak"@, s.iobs_ak, "access_key"@),
        secret_key_from: key_source(sections, opts, env, "--sk"@, s.iobs_sk, "secret_key"@),
        small_file_limit: or_else(
            first_of(
                as_size(cli::option_value(opts, "--small-limit"@)),
                as_size(in_file(sections, env, "small_file_limit"@)),
            ),
            d.small_file_limit,
        ),
        chunk_size: if chunk == 0 {
            d.chunk_size
        } else {
            chunk
        },
        file_ext: first_of(
            as_extension(cli::option_value(opts, "--ext"@)),
            as_extension(in_file(sections, env, "file_ext"@)),
        ),
        timeout_secs: or_else(
            first_of(
                as_number(cli::option_value(opts, "--timeout"@), u64::MAX as nat),
                as_number(in_file(sections, env, "timeout"@), u64::MAX as nat),
            ),
            d.timeout_secs,
        ),
        retry: or_else(
            first_of(
                as_number(cli::option_value(opts, "--retry"@), u32::MAX as nat),
                as_number(in_file(sections, env, "retry"@), u32::MAX as nat),
            ),
            d.retry,
        ),
        token_ttl: or_else(
            first_of(
                as_number(cli::option_value(opts, "--token-ttl"@), u64::MAX as nat),
                as_number(in_file(sections, env, "token_ttl"@), u64::MAX as nat),
            ),
            d.token_ttl,
        ),
        insecure: cli::option_given(opts, "--insecure"@) || is_yes(
            in_file(sections, env, "insecure"@),
        ),
        verbose: cli::option_given(opts, "--verbose"@),
        progress: !cli::option_given(opts, "--no-progress"@),
        config_path: found_config(named_config(opts), s),
        config_explicit: named_config(opts) is Some,
    }
}

/// What is wrong with settings that no request can be made with.
pub open spec fn missing(c: Settings) -> Option<Seq<char>> {
    if c.access_key.len() == 0 || c.secret_key.len() == 0 {
        Some(
            "缺少 access_key / secret_key：请配置 iobs.ini，或用 --ak/--sk、IOBS_AK/IOBS_SK 提供"@,
        )
    } else if c.base_url.len() == 0 {
        Some(
            "缺少 base_url：请在 iobs.ini 的环境段里配置，或用 --base-url / IOBS_BASE_URL 提供"@,
        )
    } else if c.bucket.len() == 0 {
        Some(
            "缺少 bucket：请在 iobs.ini 的 [common] 里配置，或用 --bucket / IOBS_BUCKET 提供"@,
        )
    } else {
        None
    }
}

fn pick(sections: &Sections, env: &str, key: &str) -> (r: Option<String>)
    ensures
        text::text_of(r) == in_file(sections@, env@, key@),
{
    let of_env: Option<String> = match sections.get(env) {
        Some(section) => match section.get(key) {
            Some(v) => Some(v.clone()),
            None => None,
        },
        None => None,
    };
    match of_env {
        Some(v) => Some(v),
        None => match sections.get("common") {
            Some(section) => match section.get(key) {
                Some(v) => Some(v.clone()),
                None => None,
            },
            None => None,
        },
    }
}

fn text_setting(
    sections: &Sections,
    opts: &[(String, String)],
    env: &str,
    option: &str,
    var: &Option<String>,
    key: &str,
) -> (r: String)
    ensures
        r@ == chosen_text(sections@, cli::option_texts(opts@), env@, option@, *var, key@),
{
    match opt(opts, option) {
        Some(v) => v,
        None => match env_var(var) {
            Some(v) => v,
            None => match pick(sections, env, key) {
                Some(v) => v,
                None => String::new(),
            },
        },
    }
}

fn source_of_key(
    sections: &Sections,
    opts: &[(String, String)],
    env: &str,
    option: &str,
    var: &Option<String>,
    key: &str,
) -> (r: KeySource)
    ensures
        r == key_source(sections@, cli::option_texts(opts@), env@, option@, *var, key@),
{
    if opt(opts, option).is_some() {
        KeySource::CommandLine
    } else if env_var(var).is_some() {
        KeySource::Variable
    } else {
        match pick(sections, env, key) {
            Some(v) => if v.as_str().is_empty() {
                KeySource::Nowhere
            } else {
                KeySource::File
            },
            None => KeySource::Nowhere,
        }
    }
}

fn read_size(t: Option<String>) -> (r: Option<u64>)
    ensures
        match r {
            Some(n) => as_size(text::text_of(t)) == Some(n as nat),
            None => as_size(text::text_of(t)) is None,
        },
{
    match t {
        Some(t) => parse_size(t.as_str()),
        None => None,
    }
}

fn read_u64(t: Option<String>) -> (r: Option<u64>)
    ensures
        match r {
            Some(n) => as_number(text::text_of(t), u64::MAX as nat) == Some(n as nat),
            None => as_number(text::text_of(t), u64::MAX as nat) is None,
        },
{
    match t {
        Some(t) => parse_u64(t.as_str()),
        None => None,
    }
}

fn read_u32(t: Option<String>) -> (r: Option<u32>)
    ensures
        match r {
            Some(n) => as_number(text::text_of(t), u32::MAX as nat) == Some(n as nat),
            None => as_number(text::text_of(t), u32::MAX as nat) is None,
        },
{
    match t {
        Some(t) => parse_u32(t.as_str()),
        None => None,
    }
}

fn size_setting(
    sections: &Sections,
    opts: &[(String, String)],
    env: &str,
    option: &str,
    key: &str,
    default: u64,
) -> (r: u64)
    ensures
        r == or_else(
            first_of(
                as_size(cli::option_value(cli::option_texts(opts@), option@)),
                as_size(in_file(sections@, env@, key@)),
            ),
            default as nat,
        ),
{
    match read_size(opt(opts, option)) {
        Some(n) => n,
        None => match read_size(pick(sections, env, key)) {
            Some(n) => n,
            None => default,
        },
    }
}

fn number_setting(
    sections: &Sections,
    opts: &[(String, String)],
    env: &str,
    option: &str,
    key: &str,
    default: u64,
) -> (r: u64)
    ensures
        r == or_else(
            first_of(
                as_number(cli::option_value(cli::option_texts(opts@), option@), u64::MAX as nat),
                as_number(in_file(sections@, env@, key@), u64::MAX as nat),
            ),
            default as nat,
        ),
{
    match read_u64(opt(opts, option)) {
        Some(n) => n,
        None => match read_u64(pick(sections, env, key)) {
            Some(n) => n,
            None => default,
        },
    }
}

fn extension(t: Option<String>) -> (r: Option<String>)
    ensures
        text::text_of(r) == as_extension(text::text_of(t)),
{
    match t {
        Some(t) => Some(without_leading(t.as_str(), '.')),
        None => None,
    }
}

fn yes(t: Option<String>) -> (r: bool)
    ensures
        r == is_yes(text::text_of(t)),
{
    match t {
        Some(t) => same_text(t.as_str(), "1") || same_text_ignoring_case(t.as_str(), "true"),
        None => false,
    }
}

/// What is configured. Where `strict`, the settings must be such that requests
/// can be made with them.
fn build_config(
    sections: &Sections,
    opts: &[(String, String)],
    s: &Surroundings,
    strict: bool,
) -> (r: Res<Config>)
    ensures
        ({
            let c = configured(sections@, cli::option_texts(opts@), *s);
            match missing(c) {
                Some(msg) if strict => error::failed(r, 2, msg),
                _ => r is Ok && r->Ok_0@ == c,
            }
        }),
{
    let ghost o = cli::option_texts(opts@);
    let explicit = config_option(opts);
    let config_explicit: bool = explicit.is_some();
    let config_path: Option<String> = match &explicit {
        Some(p) => find_config(Some(p.as_str()), s),
        None => find_config(None, s),
    };
    let env: String = match opt(opts, "--env") {
        Some(v) => v,
        None => match env_var(&s.iobs_env) {
            Some(v) => v,
            None => "outer".to_string(),
        },
    };
    assert(env@ == chosen_env(o, *s));
    let e = env.as_str();
    let base_url = without_trailing(
        text_setting(sections, opts, e, "--base-url", &s.iobs_base_url, "base_url").as_str(),
        '/',
    );
    let bucket = text_setting(sections, opts, e, "--bucket", &s.iobs_bucket, "bucket");
    let access_key = text_setting(sections, opts, e, "--ak", &s.iobs_ak, "access_key");
    let secret_key = text_setting(sections, opts, e, "--sk", &s.iobs_sk, "secret_key");
    let access_key_from = source_of_key(sections, opts, e, "--ak", &s.iobs_ak, "access_key");
    let secret_key_from = source_of_key(sections, opts, e, "--sk", &s.iobs_sk, "secret_key");
    let small_file_limit: u64 = size_setting(
        sections,
        opts,
        e,
        "--small-limit",
        "small_file_limit",
        DEFAULT_SMALL_FILE_LIMIT,
    );
    let chunk: u64 = size_setting(
        sections,
        opts,
        e,
        "--chunk",
        "chunk_size",
        DEFAULT_CHUNK_SIZE,
    );
    let chunk_size: u64 = if chunk == 0 {
        DEFAULT_CHUNK_SIZE
    } else {
        chunk
    };
    let file_ext: Option<String> = match extension(opt(opts, "--ext")) {
        Some(x) => Some(x),
        None => extension(pick(sections, e, "file_ext")),
    };
    let timeout_secs: u64 = number_setting(sections, opts, e, "--timeout", "timeout", 60);
    let token_ttl: u64 = number_setting(sections, opts, e, "--token-ttl", "token_ttl", 600);
    let retry: u32 = match read_u32(opt(opts, "--retry")) {
        Some(n) => n,
        None => match read_u32(pick(sections, e, "retry")) {
            Some(n) => n,
            None => 3,
        },
    };
    let insecure: bool = has(opts, "--insecure") || yes(pick(sections, e, "insecure"));
    let verbose: bool = has(opts, "--verbose");
    let quiet: bool = has(opts, "--no-progress");
    let c = Config {
        env,
        base_url,
        bucket,
        access_key,
        secret_key,
        access_key_from,
        secret_key_from,
        small_file_limit,
        chunk_size,
        file_ext,
        timeout_secs,
        retry,
        token_ttl,
        insecure,
        verbose,
        progress: !quiet,
        config_path,
        config_explicit,
    };
    assert(c@ =~= configured(sections@, o, *s));
    if strict {
        if c.access_key.as_str().is_empty() || c.secret_key.as_str().is_empty() {
            return Err(
                AppError::new(
                    2,
                    "缺少 access_key / secret_key：请配置 iobs.ini，或用 --ak/--sk、IOBS_AK/IOBS_SK 提供".to_string(),
                ),
            );
        }
        if c.base_url.as_str().is_empty() {
            return Err(
                AppError::new(
                    2,
                    "缺少 base_url：请在 iobs.ini 的环境段里配置，或用 --base-url / IOBS_BASE_URL 提供".to_string(),
                ),
            );
        }
        if c.bucket.as_str().is_empty() {
            return Err(
                AppError::new(
                    2,
                    "缺少 bucket：请在 iobs.ini 的 [common] 里配置，或用 --bucket / IOBS_BUCKET 提供".to_string(),
                ),
            );
        }
    }
    Ok(c)
}

/// What is configured, where requests can be made with it.
pub fn resolve_sections(
    sections: &Sections,
    opts: &[(String, String)],
    s: &Surroundings,
) -> (r: Res<Config>)
    ensures
        ({
            let c = configured(sections@, cli::option_texts(opts@), *s);
            match missing(c) {
                Some(msg) => error::failed(r, 2, msg),
                None => r is Ok && r->Ok_0@ == c,
            }
        }),
{
    build_config(sections, opts, s, true)
}

/// What is configured, also where keys, address or bucket are missing.
pub fn resolve_sections_relaxed(
    sections: &Sections,
    opts: &[(String, String)],
    s: &Surroundings,
) -> (r: Res<Config>)
    ensures
        r is Ok && r->Ok_0@ == configured(sections@, cli::option_texts(opts@), *s),
{
    build_config(sections, opts, s, false)
}

/// What is configured with the file `file`, where requests can be made with
/// it.
pub fn resolve(opts: &[(String, String)], file: Option<&str>, s: &Surroundings) -> (r: Res<Config>)
    ensures
        ({
            let t = match file {
                Some(t) => Some(t@),
                None => None,
            };
            let c = configured(loaded(t), cli::option_texts(opts@), *s);
            match missing(c) {
                Some(msg) => error::failed(r, 2, msg),
                None => r is Ok && r->Ok_0@ == c,
            }
        }),
{
    resolve_sections(&load_sections(file), opts, s)
}

/// Whether `got` is the first that there is of the command line's, the
/// variable's, the environment section's and the common section's value, and
/// `default` where there is none of them.
pub open spec fn by_precedence(
    got: Seq<char>,
    sections: ini::SectionsMap,
    opts: Seq<cli::OptionText>,
    env: Seq<char>,
    option: Seq<char>,
    var: Option<String>,
    key: Seq<char>,
    default: Seq<char>,
) -> bool {
    let on_line = cli::option_value(opts, option);
    let of_env = ini::section_of(sections, env);
    let of_all = ini::section_of(sections, "common"@);
    &&& on_line is Some ==> got == on_line->Some_0
    &&& on_line is None && variable(var) is Some ==> got == variable(var)->Some_0
    &&& on_line is None && variable(var) is None && of_env.contains_key(key) ==> got == of_env[key]
    &&& on_line is None && variable(var) is None && !of_env.contains_key(key)
        && of_all.contains_key(key) ==> got == of_all[key]
    &&& on_line is None && variable(var) is None && !of_env.contains_key(key)
        && !of_all.contains_key(key) ==> got == default
}

/// The command line comes before the environment variables, these before the
/// section of the environment, this before the section `common`, and that
/// before the defaults. Address, bucket and keys have no default.
pub proof fn law_precedence(
    sections: ini::SectionsMap,
    opts: Seq<cli::OptionText>,
    s: Surroundings,
)
    ensures
        ({
            let c = configured(sections, opts, s);
            let none = Seq::<char>::empty();
            &&& by_precedence(
                c.bucket,
                sections,
                opts,
                c.env,
                "--bucket"@,
                s.iobs_bucket,
                "bucket"@,
                none,
            )
            &&& by_precedence(
                c.access_key,
                sections,
                opts,
                c.env,
                "--ak"@,
                s.iobs_ak,
                "access_key"@,
                none,
            )
            &&& by_precedence(
                c.secret_key,
                sections,
                opts,
                c.env,
                "--sk"@,
                s.iobs_sk,
                "secret_key"@,
                none,
            )
            &&& exists|url: Seq<char>|
                c.base_url == #[trigger] text::trim_end_char(url, '/') && by_precedence(
                    url,
                    sections,
                    opts,
                    c.env,
                    "--base-url"@,
                    s.iobs_base_url,
                    "base_url"@,
                    none,
                )
        }),
{
    let env = chosen_env(opts, s);
    let url = chosen_text(sections, opts, env, "--base-url"@, s.iobs_base_url, "base_url"@);
    assert(configured(sections, opts, s).base_url == text::trim_end_char(url, '/'));
    assert(by_precedence(
        url,
        sections,
        opts,
        env,
        "--base-url"@,
        s.iobs_base_url,
        "base_url"@,
        Seq::empty(),
    ));
}

/// Whether `key` is what `from` says it is: the value that the command line
/// gives, or that of the variable, or that in the file; and empty where it comes
/// from nowhere, but not elsewhere.
pub open spec fn comes_from(
    key: Seq<char>,
    from: KeySource,
    on_line: Option<Seq<char>>,
    var: Option<Seq<char>>,
    of_file: Option<Seq<char>>,
) -> bool {
    &&& key.len() == 0 <==> from == KeySource::Nowhere
    &&& from == KeySource::CommandLine ==> on_line == Some(key)
    &&& from == KeySource::Variable ==> on_line is None && var == Some(key)
    &&& from == KeySource::File ==> on_line is None && var is None && of_file == Some(key)
    &&& from != KeySource::Form
}

/// Where the keys are said to come from is where they come from.
pub proof fn law_key_sources(
    sections: ini::SectionsMap,
    opts: Seq<cli::OptionText>,
    s: Surroundings,
)
    ensures
        ({
            let c = configured(sections, opts, s);
            &&& comes_from(
                c.access_key,
                c.access_key_from,
                cli::option_value(opts, "--ak"@),
                variable(s.iobs_ak),
                in_file(sections, c.env, "access_key"@),
            )
            &&& comes_from(
                c.secret_key,
                c.secret_key_from,
                cli::option_value(opts, "--sk"@),
                variable(s.iobs_sk),
                in_file(sections, c.env, "secret_key"@),
            )
        }),
{
    cli::lemma_option_not_empty(opts, "--ak"@);
    cli::lemma_option_not_empty(opts, "--sk"@);
}

/// Parts are never configured to be empty, the address never ends in a slash,
/// and the extension never starts with a point.
pub proof fn law_configured_usable(
    sections: ini::SectionsMap,
    opts: Seq<cli::OptionText>,
    s: Surroundings,
)
    ensures
        configured(sections, opts, s).chunk_size > 0,
        ({
            let url = configured(sections, opts, s).base_url;
            url.len() > 0 ==> url.last() != '/'
        }),
        ({
            let ext = configured(sections, opts, s).file_ext;
            ext is Some && ext->Some_0.len() > 0 ==> ext->Some_0[0] != '.'
        }),
{
    let env = chosen_env(opts, s);
    lemma_no_trailing(
        chosen_text(sections, opts, env, "--base-url"@, s.iobs_base_url, "base_url"@),
        '/',
    );
    match cli::option_value(opts, "--ext"@) {
        Some(t) => lemma_no_leading(t, '.'),
        None => match in_file(sections, env, "file_ext"@) {
            Some(t) => lemma_no_leading(t, '.'),
            None => {},
        },
    }
}

proof fn lemma_no_leading(s: Seq<char>, c: char)
    ensures
        text::trim_start_char(s, c).len() > 0 ==> text::trim_start_char(s, c)[0] != c,
    decreases s.len(),
{
    if s.len() > 0 && s[0] == c {
        lemma_no_leading(s.skip(1), c);
    }
}

proof fn lemma_no_trailing(s: Seq<char>, c: char)
    ensures
        text::trim_end_char(s, c).len() > 0 ==> text::trim_end_char(s, c).last() != c,
    decreases s.len(),
{
    if s.len() > 0 && s.last() == c {
        lemma_no_trailing(s.drop_last(), c);
    }
}

/// An environment that has no keys of its own takes every key from the section
/// `common`.
pub proof fn law_common_inherited(
    sections: ini::SectionsMap,
    opts: Seq<cli::OptionText>,
    s: Surroundings,
)
    requires
        ini::section_of(sections, chosen_env(opts, s)) == Map::<Seq<char>, Seq<char>>::empty(),
    ensures
        forall|key: Seq<char>|
            #[trigger] in_file(sections, configured(sections, opts, s).env, key) == in_file(
                sections,
                "common"@,
                key,
            ),
{
}

// ---------------------------------------------------------------------------
// What each setting is, by what is configured.
// ---------------------------------------------------------------------------

/// The value of `key` in a file: that of the section of the environment, or else
/// that of the section `common`.
pub open spec fn file_value(
    sections: ini::SectionsMap,
    env: Seq<char>,
    key: Seq<char>,
) -> Option<Seq<char>> {
    if sections.contains_key(env) && sections[env].contains_key(key) {
        Some(sections[env][key])
    } else if sections.contains_key("common"@) && sections["common"@].contains_key(key) {
        Some(sections["common"@][key])
    } else {
        None
    }
}

/// Whether a size is the one on the command line, where that can be read, or
/// else the one in the file, where that can be read, or else the default.
pub open spec fn size_by_precedence(
    got: nat,
    on_line: Option<Seq<char>>,
    of_file: Option<Seq<char>>,
    default: nat,
) -> bool {
    if on_line is Some && size::size_value(on_line->Some_0) is Some {
        size::size_value(on_line->Some_0) == Some(got as u64) && got <= u64::MAX
    } else if of_file is Some && size::size_value(of_file->Some_0) is Some {
        size::size_value(of_file->Some_0) == Some(got as u64) && got <= u64::MAX
    } else {
        got == default
    }
}

/// Whether a number up to `max` is the one on the command line, where that can
/// be read, or else the one in the file, where that can be read, or else the
/// default.
pub open spec fn number_by_precedence(
    got: nat,
    on_line: Option<Seq<char>>,
    of_file: Option<Seq<char>>,
    max: nat,
    default: nat,
) -> bool {
    if on_line is Some && text::bounded_value(on_line->Some_0, max) is Some {
        text::bounded_value(on_line->Some_0, max) == Some(got)
    } else if of_file is Some && text::bounded_value(of_file->Some_0, max) is Some {
        text::bounded_value(of_file->Some_0, max) == Some(got)
    } else {
        got == default
    }
}

/// Sizes and numbers: the command line comes before the section of the
/// environment, this before the section `common`, and that before the defaults:
/// 10 MB, 5 MB, 60 seconds, 3 tries, 600 seconds. A part has never no size.
pub proof fn law_numbers_by_precedence(
    sections: &Sections,
    opts: &[(String, String)],
    s: &Surroundings,
    r: Res<Config>,
)
    requires
        call_ensures(resolve_sections_relaxed, (sections, opts, s), r),
    ensures
        r is Ok,
        ({
            let c = r->Ok_0;
            let o = cli::option_texts(opts@);
            let env = c.env@;
            &&& size_by_precedence(
                c.small_file_limit as nat,
                cli::option_value(o, "--small-limit"@),
                file_value(sections@, env, "small_file_limit"@),
                10 * 1024 * 1024,
            )
            &&& exists|n: nat|
                #[trigger] size_by_precedence(
                    n,
                    cli::option_value(o, "--chunk"@),
                    file_value(sections@, env, "chunk_size"@),
                    5 * 1024 * 1024,
                ) && c.chunk_size == if n == 0 {
                    5 * 1024 * 1024
                } else {
                    n
                }
            &&& number_by_precedence(
                c.timeout_secs as nat,
                cli::option_value(o, "--timeout"@),
                file_value(sections@, env, "timeout"@),
                u64::MAX as nat,
                60,
            )
            &&& number_by_precedence(
                c.retry as nat,
                cli::option_value(o, "--retry"@),
                file_value(sections@, env, "retry"@),
                u32::MAX as nat,
                3,
            )
            &&& number_by_precedence(
                c.token_ttl as nat,
                cli::option_value(o, "--token-ttl"@),
                file_value(sections@, env, "token_ttl"@),
                u64::MAX as nat,
                600,
            )
        }),
{
    let c = r->Ok_0;
    let o = cli::option_texts(opts@);
    let env = c.env@;
    assert(c@ == configured(sections@, o, *s));
    assert(env == chosen_env(o, *s));
    assert(file_value(sections@, env, "small_file_limit"@) == in_file(
        sections@,
        env,
        "small_file_limit"@,
    ));
    assert(file_value(sections@, env, "chunk_size"@) == in_file(sections@, env, "chunk_size"@));
    let n = or_else(
        first_of(
            as_size(cli::option_value(o, "--chunk"@)),
            as_size(in_file(sections@, env, "chunk_size"@)),
        ),
        5 * 1024 * 1024,
    );
    assert(size_by_precedence(
        n,
        cli::option_value(o, "--chunk"@),
        file_value(sections@, env, "chunk_size"@),
        5 * 1024 * 1024,
    ));
    assert(c@.chunk_size == if n == 0 {
        5 * 1024 * 1024
    } else {
        n
    });
    assert(c@.small_file_limit == c.small_file_limit);
}

/// Texts: the command line comes before the environment variable, this before
/// the section of the environment, and this before the section `common`. The
/// environment is that of the command line, or else of the variable, or else
/// `outer`.
pub proof fn law_texts_by_precedence(
    sections: &Sections,
    opts: &[(String, String)],
    s: &Surroundings,
    r: Res<Config>,
)
    requires
        call_ensures(resolve_sections_relaxed, (sections, opts, s), r),
    ensures
        r is Ok,
        ({
            let c = r->Ok_0;
            let o = cli::option_texts(opts@);
            let env = c.env@;
            &&& env == (match cli::option_value(o, "--env"@) {
                Some(t) => t,
                None => match s.iobs_env {
                    Some(v) if text::trim(v@).len() > 0 => text::trim(v@),
                    _ => "outer"@,
                },
            })
            &&& c.bucket@ == text_by_precedence(
                cli::option_value(o, "--bucket"@),
                s.iobs_bucket,
                file_value(sections@, env, "bucket"@),
            )
            &&& c.access_key@ == text_by_precedence(
                cli::option_value(o, "--ak"@),
                s.iobs_ak,
                file_value(sections@, env, "access_key"@),
            )
            &&& c.secret_key@ == text_by_precedence(
                cli::option_value(o, "--sk"@),
                s.iobs_sk,
                file_value(sections@, env, "secret_key"@),
            )
            &&& c.base_url@ == text::trim_end_char(
                text_by_precedence(
                    cli::option_value(o, "--base-url"@),
                    s.iobs_base_url,
                    file_value(sections@, env, "base_url"@),
                ),
                '/',
            )
        }),
{
}

/// The first of these: what stands on the command line, the variable, where it
/// is more than white space, and what stands in the file; else nothing.
pub open spec fn text_by_precedence(
    on_line: Option<Seq<char>>,
    var: Option<String>,
    of_file: Option<Seq<char>>,
) -> Seq<char> {
    if on_line is Some {
        on_line->Some_0
    } else if var is Some && text::trim(var->Some_0@).len() > 0 {
        text::trim(var->Some_0@)
    } else if of_file is Some {
        of_file->Some_0
    } else {
        Seq::empty()
    }
}

/// The extension is that of the command line, or else that of the file, without
/// points at its start. Certificates are not checked where the command line or
/// the file says so; lines are shown unless the command line says otherwise.
pub proof fn law_other_settings(
    sections: &Sections,
    opts: &[(String, String)],
    s: &Surroundings,
    r: Res<Config>,
)
    requires
        call_ensures(resolve_sections_relaxed, (sections, opts, s), r),
    ensures
        r is Ok,
        ({
            let c = r->Ok_0;
            let o = cli::option_texts(opts@);
            let in_line = cli::option_value(o, "--ext"@);
            let of_file = file_value(sections@, c.env@, "file_ext"@);
            let insecure = file_value(sections@, c.env@, "insecure"@);
            &&& in_line is Some ==> c.file_ext is Some && c.file_ext->Some_0@
                == text::trim_start_char(in_line->Some_0, '.')
            &&& in_line is None && of_file is Some ==> c.file_ext is Some && c.file_ext->Some_0@
                == text::trim_start_char(of_file->Some_0, '.')
            &&& in_line is None && of_file is None ==> c.file_ext is None
            &&& c.insecure <==> cli::option_given(o, "--insecure"@) || (insecure is Some && (
            insecure->Some_0 == "1"@ || text::same_ignoring_case(insecure->Some_0, "true"@)))
            &&& c.verbose <==> cli::option_given(o, "--verbose"@)
            &&& c.progress <==> !cli::option_given(o, "--no-progress"@)
        }),
{
}

/// An option that can be read sets its size or number, whatever the file and
/// the options before it say.
pub proof fn law_option_sets(
    sections: ini::SectionsMap,
    opts: Seq<cli::OptionText>,
    value: Seq<char>,
    s: Surroundings,
)
    requires
        value.len() > 0,
    ensures
        size::size_value(value) is Some ==> configured(
            sections,
            opts.push(("--small-limit"@, value)),
            s,
        ).small_file_limit == size::size_value(value)->Some_0,
        size::size_value(value) is Some && size::size_value(value)->Some_0 > 0 ==> configured(
            sections,
            opts.push(("--chunk"@, value)),
            s,
        ).chunk_size == size::size_value(value)->Some_0,
        text::bounded_value(value, u64::MAX as nat) is Some ==> configured(
            sections,
            opts.push(("--timeout"@, value)),
            s,
        ).timeout_secs == text::bounded_value(value, u64::MAX as nat)->Some_0,
        text::bounded_value(value, u32::MAX as nat) is Some ==> configured(
            sections,
            opts.push(("--retry"@, value)),
            s,
        ).retry == text::bounded_value(value, u32::MAX as nat)->Some_0,
        text::bounded_value(value, u64::MAX as nat) is Some ==> configured(
            sections,
            opts.push(("--token-ttl"@, value)),
            s,
        ).token_ttl == text::bounded_value(value, u64::MAX as nat)->Some_0,
{
    cli::law_last_value_wins(opts, "--small-limit"@, value);
    cli::law_last_value_wins(opts, "--chunk"@, value);
    cli::law_last_value_wins(opts, "--timeout"@, value);
    cli::law_last_value_wins(opts, "--retry"@, value);
    cli::law_last_value_wins(opts, "--token-ttl"@, value);
}

/// Requests can be made just where there are both keys, an address and a bucket:
/// otherwise the configuration is refused, with the code of a wrong
/// configuration and a message that names what is missing; and it is the same
/// configuration either way.
pub proof fn law_incomplete_refused(
    sections: &Sections,
    opts: &[(String, String)],
    s: &Surroundings,
    r: Res<Config>,
    relaxed: Res<Config>,
)
    requires
        call_ensures(resolve_sections, (sections, opts, s), r),
        call_ensures(resolve_sections_relaxed, (sections, opts, s), relaxed),
    ensures
        relaxed is Ok,
        ({
            let c = relaxed->Ok_0@;
            &&& r is Ok <==> c.access_key.len() > 0 && c.secret_key.len() > 0 && c.base_url.len()
                > 0 && c.bucket.len() > 0
            &&& r is Ok ==> r->Ok_0@ == c
            &&& r is Err ==> r->Err_0.code == 2
            &&& r is Err && (c.access_key.len() == 0 || c.secret_key.len() == 0)
                ==> r->Err_0.msg@
                == "缺少 access_key / secret_key：请配置 iobs.ini，或用 --ak/--sk、IOBS_AK/IOBS_SK 提供"@
            &&& r is Err && c.access_key.len() > 0 && c.secret_key.len() > 0 && c.base_url.len()
                == 0 ==> r->Err_0.msg@
                == "缺少 base_url：请在 iobs.ini 的环境段里配置，或用 --base-url / IOBS_BASE_URL 提供"@
            &&& r is Err && c.access_key.len() > 0 && c.secret_key.len() > 0 && c.base_url.len()
                > 0 ==> r->Err_0.msg@
                == "缺少 bucket：请在 iobs.ini 的 [common] 里配置，或用 --bucket / IOBS_BUCKET 提供"@
        }),
{
}

/// The configuration of a file is that of its sections, and of no file that of
/// none.
pub proof fn law_file_resolved(
    opts: &[(String, String)],
    file: Option<&str>,
    s: &Surroundings,
    r: Res<Config>,
    sections: Sections,
    q: Res<Config>,
)
    requires
        call_ensures(resolve, (opts, file, s), r),
        call_ensures(load_sections, (file,), sections),
        call_ensures(resolve_sections, (&sections, opts, s), q),
    ensures
        r is Ok <==> q is Ok,
        r is Ok ==> r->Ok_0@ == q->Ok_0@,
        r is Err ==> r->Err_0.code == q->Err_0.code && r->Err_0.msg@ == q->Err_0.msg@,
        file is None ==> sections@ == Map::<Seq<char>, ini::SectionMap>::empty(),
        file is Some ==> sections@ == ini::ini_sections(file->Some_0@),
{
}

/// The configuration file is the one that is named, where it is there, and no
/// other; where none is named, the one in the current directory, or else the one
/// beside the executable, or else the one in the directory for application data.
pub proof fn law_config_searched(explicit: Option<&str>, s: &Surroundings, r: Option<String>)
    requires
        call_ensures(find_config, (explicit, s), r),
    ensures
        explicit is Some && s.explicit_exists ==> r is Some && r->Some_0@ == explicit->Some_0@,
        explicit is Some && !s.explicit_exists ==> r is None,
        explicit is None && s.local_exists ==> r is Some && r->Some_0@ == "iobs.ini"@,
        explicit is None && !s.local_exists && s.beside_exe is Some && s.beside_exe->Some_0.exists
            ==> r is Some && r->Some_0@ == s.beside_exe->Some_0.path@,
        explicit is None && !s.local_exists && !(s.beside_exe is Some
            && s.beside_exe->Some_0.exists) && s.app_data is Some && s.app_data->Some_0.exists
            ==> r is Some && r->Some_0@ == s.app_data->Some_0.path@,
        explicit is None && !s.local_exists && !(s.beside_exe is Some
            && s.beside_exe->Some_0.exists) && !(s.app_data is Some
            && s.app_data->Some_0.exists) ==> r is None,
{
}

/// A configuration is saved to the file that is named, or else to the one that
/// was found, or else to `iobs.ini` beside the executable, or, where that is not
/// known, in the current directory.
pub proof fn law_config_saved_to(
    opts: &[(String, String)],
    s: &Surroundings,
    p: String,
    named: Option<String>,
    found: Option<String>,
)
    requires
        call_ensures(save_target, (opts, s), p),
        call_ensures(config_option, (opts,), named),
        call_ensures(find_config, (None::<&str>, s), found),
    ensures
        named is Some ==> p@ == named->Some_0@,
        named is None && found is Some ==> p@ == found->Some_0@,
        named is None && found is None && s.beside_exe is Some ==> p@
            == s.beside_exe->Some_0.path@,
        named is None && found is None && s.beside_exe is None ==> p@ == "iobs.ini"@,
{
}

/// A configuration file is named by `--config`, or else by `-c`.
pub proof fn law_config_named(opts: &[(String, String)], named: Option<String>)
    requires
        call_ensures(config_option, (opts,), named),
    ensures
        ({
            let o = cli::option_texts(opts@);
            let long = cli::option_value(o, "--config"@);
            let short = cli::option_value(o, "-c"@);
            &&& long is Some ==> named is Some && named->Some_0@ == long->Some_0
            &&& long is None && short is Some ==> named is Some && named->Some_0@
                == short->Some_0
            &&& long is None && short is None ==> named is None
        }),
{
}

/// What is shown as the file of a configuration is the one that was found.
pub proof fn law_config_file_shown(
    sections: &Sections,
    opts: &[(String, String)],
    s: &Surroundings,
    r: Res<Config>,
    named: Option<String>,
    found: Option<String>,
)
    requires
        call_ensures(resolve_sections_relaxed, (sections, opts, s), r),
        call_ensures(config_option, (opts,), named),
        named is None ==> call_ensures(find_config, (None::<&str>, s), found),
    ensures
        r is Ok,
        r->Ok_0.config_explicit == named is Some,
        named is None ==> text::text_of(r->Ok_0.config_path) == text::text_of(found),
        named is Some && s.explicit_exists ==> text::text_of(r->Ok_0.config_path) == Some(
            named->Some_0@,
        ),
        named is Some && !s.explicit_exists ==> r->Ok_0.config_path is None,
{
}

/// Where nothing is configured, the environment is `outer`, a file of less than
/// 10 MB is uploaded in one request and another in parts of 5 MB, a request has
/// 60 seconds and three more tries, a token is valid for 600 seconds, and
/// progress is shown; there are no keys, no address and no bucket.
pub proof fn law_defaults()
    ensures
        ({
            let d = default_settings();
            &&& d.env == "outer"@
            &&& d.small_file_limit == 10 * 1024 * 1024 && d.chunk_size == 5 * 1024 * 1024
            &&& d.timeout_secs == 60 && d.retry == 3 && d.token_ttl == 600
            &&& !d.insecure && !d.verbose && d.progress
            &&& d.base_url.len() == 0 && d.bucket.len() == 0 && d.access_key.len() == 0
                && d.secret_key.len() == 0
            &&& d.access_key_from == KeySource::Nowhere && d.secret_key_from == KeySource::Nowhere
            &&& d.file_ext is None && d.config_path is None && !d.config_explicit
        }),
{
}

} // verus!
