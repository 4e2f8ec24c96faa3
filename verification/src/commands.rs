//! What the command line asks for.

use vstd::prelude::*;
use vstd::string::*;
use crate::civil;
use crate::civil::date_at;
use crate::cli;
use crate::cli::{has, opt};
use crate::clock;
use crate::clock::now_secs;
use crate::config::SAMPLE_CONFIG;
use crate::error;
use crate::error::{AppError, Res};
use crate::history;
use crate::history::HistoryItem;
use crate::multipart;
use crate::multipart::size_of_parts;
use crate::size;
use crate::size::human_bytes;
use crate::text;
use crate::text::{
    chars_of, ends_with_char, numeral, replaced, same_text, trimmed_start, without_leading,
};

verus! {

/// How the program is used.
pub const USAGE: &'static str = "
sync-iobs — iobs 文件双向同步工具

用法:
  sync-iobs upload   <本地文件> [--key <key>] [--name <文件名>] [--ext <后缀>]
                     [--force-small | --force-multipart] [--chunk 5MB]
  sync-iobs download <key> [--out <本地路径>] [--resume]
  sync-iobs url      <key>
  sync-iobs history          列出最近上传的 10 条记录
  sync-iobs init-config [路径]

环境/连接:
  --env <名称>        选择配置文件中的环境段（默认 outer）
  --base-url <url>    直接指定服务地址，优先级最高
  --bucket <bucket>   桶名
  --ak <access_key>   密钥（也可 IOBS_AK 环境变量）
  --sk <secret_key>   密钥（也可 IOBS_SK 环境变量）
  -c, --config <文件> 指定配置文件（默认依次查找 ./iobs.ini、exe 同目录、%APPDATA%）
  --insecure          跳过证书校验（内网自签证书场景）
  --timeout <秒>      单次请求超时（默认 60）
  --retry <次数>      失败重试次数（默认 3）
  --chunk <大小>      分片大小（默认 5MB）
  --small-limit <大小> 小文件阈值，超过则分片（默认 10MB）

其它:
  --no-progress       关闭进度条
  -v, --verbose       打印请求与响应，便于对照调试

key 默认取本地文件名；--key 支持占位符 {file} {name} {ext} {ts} {date}
--ext 只改变服务端保存的文件名后缀，不影响 key
";

/// What the command line asks for.
pub enum Command {
    /// The window.
    Gui,
    /// How the program is used.
    Help,
    /// A configuration file to start from, at this path.
    InitConfig(String),
    /// To upload this file.
    Upload(Option<String>),
    /// To download the file with this key.
    Download(Option<String>),
    /// The URL of the file with this key.
    Url(Option<String>),
    /// The latest uploads.
    History,
    /// Something else.
    Unknown(String),
}

/// What a command stands for: the kind of command, and its first argument.
pub enum CommandText {
    Gui,
    Help,
    InitConfig(Seq<char>),
    Upload(Option<Seq<char>>),
    Download(Option<Seq<char>>),
    Url(Option<Seq<char>>),
    History,
    Unknown(Seq<char>),
}

impl View for Command {
    type V = CommandText;

    open spec fn view(&self) -> CommandText {
        match self {
            Command::Gui => CommandText::Gui,
            Command::Help => CommandText::Help,
            Command::InitConfig(p) => CommandText::InitConfig(p@),
            Command::Upload(f) => CommandText::Upload(text::text_of(*f)),
            Command::Download(k) => CommandText::Download(text::text_of(*k)),
            Command::Url(k) => CommandText::Url(text::text_of(*k)),
            Command::History => CommandText::History,
            Command::Unknown(c) => CommandText::Unknown(c@),
        }
    }
}

/// What the positional arguments and the options ask for.
pub open spec fn requested(pos: Seq<Seq<char>>, opts: Seq<cli::OptionText>) -> CommandText {
    let arg = if pos.len() > 1 {
        Some(pos[1])
    } else {
        None
    };
    if pos.len() == 0 {
        CommandText::Gui
    } else if cli::option_given(opts, "--help"@) {
        CommandText::Help
    } else if pos[0] == "gui"@ {
        CommandText::Gui
    } else if pos[0] == "init-config"@ {
        CommandText::InitConfig(
            match arg {
                Some(p) => p,
                None => "iobs.ini"@,
            },
        )
    } else if pos[0] == "upload"@ {
        CommandText::Upload(arg)
    } else if pos[0] == "download"@ {
        CommandText::Download(arg)
    } else if pos[0] == "url"@ {
        CommandText::Url(arg)
    } else if pos[0] == "history"@ {
        CommandText::History
    } else {
        CommandText::Unknown(pos[0])
    }
}

/// What the positional arguments and the options ask for.
pub fn command(pos: &Vec<String>, opts: &[(String, String)]) -> (c: Command)
    ensures
        c@ == requested(text::texts(pos@), cli::option_texts(opts@)),
{
    let ghost p = text::texts(pos@);
    if pos.len() == 0 {
        return Command::Gui;
    }
    if has(opts, "--help") {
        return Command::Help;
    }
    assert(p[0] == pos@[0]@);
    let arg: Option<String> = if pos.len() > 1 {
        assert(p[1] == pos@[1]@);
        Some(pos[1].clone())
    } else {
        None
    };
    let cmd = pos[0].as_str();
    if same_text(cmd, "gui") {
        Command::Gui
    } else if same_text(cmd, "init-config") {
        match arg {
            Some(path) => Command::InitConfig(path),
            None => Command::InitConfig("iobs.ini".to_string()),
        }
    } else if same_text(cmd, "upload") {
        Command::Upload(arg)
    } else if same_text(cmd, "download") {
        Command::Download(arg)
    } else if same_text(cmd, "url") {
        Command::Url(arg)
    } else if same_text(cmd, "history") {
        Command::History
    } else {
        Command::Unknown(cmd.to_string())
    }
}

/// The failure of a command that is not known.
pub fn unknown_command<T>(cmd: &str) -> (r: Res<T>)
    ensures
        error::failed(r, 2, "未知命令："@ + cmd@ + "（用 --help 查看用法）"@),
{
    let mut msg = "未知命令：".to_string();
    msg.append(cmd);
    msg.append("（用 --help 查看用法）");
    Err(AppError::new(2, msg))
}

/// The argument of a command that needs one, where `usage` says how the
/// command is used.
fn needed(arg: Option<String>, usage: &str) -> (r: Res<String>)
    ensures
        match arg {
            Some(a) => r is Ok && r->Ok_0@ == a@,
            None => error::failed(r, 2, usage@),
        },
{
    match arg {
        Some(a) => Ok(a),
        None => Err(AppError::new(2, usage.to_string())),
    }
}

/// The file to upload.
pub fn file_argument(arg: Option<String>) -> (r: Res<String>)
    ensures
        match arg {
            Some(a) => r is Ok && r->Ok_0@ == a@,
            None => error::failed(r, 2, "用法: sync-iobs upload <本地文件>"@),
        },
{
    needed(arg, "用法: sync-iobs upload <本地文件>")
}

/// The key of the file to download.
pub fn download_argument(arg: Option<String>) -> (r: Res<String>)
    ensures
        match arg {
            Some(a) => r is Ok && r->Ok_0@ == a@,
            None => error::failed(r, 2, "用法: sync-iobs download <key>"@),
        },
{
    needed(arg, "用法: sync-iobs download <key>")
}

/// The key of the file whose URL is asked for.
pub fn url_argument(arg: Option<String>) -> (r: Res<String>)
    ensures
        match arg {
            Some(a) => r is Ok && r->Ok_0@ == a@,
            None => error::failed(r, 2, "用法: sync-iobs url <key>"@),
        },
{
    needed(arg, "用法: sync-iobs url <key>")
}

/// What is written to a new configuration file at `path`. A file that is there
/// is not overwritten.
pub fn new_config(path: &str, exists: bool) -> (r: Res<String>)
    ensures
        exists ==> error::failed(r, 5, path@ + " 已存在，未覆盖"@),
        !exists ==> r is Ok && r->Ok_0@ == text::trim_start(SAMPLE_CONFIG@),
{
    if exists {
        return Err(AppError::new(5, path.to_string().concat(" 已存在，未覆盖")));
    }
    Ok(trimmed_start(SAMPLE_CONFIG))
}

/// Fails for a file that is not there.
pub fn check_file(path: &str, exists: bool) -> (r: Res<()>)
    ensures
        exists ==> r is Ok,
        !exists ==> error::failed(r, 5, "文件不存在："@ + path@),
{
    if exists {
        Ok(())
    } else {
        Err(AppError::new(5, "文件不存在：".to_string().concat(path)))
    }
}

// ---------------------------------------------------------------------------
// Names and keys of uploads.
// ---------------------------------------------------------------------------

/// The last component of a path, where it has one: as a whole, without its
/// extension, and the extension alone.
pub struct FileParts {
    pub file_name: Option<String>,
    pub stem: Option<String>,
    pub ext: Option<String>,
}

impl FileParts {
    /// The name of the file.
    pub open spec fn name_text(self) -> Seq<char> {
        match self.file_name {
            Some(n) => n@,
            None => "file"@,
        }
    }

    /// The name without its extension.
    pub open spec fn stem_text(self) -> Seq<char> {
        match self.stem {
            Some(n) => n@,
            None => self.name_text(),
        }
    }

    /// The extension.
    pub open spec fn ext_text(self) -> Seq<char> {
        match self.ext {
            Some(n) => n@,
            None => Seq::empty(),
        }
    }

    /// The name of the file.
    pub fn name(&self) -> (s: String)
        ensures
            s@ == self.name_text(),
    {
        match &self.file_name {
            Some(n) => n.clone(),
            None => "file".to_string(),
        }
    }

    /// The name without its extension.
    pub fn stem(&self) -> (s: String)
        ensures
            s@ == self.stem_text(),
    {
        match &self.stem {
            Some(n) => n.clone(),
            None => self.name(),
        }
    }

    /// The extension.
    pub fn extension(&self) -> (s: String)
        ensures
            s@ == self.ext_text(),
    {
        match &self.ext {
            Some(n) => n.clone(),
            None => {
                let s = String::new();
                assert(s@ =~= Seq::<char>::empty());
                s
            },
        }
    }
}

/// A key with its placeholders filled in, one after the other: `{file}` by the
/// name of the file, `{name}` by the name without its extension, `{ext}` by
/// the extension, `{ts}` by the seconds since the epoch, and `{date}` by the
/// date.
pub open spec fn filled_in(template: Seq<char>, parts: FileParts, now: nat) -> Seq<char> {
    let t1 = text::replace(template, "{file}"@, parts.name_text());
    let t2 = text::replace(t1, "{name}"@, parts.stem_text());
    let t3 = text::replace(t2, "{ext}"@, parts.ext_text());
    let t4 = text::replace(t3, "{ts}"@, text::decimal(now));
    text::replace(t4, "{date}"@, civil::date_text(now, Seq::empty()))
}

/// The key of an upload: that of the option `--key`, or the name of the file.
pub open spec fn upload_key(opts: Seq<cli::OptionText>, parts: FileParts, now: nat) -> Seq<char> {
    match cli::option_value(opts, "--key"@) {
        Some(k) => filled_in(k, parts, now),
        None => parts.name_text(),
    }
}

/// The key of an upload that is made at `now`.
pub fn resolve_key_at(opts: &[(String, String)], parts: &FileParts, now: u64) -> (s: String)
    ensures
        s@ == upload_key(cli::option_texts(opts@), *parts, now as nat),
{
    match opt(opts, "--key") {
        Some(k) => {
            let t1 = replaced(k.as_str(), "{file}", parts.name().as_str());
            let t2 = replaced(t1.as_str(), "{name}", parts.stem().as_str());
            let t3 = replaced(t2.as_str(), "{ext}", parts.extension().as_str());
            let t4 = replaced(t3.as_str(), "{ts}", numeral(now as u128).as_str());
            replaced(t4.as_str(), "{date}", date_at(now).as_str())
        },
        None => parts.name(),
    }
}

/// The key of an upload that is made at the time that the clock reads.
pub fn resolve_key(opts: &[(String, String)], parts: &FileParts) -> (s: String)
    ensures
        exists|r: Result<std::time::Duration, std::time::SystemTimeError>, now: u64|
            #[trigger] clock::secs_read(r, now) && s@ == upload_key(
                cli::option_texts(opts@),
                *parts,
                now as nat,
            ),
{
    let now: u64 = now_secs();
    resolve_key_at(opts, parts, now)
}

/// The name of the file with another extension; without one, where this is
/// empty.
pub open spec fn renamed(parts: FileParts, ext: Seq<char>) -> Seq<char> {
    let e = text::trim_start_char(ext, '.');
    if e.len() == 0 {
        parts.stem_text()
    } else {
        parts.stem_text() + "."@ + e
    }
}

/// The name under which a file is uploaded: that of the option `--name`, or
/// the name of the file, with the extension of the option `--ext` or the
/// configured one.
pub open spec fn upload_name(
    opts: Seq<cli::OptionText>,
    parts: FileParts,
    default_ext: Option<Seq<char>>,
) -> Seq<char> {
    let ext = match cli::option_value(opts, "--ext"@) {
        Some(e) => Some(e),
        None => default_ext,
    };
    match cli::option_value(opts, "--name"@) {
        Some(n) => n,
        None => match ext {
            Some(e) => renamed(parts, e),
            None => parts.name_text(),
        },
    }
}

pub(crate) fn with_extension(parts: &FileParts, ext: &str) -> (s: String)
    ensures
        s@ == renamed(*parts, ext@),
{
    let e = without_leading(ext, '.');
    let mut s = parts.stem();
    if !e.as_str().is_empty() {
        s.append(".");
        s.append(e.as_str());
    }
    s
}

/// The name under which a file is uploaded.
pub fn resolve_name(
    opts: &[(String, String)],
    parts: &FileParts,
    default_ext: Option<&str>,
) -> (s: String)
    ensures
        s@ == upload_name(
            cli::option_texts(opts@),
            *parts,
            match default_ext {
                Some(e) => Some(e@),
                None => None,
            },
        ),
{
    match opt(opts, "--name") {
        Some(n) => n,
        None => match opt(opts, "--ext") {
            Some(e) => with_extension(parts, e.as_str()),
            None => match default_ext {
                Some(e) => with_extension(parts, e),
                None => parts.name(),
            },
        },
    }
}

/// The options `--ext` and `--name` change the name under which a file is
/// uploaded, and never its key.
pub proof fn law_ext_keeps_key(
    opts: Seq<cli::OptionText>,
    value: Seq<char>,
    parts: FileParts,
    now: nat,
)
    ensures
        upload_key(opts.push(("--ext"@, value)), parts, now) == upload_key(opts, parts, now),
        upload_key(opts.push(("--name"@, value)), parts, now) == upload_key(opts, parts, now),
{
    reveal_strlit("--ext");
    reveal_strlit("--name");
    reveal_strlit("--key");
    assert("--ext"@[2] != "--key"@[2]);
    assert("--name"@[2] != "--key"@[2]);
    cli::law_options_independent(opts, "--key"@, "--ext"@, value);
    cli::law_options_independent(opts, "--key"@, "--name"@, value);
}

/// Whether a file is uploaded in one request: where this is forced, or where
/// it is smaller than the limit and the other way is not forced.
pub open spec fn in_one_request(opts: Seq<cli::OptionText>, size: nat, limit: nat) -> bool {
    cli::option_given(opts, "--force-small"@) || (!cli::option_given(opts, "--force-multipart"@)
        && size < limit)
}

/// Whether a file is uploaded in one request.
pub fn use_small(opts: &[(String, String)], size: u64, limit: u64) -> (b: bool)
    ensures
        b == in_one_request(cli::option_texts(opts@), size as nat, limit as nat),
{
    if has(opts, "--force-small") {
        true
    } else if has(opts, "--force-multipart") {
        false
    } else {
        size < limit
    }
}

/// How a file is uploaded, in words.
pub open spec fn way_text(small: bool, chunk: nat) -> Seq<char> {
    if small {
        "小文件直传"@
    } else {
        "分片上传（每片 "@ + size::size_text(multipart::part_size(chunk)) + "）"@
    }
}

/// What is shown before an upload.
pub fn upload_summary(
    path: &str,
    size: u64,
    key: &str,
    name: &str,
    small: bool,
    chunk: u64,
) -> (s: String)
    ensures
        s@ == "文件："@ + path@ + "（"@ + size::size_text(size as nat) + "）\nkey ："@ + key@
            + "\n名称："@ + name@ + "\n方式："@ + way_text(small, chunk as nat) + "\n"@,
{
    let way: String = if small {
        "小文件直传".to_string()
    } else {
        let mut w = "分片上传（每片 ".to_string();
        w.append(human_bytes(size_of_parts(chunk)).as_str());
        w.append("）");
        w
    };
    let mut s = "文件：".to_string();
    s.append(path);
    s.append("（");
    s.append(human_bytes(size).as_str());
    s.append("）\nkey ：");
    s.append(key);
    s.append("\n名称：");
    s.append(name);
    s.append("\n方式：");
    s.append(way.as_str());
    s.append("\n");
    s
}

// ---------------------------------------------------------------------------
// Where downloads go.
// ---------------------------------------------------------------------------

/// `key` as the name of a file: slashes and backslashes become underscores.
pub open spec fn safe_text(key: Seq<char>) -> Seq<char> {
    key.map_values(
        |c: char|
            if c == '/' || c == '\\' {
                '_'
            } else {
                c
            },
    )
}

/// `key` as the name of a file.
pub fn safe_name(key: &str) -> (s: String)
    ensures
        s@ == safe_text(key@),
{
    let v = chars_of(key);
    let n: usize = v.len();
    let mut s = String::new();
    let mut i: usize = 0;
    while i < n
        invariant
            i <= n,
            n == v@.len(),
            v@ == key@,
            s@ == safe_text(key@).take(i as int),
        decreases n - i,
    {
        if v[i] == '/' || v[i] == '\\' {
            s.push('_');
        } else {
            s.push(v[i]);
        }
        i = i + 1;
        assert(s@ =~= safe_text(key@).take(i as int));
    }
    assert(safe_text(key@).take(n as int) =~= safe_text(key@));
    s
}

/// The name of a file that is made of a key stays in its directory: it holds
/// no separator.
pub proof fn law_safe_name(key: Seq<char>)
    ensures
        safe_text(key).len() == key.len(),
        forall|i: int|
            0 <= i < safe_text(key).len() ==> (#[trigger] safe_text(key)[i]) != '/' && safe_text(
                key,
            )[i] != '\\',
{
}

/// Where a file is downloaded to.
pub enum OutPath {
    /// This path.
    At(String),
    /// In this directory, under this name.
    Inside(String, String),
}

/// Whether a path ends in a separator.
pub open spec fn ends_in_separator(p: Seq<char>) -> bool {
    p.len() > 0 && (p.last() == '/' || p.last() == '\\')
}

/// Whether `r` is where a file with the name `name` is downloaded to, where
/// `out` is asked for: into the directory `out`, or else to the path `out`.
pub open spec fn is_out_path(
    r: OutPath,
    out: Option<Seq<char>>,
    is_dir: bool,
    name: Seq<char>,
) -> bool {
    match out {
        Some(o) => if ends_in_separator(o) || is_dir {
            r matches OutPath::Inside(d, n) && d@ == o && n@ == name
        } else {
            r matches OutPath::At(p) && p@ == o
        },
        None => r matches OutPath::At(p) && p@ == name,
    }
}

/// Where a file with the key `key` is downloaded to, where `out` is asked for
/// and `is_dir` says whether that is a directory.
pub fn download_path(out: Option<String>, is_dir: bool, key: &str) -> (r: OutPath)
    ensures
        is_out_path(r, text::text_of(out), is_dir, safe_text(key@)),
{
    match out {
        Some(o) => if ends_with_char(o.as_str(), '/') || ends_with_char(o.as_str(), '\\')
            || is_dir {
            OutPath::Inside(o, safe_name(key))
        } else {
            OutPath::At(o)
        },
        None => OutPath::At(safe_name(key)),
    }
}

// ---------------------------------------------------------------------------
// Showing the latest uploads.
// ---------------------------------------------------------------------------

/// The lines of the records, one for each.
pub open spec fn record_lines(items: Seq<history::Record>) -> Seq<char>
    decreases items.len(),
{
    if items.len() == 0 {
        Seq::empty()
    } else {
        let it = items.last();
        record_lines(items.drop_last()) + text::decimal(it.time as nat) + "\t"@ + it.name + "\t"@
            + it.key + "\n"@
    }
}

/// What is shown of the latest uploads.
pub open spec fn history_text(items: Seq<history::Record>) -> Seq<char> {
    if items.len() == 0 {
        "（暂无上传历史）\n"@
    } else {
        "时间(Unix)\t原始文件名\tkey\n"@ + record_lines(items)
    }
}

/// What is shown of the latest uploads.
pub fn show_history(items: &Vec<HistoryItem>) -> (s: String)
    ensures
        s@ == history_text(history::records(items@)),
{
    if items.len() == 0 {
        return "（暂无上传历史）\n".to_string();
    }
    let ghost all = history::records(items@);
    let mut s = "时间(Unix)\t原始文件名\tkey\n".to_string();
    let ghost head = s@;
    let n: usize = items.len();
    let mut i: usize = 0;
    assert(s@ =~= head + record_lines(all.take(0)));
    while i < n
        invariant
            i <= n,
            n == items@.len(),
            all == history::records(items@),
            s@ == head + record_lines(all.take(i as int)),
        decreases n - i,
    {
        let ghost next = all.take(i + 1);
        assert(next.drop_last() =~= all.take(i as int));
        assert(next.last() == items@[i as int]@);
        s.append(numeral(items[i].time as u128).as_str());
        s.append("\t");
        s.append(items[i].name.as_str());
        s.append("\t");
        s.append(items[i].key.as_str());
        s.append("\n");
        i = i + 1;
        assert(s@ =~= head + record_lines(next));
    }
    assert(all.take(n as int) =~= all);
    s
}

// ---------------------------------------------------------------------------
// What the commands do, call by call.
// ---------------------------------------------------------------------------

/// Without arguments the window opens. `--help` comes before every command;
/// otherwise the first argument names the command, and the second is the file,
/// the key or the path that it is about.
pub proof fn law_commands(pos: &Vec<String>, opts: &[(String, String)], c: Command)
    requires
        call_ensures(command, (pos, opts), c),
    ensures
        pos@.len() == 0 ==> c is Gui,
        pos@.len() > 0 ==> ({
            let help = cli::option_given(cli::option_texts(opts@), "--help"@);
            let cmd = pos@[0]@;
            let arg = if pos@.len() > 1 {
                Some(pos@[1]@)
            } else {
                None
            };
            &&& help ==> c is Help
            &&& !help && cmd == "gui"@ ==> c is Gui
            &&& !help && cmd == "init-config"@ ==> c is InitConfig && c->InitConfig_0@ == (
            match arg {
                Some(p) => p,
                None => "iobs.ini"@,
            })
            &&& !help && cmd == "upload"@ ==> c is Upload && text::text_of(c->Upload_0) == arg
            &&& !help && cmd == "download"@ ==> c is Download && text::text_of(c->Download_0)
                == arg
            &&& !help && cmd == "url"@ ==> c is Url && text::text_of(c->Url_0) == arg
            &&& !help && cmd == "history"@ ==> c is History
            &&& !help && cmd != "gui"@ && cmd != "init-config"@ && cmd != "upload"@ && cmd
                != "download"@ && cmd != "url"@ && cmd != "history"@ ==> c is Unknown
                && c->Unknown_0@ == cmd
        }),
{
    reveal_strlit("gui");
    reveal_strlit("init-config");
    reveal_strlit("upload");
    reveal_strlit("download");
    reveal_strlit("url");
    reveal_strlit("history");
    assert("gui"@[0] != "init-config"@[0] && "gui"@[0] != "upload"@[0] && "gui"@[0]
        != "download"@[0] && "gui"@[0] != "url"@[0] && "gui"@[0] != "history"@[0]);
    assert("init-config"@[0] != "upload"@[0] && "init-config"@[0] != "download"@[0]
        && "init-config"@[0] != "url"@[0] && "init-config"@[0] != "history"@[0]);
    assert("upload"@[1] != "download"@[1] && "upload"@[1] != "url"@[1] && "upload"@[1]
        != "history"@[1]);
    assert("download"@[0] != "url"@[0] && "download"@[0] != "history"@[0]);
    assert("url"@[0] != "history"@[0]);
    let p = text::texts(pos@);
    if pos@.len() > 0 {
        assert(p[0] == pos@[0]@);
    }
    if pos@.len() > 1 {
        assert(p[1] == pos@[1]@);
    }
}

/// A file that is there is not overwritten by a new configuration file; this is
/// the sample, without the white space at its start.
pub proof fn law_new_config(path: &str, exists: bool, r: Res<String>)
    requires
        call_ensures(new_config, (path, exists), r),
    ensures
        r is Ok <==> !exists,
        r is Err ==> r->Err_0.code == 5 && r->Err_0.msg@ == path@ + " 已存在，未覆盖"@,
        r is Ok ==> exists|w: Seq<char>|
            #[trigger] text::all_white(w) && SAMPLE_CONFIG@ == w + r->Ok_0@ && (r->Ok_0@.len() > 0
                ==> !text::is_white_space(r->Ok_0@[0])),
{
    if r is Ok {
        let w = lemma_trimmed_away(SAMPLE_CONFIG@);
        assert(text::all_white(w) && SAMPLE_CONFIG@ == w + r->Ok_0@);
    }
}

proof fn lemma_trimmed_away(s: Seq<char>) -> (w: Seq<char>)
    ensures
        text::all_white(w),
        s == w + text::trim_start(s),
        text::trim_start(s).len() > 0 ==> !text::is_white_space(text::trim_start(s)[0]),
    decreases s.len(),
{
    if s.len() > 0 && text::is_white_space(s[0]) {
        let v = lemma_trimmed_away(s.skip(1));
        let w = seq![s[0]] + v;
        assert forall|i: int| 0 <= i < w.len() implies text::is_white_space(#[trigger] w[i]) by {
            if i > 0 {
                assert(w[i] == v[i - 1]);
            }
        }
        assert(text::trim_start(s) == text::trim_start(s.skip(1)));
        assert(s =~= seq![s[0]] + s.skip(1));
        assert(s =~= w + text::trim_start(s));
        w
    } else {
        assert(s =~= Seq::<char>::empty() + s);
        Seq::empty()
    }
}

/// The key of an upload is the name of the file, unless the command line gives
/// another; in that, each placeholder is replaced wherever it stands.
pub proof fn law_key_of_upload(opts: &[(String, String)], parts: &FileParts, now: u64, s: String)
    requires
        call_ensures(resolve_key_at, (opts, parts, now), s),
    ensures
        ({
            let given = cli::option_value(cli::option_texts(opts@), "--key"@);
            let name = match parts.file_name {
                Some(n) => n@,
                None => "file"@,
            };
            let stem = match parts.stem {
                Some(n) => n@,
                None => name,
            };
            let ext = match parts.ext {
                Some(n) => n@,
                None => Seq::empty(),
            };
            &&& given is None ==> s@ == name
            &&& given is Some ==> s@ == text::replace(
                text::replace(
                    text::replace(
                        text::replace(
                            text::replace(given->Some_0, "{file}"@, name),
                            "{name}"@,
                            stem,
                        ),
                        "{ext}"@,
                        ext,
                    ),
                    "{ts}"@,
                    text::decimal(now as nat),
                ),
                "{date}"@,
                civil::date_text(now as nat, Seq::empty()),
            )
        }),
{
}

/// Whether `s` holds no opening brace.
pub open spec fn no_brace(s: Seq<char>) -> bool {
    forall|i: int| 0 <= i < s.len() ==> #[trigger] s[i] != '{'
}

proof fn lemma_other_placeholder(
    a: Seq<char>,
    ph: Seq<char>,
    b: Seq<char>,
    other: Seq<char>,
    rep: Seq<char>,
)
    requires
        no_brace(a),
        no_brace(b),
        ph.len() > 1,
        ph[0] == '{',
        no_brace(ph.skip(1)),
        other.len() > 1,
        other[0] == '{',
        other[1] != ph[1],
    ensures
        text::replace(a + ph + b, other, rep) == a + ph + b,
{
    let s = a + ph + b;
    assert forall|j: int| 0 <= j && j + other.len() <= s.len() implies #[trigger] s.subrange(
        j,
        j + other.len(),
    ) != other by {
        let part = s.subrange(j, j + other.len());
        assert(part[0] == s[j] && part[1] == s[j + 1]);
        if j < a.len() {
            assert(s[j] == a[j]);
        } else if j == a.len() {
            assert(s[j + 1] == ph[1]);
        } else if j < a.len() + ph.len() {
            assert(s[j] == ph.skip(1)[j - a.len() - 1]);
        } else {
            assert(s[j] == b[j - a.len() - ph.len()]);
        }
    }
    text::law_replace_nothing(s, other, rep);
}

proof fn lemma_no_placeholder(s: Seq<char>, other: Seq<char>, rep: Seq<char>)
    requires
        no_brace(s),
        other.len() > 0,
        other[0] == '{',
    ensures
        text::replace(s, other, rep) == s,
{
    assert forall|j: int| 0 <= j && j + other.len() <= s.len() implies #[trigger] s.subrange(
        j,
        j + other.len(),
    ) != other by {
        assert(s.subrange(j, j + other.len())[0] == s[j]);
    }
    text::law_replace_nothing(s, other, rep);
}

proof fn lemma_placeholder(a: Seq<char>, ph: Seq<char>, b: Seq<char>, fill: Seq<char>)
    requires
        no_brace(a),
        no_brace(b),
        ph.len() > 1,
        ph[0] == '{',
    ensures
        text::replace(a + ph + b, ph, fill) == a + fill + b,
{
    let s = a + ph + b;
    assert forall|j: int| 0 <= j < a.len() implies #[trigger] s.subrange(j, j + ph.len()) != ph by {
        assert(s.subrange(j, j + ph.len())[0] == a[j]);
    }
    text::law_replace_first(a, ph, b, fill);
    lemma_no_placeholder(b, ph, fill);
}

/// A placeholder stands for what it names: `{file}` for the name of the file,
/// `{name}` for the name without its extension, `{ext}` for the extension,
/// `{ts}` for the seconds since the epoch, and `{date}` for the date. What
/// stands around it is kept, and so is a key without a placeholder.
pub proof fn law_placeholders(
    opts: &[(String, String)],
    parts: &FileParts,
    now: u64,
    s: String,
    a: Seq<char>,
    ph: Seq<char>,
    b: Seq<char>,
    fill: Seq<char>,
)
    requires
        call_ensures(resolve_key_at, (opts, parts, now), s),
        cli::option_value(cli::option_texts(opts@), "--key"@) == Some(a + ph + b),
        no_brace(a),
        no_brace(b),
        no_brace(fill),
        ({
            ||| ph == "{file}"@ && parts.file_name is Some && fill == parts.file_name->Some_0@
            ||| ph == "{name}"@ && parts.stem is Some && fill == parts.stem->Some_0@
            ||| ph == "{ext}"@ && parts.ext is Some && fill == parts.ext->Some_0@
            ||| ph == "{ext}"@ && parts.ext is None && fill.len() == 0
            ||| ph == "{ts}"@ && fill == text::decimal(now as nat)
            ||| ph == "{date}"@ && fill == civil::date_text(now as nat, Seq::empty())
            ||| ph.len() == 0 && fill.len() == 0
        }),
    ensures
        s@ == a + fill + b,
{
    reveal_strlit("{file}");
    reveal_strlit("{name}");
    reveal_strlit("{ext}");
    reveal_strlit("{ts}");
    reveal_strlit("{date}");
    let p = *parts;
    let n = now as nat;
    let d = civil::date_text(n, Seq::empty());
    let t = a + ph + b;
    let done = a + fill + b;
    assert(no_brace(done)) by {
        assert forall|i: int| 0 <= i < done.len() implies #[trigger] done[i] != '{' by {
            if i < a.len() {
                assert(done[i] == a[i]);
            } else if i < a.len() + fill.len() {
                assert(done[i] == fill[i - a.len()]);
            } else {
                assert(done[i] == b[i - a.len() - fill.len()]);
            }
        }
    }
    lemma_no_placeholder(done, "{file}"@, p.name_text());
    lemma_no_placeholder(done, "{name}"@, p.stem_text());
    lemma_no_placeholder(done, "{ext}"@, p.ext_text());
    lemma_no_placeholder(done, "{ts}"@, text::decimal(n));
    lemma_no_placeholder(done, "{date}"@, d);
    if ph.len() == 0 {
        assert(t =~= done);
    } else {
        lemma_placeholder(a, ph, b, fill);
        assert(no_brace(ph.skip(1)));
        if ph[1] != 'f' {
            lemma_other_placeholder(a, ph, b, "{file}"@, p.name_text());
        }
        if ph[1] != 'n' {
            lemma_other_placeholder(a, ph, b, "{name}"@, p.stem_text());
        }
        if ph[1] != 'e' {
            lemma_other_placeholder(a, ph, b, "{ext}"@, p.ext_text());
        }
        if ph[1] != 't' {
            lemma_other_placeholder(a, ph, b, "{ts}"@, text::decimal(n));
        }
        if ph == "{ext}"@ {
            assert(fill =~= p.ext_text());
        }
    }
}

/// The name under which a file is uploaded is that of the option `--name`, as it
/// is; or else the name of the file, with its extension replaced by that of the
/// option `--ext`, or else by the configured one; without any of these it is the
/// name of the file. Points before the extension do not count, and an empty
/// extension takes the old one away.
pub proof fn law_name_of_upload(
    opts: &[(String, String)],
    parts: &FileParts,
    default_ext: Option<&str>,
    s: String,
)
    requires
        call_ensures(resolve_name, (opts, parts, default_ext), s),
    ensures
        ({
            let o = cli::option_texts(opts@);
            let given = cli::option_value(o, "--name"@);
            let on_line = cli::option_value(o, "--ext"@);
            let ext = text::trim_start_char(
                if on_line is Some {
                    on_line->Some_0
                } else {
                    default_ext->Some_0@
                },
                '.',
            );
            let name = match parts.file_name {
                Some(n) => n@,
                None => "file"@,
            };
            let stem = match parts.stem {
                Some(n) => n@,
                None => name,
            };
            &&& given is Some ==> s@ == given->Some_0
            &&& given is None && on_line is None && default_ext is None ==> s@ == name
            &&& given is None && (on_line is Some || default_ext is Some) && ext.len() > 0 ==> s@
                == stem + "."@ + ext
            &&& given is None && (on_line is Some || default_ext is Some) && ext.len() == 0 ==> s@
                == stem
        }),
{
}

/// A file is uploaded in one request where it is smaller than the limit, and in
/// parts where it is not; `--force-small` and `--force-multipart` decide
/// otherwise, the first of them before the other.
pub proof fn law_way_of_upload(opts: &[(String, String)], size: u64, limit: u64, b: bool)
    requires
        call_ensures(use_small, (opts, size, limit), b),
    ensures
        ({
            let o = cli::option_texts(opts@);
            let small = cli::option_given(o, "--force-small"@);
            let parts = cli::option_given(o, "--force-multipart"@);
            &&& small ==> b
            &&& !small && parts ==> !b
            &&& !small && !parts ==> (b <==> size < limit)
        }),
{
}

/// A key as the name of a file has an underscore for each slash and backslash,
/// and every other character stays in its place.
pub proof fn law_key_made_safe(key: &str, s: String)
    requires
        call_ensures(safe_name, (key,), s),
    ensures
        s@.len() == key@.len(),
        forall|i: int|
            0 <= i < key@.len() ==> #[trigger] s@[i] == (if key@[i] == '/' || key@[i] == '\\' {
                '_'
            } else {
                key@[i]
            }),
{
}

/// A path that is asked for, that is no directory and does not end in a
/// separator, is where the file goes, character by character.
pub proof fn law_out_taken_as_it_is(out: String, is_dir: bool, key: &str, r: OutPath)
    requires
        call_ensures(download_path, (Some(out), is_dir, key), r),
        !is_dir,
        out@.len() > 0 ==> out@.last() != '/' && out@.last() != '\\',
    ensures
        r is At,
        r->At_0@ == out@,
{
}

/// Into a directory that is asked for, or a path that ends in a separator, the
/// file goes under its key, made safe; the directory is taken as it is.
pub proof fn law_out_directory(out: String, is_dir: bool, key: &str, r: OutPath, name: String)
    requires
        call_ensures(download_path, (Some(out), is_dir, key), r),
        call_ensures(safe_name, (key,), name),
        is_dir || (out@.len() > 0 && (out@.last() == '/' || out@.last() == '\\')),
    ensures
        r is Inside,
        r->Inside_0@ == out@,
        r->Inside_1@ == name@,
{
}

/// Where no path is asked for, the file goes to the current directory, under its
/// key, made safe.
pub proof fn law_no_out(is_dir: bool, key: &str, r: OutPath, name: String)
    requires
        call_ensures(download_path, (None::<String>, is_dir, key), r),
        call_ensures(safe_name, (key,), name),
    ensures
        r is At,
        r->At_0@ == name@,
{
}

/// The latest uploads are shown one to a line, in their order: when, under which
/// name, and under which key.
pub proof fn law_history_shown(items: Seq<history::Record>, it: history::Record)
    ensures
        history_text(Seq::empty()) == "（暂无上传历史）\n"@,
        history_text(items.push(it)) == (if items.len() == 0 {
            "时间(Unix)\t原始文件名\tkey\n"@
        } else {
            history_text(items)
        }) + text::decimal(it.time as nat) + "\t"@ + it.name + "\t"@ + it.key + "\n"@,
{
    let more = items.push(it);
    assert(more.drop_last() =~= items);
    assert(more.last() == it);
    let head = "时间(Unix)\t原始文件名\tkey\n"@;
    let line = text::decimal(it.time as nat) + "\t"@ + it.name + "\t"@ + it.key + "\n"@;
    assert(record_lines(more) =~= record_lines(items) + line);
    if items.len() == 0 {
        assert(record_lines(items) =~= Seq::empty());
        assert(history_text(more) =~= head + text::decimal(it.time as nat) + "\t"@ + it.name
            + "\t"@ + it.key + "\n"@);
    } else {
        assert(history_text(more) =~= history_text(items) + text::decimal(it.time as nat) + "\t"@
            + it.name + "\t"@ + it.key + "\n"@);
    }
}

/// What is shown of the latest uploads is made of the records as they are.
pub proof fn law_history_of_items(items: &Vec<HistoryItem>, s: String)
    requires
        call_ensures(show_history, (items,), s),
    ensures
        s@ == history_text(history::records(items@)),
{
}

/// A command without the argument that it needs is refused, as is a command that
/// is not known; an argument is handed on as it is.
pub proof fn law_arguments_needed(
    arg: Option<String>,
    cmd: &str,
    u: Res<String>,
    d: Res<String>,
    l: Res<String>,
    k: Res<()>,
)
    requires
        call_ensures(file_argument, (arg,), u),
        call_ensures(download_argument, (arg,), d),
        call_ensures(url_argument, (arg,), l),
        call_ensures(unknown_command::<()>, (cmd,), k),
    ensures
        arg is Some ==> u is Ok && u->Ok_0@ == arg->Some_0@,
        arg is Some ==> d is Ok && d->Ok_0@ == arg->Some_0@,
        arg is Some ==> l is Ok && l->Ok_0@ == arg->Some_0@,
        arg is None ==> u is Err && u->Err_0.code == 2,
        arg is None ==> d is Err && d->Err_0.code == 2,
        arg is None ==> l is Err && l->Err_0.code == 2,
        k is Err && k->Err_0.code == 2,
        k->Err_0.msg@ == "未知命令："@ + cmd@ + "（用 --help 查看用法）"@,
{
}

/// A file that is not there is not uploaded.
pub proof fn law_file_checked(path: &str, exists: bool, r: Res<()>)
    requires
        call_ensures(check_file, (path, exists), r),
    ensures
        r is Ok <==> exists,
        r is Err ==> r->Err_0.code == 5 && r->Err_0.msg@ == "文件不存在："@ + path@,
{
}

/// Before an upload the file, its size, the key, the name and the way are shown;
/// the size of the parts is the one that is used.
pub proof fn law_upload_summary(
    path: &str,
    size: u64,
    key: &str,
    name: &str,
    small: bool,
    chunk: u64,
    s: String,
    shown: String,
    part: u64,
    part_shown: String,
)
    requires
        call_ensures(upload_summary, (path, size, key, name, small, chunk), s),
        call_ensures(human_bytes, (size,), shown),
        call_ensures(size_of_parts, (chunk,), part),
        call_ensures(human_bytes, (part,), part_shown),
    ensures
        s@ == "文件："@ + path@ + "（"@ + shown@ + "）\nkey ："@ + key@ + "\n名称："@ + name@
            + "\n方式："@ + (if small {
            "小文件直传"@
        } else {
            "分片上传（每片 "@ + part_shown@ + "）"@
        }) + "\n"@,
{
}

} // verus!
