use sync_iobs::commands::{
    check_file, command, download_argument, download_path, file_argument, new_config,
    resolve_key, resolve_key_at, resolve_name, safe_name, show_history, unknown_command,
    upload_summary, url_argument, use_small, Command, FileParts, OutPath,
};
use sync_iobs::config::{Config, SAMPLE_CONFIG};
use sync_iobs::error::{fail, AppError, Res};
use sync_iobs::history::{
    has_other_key, history_file_name, recorded_note, with_upload, HistoryItem, HISTORY_KEY,
};
use sync_iobs::http::{
    fetched_size, range_header, request_timeout, Action, Attempts, Outcome, Purpose,
};
use sync_iobs::iobs::{
    download_note, download_target, downloaded_note, interrupted_note, next_block, plan_download,
    small_upload_note, uploaded_note, Iobs, BLOCK, MIN_CHUNK, UA,
};
use sync_iobs::log::{clear, new_buf, push, push_at, recent, LogBuf, CAPACITY};
use sync_iobs::multipart::{
    chunk_warning, count_parts, joined_note, size_of_parts, upload_note, Next, Upload,
};
use sync_iobs::progress::{find_task, TaskState};
use sync_iobs::session::{
    download_started, form_download_key, form_key, form_name, form_out, history_out_name, key_after_pick,
    refresh_step, upload_started, Refresh,
};
use sync_iobs::tasks::{
    any_running, clear_finished, finish_task, log_style, push_task, shows_key, status_label,
    visible_count, Severity,
};
use sync_iobs::token::Signer;

fn options(v: &[(&str, &str)]) -> Vec<(String, String)> {
    v.iter().map(|(k, x)| (k.to_string(), x.to_string())).collect()
}

fn text(s: &str) -> Option<String> {
    Some(s.to_string())
}

fn config() -> Config {
    let mut c = Config::default();
    c.base_url = "https://h".to_string();
    c.bucket = "b 1".to_string();
    c.access_key = "ak".to_string();
    c.secret_key = "sk".to_string();
    c
}

// Requests.

#[test]
fn errors_and_their_codes() {
    let e = AppError::new(7, "m".to_string());
    assert_eq!((e.code, e.to_text().as_str()), (7, "m"));
    let e = AppError::from_io("d");
    assert_eq!((e.code, e.msg.as_str()), (5, "IO 错误: d"));
    let e = AppError::from_network(true, "d");
    assert_eq!((e.code, e.msg.as_str()), (4, "网络错误: d"));
    let e = AppError::from_network(false, "d");
    assert_eq!((e.code, e.msg.as_str()), (3, "网络错误: d"));
    let e = AppError::from_tls("d");
    assert_eq!((e.code, e.msg.as_str()), (3, "TLS 错误: d"));
    let r: Res<()> = fail(2, "x".to_string());
    assert_eq!(r.unwrap_err().code, 2);
}

fn refused(code: u16) -> Outcome {
    Outcome::Refused(code, "body".to_string())
}

#[test]
fn faults_of_the_server_are_tried_again() {
    for code in [429u16, 500, 503, 599] {
        let mut a = Attempts::new(Purpose::Send, 6);
        let mut waits = Vec::new();
        for n in 1..=6 {
            match a.next(refused(code)) {
                Action::Again { note, wait } => {
                    assert_eq!(note, format!("  请求失败（第 {} 次重试）：HTTP {} body", n, code));
                    waits.push(wait);
                }
                _ => panic!("not tried again"),
            }
        }
        assert_eq!(waits, vec![300, 600, 1200, 2400, 4800, 9600]);
        match a.next(refused(code)) {
            Action::Fail(e) => {
                assert_eq!((e.code, e.msg), (4, format!("HTTP {} body", code)));
            }
            _ => panic!("tried again"),
        }
    }
}

#[test]
fn waits_do_not_grow_for_ever() {
    let mut a = Attempts::new(Purpose::Send, 8);
    let mut last = 0;
    for _ in 0..8 {
        if let Action::Again { wait, .. } = a.next(refused(500)) {
            last = wait;
        }
    }
    assert_eq!(last, 9600);
}

#[test]
fn wrong_requests_are_not_tried_again() {
    for code in [400u16, 402, 404, 428, 430, 499, 600, 302] {
        let mut a = Attempts::new(Purpose::Fetch, 3);
        match a.next(refused(code)) {
            Action::Fail(e) => {
                assert_eq!((e.code, e.msg), (4, format!("下载失败：HTTP {} body", code)));
            }
            _ => panic!("tried again"),
        }
    }
}

#[test]
fn broken_connections_are_tried_again() {
    let mut a = Attempts::new(Purpose::Fetch, 1);
    match a.next(Outcome::Broken("reset".to_string())) {
        Action::Again { note, wait } => {
            assert_eq!((note.as_str(), wait), ("  下载中断（第 1 次重试）：reset", 300));
        }
        _ => panic!("not tried again"),
    }
    match a.next(Outcome::Broken("reset".to_string())) {
        Action::Fail(e) => assert_eq!((e.code, e.msg.as_str()), (3, "网络错误: reset")),
        _ => panic!("tried again"),
    }
    let mut a = Attempts::new(Purpose::Send, 0);
    match a.next(Outcome::Answered("reply".to_string())) {
        Action::Done(s) => assert_eq!(s, "reply"),
        _ => panic!("not done"),
    }
}

#[test]
fn sizes_of_files_that_are_fetched() {
    assert_eq!(range_header(0), None);
    assert_eq!(range_header(17), text("bytes=17-"));
    let size = |code, start, len, range| fetched_size(code, "Status", start, len, range).ok();
    assert_eq!(size(200, 0, Some("10"), None), Some(10));
    assert_eq!(size(200, 5, Some("10"), Some("bytes 5-14/99")), Some(15));
    assert_eq!(size(200, 0, None, None), Some(0));
    assert_eq!(size(200, 0, Some("many"), None), Some(0));
    assert_eq!(size(206, 5, Some("10"), Some("bytes 5-14/15")), Some(15));
    assert_eq!(size(206, 5, Some("10"), Some("bytes 5-14/ 99 ")), Some(99));
    assert_eq!(size(206, 5, Some("10"), Some("bytes 5-14/*")), Some(15));
    assert_eq!(size(206, 5, Some("10"), Some("7")), Some(7));
    assert_eq!(size(206, 5, Some("10"), None), Some(15));
    let e = fetched_size(204, "No Content", 0, None, None).unwrap_err();
    assert_eq!((e.code, e.msg.as_str()), (4, "下载失败：HTTP 204 No Content"));
    assert_eq!(request_timeout(0), 1);
    assert_eq!(request_timeout(60), 60);
}

// The service.

#[test]
fn urls_and_tokens() {
    let io = Iobs::new(config());
    let token = Signer::new("ak", "sk").token_at("b 1", "k/文", 1600);
    assert_eq!(io.token_from("k/文", 1000), token);
    assert_eq!(
        io.download_url_from("k/文", 1000),
        format!("https://h/download/b%201/k%2F%E6%96%87?token={}", token)
    );
    // What encodes alike in part is still told apart.
    assert_ne!(io.download_url_from("a/b", 1000), io.download_url_from("a%2Fb", 1000));
    assert!(io.token("k").starts_with("ak:"));
    assert!(io.download_url("k").starts_with("https://h/download/b%201/k?token=ak:"));
    assert_eq!(io.config().bucket, "b 1");
}

#[test]
fn tokens_have_three_parts() {
    let s = Signer::new("a", "s");
    let t = s.token_from("b", "k", 600, 1000);
    let parts: Vec<&str> = t.split(':').collect();
    assert_eq!(parts.len(), 3);
    assert_eq!((parts[0], parts[1].len()), ("a", 28));
    assert_eq!(t, s.token_at("b", "k", 1600));
    assert_eq!(s.token_from("b", "k", u64::MAX, 2), s.token_at("b", "k", 1));
    assert_eq!(s.token("b", "k", 5).len(), t.len() + 8);
}

#[test]
fn uploads_in_one_request() {
    let io = Iobs::new(config());
    assert!(io.small_upload("k", "n", b"", 0, 7).is_none());
    let r = io.small_upload("k y", "n.png", b"\x00\xffdata", 1000, 1732761165123).unwrap();
    assert_eq!(r.url, "https://h/upload/b%201/k%20y");
    let line = "---------------------------1732761165123";
    assert_eq!(r.content_type, format!("multipart/form-data; boundary={}", line));
    let mut want = format!(
        "--{}\r\nContent-Disposition: form-data; name=\"token\"\r\n\r\n{}\r\n--{}\r\nContent-Disposition: form-data; name=\"file\"; filename=\"n.png\"\r\nContent-Type: multipart/form-data; charset=ISO-8859-1\r\n\r\n",
        line,
        io.token_from("k y", 1000),
        line
    )
    .into_bytes();
    want.extend_from_slice(b"\x00\xffdata");
    want.extend_from_slice(format!("\r\n--{}--\r\n", line).as_bytes());
    assert_eq!(r.body, want);
    assert_eq!(small_upload_note("k", "n", 2048), "小文件直传：key=k 文件名=n 大小=2.00KB");
    assert_eq!(uploaded_note("k"), "上传成功：k");
    assert_eq!(UA, "csp-iobs-java-sdk/1.3.4");
}

#[test]
fn blocks_add_up() {
    for len in [0usize, 1, BLOCK - 1, BLOCK, BLOCK + 1, 3 * BLOCK + 5] {
        let mut off = 0;
        let mut count = 0;
        while off < len {
            off += next_block(len, off);
            count += 1;
        }
        assert_eq!((off, count), (len, (len + BLOCK - 1) / BLOCK));
    }
}

#[test]
fn parts_of_a_file() {
    assert_eq!(size_of_parts(0), MIN_CHUNK);
    assert_eq!(size_of_parts(MIN_CHUNK + 1), MIN_CHUNK + 1);
    for (size, n) in [(0, 1), (1, 1), (9, 1), (10, 1), (11, 2), (20, 2), (21, 3)] {
        assert_eq!(count_parts(size, 10), n);
    }
    assert_eq!(count_parts(u64::MAX, u64::MAX), 1);
    assert_eq!(count_parts(u64::MAX, 1), u64::MAX);
    assert_eq!(
        chunk_warning(1024),
        text("警告：分片大小 1.00KB 小于服务端下限，已自动调整为 5.00MB")
    );
    assert_eq!(
        chunk_warning(0),
        text("警告：分片大小 1B 小于服务端下限，已自动调整为 5.00MB")
    );
    assert_eq!(chunk_warning(MIN_CHUNK), None);
    assert_eq!(
        upload_note("k", "n", 11 * 1024 * 1024, 1),
        "分片上传：key=k 文件名=n 大小=11.0MB 分片=3 x 5.00MB"
    );
    assert_eq!(joined_note("k"), "上传成功（分片合并）：k");
}

#[test]
fn an_upload_in_parts() {
    let io = Iobs::new(config());
    let size = 2 * MIN_CHUNK + 3;
    let (up, first) = Upload::start(&io, "k", "n 1", size, 1000);
    let token = io.token_from("k", 1000);
    assert_eq!(
        first.url,
        format!("https://h/initUploadPart/b%201/k?token={}&fileSize={}&fileName=n%201", token, size)
    );
    assert_eq!(first.content_type, "application/x-www-form-urlencoded");
    assert!(first.body.is_empty());
    assert_eq!(up.parts(), 3);

    let (up, next) = up.replied(&io, "  id/1 \n", 1001);
    assert_eq!(up.upload_id(), "id/1");
    let mut up = up;
    let mut next = next.ok();
    let mut lengths = Vec::new();
    for i in 1..=3u64 {
        match next {
            Some(Next::Read(n)) => lengths.push(n),
            _ => panic!("nothing to read"),
        }
        let (u, part) = up.part(&io, 10, 2000);
        assert!(!part.renewed);
        assert_eq!(
            part.url,
            format!("https://h/uploadPart/b%201/k?token={}&uploadId=id%2F1&partNumber={}", token, i)
        );
        let reply = if i == 2 {
            "{\"hash\":\"h2\"}".to_string()
        } else {
            format!(" h{} ", i)
        };
        let (u, r) = u.replied(&io, &reply, 3000);
        assert_eq!(u.parts_sent(), i as usize);
        up = u;
        next = r.ok();
    }
    assert_eq!(lengths, vec![MIN_CHUNK, MIN_CHUNK, 3]);
    assert_eq!(up.sent(), size);
    match next {
        Some(Next::Join(r)) => {
            assert_eq!(
                r.url,
                format!(
                    "https://h/completeUpload/b%201/k?token={}&uploadId=id%2F1",
                    io.token_from("k", 3000)
                )
            );
            assert_eq!(r.content_type, "application/x-www-form-urlencoded; charset=utf-8");
            assert_eq!(
                String::from_utf8(r.body).unwrap(),
                "partMap=%7B%221%22%3A%22h1%22%2C%222%22%3A%22h2%22%2C%223%22%3A%22h3%22%7D"
            );
        }
        _ => panic!("not joined"),
    }
    let (_, r) = up.replied(&io, "anything", 4000);
    match r {
        Ok(Next::Done(url)) => assert_eq!(url, io.download_url_from("k", 4000)),
        _ => panic!("not done"),
    }
}

#[test]
fn an_empty_file_has_one_part() {
    let io = Iobs::new(config());
    let (up, _) = Upload::start(&io, "k", "n", 0, 0);
    let (up, r) = up.replied(&io, "id", 0);
    assert!(matches!(r, Ok(Next::Read(0))));
    let (up, _) = up.part(&io, 0, 0);
    let (up, r) = up.replied(&io, "h", 0);
    assert!(matches!(r, Ok(Next::Join(_))));
    assert_eq!((up.sent(), up.parts()), (0, 1));
}

#[test]
fn ids_of_uploads() {
    let io = Iobs::new(config());
    let id = |reply: &str| {
        let (up, _) = Upload::start(&io, "k", "n", 1, 0);
        let (up, r) = up.replied(&io, reply, 0);
        match r {
            Ok(_) => Ok(up.upload_id().to_string()),
            Err(e) => Err((e.code, e.msg)),
        }
    };
    assert_eq!(id("{\"uploadId\":\"u\",\"data\":\"d\"}"), Ok("u".to_string()));
    assert_eq!(id(" {\"data\" : \"d\"}"), Ok("d".to_string()));
    assert_eq!(id(" {\"x\":1} "), Ok("{\"x\":1}".to_string()));
    assert_eq!(id(" \n"), Err((4, "初始化分片上传失败，响应： \n".to_string())));
    assert_eq!(
        id("{\"uploadId\":\"\"}"),
        Err((4, "初始化分片上传失败，响应：{\"uploadId\":\"\"}".to_string()))
    );
}

#[test]
fn a_part_without_a_hash_fails() {
    let io = Iobs::new(config());
    let (up, _) = Upload::start(&io, "k", "n", 1, 0);
    let (up, _) = up.replied(&io, "id", 0);
    let (up, _) = up.part(&io, 0, 0);
    let (up, r) = up.replied(&io, " ", 0);
    let e = r.err().unwrap();
    assert_eq!((e.code, e.msg.as_str()), (4, "第 1 片上传未返回 hash，响应： "));
    assert_eq!(up.parts_sent(), 0);
}

#[test]
fn tokens_are_renewed_in_time() {
    let io = Iobs::new(config());
    for (elapsed, renewed) in [(0u64, false), (539, false), (540, true), (u64::MAX, true)] {
        let (up, _) = Upload::start(&io, "k", "n", 1, 1000);
        let (up, _) = up.replied(&io, "id", 0);
        let (_, part) = up.part(&io, elapsed, 7000);
        assert_eq!(part.renewed, renewed);
        let token = io.token_from("k", if renewed { 7000 } else { 1000 });
        assert_eq!(
            part.url,
            format!("https://h/uploadPart/b%201/k?token={}&uploadId=id&partNumber=1", token)
        );
    }
}

#[test]
fn downloads_and_resuming() {
    assert_eq!(download_target("d/f", false), "d/f");
    assert_eq!(download_target("d/f", true), "d/f.part");
    let p = plan_download("f", true, Some(7));
    assert_eq!((p.target.as_str(), p.start, p.rename), ("f.part", 7, true));
    let p = plan_download("f", true, None);
    assert_eq!((p.start, p.rename), (0, true));
    let p = plan_download("f", false, Some(7));
    assert_eq!((p.target.as_str(), p.start, p.rename), ("f", 0, false));
    assert_eq!(download_note("k", "f"), "开始下载：k -> f");
    assert_eq!(interrupted_note("f.part"), "下载中断，已保留 f.part，重新执行 --resume 可续传");
    assert_eq!(downloaded_note("k", "f", 1536), "下载完成：k -> f（1.50KB）");
}

// The history.

fn item(key: &str, time: u64) -> HistoryItem {
    HistoryItem { key: key.to_string(), name: format!("{}.txt", key), time }
}

fn keys(v: &[HistoryItem]) -> Vec<String> {
    v.iter().map(|it| it.key.clone()).collect()
}

#[test]
fn the_latest_upload_comes_first() {
    let v = with_upload(vec![item("a", 1), item("b", 2), item("a", 3)], "a", "new", 9);
    assert_eq!(keys(&v), vec!["a", "b"]);
    assert_eq!((v[0].name.as_str(), v[0].time), ("new", 9));
    assert_eq!((v[1].name.as_str(), v[1].time), ("b.txt", 2));
    assert_eq!(keys(&with_upload(Vec::new(), "x", "n", 0)), vec!["x"]);
}

#[test]
fn ten_uploads_are_kept() {
    let mut v = Vec::new();
    for i in 0..15 {
        v = with_upload(v, &format!("k{}", i), "n", i);
    }
    let want: Vec<String> = (5..15).rev().map(|i| format!("k{}", i)).collect();
    assert_eq!(keys(&v), want);
    v = with_upload(v, "k5", "n", 99);
    assert_eq!(v.len(), 10);
    assert_eq!((v[0].key.as_str(), v[9].key.as_str()), ("k5", "k6"));
    assert_eq!(history_file_name(), "cztesthistoryupload10.png");
    assert_eq!(HISTORY_KEY, "cztesthistoryupload10");
    assert_eq!(recorded_note(3), "最近上传已更新：3 条记录");
}

#[test]
fn the_history_is_shown() {
    assert_eq!(show_history(&Vec::new()), "（暂无上传历史）\n");
    assert_eq!(
        show_history(&vec![item("a", 1), item("b", 2)]),
        "时间(Unix)\t原始文件名\tkey\n1\ta.txt\ta\n2\tb.txt\tb\n"
    );
}

// The log.

fn messages(log: &LogBuf, n: usize) -> Vec<String> {
    recent(log, n).iter().map(|e| e.msg.clone()).collect()
}

#[test]
fn the_log_keeps_the_latest() {
    let mut log = new_buf();
    for i in 0..(CAPACITY + 5) {
        push_at(&mut log, i as u64, "INFO", format!("{}", i));
    }
    assert_eq!(log.len(), CAPACITY);
    assert_eq!(messages(&log, 2), vec!["2003", "2004"]);
    assert_eq!(messages(&log, CAPACITY + 1)[0], "5");
    push(&mut log, "ERR", "now".to_string());
    let last = recent(&log, 1);
    assert_eq!((last[0].level, last[0].msg.as_str()), ("ERR", "now"));
    assert!(last[0].t > 1_600_000_000);
    assert!(recent(&log, 0).is_empty());
    clear(&mut log);
    assert_eq!(log.len(), 0);
}

// Commands.

fn words(v: &[&str]) -> Vec<String> {
    v.iter().map(|s| s.to_string()).collect()
}

#[test]
fn commands_are_told_apart() {
    let cmd = |v: &[&str]| command(&words(v), &[]);
    assert!(matches!(cmd(&[]), Command::Gui));
    assert!(matches!(cmd(&["gui"]), Command::Gui));
    assert!(matches!(cmd(&["upload", "f", "g"]), Command::Upload(Some(f)) if f == "f"));
    assert!(matches!(cmd(&["upload"]), Command::Upload(None)));
    assert!(matches!(cmd(&["download", "k"]), Command::Download(Some(k)) if k == "k"));
    assert!(matches!(cmd(&["url"]), Command::Url(None)));
    assert!(matches!(cmd(&["history"]), Command::History));
    assert!(matches!(cmd(&["init-config"]), Command::InitConfig(p) if p == "iobs.ini"));
    assert!(matches!(cmd(&["init-config", "x"]), Command::InitConfig(p) if p == "x"));
    assert!(matches!(cmd(&["Upload"]), Command::Unknown(c) if c == "Upload"));
    let help = options(&[("--help", "1")]);
    assert!(matches!(command(&words(&["gui"]), &help), Command::Help));
    assert!(matches!(command(&[].to_vec(), &help), Command::Gui));
}

#[test]
fn commands_that_fail() {
    let r: Res<()> = unknown_command("x");
    let e = r.unwrap_err();
    assert_eq!((e.code, e.msg.as_str()), (2, "未知命令：x（用 --help 查看用法）"));
    assert_eq!(file_argument(text("f")).unwrap(), "f");
    assert_eq!(file_argument(None).unwrap_err().msg, "用法: sync-iobs upload <本地文件>");
    assert_eq!(download_argument(None).unwrap_err().msg, "用法: sync-iobs download <key>");
    let e = url_argument(None).unwrap_err();
    assert_eq!((e.code, e.msg.as_str()), (2, "用法: sync-iobs url <key>"));
    let e = new_config("p", true).unwrap_err();
    assert_eq!((e.code, e.msg.as_str()), (5, "p 已存在，未覆盖"));
    assert_eq!(new_config("p", false).unwrap(), SAMPLE_CONFIG.trim_start());
    assert!(check_file("p", true).is_ok());
    let e = check_file("p", false).unwrap_err();
    assert_eq!((e.code, e.msg.as_str()), (5, "文件不存在：p"));
}

fn parts(name: &str, stem: &str, ext: &str) -> FileParts {
    FileParts { file_name: text(name), stem: text(stem), ext: text(ext) }
}

#[test]
fn keys_with_placeholders() {
    let p = parts("a.zip", "a", "zip");
    let key = |k: &str| resolve_key_at(&options(&[("--key", k)]), &p, 1732761165);
    assert_eq!(key("{file}/{name}/{ext}/{ts}/{date}"), "a.zip/a/zip/1732761165/20241128");
    assert_eq!(key("plain"), "plain");
    assert_eq!(key("{name}{name}"), "aa");
    assert_eq!(resolve_key_at(&[], &p, 0), "a.zip");
    assert_eq!(resolve_key(&[], &p), "a.zip");
    // What is filled in first is filled in again.
    let odd = parts("{ts}", "{ts}", "");
    assert_eq!(resolve_key_at(&options(&[("--key", "{file}")]), &odd, 5), "5");
    let none = FileParts { file_name: None, stem: None, ext: None };
    assert_eq!(
        resolve_key_at(&options(&[("--key", "{file}-{name}-{ext}")]), &none, 5),
        "file-file-"
    );
}

#[test]
fn the_extension_is_that_of_the_name() {
    let p = parts("a.zip", "a", "zip");
    let name = |v: &[(&str, &str)], ext| resolve_name(&options(v), &p, ext);
    assert_eq!(name(&[], None), "a.zip");
    assert_eq!(name(&[], Some("png")), "a.png");
    assert_eq!(name(&[("--ext", "..tar")], Some("png")), "a.tar");
    assert_eq!(name(&[("--ext", ".")], None), "a");
    assert_eq!(name(&[("--ext", "x"), ("--name", "n")], None), "n");
    let with = options(&[("--key", "k{ext}"), ("--ext", "png")]);
    assert_eq!(resolve_key_at(&with, &p, 0), "kzip");
}

#[test]
fn the_way_of_an_upload() {
    assert!(use_small(&[], 9, 10));
    assert!(!use_small(&[], 10, 10));
    assert!(use_small(&options(&[("--force-small", "1"), ("--force-multipart", "1")]), 10, 10));
    assert!(!use_small(&options(&[("--force-multipart", "1")]), 9, 10));
    assert_eq!(
        upload_summary("p", 2048, "k", "n", false, 1),
        "文件：p（2.00KB）\nkey ：k\n名称：n\n方式：分片上传（每片 5.00MB）\n"
    );
    assert_eq!(
        upload_summary("p", 1, "k", "n", true, 1),
        "文件：p（1B）\nkey ：k\n名称：n\n方式：小文件直传\n"
    );
}

#[test]
fn where_downloads_go() {
    assert_eq!(safe_name("a/b\\c:d"), "a_b_c:d");
    let path = |out: Option<&str>, dir| download_path(out.map(|s| s.to_string()), dir, "a/b");
    assert!(matches!(path(None, false), OutPath::At(p) if p == "a_b"));
    assert!(matches!(path(Some("x"), false), OutPath::At(p) if p == "x"));
    assert!(matches!(path(Some("x"), true), OutPath::Inside(d, n) if d == "x" && n == "a_b"));
    assert!(matches!(path(Some("x/"), false), OutPath::Inside(d, n) if d == "x/" && n == "a_b"));
    assert!(matches!(path(Some("x\\"), false), OutPath::Inside(d, _) if d == "x\\"));
}

// The window.

#[test]
fn forms() {
    let p = parts("a.zip", "a", "zip");
    assert_eq!(form_key("  ", &p), "a.zip");
    assert_eq!(form_key(" k ", &p), "k");
    assert_eq!(form_key("", &p), "a.zip");
    assert_eq!(form_name("", &p, None), "a.zip");
    assert_eq!(form_name("  ", &p, Some("png")), "a.png");
    assert_eq!(form_name("", &p, Some("..tar.gz")), "a.tar.gz");
    assert_eq!(form_name("", &p, Some("")), "a");
    assert_eq!(form_name(" .png", &p, None), "a.png");
    assert_eq!(form_name(" .png", &p, Some("txt")), "a.png");
    assert_eq!(form_name(".", &p, None), "a.");
    assert_eq!(form_download_key(" k "), text("k"));
    assert_eq!(form_download_key(" "), None);
    assert_eq!(key_after_pick(" ", Some("f")), "f");
    assert_eq!(key_after_pick("k ", Some("f")), "k ");
    assert_eq!(key_after_pick("", None), "");
    assert_eq!(history_out_name("a/b", " "), "a_b");
    assert_eq!(history_out_name("a/b", "n"), "n");
    assert!(matches!(form_out(" ", true, "n"), OutPath::At(p) if p == "n"));
    assert!(matches!(form_out(" d ", true, "n"), OutPath::Inside(d, n) if d == "d" && n == "n"));
    assert!(matches!(form_out(" d/", false, "n"), OutPath::Inside(d, _) if d == "d/"));
    assert!(matches!(form_out("d/ ", false, "n"), OutPath::At(p) if p == "d/"));
    assert_eq!(upload_started("f", "k"), "开始上传：f（key=k）");
    assert_eq!(download_started(false, "k", "o"), "开始下载：k -> o");
    assert_eq!(download_started(true, "k", "o"), "从历史下载：k -> o");
}

#[test]
fn tasks_from_start_to_end() {
    let mut v: Vec<TaskState> = Vec::new();
    let mut next = 1;
    assert_eq!(push_task(&mut v, &mut next, "上传", "f", "k", "", 7), 1);
    assert_eq!(push_task(&mut v, &mut next, "下载", "g", "g", "o", 0), 2);
    assert_eq!((v[0].status.as_str(), v[0].total, v[1].out.as_str()), ("running", 7, "o"));
    assert!(any_running(&v));
    assert_eq!(find_task(&v, 2), Some(1));
    assert_eq!(find_task(&v, 3), None);

    let n = finish_task(&mut v, 1, Ok("url".to_string())).unwrap();
    assert_eq!((n.level, n.msg.as_str()), ("OK", "[上传] f 完成"));
    assert_eq!((v[0].status.as_str(), v[0].url.as_str()), ("done", "url"));
    let n = finish_task(&mut v, 2, fail(4, "why".to_string())).unwrap();
    assert_eq!((n.level, n.msg.as_str()), ("ERR", "[下载] g 失败：why"));
    assert_eq!((v[1].status.as_str(), v[1].error.as_str()), ("error", "why"));
    assert!(finish_task(&mut v, 9, Ok(String::new())).is_none());
    assert!(!any_running(&v));

    assert_eq!(push_task(&mut v, &mut next, "上传", "h", "h", "", 1), 3);
    assert_eq!(next, 4);
    clear_finished(&mut v);
    assert_eq!(v.len(), 1);
    assert_eq!(v[0].id, 3);
    assert_eq!(visible_count(3), 3);
    assert_eq!(visible_count(30), 12);
}

#[test]
fn labels_and_tags() {
    assert_eq!(status_label("running"), ("进行中", Severity::Neutral));
    assert_eq!(status_label("done"), ("完成", Severity::Good));
    assert_eq!(status_label("error"), ("失败", Severity::Bad));
    assert_eq!(log_style("OK"), ("OK  ", Severity::Good));
    assert_eq!(log_style("WARN"), ("WARN", Severity::Warning));
    assert_eq!(log_style("ERR"), ("ERR ", Severity::Bad));
    assert_eq!(log_style("other"), ("INFO", Severity::Neutral));
    assert!(shows_key("n", "k"));
    assert!(!shows_key("n", "n"));
    assert!(!shows_key("n", ""));
    let mut shown = item("k", 1);
    assert!(has_other_key(&shown));
    shown.name = "k".to_string();
    assert!(!has_other_key(&shown));
    shown.key = String::new();
    assert!(has_other_key(&shown));
}

#[test]
fn requests_for_the_history_wait() {
    let idle = Refresh { wanted: false, loading: false };
    let wanted = Refresh { wanted: true, loading: false };
    let busy = Refresh { wanted: true, loading: true };
    assert_eq!(refresh_step(idle, true), (false, idle));
    assert_eq!(refresh_step(wanted, true), (true, Refresh { wanted: false, loading: true }));
    assert_eq!(refresh_step(busy, true), (false, busy));
    assert_eq!(refresh_step(busy, false), (false, busy));
    // Without credentials the request is dropped.
    assert_eq!(refresh_step(wanted, false), (false, idle));
}
