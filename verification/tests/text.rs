use sync_iobs::base64::b64url;
use sync_iobs::cli::{has, opt, parse_argv};
use sync_iobs::clock::{millis_or_zero, now_millis, now_secs, secs_or_zero};
use sync_iobs::json::json_get;
use sync_iobs::order::comes_before;
use sync_iobs::percent::percent_encode;
use sync_iobs::table::Table;
use sync_iobs::text::{
    begins_with, cut_at, ends_with_char, is_space, numeral, padded_numeral, parse_u32, parse_u64,
    pieces, replaced, same_text, same_text_ignoring_case, starts_with_char, trimmed, trimmed_end,
    trimmed_start, without_leading, without_trailing,
};

fn strings(v: &[&str]) -> Vec<String> {
    v.iter().map(|s| s.to_string()).collect()
}

#[test]
fn white_space_is_that_of_unicode() {
    for n in 0..=0x10ffffu32 {
        if let Some(c) = char::from_u32(n) {
            assert_eq!(is_space(c), c.is_whitespace(), "{:x}", n);
        }
    }
}

#[test]
fn trimming() {
    for s in ["", " ", "a", " a ", "\t a b \r\n", "\u{3000}x\u{85}", "none"] {
        assert_eq!(trimmed(s), s.trim());
        assert_eq!(trimmed_start(s), s.trim_start());
        assert_eq!(trimmed_end(s), s.trim_end());
    }
    assert_eq!(without_leading("..png", '.'), "png");
    assert_eq!(without_trailing("http://h//", '/'), "http://h");
    assert_eq!(without_trailing("///", '/'), "");
}

#[test]
fn searching_and_replacing() {
    assert_eq!(replaced("aaa", "aa", "b"), "ba");
    assert_eq!(replaced("{file}-{file}", "{file}", "x{file}"), "x{file}-x{file}");
    assert_eq!(replaced("abc", "", "-"), "abc");
    assert_eq!(cut_at("a=b=c", '='), Some(("a".to_string(), "b=c".to_string())));
    assert_eq!(cut_at("abc", '='), None);
    assert_eq!(pieces("a/b//c/", '/'), strings(&["a", "b", "", "c", ""]));
    assert_eq!(pieces("", '/'), strings(&[""]));
    assert!(begins_with("--env", "--"));
    assert!(!begins_with("-", "--"));
    assert!(starts_with_char("{x", '{'));
    assert!(ends_with_char("x}", '}'));
    assert!(!ends_with_char("", '}'));
    assert!(same_text("密钥", "密钥"));
    assert!(!same_text("a", "ab"));
    assert!(same_text_ignoring_case("TrUe", "true"));
    assert!(!same_text_ignoring_case("ä", "Ä"));
}

#[test]
fn numerals() {
    assert_eq!(numeral(0), "0");
    assert_eq!(numeral(u128::MAX), format!("{}", u128::MAX));
    assert_eq!(padded_numeral(7, 2), "07");
    assert_eq!(padded_numeral(12345, 4), "12345");
    for n in [0u64, 9, 10, 99, 12345, u64::MAX] {
        assert_eq!(parse_u64(&numeral(n as u128)), Some(n));
    }
    for s in ["", "+", "-1", "1 ", "+7", "007", "18446744073709551616", "1_0", "٣"] {
        assert_eq!(parse_u64(s), s.parse::<u64>().ok(), "{}", s);
        assert_eq!(parse_u32(s), s.parse::<u32>().ok(), "{}", s);
    }
    assert_eq!(parse_u32("4294967295"), Some(4294967295));
    assert_eq!(parse_u32("4294967296"), None);
}

#[test]
fn percent_encoding_of_every_byte() {
    assert_eq!(percent_encode(""), "");
    assert_eq!(percent_encode("AZaz09-_.~"), "AZaz09-_.~");
    assert_eq!(percent_encode("/?#%&=+"), "%2F%3F%23%25%26%3D%2B");
    assert_eq!(percent_encode("文"), "%E6%96%87");
}

#[test]
fn json_members() {
    assert_eq!(json_get("{\"a\" : \t\"b\"}", "a"), Some("b".to_string()));
    assert_eq!(json_get("{\"a\":1}", "a"), None);
    assert_eq!(json_get("{\"a\":\"unclosed", "a"), None);
    assert_eq!(json_get("{\"a\" \"b\"}", "a"), None);
    assert_eq!(json_get("{\"a\":\"\"}", "a"), Some(String::new()));
    // The first occurrence decides.
    assert_eq!(json_get("[\"a\",{\"a\":\"b\"}]", "a"), None);
}

#[test]
fn base64_with_padding() {
    assert_eq!(b64url(b""), "");
    assert_eq!(b64url(b"f"), "Zg==");
    assert_eq!(b64url(b"fo"), "Zm8=");
    assert_eq!(b64url(b"foo"), "Zm9v");
    assert_eq!(b64url(&[0xfb, 0xff, 0xfe]), "-__-");
}

#[test]
fn arguments_and_options() {
    let (pos, opts) = parse_argv(strings(&[
        "upload", "a.zip", "--key=x=y", "--ext", "png", "-v", "-c", "-x.ini", "--resume", "--out",
        "-dash", "--", "--key", "last",
    ]));
    assert_eq!(pos, strings(&["upload", "a.zip", "--key", "last"]));
    assert_eq!(opt(&opts, "--key"), Some("x=y".to_string()));
    assert_eq!(opt(&opts, "--ext"), Some("png".to_string()));
    assert!(has(&opts, "--verbose"));
    assert_eq!(opt(&opts, "--config"), Some("-x.ini".to_string()));
    assert!(has(&opts, "--resume"));
    // A value that looks like an option is used up, and counts for nothing.
    assert!(has(&opts, "--out"));
    assert_eq!(opt(&opts, "--out"), None);
    assert!(!has(&opts, "-dash"));
}

#[test]
fn last_value_wins() {
    let (_, opts) = parse_argv(strings(&["--env", "a", "--env", "b", "--env="]));
    assert_eq!(opt(&opts, "--env"), Some("b".to_string()));
    assert_eq!(opt(&opts, "--other"), None);
}

#[test]
fn the_clock_runs() {
    let a = now_secs();
    let b = now_millis();
    assert!(a > 1_600_000_000);
    assert!(b / 1000 >= a as u128);
    assert_eq!(secs_or_zero(None), 0);
    assert_eq!(secs_or_zero(Some(7)), 7);
    assert_eq!(millis_or_zero(None), 0);
    assert_eq!(millis_or_zero(Some(7)), 7);
}

#[test]
fn order_of_texts() {
    let mut v = strings(&["outer", "inner", "", "in", "Z", "环境", "z"]);
    v.sort();
    for i in 0..v.len() {
        for j in 0..v.len() {
            assert_eq!(comes_before(&v[i], &v[j]), i < j);
        }
    }
}

#[test]
fn tables_keep_one_value_for_a_name() {
    let mut t: Table<String> = Table::new();
    assert!(t.is_empty());
    t.insert("a".to_string(), "1".to_string());
    t.insert("b".to_string(), "2".to_string());
    t.insert("a".to_string(), "3".to_string());
    assert_eq!(t.len(), 2);
    assert_eq!(t.get("a"), Some(&"3".to_string()));
    assert_eq!(t.get("c"), None);
    assert_eq!(t.name_at(0), "a");
    assert_eq!(t.replace_at(1, "4".to_string()), "2");
    assert_eq!(t.get("b"), Some(&"4".to_string()));
}
