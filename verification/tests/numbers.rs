use sync_iobs::binary::Float;
use sync_iobs::civil::{civil_from_days, date_at, fmt_hms, fmt_time, today};
use sync_iobs::progress::{Moment, Progress, TaskState};
use sync_iobs::size::{human_bytes, parse_size};
use sync_iobs::tasks::task_detail;

fn size_by_doubles(s: &str) -> Option<u64> {
    let t = s.trim().to_uppercase().replace("IB", "B");
    let num: String = t.chars().take_while(|c| c.is_ascii_digit() || *c == '.').collect();
    let unit: String = t.chars().filter(|c| c.is_alphabetic()).collect();
    let n: f64 = num.parse().ok()?;
    let mul: u64 = match unit.as_str() {
        "" | "B" => 1,
        "K" | "KB" => 1024,
        "M" | "MB" => 1024 * 1024,
        "G" | "GB" => 1024 * 1024 * 1024,
        "T" | "TB" => 1024u64 * 1024 * 1024 * 1024,
        _ => return None,
    };
    Some((n * mul as f64) as u64)
}

fn text_by_doubles(n: u64) -> String {
    let units = ["B", "KB", "MB", "GB", "TB"];
    let mut v = n as f64;
    let mut i = 0;
    while v >= 1024.0 && i < 4 {
        v /= 1024.0;
        i += 1;
    }
    if i == 0 {
        format!("{}B", n)
    } else if v < 10.0 {
        format!("{:.2}{}", v, units[i])
    } else if v < 100.0 {
        format!("{:.1}{}", v, units[i])
    } else {
        format!("{:.0}{}", v, units[i])
    }
}

/// Numbers of all magnitudes.
fn samples() -> Vec<u64> {
    let mut v = vec![0, 1, 1023, 1024, 1025, u64::MAX];
    let mut x: u64 = 0x9e37_79b9_7f4a_7c15;
    for i in 0..3000u32 {
        x = x.wrapping_mul(6364136223846793005).wrapping_add(1442695040888963407);
        v.push(x >> (i % 64));
    }
    for k in 0..64 {
        let p = 1u64 << k;
        v.push(p);
        v.push(p - 1);
        v.push(p.wrapping_add(1));
        v.push(p.wrapping_add(p >> 1).wrapping_add(p >> 3));
    }
    v
}

#[test]
fn sizes_that_are_read() {
    for s in [
        "10MB", "512", "1GB", "1.5kb", "1.5 KiB", " 2T ", "0.1", "1e3", "", ".", ".5k", "5.", "1.2.3",
        "5 apples", "-1", "1MBs", "999999999999999999999999T", "0.000000000000000000000000001TB",
        "9007199254740993", "18446744073709551615", "18446744073709551616", "1ｋ", "３", "1ß",
        "0.3333333333333333333333333333333333T", "123456789.987654321M", "4.35GB", "1 0 K",
        "00000000000000000000000000000000000000000000000000007k", "0", "0.0TB", "1µ",
    ] {
        assert_eq!(parse_size(s), size_by_doubles(s), "{}", s);
    }
    assert_eq!(parse_size("1.5KB"), Some(1536));
    assert_eq!(parse_size("0.1KB"), Some(102));
    assert_eq!(parse_size("16777216TB"), Some(u64::MAX));
    assert_eq!(parse_size("x"), None);
}

#[test]
fn many_sizes_are_read() {
    for n in samples() {
        for u in ["", "k", "MiB", "GB", "t"] {
            let s = format!("{}{}", n, u);
            assert_eq!(parse_size(&s), size_by_doubles(&s), "{}", s);
            let s = format!("{}.{}{}", n % 1000, n, u);
            assert_eq!(parse_size(&s), size_by_doubles(&s), "{}", s);
        }
    }
}

#[test]
fn numerals_with_units() {
    assert_eq!(parse_size("9007199254740992"), Some(9007199254740992));
    assert_eq!(parse_size("9007199254740993"), Some(9007199254740992));
    assert_eq!(parse_size("3kib"), Some(3072));
    assert_eq!(parse_size("3ib"), Some(3));
    assert_eq!(parse_size("3q"), None);
}

#[test]
fn sizes_that_are_written() {
    assert_eq!(human_bytes(0), "0B");
    assert_eq!(human_bytes(1023), "1023B");
    assert_eq!(human_bytes(1024), "1.00KB");
    assert_eq!(human_bytes(1152), "1.12KB");
    assert_eq!(human_bytes(1536), "1.50KB");
    assert_eq!(human_bytes(10 * 1024), "10.0KB");
    assert_eq!(human_bytes(100 * 1024 * 1024), "100MB");
    assert_eq!(human_bytes(5 * 1024 * 1024), "5.00MB");
    assert_eq!(human_bytes(u64::MAX), "16777216TB");
    for n in samples() {
        assert_eq!(human_bytes(n), text_by_doubles(n), "{}", n);
    }
}

#[test]
fn doubles_in_integers() {
    let v = samples();
    for w in v.windows(2) {
        let (a, b) = (w[0], w[1]);
        assert_eq!(Float::from_u64(a, 53).to_u64(), a as f64 as u64);
        assert_eq!(Float::from_u64(a, 24).to_u64(), a as f32 as u64);
        if b > 0 {
            let q = Float::over(Float::from_u64(a, 53), Float::from_u64(b, 53), 53);
            let f = a as f64 / b as f64;
            assert_eq!(q.to_u64(), f as u64);
            assert_eq!(q.exceeds_one(), f > 1.0);
            assert_eq!(Float::times(q, 100, 53).to_u64(), (f * 100.0) as u64);
        }
        let f = f64::from_bits(a >> 2);
        if f.is_finite() {
            assert_eq!(Float::from_bits(a >> 2).to_u64(), f as u64);
        }
    }
}

fn dates_by_counting() -> Vec<(i64, u32, u32)> {
    let mut v = Vec::new();
    let (mut y, mut m, mut d) = (1970i64, 1u32, 1u32);
    for _ in 0..150000 {
        v.push((y, m, d));
        let leap = y % 4 == 0 && (y % 100 != 0 || y % 400 == 0);
        let len = match m {
            2 => {
                if leap {
                    29
                } else {
                    28
                }
            }
            4 | 6 | 9 | 11 => 30,
            _ => 31,
        };
        d += 1;
        if d > len {
            d = 1;
            m += 1;
        }
        if m > 12 {
            m = 1;
            y += 1;
        }
    }
    v
}

#[test]
fn dates_of_four_centuries() {
    for (i, date) in dates_by_counting().iter().enumerate() {
        assert_eq!(civil_from_days(i as i64), *date);
    }
}

#[test]
fn dates_before_the_epoch() {
    assert_eq!(civil_from_days(-1), (1969, 12, 31));
    assert_eq!(civil_from_days(-719468), (0, 3, 1));
    assert_eq!(civil_from_days(-719469), (0, 2, 29));
    assert_eq!(civil_from_days(-719529), (-1, 12, 31));
    assert_eq!(civil_from_days(-719468 - 146097), (-400, 3, 1));
}

#[test]
fn times_as_text() {
    assert_eq!(fmt_time(0), "1970-01-01 00:00:00");
    assert_eq!(fmt_time(951782399), "2000-02-28 23:59:59");
    assert_eq!(fmt_time(951782400), "2000-02-29 00:00:00");
    assert_eq!(fmt_time(1732761165), "2024-11-28 02:32:45");
    assert_eq!(fmt_hms(86399), "23:59:59");
    assert_eq!(fmt_hms(86400 + 3661), "01:01:01");
    assert_eq!(date_at(1732761165), "20241128");
    assert_eq!(today().len(), 8);
}

fn no_tasks() -> Vec<TaskState> {
    Vec::new()
}

fn at(secs: f64, since: u128) -> Moment {
    Moment { elapsed: secs.to_bits(), since_draw: since }
}

fn line_by_doubles(label: &str, done: u64, total: u64, secs: f64) -> String {
    let pct = if total > 0 {
        (done as f64 / total as f64 * 100.0) as u64
    } else {
        0
    };
    let filled = if total > 0 {
        (done as f64 / total as f64 * 26.0) as usize
    } else {
        0
    };
    let filled = filled.min(26);
    let bar = "#".repeat(filled) + &"-".repeat(26 - filled);
    let speed = if secs > 0.0 { done as f64 / secs } else { 0.0 };
    let speed_s = format!("{}/s", text_by_doubles(speed as u64));
    let eta_s = if total > done && speed > 1.0 {
        format!("  eta {}s", ((total - done) as f64 / speed) as u64)
    } else {
        String::new()
    };
    let size = if total > 0 {
        format!("  {}/{}", text_by_doubles(done), text_by_doubles(total))
    } else {
        format!("  {}", text_by_doubles(done))
    };
    format!("{} [{}] {:>3}%{}  {}{}", label, bar, pct, size, speed_s, eta_s)
}

#[test]
fn lines_on_a_terminal() {
    let v = samples();
    for (i, w) in v.windows(2).enumerate() {
        let secs = (i % 977) as f64 * 0.37;
        let mut p = Progress::new("上传", w[1], true, true);
        let out = p.set(w[0], &at(secs, 80_000_000), &mut no_tasks());
        assert_eq!(out, Some(format!("\r{}", line_by_doubles("上传", w[0], w[1], secs))));
    }
}

#[test]
fn a_line_in_full() {
    let mut p = Progress::new("下载", 10 * 1024 * 1024, true, false);
    let out = p.set(5 * 1024 * 1024, &at(2.0, 0), &mut no_tasks());
    assert_eq!(
        out.unwrap(),
        "下载 [#############-------------]  50%  5.00MB/10.0MB  2.50MB/s  eta 2s\n"
    );
}

#[test]
fn terminals_are_spared_lines() {
    let mut p = Progress::new("x", 100, true, true);
    assert!(p.set(10, &at(1.0, 79_999_999), &mut no_tasks()).is_none());
    assert!(p.set(10, &at(1.0, 80_000_000), &mut no_tasks()).is_some());
}

#[test]
fn a_line_for_every_five_per_cent() {
    let mut p = Progress::new("x", 100, true, false);
    let mut shown = Vec::new();
    for n in 1..=100 {
        if p.inc(1, &at(1.0, 0), &mut no_tasks()).is_some() {
            shown.push(n);
        }
    }
    let every: Vec<u64> = (1..=20).map(|k| 5 * k).collect();
    assert_eq!(shown, every);
    assert_eq!(p.done(), 100);
}

#[test]
fn progress_that_is_not_shown() {
    let mut p = Progress::new("x", 100, false, true);
    assert!(p.set(50, &at(1.0, 1 << 40), &mut no_tasks()).is_none());
    assert!(p.finish(&at(1.0, 0), &mut no_tasks()).is_none());
}

#[test]
fn the_end_comes_once() {
    let mut p = Progress::new("x", 4, true, false);
    p.set(4, &at(1.0, 0), &mut no_tasks());
    let out = p.finish(&at(1.0, 0), &mut no_tasks()).unwrap();
    assert_eq!(out, "x [##########################] 100%  4B/4B  4B/s\n\n");
    assert!(p.finish(&at(1.0, 0), &mut no_tasks()).is_none());
}

fn task(id: u64) -> TaskState {
    TaskState {
        id,
        kind: "上传".to_string(),
        name: "n".to_string(),
        key: "k".to_string(),
        out: String::new(),
        total: 0,
        done: 0,
        speed: 0,
        status: "running".to_string(),
        error: String::new(),
        url: String::new(),
    }
}

#[test]
fn progress_in_the_list() {
    let mut v = vec![task(1), task(2), task(2)];
    let mut p = Progress::for_shared(2);
    p.set_total(1000, &at(0.0, 0), &mut v);
    assert_eq!((v[1].total, v[1].done, v[1].speed), (1000, 0, 0));
    assert!(p.set(500, &at(0.0, 0), &mut v).is_none());
    // A time of zero counts as a millisecond.
    assert_eq!(v[1].speed, (500.0f64 / 0.001) as u64);
    p.set(500, &at(2.0, 0), &mut v);
    assert_eq!((v[1].done, v[1].speed, v[1].status.as_str()), (500, 250, "running"));
    p.finish(&at(4.0, 0), &mut v);
    assert_eq!((v[1].speed, v[1].status.as_str()), (125, "done"));
    assert_eq!((v[0].done, v[2].done), (0, 0));
    let mut other = Progress::for_shared(9);
    other.set(7, &at(1.0, 0), &mut v);
    assert_eq!(v[0].done + v[2].done, 0);
}

fn detail_by_floats(done: u64, total: u64, speed: u64) -> String {
    let frac = if total > 0 {
        (done as f32 / total as f32).clamp(0.0, 1.0)
    } else {
        0.0
    };
    let mut s = if total > 0 {
        format!(
            "{}% · {} / {} · {}/s",
            (frac * 100.0) as u32,
            text_by_doubles(done),
            text_by_doubles(total),
            text_by_doubles(speed)
        )
    } else {
        format!("已接收 {} · {}/s", text_by_doubles(done), text_by_doubles(speed))
    };
    if total > 0 && done < total && speed > 0 {
        s.push_str(&format!(" · 剩余 {}s", ((total - done) as f64 / speed as f64) as u64));
    }
    s
}

#[test]
fn details_of_a_task() {
    assert_eq!(task_detail(512, 1024, 100), "50% · 512B / 1.00KB · 100B/s · 剩余 5s");
    assert_eq!(task_detail(5, 0, 1), "已接收 5B · 1B/s");
    assert_eq!(task_detail(9, 3, 1), "100% · 9B / 3B · 1B/s");
    for w in samples().windows(3) {
        assert_eq!(task_detail(w[0], w[1], w[2]), detail_by_floats(w[0], w[1], w[2]));
    }
}

fn shown_percentage(done: u64, total: u64) -> u64 {
    let mut p = Progress::new("x", total, true, true);
    let line = p.set(done, &at(1.0, 80_000_000), &mut no_tasks()).unwrap();
    let end = line.find('%').unwrap();
    let start = line.find("] ").unwrap() + 2;
    line[start..end].trim().parse().unwrap()
}

#[test]
fn percentages_grow_up_to_a_hundred() {
    for total in [1u64, 7, 1000, 1 << 40, u64::MAX] {
        let mut last = 0;
        for k in 0..=1000u64 {
            let done = (total as u128 * k as u128 / 1000) as u64;
            let pct = shown_percentage(done, total);
            assert!(last <= pct && pct <= 100);
            last = pct;
        }
        assert_eq!(last, 100);
    }
}
