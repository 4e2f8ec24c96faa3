//! The Gregorian calendar: dates and times of day from seconds since the Unix
//! epoch, in UTC.

use vstd::prelude::*;
use vstd::string::*;
use crate::clock;
use crate::clock::now_secs;
use crate::text;
use crate::text::padded_numeral;

verus! {

/// Whether the year `y` has a February 29th.
pub open spec fn is_leap(y: int) -> bool {
    y % 4 == 0 && (y % 100 != 0 || y % 400 == 0)
}

/// The number of days of the month `m` of the year `y`.
pub open spec fn days_in_month(y: int, m: int) -> int {
    if m == 2 {
        if is_leap(y) {
            29
        } else {
            28
        }
    } else if m == 4 || m == 6 || m == 9 || m == 11 {
        30
    } else {
        31
    }
}

/// The number of days of the year `y` before the month `m`.
pub open spec fn days_before_month(y: int, m: int) -> int
    decreases m,
{
    if m <= 1 {
        0
    } else {
        days_before_month(y, m - 1) + days_in_month(y, m - 1)
    }
}

/// The number of days from January 1st of the year 0 to that of the year `y`.
pub open spec fn days_before_year(y: int) -> int {
    365 * y + (y + 3) / 4 - (y + 99) / 100 + (y + 399) / 400
}

/// Whether `y`, `m` and `d` are the year, month and day of a date.
pub open spec fn is_date(y: int, m: int, d: int) -> bool {
    1 <= m <= 12 && 1 <= d <= days_in_month(y, m)
}

/// The number of days from the Unix epoch, January 1st 1970, to a date.
pub open spec fn day_number(y: int, m: int, d: int) -> int {
    days_before_year(y) + days_before_month(y, m) + d - 1 - 719528
}

/// The days before each month.
proof fn lemma_months(y: int)
    ensures
        days_before_month(y, 1) == 0,
        days_before_month(y, 2) == 31,
        days_before_month(y, 3) == 31 + days_in_month(y, 2),
        days_before_month(y, 4) == 62 + days_in_month(y, 2),
        days_before_month(y, 5) == 92 + days_in_month(y, 2),
        days_before_month(y, 6) == 123 + days_in_month(y, 2),
        days_before_month(y, 7) == 153 + days_in_month(y, 2),
        days_before_month(y, 8) == 184 + days_in_month(y, 2),
        days_before_month(y, 9) == 215 + days_in_month(y, 2),
        days_before_month(y, 10) == 245 + days_in_month(y, 2),
        days_before_month(y, 11) == 276 + days_in_month(y, 2),
        days_before_month(y, 12) == 306 + days_in_month(y, 2),
        days_before_month(y, 13) == 337 + days_in_month(y, 2),
{
    let f = days_in_month(y, 2);
    assert(days_before_month(y, 1) == 0);
    assert(days_before_month(y, 2) == 31);
    assert(days_before_month(y, 3) == 31 + f);
    assert(days_before_month(y, 4) == 62 + f);
    assert(days_before_month(y, 5) == 92 + f);
    assert(days_before_month(y, 6) == 123 + f);
    assert(days_before_month(y, 7) == 153 + f);
    assert(days_before_month(y, 8) == 184 + f);
    assert(days_before_month(y, 9) == 215 + f);
    assert(days_before_month(y, 10) == 245 + f);
    assert(days_before_month(y, 11) == 276 + f);
    assert(days_before_month(y, 12) == 306 + f);
    assert(days_before_month(y, 13) == 337 + f);
}

/// A year has as many days as its months together.
#[verifier::spinoff_prover]
pub proof fn lemma_year_length(y: int)
    ensures
        days_before_year(y + 1) == days_before_year(y) + (if is_leap(y) {
            366int
        } else {
            365int
        }),
        days_before_month(y, 13) == (if is_leap(y) {
            366int
        } else {
            365int
        }),
{
    assert((y + 4) / 4 == (y + 3) / 4 + (if y % 4 == 0 {
        1int
    } else {
        0int
    }));
    assert((y + 100) / 100 == (y + 99) / 100 + (if y % 100 == 0 {
        1int
    } else {
        0int
    }));
    assert((y + 400) / 400 == (y + 399) / 400 + (if y % 400 == 0 {
        1int
    } else {
        0int
    }));
    lemma_months(y);
}

proof fn lemma_months_ordered(y: int, m: int, n: int)
    requires
        1 <= m <= n <= 13,
    ensures
        days_before_month(y, m) <= days_before_month(y, n),
    decreases n - m,
{
    if m < n {
        lemma_months_ordered(y, m, n - 1);
    }
}

proof fn lemma_years_ordered(y: int, z: int)
    requires
        y <= z,
    ensures
        days_before_year(y) <= days_before_year(z),
    decreases z - y,
{
    if y < z {
        lemma_years_ordered(y, z - 1);
        lemma_year_length(z - 1);
    }
}

/// Different dates have different day numbers, and a later date has the
/// greater one.
pub proof fn law_day_numbers_ordered(y: int, m: int, d: int, y2: int, m2: int, d2: int)
    requires
        is_date(y, m, d),
        is_date(y2, m2, d2),
        y < y2 || (y == y2 && (m < m2 || (m == m2 && d < d2))),
    ensures
        day_number(y, m, d) < day_number(y2, m2, d2),
{
    lemma_year_length(y);
    lemma_months_ordered(y, m + 1, 13);
    if y < y2 {
        lemma_years_ordered(y + 1, y2);
        lemma_months_ordered(y2, 1, m2);
    } else if m < m2 {
        lemma_months_ordered(y, m + 1, m2);
    }
}

/// The number of days before the year `k` of a cycle of four hundred years,
/// with years that start in March.
spec fn days_before_cycle_year(k: int) -> int {
    365 * k + k / 4 - k / 100
}

#[verifier::rlimit(60)]
#[verifier::spinoff_prover]
proof fn lemma_year_of_cycle(doe: int)
    requires
        0 <= doe < 146097,
    ensures
        ({
            let yoe = (doe - doe / 1460 + doe / 36524 - doe / 146096) / 365;
            let doy = doe - days_before_cycle_year(yoe);
            &&& 0 <= yoe < 400
            &&& 0 <= doy <= 365
            &&& doy == 365 ==> (yoe + 1) % 4 == 0 && ((yoe + 1) % 100 != 0 || yoe == 399)
        }),
{
}

/// The number of days before the month `mp`, counted from zero, of a year that
/// starts in March.
spec fn days_before_march_month(mp: int) -> int {
    (153 * mp + 2) / 5
}

#[verifier::spinoff_prover]
proof fn lemma_month_of_year(doy: int)
    requires
        0 <= doy <= 365,
    ensures
        ({
            let mp = (5 * doy + 2) / 153;
            let d = doy - days_before_march_month(mp) + 1;
            &&& 0 <= mp <= 11
            &&& 1 <= d <= 31
            &&& d == 31 ==> mp != 1 && mp != 3 && mp != 6 && mp != 8
            &&& mp == 11 ==> d <= 29
            &&& mp == 11 && d == 29 ==> doy == 365
        }),
{
}

/// The day number of the day `d` of the month `mp` of the year `y`, where
/// years start in March.
#[verifier::spinoff_prover]
proof fn lemma_from_march(y: int, mp: int, d: int)
    requires
        0 <= mp <= 11,
    ensures
        ({
            let m = if mp < 10 {
                mp + 3
            } else {
                mp - 9
            };
            let year = if m <= 2 {
                y + 1
            } else {
                y
            };
            day_number(year, m, d) == 365 * y + y / 4 - y / 100 + y / 400
                + days_before_march_month(mp) + d - 1 - 719468
        }),
{
    lemma_months(y);
    lemma_months(y + 1);
    assert((y + 3) / 4 == y / 4 + (if y % 4 == 0 {
        0int
    } else {
        1int
    }));
    assert((y + 99) / 100 == y / 100 + (if y % 100 == 0 {
        0int
    } else {
        1int
    }));
    assert((y + 399) / 400 == y / 400 + (if y % 400 == 0 {
        0int
    } else {
        1int
    }));
    assert((y + 4) / 4 == y / 4 + 1);
    assert((y + 100) / 100 == y / 100 + 1);
    assert((y + 400) / 400 == y / 400 + 1);
    if mp == 0 {
    } else if mp == 1 {
    } else if mp == 2 {
    } else if mp == 3 {
    } else if mp == 4 {
    } else if mp == 5 {
    } else if mp == 6 {
    } else if mp == 7 {
    } else if mp == 8 {
    } else if mp == 9 {
    } else if mp == 10 {
    } else {
    }
}

/// Whole cycles add to the quotient by `k`, and leave the remainder.
proof fn lemma_quotient(x: int, era: int, k: int, per_cycle: int)
    requires
        k > 0,
        k * per_cycle == 400,
    ensures
        (x + era * 400) / k == x / k + era * per_cycle,
        (x + era * 400) % k == x % k,
{
    vstd::arithmetic::div_mod::lemma_fundamental_div_mod(x, k);
    let q = x / k;
    let r = x % k;
    assert(x + era * 400 == (q + era * per_cycle) * k + r) by (nonlinear_arith)
        requires
            x == k * q + r,
            k * per_cycle == 400,
    ;
    vstd::arithmetic::div_mod::lemma_fundamental_div_mod_converse(
        x + era * 400,
        k,
        q + era * per_cycle,
        r,
    );
}

/// Where a year lies in its cycle does not change its leap day or its start.
#[verifier::spinoff_prover]
proof fn lemma_cycle(era: int, yoe: int)
    requires
        0 <= yoe < 400,
    ensures
        ({
            let y = yoe + era * 400;
            &&& 365 * y + y / 4 - y / 100 + y / 400 == era * 146097 + days_before_cycle_year(yoe)
            &&& is_leap(y + 1) == ((yoe + 1) % 4 == 0 && ((yoe + 1) % 100 != 0 || yoe == 399))
        }),
{
    let y = yoe + era * 400;
    lemma_quotient(yoe, era, 4, 100);
    lemma_quotient(yoe, era, 100, 4);
    lemma_quotient(yoe, era, 400, 1);
    lemma_quotient(yoe + 1, era, 4, 100);
    lemma_quotient(yoe + 1, era, 100, 4);
    lemma_quotient(yoe + 1, era, 400, 1);
    assert(yoe / 400 == 0);
    assert((yoe + 1) % 400 == 0 <==> yoe == 399);
    assert(yoe == 399 ==> (yoe + 1) % 4 == 0 && (yoe + 1) % 100 == 0);
    assert(y + 1 == (yoe + 1) + era * 400);
}

/// The date whose day number is `z`.
pub fn civil_from_days(z: i64) -> (r: (i64, u32, u32))
    requires
        z <= i64::MAX - 719468,
    ensures
        is_date(r.0 as int, r.1 as int, r.2 as int),
        day_number(r.0 as int, r.1 as int, r.2 as int) == z,
{
    // Counted from March 1st of the year 0.
    let days: i64 = z + 719468;
    let era: i64 = if days >= 0 {
        days / 146097
    } else {
        -((146096 - days) / 146097)
    };
    let doe: i64 = days - era * 146097;
    proof {
        lemma_year_of_cycle(doe as int);
    }
    let yoe: i64 = (doe - doe / 1460 + doe / 36524 - doe / 146096) / 365;
    let y: i64 = yoe + era * 400;
    let doy: i64 = doe - (365 * yoe + yoe / 4 - yoe / 100);
    proof {
        lemma_month_of_year(doy as int);
    }
    let mp: i64 = (5 * doy + 2) / 153;
    let d: u32 = (doy - (153 * mp + 2) / 5 + 1) as u32;
    let m: u32 = if mp < 10 {
        (mp + 3) as u32
    } else {
        (mp - 9) as u32
    };
    let year: i64 = if m <= 2 {
        y + 1
    } else {
        y
    };
    proof {
        lemma_cycle(era as int, yoe as int);
        lemma_from_march(y as int, mp as int, d as int);
    }
    (year, m, d)
}

/// The date with the day number `z`: its year, month and day.
pub open spec fn date_of(z: int) -> (int, int, int) {
    choose|r: (int, int, int)|
        #[trigger] is_date(r.0, r.1, r.2) && day_number(r.0, r.1, r.2) == z
}

/// A date is the one with its day number.
pub proof fn law_date_of(y: int, m: int, d: int)
    requires
        is_date(y, m, d),
    ensures
        date_of(day_number(y, m, d)) == (y, m, d),
{
    let r = (y, m, d);
    assert(is_date(r.0, r.1, r.2) && day_number(r.0, r.1, r.2) == day_number(y, m, d));
    let s = date_of(day_number(y, m, d));
    assert(is_date(s.0, s.1, s.2) && day_number(s.0, s.1, s.2) == day_number(y, m, d));
    if s != r {
        if s.0 < y || (s.0 == y && (s.1 < m || (s.1 == m && s.2 < d))) {
            law_day_numbers_ordered(s.0, s.1, s.2, y, m, d);
        } else {
            law_day_numbers_ordered(y, m, d, s.0, s.1, s.2);
        }
    }
}

/// The numeral of `n`, filled up with zeros to at least `width` digits.
pub open spec fn padded(n: int, width: nat) -> Seq<char> {
    text::zero_padded(text::decimal(n as nat), width)
}

/// A date as year, month and day, with `sep` between them.
pub open spec fn date_text(secs: nat, sep: Seq<char>) -> Seq<char> {
    let (y, m, d) = date_of(secs as int / 86400);
    padded(y, 4) + sep + padded(m, 2) + sep + padded(d, 2)
}

/// The time of day as hours, minutes and seconds.
pub open spec fn time_text(secs: nat) -> Seq<char> {
    let t = secs % 86400;
    padded(t as int / 3600, 2) + ":"@ + padded((t as int % 3600) / 60, 2) + ":"@ + padded(
        t as int % 60,
        2,
    )
}

fn date_with(secs: u64, sep: &str) -> (s: String)
    ensures
        s@ == date_text(secs as nat, sep@),
{
    let days: i64 = (secs / 86400) as i64;
    let (y, m, d) = civil_from_days(days);
    proof {
        law_date_of(y as int, m as int, d as int);
        if y < 1970 {
            lemma_months(1970);
            assert(day_number(1970, 1, 1) == 0);
            law_day_numbers_ordered(y as int, m as int, d as int, 1970, 1, 1);
        }
    }
    let mut s = padded_numeral(y as u128, 4);
    s.append(sep);
    s.append(padded_numeral(m as u128, 2).as_str());
    s.append(sep);
    s.append(padded_numeral(d as u128, 2).as_str());
    s
}

/// The time of day of `secs`, as `HH:MM:SS`.
pub fn fmt_hms(secs: u64) -> (s: String)
    ensures
        s@ == time_text(secs as nat),
{
    let t: u64 = secs % 86400;
    let mut s = padded_numeral((t / 3600) as u128, 2);
    s.append(":");
    s.append(padded_numeral(((t % 3600) / 60) as u128, 2).as_str());
    s.append(":");
    s.append(padded_numeral((t % 60) as u128, 2).as_str());
    s
}

/// The date and the time of day of `secs`, as `YYYY-MM-DD HH:MM:SS`.
pub fn fmt_time(secs: u64) -> (s: String)
    ensures
        s@ == date_text(secs as nat, "-"@) + " "@ + time_text(secs as nat),
{
    let mut s = date_with(secs, "-");
    s.append(" ");
    s.append(fmt_hms(secs).as_str());
    s
}

/// The date of `secs`, as `YYYYMMDD`.
pub fn date_at(secs: u64) -> (s: String)
    ensures
        s@ == date_text(secs as nat, Seq::empty()),
{
    let s = date_with(secs, "");
    proof {
        reveal_strlit("");
        assert(""@ =~= Seq::empty());
    }
    s
}

/// The date of the time that the clock reads, as `YYYYMMDD`.
pub fn today() -> (s: String)
    ensures
        exists|r: Result<std::time::Duration, std::time::SystemTimeError>, secs: u64|
            #[trigger] clock::secs_read(r, secs) && s@ == date_text(secs as nat, Seq::empty()),
{
    let secs: u64 = now_secs();
    date_at(secs)
}

// ---------------------------------------------------------------------------
// The calendar, day by day.
// ---------------------------------------------------------------------------

/// The months have their days: thirty for April, June, September and November,
/// twenty-eight for February, or twenty-nine in a leap year, and thirty-one for
/// the others. A leap year is one whose number can be divided by four, but not
/// by a hundred, or by four hundred.
pub proof fn law_months(y: int, m: int, d: int)
    ensures
        is_date(y, m, d) <==> 1 <= m <= 12 && 1 <= d && d <= (if m == 4 || m == 6 || m == 9 || m
            == 11 {
            30int
        } else if m == 2 {
            if (y % 4 == 0 && y % 100 != 0) || y % 400 == 0 {
                29int
            } else {
                28int
            }
        } else {
            31int
        }),
{
    assert(y % 400 == 0 ==> y % 4 == 0);
}

/// The days are counted one by one from the first of January 1970: the next day
/// of a month, the first of the next month, and the first of the next year each
/// follow the day before them.
pub proof fn law_days_counted(y: int, m: int, d: int)
    requires
        is_date(y, m, d),
        y >= 0,
    ensures
        day_number(1970, 1, 1) == 0,
        is_date(y, m, d + 1) ==> day_number(y, m, d + 1) == day_number(y, m, d) + 1,
        !is_date(y, m, d + 1) && m < 12 ==> day_number(y, m + 1, 1) == day_number(y, m, d) + 1,
        !is_date(y, m, d + 1) && m == 12 ==> day_number(y + 1, 1, 1) == day_number(y, m, d) + 1,
{
    lemma_months(1970);
    lemma_months(y);
    lemma_months(y + 1);
    lemma_year_length(y);
}

/// A date is written as its year with four digits, and its month and its day
/// with two, of the day that the seconds fall on.
pub proof fn law_date_written(secs: u64, s: String, y: int, m: int, d: int)
    requires
        call_ensures(date_at, (secs,), s),
        is_date(y, m, d),
        y >= 0,
        day_number(y, m, d) == secs as int / 86400,
    ensures
        s@ == text::zero_padded(text::decimal(y as nat), 4) + text::zero_padded(
            text::decimal(m as nat),
            2,
        ) + text::zero_padded(text::decimal(d as nat), 2),
{
    law_date_of(y, m, d);
    let none = Seq::<char>::empty();
    assert(padded(y, 4) + none + padded(m, 2) + none + padded(d, 2) =~= padded(y, 4) + padded(m, 2)
        + padded(d, 2));
}

/// The time of day is written as hours, minutes and seconds, with two digits
/// each, whatever the day is.
pub proof fn law_time_written(secs: u64, r: String, day: nat, h: nat, min: nat, s: nat)
    requires
        call_ensures(fmt_hms, (secs,), r),
        secs == 86400 * day + 3600 * h + 60 * min + s,
        h < 24,
        min < 60,
        s < 60,
    ensures
        r@ == text::zero_padded(text::decimal(h), 2) + ":"@ + text::zero_padded(
            text::decimal(min),
            2,
        ) + ":"@ + text::zero_padded(text::decimal(s), 2),
{
    let t = secs as nat % 86400;
    assert(t == 3600 * h + 60 * min + s) by {
        vstd::arithmetic::div_mod::lemma_fundamental_div_mod_converse(
            secs as int,
            86400,
            day as int,
            (3600 * h + 60 * min + s) as int,
        );
    }
    assert(t as int / 3600 == h);
    assert((t as int % 3600) / 60 == min);
    assert(t as int % 60 == s);
}

/// Date and time together are the date, with dashes, and the time of day.
pub proof fn law_moment_written(
    secs: u64,
    r: String,
    time: String,
    y: int,
    m: int,
    d: int,
)
    requires
        call_ensures(fmt_time, (secs,), r),
        call_ensures(fmt_hms, (secs,), time),
        is_date(y, m, d),
        y >= 0,
        day_number(y, m, d) == secs as int / 86400,
    ensures
        r@ == text::zero_padded(text::decimal(y as nat), 4) + "-"@ + text::zero_padded(
            text::decimal(m as nat),
            2,
        ) + "-"@ + text::zero_padded(text::decimal(d as nat), 2) + " "@ + time@,
{
    law_date_of(y, m, d);
}

} // verus!
