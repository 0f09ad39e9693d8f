//! Civil dates and UTC timestamps from a count of days or seconds since
//! 1970-01-01, in the proleptic Gregorian calendar.

use vstd::prelude::*;
use vstd::arithmetic::div_mod::{lemma_fundamental_div_mod, lemma_fundamental_div_mod_converse};
use crate::text::{push_char, push_padded, zero_padded};

verus! {

/// A leap year of the Gregorian calendar.
pub open spec fn is_leap(y: int) -> bool {
    (y % 4 == 0 && y % 100 != 0) || y % 400 == 0
}

/// The number of days in month `m` (1-12) of year `y`.
pub open spec fn days_in_month(y: int, m: int) -> int {
    if m == 2 {
        if is_leap(y) { 29 } else { 28 }
    } else if m == 4 || m == 6 || m == 9 || m == 11 {
        30
    } else {
        31
    }
}

/// The number of days in the months of year `y` before month `m`.
pub open spec fn days_before_month(y: int, m: int) -> int {
    let common: int = if m == 1 { 0 } else if m == 2 { 31 } else if m == 3 { 59 } else if m == 4 { 90 }
        else if m == 5 { 120 } else if m == 6 { 151 } else if m == 7 { 181 } else if m == 8 { 212 }
        else if m == 9 { 243 } else if m == 10 { 273 } else if m == 11 { 304 } else { 334 };
    if m > 2 && is_leap(y) { common + 1 } else { common }
}

/// The number of days in the years before year `y`, counted from year 1
/// (negative for years before it).
pub open spec fn days_before_year(y: int) -> int {
    365 * (y - 1) + (y - 1) / 4 - (y - 1) / 100 + (y - 1) / 400
}

/// The number of days from 1970-01-01 to `y-m-d`.
pub open spec fn days_from_civil(y: int, m: int, d: int) -> int {
    days_before_year(y) - days_before_year(1970) + days_before_month(y, m) + d - 1
}

/// A real date: a month of the year and a day of that month.
pub open spec fn is_valid_date(y: int, m: int, d: int) -> bool {
    1 <= m <= 12 && 1 <= d <= days_in_month(y, m)
}

/// Days from March 1 of year 0 of a 400-year era to March 1 of its year `k`.
pub open spec fn march_year_start(k: int) -> int {
    365 * k + k / 4 - k / 100
}

proof fn lemma_div_shift(a: int, n: int, d: int)
    requires
        d > 0,
    ensures
        (a + d * n) / d == a / d + n,
{
    lemma_fundamental_div_mod(a, d);
    assert(a + d * n == (a / d + n) * d + a % d) by (nonlinear_arith)
        requires
            a == d * (a / d) + a % d,
    ;
    lemma_fundamental_div_mod_converse(a + d * n, d, a / d + n, a % d);
}

/// Whole 400-year eras shift the day count by 146097 days each.
proof fn lemma_days_before_year_shift(e: int, j: int)
    ensures
        days_before_year(400 * e + j) == 146097 * e + days_before_year(j),
{
    lemma_div_shift(j - 1, 100 * e, 4);
    lemma_div_shift(j - 1, 4 * e, 100);
    lemma_div_shift(j - 1, e, 400);
    assert(400 * e + j - 1 == (j - 1) + 4 * (100 * e));
    assert(400 * e + j - 1 == (j - 1) + 100 * (4 * e));
    assert(400 * e + j - 1 == (j - 1) + 400 * e);
}

/// Leap years repeat every 400 years.
proof fn lemma_leap_shift(e: int, j: int)
    ensures
        is_leap(400 * e + j) == is_leap(j),
{
    lemma_div_shift(j, 100 * e, 4);
    lemma_div_shift(j, 4 * e, 100);
    lemma_div_shift(j, e, 400);
    lemma_fundamental_div_mod(j, 4);
    lemma_fundamental_div_mod(j, 100);
    lemma_fundamental_div_mod(j, 400);
    lemma_fundamental_div_mod(400 * e + j, 4);
    lemma_fundamental_div_mod(400 * e + j, 100);
    lemma_fundamental_div_mod(400 * e + j, 400);
}

/// How March-based years of an era line up with January-based ones.
proof fn lemma_march_years(k: int)
    requires
        0 <= k <= 399,
    ensures
        march_year_start(k) - days_before_year(k) - (if is_leap(k) { 1int } else { 0int }) == 365,
        days_before_year(k + 1) == march_year_start(k),
{
    lemma_fundamental_div_mod(k, 4);
    lemma_fundamental_div_mod(k, 100);
    lemma_fundamental_div_mod(k, 400);
    lemma_fundamental_div_mod(k - 1, 4);
    lemma_fundamental_div_mod(k - 1, 100);
    lemma_fundamental_div_mod(k - 1, 400);
}

/// The March-based year of a day of an era, and the day within that year.
proof fn lemma_year_of_era(d: u32)
    by (bit_vector)
    requires
        d <= 146096,
    ensures
        ({
            let yoe = (d - d / 1460 + d / 36524 - d / 146096) / 365;
            let f = 365 * yoe + yoe / 4 - yoe / 100;
            &&& yoe <= 399
            &&& f <= d
            &&& d - f <= 365
            &&& d - f == 365 ==> ((yoe + 1) % 4 == 0 && ((yoe + 1) % 100 != 0 || (yoe + 1) % 400 == 0))
        }),
{
}

/// The March-based month of a day of a March-based year.
proof fn lemma_month_of_year(doy: u32)
    by (bit_vector)
    requires
        doy <= 365,
    ensures
        ({
            let mp = (5 * doy + 2) / 153;
            let s = (153 * mp + 2) / 5;
            &&& mp <= 11
            &&& s <= doy
            &&& mp < 11 ==> doy < (153 * (mp + 1) + 2) / 5
            &&& mp == 11 ==> s == 337
        }),
{
}

/// The 400-year era of a day count from March 1 of year 0.
fn era_of(z: i64) -> (era: i64)
    requires
        z >= i64::MIN + 719_468,
    ensures
        era * 146_097 <= z < era * 146_097 + 146_097,
{
    let n = if z >= 0 { z } else { z - 146_096 };
    n / 146_097
}

/// The March-based year of era day `doe` and the day within that year.
fn year_of_era(doe: i64) -> (res: (i64, i64))
    requires
        0 <= doe <= 146_096,
    ensures
        0 <= res.0 <= 399,
        res.1 == doe - march_year_start(res.0 as int),
        0 <= res.1 <= 365,
        res.1 == 365 ==> is_leap(res.0 + 1),
{
    proof {
        lemma_year_of_era(doe as u32);
    }
    let yoe = (doe - doe / 1460 + doe / 36_524 - doe / 146_096) / 365;
    let doy = doe - (365 * yoe + yoe / 4 - yoe / 100);
    (yoe, doy)
}

/// The month (1-12, March-based year) and day of day `doy` of a March-based
/// year.
fn month_of_year(doy: i64) -> (res: (i64, u32, u32))
    requires
        0 <= doy <= 365,
    ensures
        0 <= res.0 <= 11,
        res.1 == (if res.0 < 10 { res.0 + 3 } else { res.0 - 9 }),
        res.2 == doy - (153 * res.0 + 2) / 5 + 1,
        res.2 >= 1,
        res.0 < 11 ==> doy < (153 * (res.0 + 1) + 2) / 5,
        res.0 == 11 ==> (153 * res.0 + 2) / 5 == 337,
{
    proof {
        lemma_month_of_year(doy as u32);
    }
    let mp = (5 * doy + 2) / 153;
    let d = (doy - (153 * mp + 2) / 5 + 1) as u32;
    let m = if mp < 10 { mp + 3 } else { mp - 9 } as u32;
    (mp, m, d)
}

/// The date assembled from an era, a March-based year of it and a day of
/// that year is a real date, `146097 * era + doe - 719468` days after
/// 1970-01-01.
proof fn lemma_civil(e: int, yoe: int, doy: int, mp: int, m: int, d: int)
    requires
        0 <= yoe <= 399,
        0 <= doy <= 365,
        doy == 365 ==> is_leap(yoe + 1),
        0 <= mp <= 11,
        m == (if mp < 10 { mp + 3 } else { mp - 9 }),
        d == doy - (153 * mp + 2) / 5 + 1,
        d >= 1,
        mp < 11 ==> doy < (153 * (mp + 1) + 2) / 5,
        mp == 11 ==> (153 * mp + 2) / 5 == 337,
    ensures
        ({
            let year = if m <= 2 { 400 * e + yoe + 1 } else { 400 * e + yoe };
            &&& is_valid_date(year, m, d)
            &&& days_from_civil(year, m, d) == 146097 * e + march_year_start(yoe) + doy - 719468
        }),
{
    lemma_march_years(yoe);
    lemma_days_before_year_shift(e, yoe);
    lemma_days_before_year_shift(e, yoe + 1);
    lemma_leap_shift(e, yoe);
    lemma_leap_shift(e, yoe + 1);
    assert(days_before_year(1970) == 719162);
    if mp == 0 { assert((153 * mp + 2) / 5 == 0 && (153 * (mp + 1) + 2) / 5 == 31); }
    else if mp == 1 { assert((153 * mp + 2) / 5 == 31 && (153 * (mp + 1) + 2) / 5 == 61); }
    else if mp == 2 { assert((153 * mp + 2) / 5 == 61 && (153 * (mp + 1) + 2) / 5 == 92); }
    else if mp == 3 { assert((153 * mp + 2) / 5 == 92 && (153 * (mp + 1) + 2) / 5 == 122); }
    else if mp == 4 { assert((153 * mp + 2) / 5 == 122 && (153 * (mp + 1) + 2) / 5 == 153); }
    else if mp == 5 { assert((153 * mp + 2) / 5 == 153 && (153 * (mp + 1) + 2) / 5 == 184); }
    else if mp == 6 { assert((153 * mp + 2) / 5 == 184 && (153 * (mp + 1) + 2) / 5 == 214); }
    else if mp == 7 { assert((153 * mp + 2) / 5 == 214 && (153 * (mp + 1) + 2) / 5 == 245); }
    else if mp == 8 { assert((153 * mp + 2) / 5 == 245 && (153 * (mp + 1) + 2) / 5 == 275); }
    else if mp == 9 { assert((153 * mp + 2) / 5 == 275 && (153 * (mp + 1) + 2) / 5 == 306); }
    else if mp == 10 { assert((153 * mp + 2) / 5 == 306 && (153 * (mp + 1) + 2) / 5 == 337); }
}

/// A year has 365 days, one more when it is a leap year.
pub proof fn lemma_year_length(y: int)
    ensures
        days_before_year(y + 1) == days_before_year(y) + 365 + (if is_leap(y) { 1int } else { 0int }),
{
    lemma_fundamental_div_mod(y, 4);
    lemma_fundamental_div_mod(y, 100);
    lemma_fundamental_div_mod(y, 400);
    lemma_fundamental_div_mod(y - 1, 4);
    lemma_fundamental_div_mod(y - 1, 100);
    lemma_fundamental_div_mod(y - 1, 400);
}

/// Later years start at least 365 days per year later.
pub proof fn lemma_days_before_year_monotone(a: int, b: int)
    requires
        a <= b,
    ensures
        days_before_year(a) + 365 * (b - a) <= days_before_year(b),
    decreases b - a,
{
    if a < b {
        lemma_days_before_year_monotone(a, b - 1);
        lemma_year_length(b - 1);
    }
}

/// A date's day of the year lies within that year.
proof fn lemma_day_of_year(y: int, m: int, d: int)
    requires
        is_valid_date(y, m, d),
    ensures
        0 <= days_before_month(y, m) + d - 1 < 365 + (if is_leap(y) { 1int } else { 0int }),
{
}

/// Within a year, later months start after every day of earlier ones.
proof fn lemma_month_order(y: int, m1: int, d1: int, m2: int, d2: int)
    requires
        is_valid_date(y, m1, d1),
        is_valid_date(y, m2, d2),
        m1 < m2,
    ensures
        days_before_month(y, m1) + d1 < days_before_month(y, m2) + d2,
{
}

/// Different dates are different days: a valid date is determined by its
/// day count.
pub proof fn lemma_days_from_civil_injective(y1: int, m1: int, d1: int, y2: int, m2: int, d2: int)
    requires
        is_valid_date(y1, m1, d1),
        is_valid_date(y2, m2, d2),
        days_from_civil(y1, m1, d1) == days_from_civil(y2, m2, d2),
    ensures
        y1 == y2 && m1 == m2 && d1 == d2,
{
    lemma_day_of_year(y1, m1, d1);
    lemma_day_of_year(y2, m2, d2);
    if y1 < y2 {
        lemma_year_length(y1);
        lemma_days_before_year_monotone(y1 + 1, y2);
    } else if y2 < y1 {
        lemma_year_length(y2);
        lemma_days_before_year_monotone(y2 + 1, y1);
    } else if m1 < m2 {
        lemma_month_order(y1, m1, d1, m2, d2);
    } else if m2 < m1 {
        lemma_month_order(y1, m2, d2, m1, d1);
    }
}

/// The civil date of a day count since 1970-01-01.
pub open spec fn civil_date(z: int) -> (int, int, int) {
    choose|t: (int, int, int)| is_valid_date(t.0, t.1, t.2) && days_from_civil(t.0, t.1, t.2) == z
}

/// Counting the days of a real date and turning the count back into a date
/// gives the same date.
pub proof fn lemma_civil_date_round_trip(y: int, m: int, d: int)
    requires
        is_valid_date(y, m, d),
    ensures
        civil_date(days_from_civil(y, m, d)) == (y, m, d),
{
    let z = days_from_civil(y, m, d);
    let t = (y, m, d);
    assert(is_valid_date(t.0, t.1, t.2) && days_from_civil(t.0, t.1, t.2) == z);
    let c = civil_date(z);
    lemma_days_from_civil_injective(y, m, d, c.0, c.1, c.2);
}

/// Days on or after 1970-01-01 fall in 1970 or later.
pub proof fn lemma_year_from_epoch(y: int, m: int, d: int)
    requires
        is_valid_date(y, m, d),
        days_from_civil(y, m, d) >= 0,
    ensures
        y >= 1970,
{
    if y < 1970 {
        lemma_day_of_year(y, m, d);
        lemma_year_length(y);
        lemma_days_before_year_monotone(y + 1, 1970);
    }
}

/// Convert days since 1970-01-01 to a (year, month, day) civil date.
pub fn civil_from_days(z: i64) -> (res: (i64, u32, u32))
    requires
        z <= i64::MAX - 719_468,
    ensures
        is_valid_date(res.0 as int, res.1 as int, res.2 as int),
        days_from_civil(res.0 as int, res.1 as int, res.2 as int) == z,
        (res.0 as int, res.1 as int, res.2 as int) == civil_date(z as int),
{
    let z0 = z;
    let z = z + 719_468;
    let era = era_of(z);
    let doe = z - era * 146_097;
    let (yoe, doy) = year_of_era(doe);
    let y = yoe + era * 400;
    let (mp, m, d) = month_of_year(doy);
    proof {
        lemma_civil(era as int, yoe as int, doy as int, mp as int, m as int, d as int);
    }
    let res = (if m <= 2 { y + 1 } else { y }, m, d);
    proof {
        let t = (res.0 as int, res.1 as int, res.2 as int);
        assert(is_valid_date(t.0, t.1, t.2) && days_from_civil(t.0, t.1, t.2) == z0);
        let c = civil_date(z0 as int);
        lemma_days_from_civil_injective(t.0, t.1, t.2, c.0, c.1, c.2);
    }
    res
}

/// `YYYY-MM-DD hh:mm:ss UTC` for `secs` seconds after 1970-01-01 00:00:00
/// UTC: the civil date of the day, then the time of day, each field
/// zero-padded (the year to at least four digits).
pub open spec fn utc_timestamp_spec(secs: nat) -> Seq<char> {
    let date = civil_date(secs as int / 86400);
    let sod = secs % 86400;
    zero_padded(date.0 as nat, 4) + seq!['-'] + zero_padded(date.1 as nat, 2) + seq!['-']
        + zero_padded(date.2 as nat, 2) + seq![' '] + zero_padded(sod / 3600, 2) + seq![':']
        + zero_padded((sod % 3600) / 60, 2) + seq![':'] + zero_padded(sod % 60, 2)
        + seq![' ', 'U', 'T', 'C']
}

/// The UTC timestamp text of a count of seconds since the Unix epoch.
pub fn utc_timestamp(secs: u64) -> (res: String)
    ensures
        res@ == utc_timestamp_spec(secs as nat),
{
    let days = secs / 86_400;
    let (y, m, d) = civil_from_days(days as i64);
    proof {
        lemma_year_from_epoch(y as int, m as int, d as int);
    }
    let sod = secs % 86_400;
    let mut out = String::new();
    push_padded(&mut out, y as u64, 4);
    push_char(&mut out, '-');
    push_padded(&mut out, m as u64, 2);
    push_char(&mut out, '-');
    push_padded(&mut out, d as u64, 2);
    push_char(&mut out, ' ');
    push_padded(&mut out, sod / 3600, 2);
    push_char(&mut out, ':');
    push_padded(&mut out, (sod % 3600) / 60, 2);
    push_char(&mut out, ':');
    push_padded(&mut out, sod % 60, 2);
    push_char(&mut out, ' ');
    push_char(&mut out, 'U');
    push_char(&mut out, 'T');
    push_char(&mut out, 'C');
    proof {
        assert(out@ =~= utc_timestamp_spec(secs as nat));
    }
    out
}

} // verus!
