//! The Gregorian calendar: unix time to date and time of day (UTC).

use vstd::prelude::*;

verus! {

/// Whether `y` is a leap year.
pub open spec fn is_leap(y: int) -> bool {
    y % 4 == 0 && (y % 100 != 0 || y % 400 == 0)
}

/// How many leap years there are from year 1 up to, not counting, year `y`.
pub open spec fn leap_years_before(y: int) -> int {
    (y - 1) / 4 - (y - 1) / 100 + (y - 1) / 400
}

/// Days from 1970-01-01 to January 1 of year `y`.
pub open spec fn year_start(y: int) -> int {
    365 * (y - 1970) + leap_years_before(y) - leap_years_before(1970)
}

/// Days in month `m` of year `y`.
pub open spec fn month_length(y: int, m: int) -> int {
    if m == 2 {
        if is_leap(y) {
            29
        } else {
            28
        }
    } else if m == 4 || m == 6 || m == 9 || m == 11 {
        30
    } else {
        31
    }
}

/// Days of year `y` in front of month `m`.
pub open spec fn month_start(y: int, m: int) -> int
    decreases m,
{
    if m <= 1 {
        0
    } else {
        month_start(y, m - 1) + month_length(y, m - 1)
    }
}

/// Days from 1970-01-01 to a date.
pub open spec fn day_number(y: int, m: int, d: int) -> int {
    year_start(y) + month_start(y, m) + d - 1
}

/// Whether there is such a date.
pub open spec fn is_date(y: int, m: int, d: int) -> bool {
    1 <= m <= 12 && 1 <= d <= month_length(y, m)
}

/// A year starts 365 days after the one before, 366 when that was a leap year.
pub proof fn lemma_year_length(y: int)
    ensures
        year_start(y + 1) - year_start(y) == if is_leap(y) {
            366int
        } else {
            365
        },
{
}

proof fn lemma_month_starts(y: int)
    ensures
        month_start(y, 1) == 0,
        month_start(y, 2) == 31,
        month_start(y, 3) == 31 + month_length(y, 2),
        month_start(y, 4) == 62 + month_length(y, 2),
        month_start(y, 5) == 92 + month_length(y, 2),
        month_start(y, 6) == 123 + month_length(y, 2),
        month_start(y, 7) == 153 + month_length(y, 2),
        month_start(y, 8) == 184 + month_length(y, 2),
        month_start(y, 9) == 215 + month_length(y, 2),
        month_start(y, 10) == 245 + month_length(y, 2),
        month_start(y, 11) == 276 + month_length(y, 2),
        month_start(y, 12) == 306 + month_length(y, 2),
        month_start(y, 13) == 337 + month_length(y, 2),
{
    reveal_with_fuel(month_start, 14);
}

proof fn lemma_year_start_monotonic(y: int, z: int)
    requires
        y <= z,
    ensures
        year_start(y) <= year_start(z),
    decreases z - y,
{
    if y < z {
        lemma_year_start_monotonic(y, z - 1);
        lemma_year_length(z - 1);
    }
}

proof fn lemma_day_of_year(y: int, m: int, d: int)
    requires
        is_date(y, m, d),
    ensures
        year_start(y) <= day_number(y, m, d) < year_start(y + 1),
{
    lemma_month_starts(y);
    lemma_year_length(y);
}

proof fn lemma_month_order(y: int, m: int, n: int)
    requires
        1 <= m < n <= 12,
    ensures
        month_start(y, m) + month_length(y, m) <= month_start(y, n),
{
    lemma_month_starts(y);
}

/// Different dates have different day numbers.
pub proof fn lemma_day_number_is_unique(y: int, m: int, d: int, y2: int, m2: int, d2: int)
    requires
        is_date(y, m, d),
        is_date(y2, m2, d2),
        day_number(y, m, d) == day_number(y2, m2, d2),
    ensures
        y == y2,
        m == m2,
        d == d2,
{
    lemma_day_of_year(y, m, d);
    lemma_day_of_year(y2, m2, d2);
    if y < y2 {
        lemma_year_start_monotonic(y + 1, y2);
    } else if y2 < y {
        lemma_year_start_monotonic(y2 + 1, y);
    } else if m < m2 {
        lemma_month_order(y, m, m2);
    } else if m2 < m {
        lemma_month_order(y, m2, m);
    }
}

/// March 1 of year `400 * era + yoe`, counted in days from 0000-03-01.
proof fn lemma_march_first(era: int, yoe: int)
    requires
        0 <= yoe < 400,
    ensures
        day_number(400 * era + yoe, 3, 1) == 146097 * era + 365 * yoe + yoe / 4 - yoe / 100
            - 719468,
{
    let y = 400 * era + yoe;
    lemma_month_starts(y);
    lemma_year_length(y);
    assert(y / 4 == 100 * era + yoe / 4);
    assert(y / 100 == 4 * era + yoe / 100);
    assert(y / 400 == era);
}

/// Splits a day of a 400-year era that starts in March into the year of the era and the day of
/// that year. Years that start in March have their leap day at the end.
fn year_of_era(doe: u64) -> (r: (u64, u64))
    requires
        doe < 146097,
    ensures
        r.0 < 400,
        doe == 365 * r.0 + r.0 as int / 4 - r.0 as int / 100 + r.1,
        r.1 <= 365,
        r.1 == 365 ==> (r.0 + 1) % 4 == 0 && ((r.0 + 1) % 100 != 0 || r.0 == 399),
{
    let century: u64 = if doe == 146_096 {
        3
    } else {
        doe / 36_524
    };
    let doc: u64 = doe - century * 36_524;
    let quad: u64 = doc / 1461;
    let doq: u64 = doc % 1461;
    let single: u64 = if doq == 1460 {
        3
    } else {
        doq / 365
    };
    let doy: u64 = doq - single * 365;
    let yoe: u64 = 100 * century + 4 * quad + single;
    assert(century <= 3);
    assert(quad <= 24);
    assert(single <= 3);
    assert(doq == 1460 && quad == 24 ==> century == 3);
    assert(yoe as int / 4 == 25 * century + quad);
    assert(yoe as int / 100 == century);
    (yoe, doy)
}

/// Splits a day of a year that starts in March into the month behind March and the day of the
/// month.
fn month_of_year(doy: u64) -> (r: (u64, u64))
    requires
        doy <= 365,
    ensures
        r.0 <= 11,
        month_start(2001, r.0 + 3) - 59 + r.1 - 1 == doy || r.0 >= 10,
        r.0 == 10 ==> 306 + r.1 - 1 == doy,
        r.0 == 11 ==> 337 + r.1 - 1 == doy,
        r.0 < 10 ==> 1 <= r.1 <= month_length(2001, r.0 + 3),
        r.0 == 10 ==> 1 <= r.1 <= 31,
        r.0 == 11 ==> 1 <= r.1 <= 29,
{
    proof {
        lemma_month_starts(2001);
    }
    let mp: u64 = (5 * doy + 2) / 153;
    let day: u64 = doy - (153 * mp + 2) / 5 + 1;
    (mp, day)
}

proof fn lemma_date(march_year: int, doy: int, mp: int, d: int)
    requires
        0 <= doy <= 365,
        doy == 365 ==> is_leap(march_year + 1),
        0 <= mp <= 11,
        month_start(2001, mp + 3) - 59 + d - 1 == doy || mp >= 10,
        mp == 10 ==> 306 + d - 1 == doy,
        mp == 11 ==> 337 + d - 1 == doy,
        mp < 10 ==> 1 <= d <= month_length(2001, mp + 3),
        mp == 10 ==> 1 <= d <= 31,
        mp == 11 ==> 1 <= d <= 29,
    ensures
        mp < 10 ==> is_date(march_year, mp + 3, d) && day_number(march_year, mp + 3, d)
            == day_number(march_year, 3, 1) + doy,
        mp >= 10 ==> is_date(march_year + 1, mp - 9, d) && day_number(march_year + 1, mp - 9, d)
            == day_number(march_year, 3, 1) + doy,
{
    lemma_month_starts(2001);
    lemma_month_starts(march_year);
    lemma_month_starts(march_year + 1);
    lemma_year_length(march_year);
}

proof fn lemma_leap_of_era(era: int, yoe: int)
    requires
        0 <= yoe < 400,
        (yoe + 1) % 4 == 0 && ((yoe + 1) % 100 != 0 || yoe == 399),
    ensures
        is_leap(400 * era + yoe + 1),
{
    let y = 400 * era + yoe + 1;
    assert(y % 4 == (yoe + 1) % 4);
    assert(y % 100 == (yoe + 1) % 100);
    assert(y % 400 == (yoe + 1) % 400);
}

/// Whether `t` is the date `days` days after 1970-01-01.
pub open spec fn names_day(t: (int, int, int), days: int) -> bool {
    is_date(t.0, t.1, t.2) && day_number(t.0, t.1, t.2) == days
}

/// The date `days` days after 1970-01-01, as year, month and day.
pub open spec fn date_of(days: int) -> (int, int, int) {
    choose|t: (int, int, int)| names_day(t, days)
}

/// The date of a day number is the one it was counted from.
pub proof fn lemma_date_of(y: int, m: int, d: int)
    requires
        is_date(y, m, d),
    ensures
        date_of(day_number(y, m, d)) == (y, m, d),
{
    let days = day_number(y, m, d);
    assert(names_day((y, m, d), days));
    let t = date_of(days);
    lemma_day_number_is_unique(y, m, d, t.0, t.1, t.2);
}

proof fn lemma_civil_date(days: int, era: int, yoe: int, doy: int, mp: int, d: int)
    requires
        0 <= days,
        days + 719468 == 146097 * era + 365 * yoe + yoe / 4 - yoe / 100 + doy,
        0 <= yoe < 400,
        0 <= doy <= 365,
        doy == 365 ==> (yoe + 1) % 4 == 0 && ((yoe + 1) % 100 != 0 || yoe == 399),
        0 <= mp <= 11,
        month_start(2001, mp + 3) - 59 + d - 1 == doy || mp >= 10,
        mp == 10 ==> 306 + d - 1 == doy,
        mp == 11 ==> 337 + d - 1 == doy,
        mp < 10 ==> 1 <= d <= month_length(2001, mp + 3),
        mp == 10 ==> 1 <= d <= 31,
        mp == 11 ==> 1 <= d <= 29,
    ensures
        ({
            let m = if mp < 10 {
                mp + 3
            } else {
                mp - 9
            };
            let y = if m <= 2 {
                400 * era + yoe + 1
            } else {
                400 * era + yoe
            };
            is_date(y, m, d) && day_number(y, m, d) == days && y >= 1970
        }),
{
    lemma_march_first(era, yoe);
    if doy == 365 {
        lemma_leap_of_era(era, yoe);
    }
    lemma_date(400 * era + yoe, doy, mp, d);
    let m = if mp < 10 {
        mp + 3
    } else {
        mp - 9
    };
    let y = if m <= 2 {
        400 * era + yoe + 1
    } else {
        400 * era + yoe
    };
    if y < 1970 {
        lemma_day_of_year(y, m, d);
        lemma_year_start_monotonic(y + 1, 1970);
    }
}

/// The date `days` days after 1970-01-01.
fn civil_from_days(days: u64) -> (r: (i64, u32, u32))
    requires
        days <= u64::MAX / 86400,
    ensures
        is_date(r.0 as int, r.1 as int, r.2 as int),
        day_number(r.0 as int, r.1 as int, r.2 as int) == days,
        r.0 >= 1970,
{
    let z: u64 = days + 719_468;
    let era: u64 = z / 146_097;
    let (yoe, doy) = year_of_era(z % 146_097);
    let march_year: u64 = yoe + era * 400;
    let (mp, day) = month_of_year(doy);
    let month: u32 = if mp < 10 {
        (mp + 3) as u32
    } else {
        (mp - 9) as u32
    };
    let year: u64 = if month <= 2 {
        march_year + 1
    } else {
        march_year
    };
    proof {
        assert(z as int == 146097 * era + z as int % 146097);
        lemma_civil_date(days as int, era as int, yoe as int, doy as int, mp as int, day as int);
    }
    (year as i64, month, day as u32)
}

/// Converts unix seconds to `(year, month, day, hour, minute, second)`.
pub fn civil_from_unix(unix: u64) -> (r: (i64, u32, u32, u32, u32, u32))
    ensures
        is_date(r.0 as int, r.1 as int, r.2 as int),
        day_number(r.0 as int, r.1 as int, r.2 as int) == unix as int / 86400,
        r.0 >= 1970,
        r.3 < 24,
        r.4 < 60,
        r.5 < 60,
        r.3 * 3600 + r.4 * 60 + r.5 == unix as int % 86400,
{
    let secs_of_day: u32 = (unix % 86_400) as u32;
    let (year, month, day) = civil_from_days(unix / 86_400);
    (year, month, day, secs_of_day / 3600, (secs_of_day % 3600) / 60, secs_of_day % 60)
}

/// The days are counted from the first of January 1970, and every day is one more than the day
/// before, over the ends of months and years too.
pub proof fn lemma_day_after_day(y: int, m: int, d: int)
    requires
        is_date(y, m, d),
    ensures
        day_number(1970, 1, 1) == 0,
        is_date(y, m, d + 1) ==> day_number(y, m, d + 1) == day_number(y, m, d) + 1,
        !is_date(y, m, d + 1) && m < 12 ==> is_date(y, m + 1, 1) && day_number(y, m + 1, 1)
            == day_number(y, m, d) + 1,
        !is_date(y, m, d + 1) && m == 12 ==> is_date(y + 1, 1, 1) && day_number(y + 1, 1, 1)
            == day_number(y, m, d) + 1,
{
    lemma_month_starts(1970);
    lemma_month_starts(y);
    lemma_month_starts(y + 1);
    lemma_year_length(y);
}

/// The lengths of the months, and which years have a day more.
pub proof fn lemma_lengths_of_months(y: int)
    ensures
        month_length(y, 1) == 31 && month_length(y, 3) == 31 && month_length(y, 5) == 31
            && month_length(y, 7) == 31 && month_length(y, 8) == 31 && month_length(y, 10) == 31
            && month_length(y, 12) == 31,
        month_length(y, 4) == 30 && month_length(y, 6) == 30 && month_length(y, 9) == 30
            && month_length(y, 11) == 30,
        month_length(400 * y, 2) == 29,
        y % 4 != 0 ==> month_length(100 * y, 2) == 28,
        y % 25 != 0 ==> month_length(4 * y, 2) == 29,
        y % 4 != 0 ==> month_length(y, 2) == 28,
{
}

} // verus!
