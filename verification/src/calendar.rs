//! Proleptic Gregorian calendar arithmetic over UTC epoch time.
//!
//! Instants are carried as signed milliseconds since 1970-01-01T00:00:00Z.
//! `civil_from_epoch_ms` decomposes an instant into calendar fields and
//! `epoch_ms_from_civil` rebuilds an instant from them; `lemma_civil_unique`
//! shows the decomposition is the only valid one, so the two directions
//! determine each other.

use vstd::arithmetic::div_mod::lemma_fundamental_div_mod;
use vstd::arithmetic::div_mod::lemma_fundamental_div_mod_converse;
use vstd::arithmetic::div_mod::lemma_mod_multiples_vanish;
use vstd::prelude::*;

verus! {

pub open spec fn is_leap_year(y: int) -> bool {
    (y % 4 == 0 && y % 100 != 0) || y % 400 == 0
}

pub open spec fn spec_days_in_year(y: int) -> int {
    if is_leap_year(y) {
        366
    } else {
        365
    }
}

pub open spec fn spec_days_in_month(y: int, m: int) -> int {
    if m == 2 {
        if is_leap_year(y) {
            29
        } else {
            28
        }
    } else if m == 4 || m == 6 || m == 9 || m == 11 {
        30
    } else {
        31
    }
}

/// Days from 1970-01-01 to the first day of year `y` (negative for years
/// before 1970).
pub open spec fn days_to_year(y: int) -> int
    decreases
            if y >= 1970 {
                y - 1970
            } else {
                1970 - y
            },
{
    if y > 1970 {
        days_to_year(y - 1) + spec_days_in_year(y - 1)
    } else if y < 1970 {
        days_to_year(y + 1) - spec_days_in_year(y)
    } else {
        0
    }
}

/// Days from the first day of year `y` to the first day of its month `m`.
pub open spec fn days_before_month(y: int, m: int) -> int
    decreases m,
{
    if m <= 1 {
        0
    } else {
        days_before_month(y, m - 1) + spec_days_in_month(y, m - 1)
    }
}

pub open spec fn valid_ymd(y: int, m: int, d: int) -> bool {
    1 <= m <= 12 && 1 <= d <= spec_days_in_month(y, m)
}

/// Days from 1970-01-01 to the civil date `y-m-d`.
pub open spec fn days_from_civil(y: int, m: int, d: int) -> int {
    days_to_year(y) + days_before_month(y, m) + (d - 1)
}

pub proof fn lemma_days_to_year_bounds(y: int)
    ensures
        y >= 1970 ==> 365 * (y - 1970) <= days_to_year(y) <= 366 * (y - 1970),
        y < 1970 ==> 366 * (y - 1970) <= days_to_year(y) <= 365 * (y - 1970),
    decreases
            if y >= 1970 {
                y - 1970
            } else {
                1970 - y
            },
{
    if y > 1970 {
        lemma_days_to_year_bounds(y - 1);
    } else if y < 1970 {
        lemma_days_to_year_bounds(y + 1);
    }
}

/// The twelve month lengths of a year sum to that year's length.
pub proof fn lemma_months_fill_year(y: int)
    ensures
        days_before_month(y, 13) == spec_days_in_year(y),
{
    reveal_with_fuel(days_before_month, 14);
}

pub proof fn lemma_days_before_month_mono(y: int, m1: int, m2: int)
    requires
        m1 <= m2,
    ensures
        days_before_month(y, m1) <= days_before_month(y, m2),
    decreases m2 - m1,
{
    if m1 < m2 {
        lemma_days_before_month_mono(y, m1, m2 - 1);
    }
}

/// A valid date of year `y` lies within that year's day span.
pub proof fn lemma_date_in_year(y: int, m: int, d: int)
    requires
        valid_ymd(y, m, d),
    ensures
        0 <= days_before_month(y, m) + (d - 1) < spec_days_in_year(y),
{
    lemma_days_before_month_mono(y, 1, m);
    lemma_days_before_month_mono(y, m + 1, 13);
    lemma_months_fill_year(y);
    assert(days_before_month(y, m + 1) == days_before_month(y, m) + spec_days_in_month(y, m));
}

pub proof fn lemma_days_to_year_mono(y1: int, y2: int)
    requires
        y1 < y2,
    ensures
        days_to_year(y1) + spec_days_in_year(y1) <= days_to_year(y2),
    decreases y2 - y1,
{
    if y1 + 1 < y2 {
        lemma_days_to_year_mono(y1 + 1, y2);
    }
}

/// Each day count is the image of at most one valid civil date.
pub proof fn lemma_civil_unique(y1: int, m1: int, d1: int, y2: int, m2: int, d2: int)
    requires
        valid_ymd(y1, m1, d1),
        valid_ymd(y2, m2, d2),
        days_from_civil(y1, m1, d1) == days_from_civil(y2, m2, d2),
    ensures
        y1 == y2 && m1 == m2 && d1 == d2,
{
    lemma_date_in_year(y1, m1, d1);
    lemma_date_in_year(y2, m2, d2);
    if y1 < y2 {
        lemma_days_to_year_mono(y1, y2);
        assert(false);
    }
    if y2 < y1 {
        lemma_days_to_year_mono(y2, y1);
        assert(false);
    }
    if m1 < m2 {
        lemma_days_before_month_mono(y1, m1 + 1, m2);
        assert(days_before_month(y1, m1 + 1) == days_before_month(y1, m1) + spec_days_in_month(
            y1,
            m1,
        ));
        assert(false);
    }
    if m2 < m1 {
        lemma_days_before_month_mono(y1, m2 + 1, m1);
        assert(days_before_month(y1, m2 + 1) == days_before_month(y1, m2) + spec_days_in_month(
            y1,
            m2,
        ));
        assert(false);
    }
}

pub fn is_leap_year_exec(y: i64) -> (r: bool)
    requires
        -1_000_000_000 <= y <= 1_000_000_000,
    ensures
        r == is_leap_year(y as int),
{
    let shifted = (y + 1_200_000_000) as u64;
    proof {
        lemma_mod_multiples_vanish(300_000_000, y as int, 4);
        lemma_mod_multiples_vanish(12_000_000, y as int, 100);
        lemma_mod_multiples_vanish(3_000_000, y as int, 400);
    }
    (shifted % 4 == 0 && shifted % 100 != 0) || shifted % 400 == 0
}

pub fn days_in_year_exec(y: i64) -> (r: i64)
    requires
        -1_000_000_000 <= y <= 1_000_000_000,
    ensures
        r == spec_days_in_year(y as int),
{
    if is_leap_year_exec(y) {
        366
    } else {
        365
    }
}

pub fn days_in_month_exec(y: i64, m: u64) -> (r: u64)
    requires
        -1_000_000_000 <= y <= 1_000_000_000,
    ensures
        r == spec_days_in_month(y as int, m as int),
{
    if m == 2 {
        if is_leap_year_exec(y) {
            29
        } else {
            28
        }
    } else if m == 4 || m == 6 || m == 9 || m == 11 {
        30
    } else {
        31
    }
}

/// One instant decomposed into civil calendar fields, UTC.
#[derive(Clone, Copy, Debug, PartialEq, Eq, Structural)]
pub struct CivilTime {
    pub year: i64,
    pub month: u64,
    pub day: u64,
    pub hour: u64,
    pub minute: u64,
    pub second: u64,
}

pub open spec fn civil_time_of_ms(c: CivilTime, ms: int) -> bool {
    &&& valid_ymd(c.year as int, c.month as int, c.day as int)
    &&& days_from_civil(c.year as int, c.month as int, c.day as int) == ms / 86400000
    &&& c.hour == (ms % 86400000) / 3600000
    &&& c.minute == ((ms % 86400000) % 3600000) / 60000
    &&& c.second == (((ms % 86400000) % 3600000) % 60000) / 1000
}

/// Splits the civil day count and the time of day out of an instant.
pub fn civil_from_epoch_ms(ms: i64) -> (c: CivilTime)
    ensures
        civil_time_of_ms(c, ms as int),
        -600_000_000 <= c.year <= 600_000_000,
        c.hour < 24,
        c.minute < 60,
        c.second < 60,
{
    let days: i64;
    let rem: u64;
    if ms >= 0 {
        let mu = ms as u64;
        let q = mu / 86400000;
        let r = mu % 86400000;
        proof {
            lemma_fundamental_div_mod(mu as int, 86400000);
            lemma_fundamental_div_mod_converse(ms as int, 86400000, q as int, r as int);
        }
        days = q as i64;
        rem = r;
    } else {
        let n = (-(ms + 1)) as u64;
        let q = n / 86400000;
        let r = n % 86400000;
        proof {
            lemma_fundamental_div_mod(n as int, 86400000);
            lemma_fundamental_div_mod_converse(
                ms as int,
                86400000,
                -1 - q as int,
                86400000 - 1 - r as int,
            );
        }
        days = -1 - (q as i64);
        rem = 86400000 - 1 - r;
    }
    let (y, m, d) = civil_from_days(days);
    let hour = rem / 3600000;
    let rem2 = rem % 3600000;
    let minute = rem2 / 60000;
    let second = (rem2 % 60000) / 1000;
    CivilTime { year: y, month: m, day: d, hour, minute, second }
}

/// Finds the unique valid civil date a signed day count falls on.
pub fn civil_from_days(z: i64) -> (r: (i64, u64, u64))
    requires
        -200_000_000_000 <= z <= 200_000_000_000,
    ensures
        valid_ymd(r.0 as int, r.1 as int, r.2 as int),
        days_from_civil(r.0 as int, r.1 as int, r.2 as int) == z,
        -600_000_000 <= r.0 <= 600_000_000,
{
    let mut y: i64 = 1970;
    let mut rem: i64 = z;
    while rem < 0
        invariant
            -200_000_000_000 <= z <= 200_000_000_000,
            -600_000_000 <= y <= 1970,
            days_to_year(y as int) + rem == z,
        decreases
                if rem < 0 {
                    0 - rem
                } else {
                    0
                },
    {
        proof {
            lemma_days_to_year_bounds(y as int);
            lemma_days_to_year_bounds(y - 1 as int);
        }
        y = y - 1;
        let step = days_in_year_exec(y);
        assert(step >= 365);
        rem = rem + step;
    }
    while rem >= days_in_year_exec(y)
        invariant
            -200_000_000_000 <= z <= 200_000_000_000,
            -600_000_000 <= y <= 600_000_000,
            days_to_year(y as int) + rem == z,
            0 <= rem,
        decreases rem,
    {
        proof {
            lemma_days_to_year_bounds(y as int);
            lemma_days_to_year_bounds(y + 1 as int);
        }
        rem = rem - days_in_year_exec(y);
        y = y + 1;
    }
    let mut m: u64 = 1;
    while m < 12 && rem >= days_in_month_exec(y, m) as i64
        invariant
            1 <= m <= 12,
            0 <= rem,
            -600_000_000 <= y <= 600_000_000,
            days_to_year(y as int) + days_before_month(y as int, m as int) + rem == z,
            days_before_month(y as int, m as int) + rem < spec_days_in_year(y as int),
        decreases 12 - m,
    {
        rem = rem - days_in_month_exec(y, m) as i64;
        m = m + 1;
    }
    proof {
        if m == 12 {
            lemma_months_fill_year(y as int);
            assert(days_before_month(y as int, 13) == days_before_month(y as int, 12)
                + spec_days_in_month(y as int, 12));
        }
    }
    let d = (rem + 1) as u64;
    (y, m, d)
}

/// Day count of a civil date, for dates whose year has at most four digits.
pub fn days_from_civil_exec(y: i64, m: u64, d: u64) -> (r: i64)
    requires
        0 <= y <= 9999,
        valid_ymd(y as int, m as int, d as int),
    ensures
        r == days_from_civil(y as int, m as int, d as int),
        -800_000 <= r <= 3_000_000,
{
    let mut yy: i64 = 1970;
    let mut acc: i64 = 0;
    while yy < y
        invariant
            y >= 1970 ==> 1970 <= yy <= y,
            y < 1970 ==> yy == 1970,
            0 <= y <= 9999,
            acc == days_to_year(yy as int),
            0 <= acc <= 2_940_000,
        decreases 9999 - yy,
    {
        proof {
            lemma_days_to_year_bounds(yy + 1 as int);
        }
        acc = acc + days_in_year_exec(yy);
        yy = yy + 1;
    }
    while yy > y
        invariant
            y <= 1970 ==> y <= yy <= 1970,
            y > 1970 ==> yy == y,
            0 <= y <= 9999,
            acc == days_to_year(yy as int),
            -730_000 <= acc <= 2_940_000,
        decreases yy,
    {
        proof {
            lemma_days_to_year_bounds(yy - 1 as int);
        }
        yy = yy - 1;
        acc = acc - days_in_year_exec(yy);
    }
    let mut mm: u64 = 1;
    let mut macc: i64 = 0;
    while mm < m
        invariant
            1 <= mm <= m <= 12,
            0 <= y <= 9999,
            macc == days_before_month(y as int, mm as int),
            0 <= macc <= 366,
        decreases m - mm,
    {
        proof {
            lemma_days_before_month_mono(y as int, mm + 1 as int, 13);
            lemma_months_fill_year(y as int);
        }
        macc = macc + days_in_month_exec(y, mm) as i64;
        mm = mm + 1;
    }
    acc + macc + (d as i64 - 1)
}

/// Epoch milliseconds of a civil date-time with a four-digit year.
pub fn epoch_ms_from_civil(y: i64, m: u64, d: u64, hour: u64, minute: u64, second: u64) -> (r: i64)
    requires
        0 <= y <= 9999,
        valid_ymd(y as int, m as int, d as int),
        hour < 24,
        minute < 60,
        second < 60,
    ensures
        r == (days_from_civil(y as int, m as int, d as int) * 86400 + hour * 3600 + minute * 60
            + second) * 1000,
{
    let days = days_from_civil_exec(y, m, d);
    (days * 86400 + hour as i64 * 3600 + minute as i64 * 60 + second as i64) * 1000
}

/// The civil date a day count falls on, as a value: well-defined because
/// `lemma_civil_unique` shows at most one valid date has a given count.
pub open spec fn spec_civil_from_days(z: int) -> (int, int, int) {
    choose|c: (int, int, int)|
        valid_ymd(c.0, c.1, c.2) && days_from_civil(c.0, c.1, c.2) == z
}

/// The calendar fields of an instant, as a value.
pub open spec fn spec_civil_of_ms(ms: int) -> CivilTime {
    let days = ms / 86400000;
    let c = spec_civil_from_days(days);
    CivilTime {
        year: c.0 as i64,
        month: c.1 as u64,
        day: c.2 as u64,
        hour: ((ms % 86400000) / 3600000) as u64,
        minute: (((ms % 86400000) % 3600000) / 60000) as u64,
        second: ((((ms % 86400000) % 3600000) % 60000) / 1000) as u64,
    }
}

/// A decomposition that satisfies `civil_time_of_ms` is exactly
/// `spec_civil_of_ms`.
pub proof fn lemma_civil_of_ms_unique(c: CivilTime, ms: int)
    requires
        civil_time_of_ms(c, ms),
    ensures
        c == spec_civil_of_ms(ms),
        valid_ymd(
            spec_civil_of_ms(ms).year as int,
            spec_civil_of_ms(ms).month as int,
            spec_civil_of_ms(ms).day as int,
        ),
{
    let days = ms / 86400000;
    let cw = (c.year as int, c.month as int, c.day as int);
    assert(valid_ymd(cw.0, cw.1, cw.2) && days_from_civil(cw.0, cw.1, cw.2) == days);
    assert(exists|w: (int, int, int)|
        valid_ymd(w.0, w.1, w.2) && days_from_civil(w.0, w.1, w.2) == days) by {
        assert(valid_ymd(cw.0, cw.1, cw.2) && days_from_civil(cw.0, cw.1, cw.2) == days);
    }
    let w = spec_civil_from_days(days);
    lemma_civil_unique(w.0, w.1, w.2, c.year as int, c.month as int, c.day as int);
    assert(0 <= c.month < 0x1_0000_0000_0000_0000);
    assert(0 <= c.day < 0x1_0000_0000_0000_0000);
}

/// Weekday index of a day count: 0 is Sunday; day zero (1970-01-01) is a
/// Thursday, index 4.
pub open spec fn spec_weekday_index(days: int) -> int {
    (days + 4) % 7
}

pub fn weekday_index_of_days(days: i64) -> (r: u64)
    requires
        -300_000_000_000 <= days <= 300_000_000_000,
    ensures
        r == spec_weekday_index(days as int),
        r < 7,
{
    let x = days + 4;
    if x >= 0 {
        (x as u64) % 7
    } else {
        let n = (-(x + 1)) as u64;
        let rn = n % 7;
        proof {
            lemma_fundamental_div_mod(n as int, 7);
            lemma_fundamental_div_mod_converse(
                x as int,
                7,
                -1 - (n as int) / 7,
                6 - rn as int,
            );
        }
        6 - rn
    }
}

pub open spec fn spec_month_name(m: int) -> Seq<char> {
    if m == 1 {
        "January"@
    } else if m == 2 {
        "February"@
    } else if m == 3 {
        "March"@
    } else if m == 4 {
        "April"@
    } else if m == 5 {
        "May"@
    } else if m == 6 {
        "June"@
    } else if m == 7 {
        "July"@
    } else if m == 8 {
        "August"@
    } else if m == 9 {
        "September"@
    } else if m == 10 {
        "October"@
    } else if m == 11 {
        "November"@
    } else {
        "December"@
    }
}

pub fn month_name_of(m: u64) -> (r: String)
    requires
        1 <= m <= 12,
    ensures
        r@ == spec_month_name(m as int),
{
    match m {
        1 => String::from_str("January"),
        2 => String::from_str("February"),
        3 => String::from_str("March"),
        4 => String::from_str("April"),
        5 => String::from_str("May"),
        6 => String::from_str("June"),
        7 => String::from_str("July"),
        8 => String::from_str("August"),
        9 => String::from_str("September"),
        10 => String::from_str("October"),
        11 => String::from_str("November"),
        _ => String::from_str("December"),
    }
}

pub open spec fn spec_weekday_name(w: int) -> Seq<char> {
    if w == 0 {
        "Sunday"@
    } else if w == 1 {
        "Monday"@
    } else if w == 2 {
        "Tuesday"@
    } else if w == 3 {
        "Wednesday"@
    } else if w == 4 {
        "Thursday"@
    } else if w == 5 {
        "Friday"@
    } else {
        "Saturday"@
    }
}

pub fn weekday_name_of(w: u64) -> (r: String)
    requires
        w < 7,
    ensures
        r@ == spec_weekday_name(w as int),
{
    match w {
        0 => String::from_str("Sunday"),
        1 => String::from_str("Monday"),
        2 => String::from_str("Tuesday"),
        3 => String::from_str("Wednesday"),
        4 => String::from_str("Thursday"),
        5 => String::from_str("Friday"),
        _ => String::from_str("Saturday"),
    }
}

} // verus!
