//! Ages and civil dates of unix stamps.

use vstd::prelude::*;

use crate::strs;
use crate::strs::{decimal, zero_padded};

verus! {

/// Whether a Gregorian year has a leap day.
pub open spec fn is_leap(year: int) -> bool {
    year % 4 == 0 && (year % 100 != 0 || year % 400 == 0)
}

/// How many leap days lie before a year, counted from year 1 on.
pub open spec fn leaps_before(year: int) -> int {
    (year - 1) / 4 - (year - 1) / 100 + (year - 1) / 400
}

/// The days of a month.
pub open spec fn month_len(year: int, month: int) -> int {
    if month == 2 {
        if is_leap(year) {
            29
        } else {
            28
        }
    } else if month == 4 || month == 6 || month == 9 || month == 11 {
        30
    } else {
        31
    }
}

/// The days of a year before a month.
pub open spec fn days_before(year: int, month: int) -> int
    decreases month,
{
    if month <= 1 {
        0
    } else {
        days_before(year, month - 1) + month_len(year, month - 1)
    }
}

/// Days from 1970-01-01 to a date.
#[verifier::opaque]
pub open spec fn date_number(year: int, month: int, day: int) -> int {
    365 * (year - 1970) + leaps_before(year) - leaps_before(1970) + days_before(year, month) + day
        - 1
}

/// Whether month and day exist.
pub open spec fn is_date(year: int, month: int, day: int) -> bool {
    1 <= month <= 12 && 1 <= day <= month_len(year, month)
}

proof fn month_starts(year: int)
    ensures
        days_before(year, 1) == 0,
        days_before(year, 2) == 31,
        days_before(year, 3) == 31 + month_len(year, 2),
        days_before(year, 4) == 62 + month_len(year, 2),
        days_before(year, 5) == 92 + month_len(year, 2),
        days_before(year, 6) == 123 + month_len(year, 2),
        days_before(year, 7) == 153 + month_len(year, 2),
        days_before(year, 8) == 184 + month_len(year, 2),
        days_before(year, 9) == 215 + month_len(year, 2),
        days_before(year, 10) == 245 + month_len(year, 2),
        days_before(year, 11) == 276 + month_len(year, 2),
        days_before(year, 12) == 306 + month_len(year, 2),
{
    reveal_with_fuel(days_before, 13);
}

/// The year of an era that a day of the era falls into, years starting in
/// March.
proof fn year_of_era(doe: int)
    requires
        0 <= doe < 146097,
    ensures
        ({
            let yoe = (doe - doe / 1460 + doe / 36524 - doe / 146096) / 365;
            let doy = doe - (365 * yoe + yoe / 4 - yoe / 100);
            &&& 0 <= yoe < 400
            &&& 0 <= doy
            &&& doy <= 365
            &&& doy == 365 ==> (yoe % 4 == 3 && (yoe % 100 != 99 || yoe == 399))
        }),
{
    assert(0 <= doe / 36524 <= 4);
}

/// A year starts one leap day later where the year before had one.
proof fn leap_step(year: int)
    ensures
        leaps_before(year + 1) == leaps_before(year) + if is_leap(year) {
            1int
        } else {
            0
        },
{
    assert((year - 1) / 4 == year / 4 - if year % 4 == 0 {
        1int
    } else {
        0
    });
    assert((year - 1) / 100 == year / 100 - if year % 100 == 0 {
        1int
    } else {
        0
    });
    assert((year - 1) / 400 == year / 400 - if year % 400 == 0 {
        1int
    } else {
        0
    });
    assert(year % 400 == 0 ==> year % 100 == 0);
    assert(year % 100 == 0 ==> year % 4 == 0);
}

/// The day number of the first of March.
proof fn march_first(year: int)
    ensures
        date_number(year, 3, 1) == 365 * year + year / 4 - year / 100 + year / 400 - 719468,
{
    reveal(date_number);
    month_starts(year);
    leap_step(year);
    assert(leaps_before(1970) == 477);
}

/// The first of March of a year within an era of four centuries.
proof fn march_of_era(era: int, yoe: int)
    requires
        0 <= yoe < 400,
    ensures
        date_number(yoe + era * 400, 3, 1) == era * 146097 + 365 * yoe + yoe / 4 - yoe / 100
            - 719468,
{
    let year = yoe + era * 400;
    march_first(year);
    assert(year / 4 == yoe / 4 + era * 100);
    assert(year / 100 == yoe / 100 + era * 4);
    assert(year / 400 == era);
}

/// The date that lies `doy` days behind the first of March.
proof fn date_in_march_year(year: int, doy: int)
    requires
        0 <= doy <= 365,
        doy == 365 ==> is_leap(year + 1),
    ensures
        ({
            let mp = (5 * doy + 2) / 153;
            let day = doy - (153 * mp + 2) / 5 + 1;
            let month = if mp < 10 {
                mp + 3
            } else {
                mp - 9
            };
            let y = if month <= 2 {
                year + 1
            } else {
                year
            };
            &&& 0 <= mp <= 11
            &&& is_date(y, month, day)
            &&& date_number(y, month, day) == date_number(year, 3, 1) + doy
        }),
{
    reveal(date_number);
    month_starts(year);
    month_starts(year + 1);
    let mp = (5 * doy + 2) / 153;
    leap_step(year);
    assert(0 <= mp <= 11);
    assert(mp == 0 || mp == 1 || mp == 2 || mp == 3 || mp == 4 || mp == 5 || mp == 6 || mp == 7
        || mp == 8 || mp == 9 || mp == 10 || mp == 11);
}

/// The leap years of an era, counted from the March before.
proof fn leap_of_era(era: int, yoe: int)
    requires
        0 <= yoe < 400,
        yoe % 4 == 3 && (yoe % 100 != 99 || yoe == 399),
    ensures
        is_leap(yoe + era * 400 + 1),
{
    let y = yoe + era * 400;
    assert((y + 1) % 4 == (yoe + 1) % 4);
    assert((y + 1) % 100 == (yoe + 1) % 100);
    assert((y + 1) % 400 == (yoe + 1) % 400);
}

/// The date of day `doe` of an era.
proof fn date_in_era(era: int, doe: int)
    requires
        0 <= doe < 146097,
    ensures
        ({
            let yoe = (doe - doe / 1460 + doe / 36524 - doe / 146096) / 365;
            let doy = doe - (365 * yoe + yoe / 4 - yoe / 100);
            let mp = (5 * doy + 2) / 153;
            let day = doy - (153 * mp + 2) / 5 + 1;
            let month = if mp < 10 {
                mp + 3
            } else {
                mp - 9
            };
            let year = yoe + era * 400 + if month <= 2 {
                1int
            } else {
                0
            };
            &&& 0 <= yoe < 400
            &&& 0 <= doy <= 365
            &&& 0 <= mp <= 11
            &&& is_date(year, month, day)
            &&& date_number(year, month, day) == era * 146097 + doe - 719468
        }),
{
    let yoe = (doe - doe / 1460 + doe / 36524 - doe / 146096) / 365;
    let doy = doe - (365 * yoe + yoe / 4 - yoe / 100);
    let y = yoe + era * 400;
    year_of_era(doe);
    march_of_era(era, yoe);
    if doy == 365 {
        leap_of_era(era, yoe);
    }
    date_in_march_year(y, doy);
}

/// The era that a day falls into, and the day within it.
fn era_of(z: i64) -> (split: (i64, i64))
    requires
        z >= i64::MIN + 719_468,
    ensures
        split.0 * 146_097 + split.1 == z,
        0 <= split.1 < 146_097,
        -100_000_000_000_000 <= split.0 <= 100_000_000_000_000,
{
    let era: i64 = if z >= 0 {
        z / 146_097
    } else {
        -((146_096 - z) / 146_097)
    };
    assert(era * 146_097 <= z < era * 146_097 + 146_097);
    (era, z - era * 146_097)
}

/// The civil date of a day number.
pub fn civil_from_days(days: i64) -> (date: (i64, u64, u64))
    requires
        days <= i64::MAX - 719_468,
    ensures
        is_date(date.0 as int, date.1 as int, date.2 as int),
        date_number(date.0 as int, date.1 as int, date.2 as int) == days,
{
    let (era, doe) = era_of(days + 719_468);
    proof {
        date_in_era(era as int, doe as int);
    }
    let yoe: i64 = (doe - doe / 1460 + doe / 36_524 - doe / 146_096) / 365;
    let doy: i64 = doe - (365 * yoe + yoe / 4 - yoe / 100);
    let mp: i64 = (5 * doy + 2) / 153;
    let d: i64 = doy - (153 * mp + 2) / 5 + 1;
    let m: i64 = if mp < 10 {
        mp + 3
    } else {
        mp - 9
    };
    let year: i64 = if m <= 2 {
        yoe + era * 400 + 1
    } else {
        yoe + era * 400
    };
    (year, m as u64, d as u64)
}

/// An age in the largest unit that fits, up to days.
pub open spec fn age_text(age: nat) -> Seq<char> {
    if age < 60 {
        "now"@
    } else if age < 3600 {
        decimal(age / 60) + "m"@
    } else if age < 86_400 {
        decimal(age / 3600) + "h"@
    } else {
        decimal(age / 86_400) + "d"@
    }
}

/// A bare date.
pub open spec fn dated(year: int, month: int, day: int) -> Seq<char> {
    zero_padded(year as nat, 4) + "-"@ + zero_padded(month as nat, 2) + "-"@ + zero_padded(
        day as nat,
        2,
    )
}

/// The date of a day number.
pub open spec fn civil(days: int) -> (int, int, int) {
    choose|date: (int, int, int)|
        is_date(date.0, date.1, date.2) && #[trigger] date_number(date.0, date.1, date.2) == days
}

/// The age of a stamp for a week, its date from then on.
pub open spec fn age_label(stamp: u64, now: u64) -> Seq<char> {
    let age = (now - stamp) as nat;
    if age < 7 * 86_400 {
        age_text(age)
    } else {
        let date = civil(stamp as int / 86_400);
        dated(date.0, date.1, date.2)
    }
}

/// Compact relative age of a unix stamp: `now`, `12m`, `3h`, `5d`, then a bare
/// date. One that lies ahead has none.
pub fn relative_time(stamp: u64, now: u64) -> (text: Option<String>)
    ensures
        text.deep_view() == (if stamp <= now {
            Some(age_label(stamp, now))
        } else {
            None
        }),
{
    if stamp > now {
        return None;
    }
    let age: u64 = now - stamp;
    if age < 60 {
        return Some("now".to_owned());
    }
    if age < 3600 {
        return Some(strs::cat(strs::number(age / 60).as_str(), "m"));
    }
    if age < 86_400 {
        return Some(strs::cat(strs::number(age / 3600).as_str(), "h"));
    }
    if age < 604_800 {
        return Some(strs::cat(strs::number(age / 86_400).as_str(), "d"));
    }
    let (year, month, day) = civil_from_days((stamp / 86_400) as i64);
    proof {
        years_do_not_start_early(year as int, month as int, day as int);
    }
    let mut text = strs::cat3(
        strs::padded_number(year as u64, 4).as_str(),
        "-",
        strs::padded_number(month, 2).as_str(),
    );
    text.push_str("-");
    text.push_str(strs::padded_number(day, 2).as_str());
    proof {
        civil_is(year as int, month as int, day as int);
        assert(text@ =~= dated(year as int, month as int, day as int));
    }
    Some(text)
}

// ---------------------------------------------------------------------------
// Laws
// ---------------------------------------------------------------------------

/// The first day of a year.
pub open spec fn year_start(year: int) -> int {
    365 * (year - 1970) + leaps_before(year) - leaps_before(1970)
}

/// A date lies within its year.
proof fn date_in_year(year: int, month: int, day: int)
    requires
        is_date(year, month, day),
    ensures
        year_start(year) <= date_number(year, month, day) < year_start(year + 1),
{
    reveal(date_number);
    month_starts(year);
    leap_step(year);
    assert(month == 1 || month == 2 || month == 3 || month == 4 || month == 5 || month == 6 || month
        == 7 || month == 8 || month == 9 || month == 10 || month == 11 || month == 12);
}

proof fn later_years_start_later(a: int, b: int)
    requires
        a <= b,
    ensures
        year_start(a) <= year_start(b),
    decreases b - a,
{
    if a < b {
        later_years_start_later(a, b - 1);
        leap_step(b - 1);
    }
}

/// No date from 1970-01-01 on lies in an earlier year.
proof fn years_do_not_start_early(year: int, month: int, day: int)
    requires
        is_date(year, month, day),
        date_number(year, month, day) >= 0,
    ensures
        year >= 1970,
{
    date_in_year(year, month, day);
    if year < 1970 {
        later_years_start_later(year + 1, 1970);
    }
}

/// Within a year, a later month starts behind every day of an earlier one.
proof fn months_in_order(year: int, a: int, b: int)
    requires
        1 <= a < b <= 12,
    ensures
        days_before(year, a) + month_len(year, a) <= days_before(year, b),
    decreases b - a,
{
    if a + 1 < b {
        months_in_order(year, a, b - 1);
    }
}

/// Two dates with one day number are the same date.
pub proof fn day_numbers_are_unique(y1: int, m1: int, d1: int, y2: int, m2: int, d2: int)
    requires
        is_date(y1, m1, d1),
        is_date(y2, m2, d2),
        date_number(y1, m1, d1) == date_number(y2, m2, d2),
    ensures
        y1 == y2 && m1 == m2 && d1 == d2,
{
    reveal(date_number);
    date_in_year(y1, m1, d1);
    date_in_year(y2, m2, d2);
    if y1 < y2 {
        later_years_start_later(y1 + 1, y2);
    }
    if y2 < y1 {
        later_years_start_later(y2 + 1, y1);
    }
    if m1 < m2 {
        months_in_order(y1, m1, m2);
    }
    if m2 < m1 {
        months_in_order(y1, m2, m1);
    }
}

/// A date is the one of its day number.
pub proof fn civil_is(year: int, month: int, day: int)
    requires
        is_date(year, month, day),
    ensures
        civil(date_number(year, month, day)) == (year, month, day),
{
    let days = date_number(year, month, day);
    let given = (year, month, day);
    assert(is_date(given.0, given.1, given.2) && date_number(given.0, given.1, given.2) == days);
    let date = civil(days);
    day_numbers_are_unique(date.0, date.1, date.2, year, month, day);
}

/// Dates are numbered day by day from the first of January 1970 on: the day after
/// a date has the next number, over the ends of months and years.
pub proof fn days_are_numbered_in_turn(year: int, month: int, day: int)
    requires
        is_date(year, month, day),
    ensures
        date_number(1970, 1, 1) == 0,
        is_date(year, month, day + 1) ==> date_number(year, month, day + 1) == date_number(
            year,
            month,
            day,
        ) + 1,
        !is_date(year, month, day + 1) && month < 12 ==> date_number(year, month + 1, 1)
            == date_number(year, month, day) + 1,
        !is_date(year, month, day + 1) && month == 12 ==> date_number(year + 1, 1, 1)
            == date_number(year, month, day) + 1,
{
    reveal(date_number);
    leap_step(year);
    month_starts(year);
    month_starts(year + 1);
    month_starts(1970);
}

/// February has a twenty-ninth day every fourth year, but in a centenary only
/// every fourth time; the other months have the days they have.
pub proof fn months_have_their_days(year: int)
    ensures
        is_date(year, 2, 29) <==> (year % 400 == 0 || (year % 4 == 0 && year % 100 != 0)),
        forall|month: int| 1 <= month <= 12 ==> #[trigger] is_date(year, month, 28),
        forall|month: int|
            1 <= month <= 12 ==> (#[trigger] is_date(year, month, 30) <==> month != 2),
        forall|month: int|
            1 <= month <= 12 ==> (#[trigger] is_date(year, month, 31) <==> month == 1 || month == 3
                || month == 5 || month == 7 || month == 8 || month == 10 || month == 12),
{
}

/// An age is told in whole minutes, hours or days, the largest of them that it
/// reaches, and none below a minute; from a week on the date is told.
pub proof fn ages_are_told_in_their_unit(stamp: u64, now: u64, n: nat)
    requires
        stamp <= now,
    ensures
        now - stamp < 60 ==> age_label(stamp, now) == "now"@,
        60 <= now - stamp < 3600 && 60 * n <= now - stamp < 60 * (n + 1) ==> age_label(stamp, now)
            == decimal(n) + "m"@,
        3600 <= now - stamp < 86400 && 3600 * n <= now - stamp < 3600 * (n + 1) ==> age_label(
            stamp,
            now,
        ) == decimal(n) + "h"@,
        86400 <= now - stamp < 604800 && 86400 * n <= now - stamp < 86400 * (n + 1) ==> age_label(
            stamp,
            now,
        ) == decimal(n) + "d"@,
{
}

/// From a week on the label is the date on which the stamp lies, as year, month
/// and day.
pub proof fn old_stamps_are_dated(stamp: u64, now: u64, year: int, month: int, day: int)
    requires
        stamp <= now,
        now - stamp >= 604800,
        is_date(year, month, day),
        86400 * date_number(year, month, day) <= stamp < 86400 * (date_number(year, month, day)
            + 1),
    ensures
        age_label(stamp, now) == zero_padded(year as nat, 4) + "-"@ + zero_padded(month as nat, 2)
            + "-"@ + zero_padded(day as nat, 2),
{
    civil_is(year, month, day);
    assert(stamp as int / 86_400 == date_number(year, month, day));
}

} // verus!
