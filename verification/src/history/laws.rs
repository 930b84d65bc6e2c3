//! The record tells when things happened, newest last.
use super::{
    digits, leaps_before, leaps_go_on, month_after, month_days, recorded, stamped, year_after,
    year_days,
};
use vstd::prelude::*;

verus! {

/// How many days went by before a year, since the first year there was.
pub open spec fn days_before_year(y: int) -> int {
    365 * (y - 1) + (y - 1) / 4 - (y - 1) / 100 + (y - 1) / 400
}

/// How many days of a year went by before a month.
pub open spec fn days_before_month(y: int, m: int) -> int {
    (if m == 1 {
        0int
    } else if m == 2 {
        31
    } else if m == 3 {
        59
    } else if m == 4 {
        90
    } else if m == 5 {
        120
    } else if m == 6 {
        151
    } else if m == 7 {
        181
    } else if m == 8 {
        212
    } else if m == 9 {
        243
    } else if m == 10 {
        273
    } else if m == 11 {
        304
    } else {
        334
    }) + (if m > 2 && y % 4 == 0 && (y % 100 != 0 || y % 400 == 0) {
        1int
    } else {
        0
    })
}

proof fn years_add_up(days: int, y: int)
    requires
        0 <= days,
        y >= 1,
    ensures
        ({
            let (year, rest) = year_after(days, y);
            &&& year >= y
            &&& 0 <= rest < year_days(year)
            &&& days_before_year(year) + rest == days_before_year(y) + days
        }),
    decreases days,
{
    if days >= year_days(y) {
        years_add_up(days - year_days(y), y + 1);
        leaps_go_on(y);
        reveal(leaps_before);
    }
}

proof fn months_add_up(days: int, y: int, m: int)
    requires
        1 <= m <= 12,
        0 <= days,
        days_before_month(y, m) + days < year_days(y),
    ensures
        ({
            let (month, day) = month_after(days, y, m);
            &&& m <= month <= 12
            &&& 1 <= day <= month_days(y, month)
            &&& days_before_month(y, month) + day - 1 == days_before_month(y, m) + days
        }),
    decreases 12 - m,
{
    if m < 12 && days >= month_days(y, m) {
        assert(days_before_month(y, m + 1) == days_before_month(y, m) + month_days(y, m));
        months_add_up(days - month_days(y, m), y, m + 1);
    }
}

/// A stamp tells the day: counted in days, its date is as far behind the first day of
/// 1970 as the time is.
pub proof fn a_stamp_tells_the_day(at: u64)
    ensures
        ({
            let (year, rest) = year_after(at as int / 86400, 1970);
            let (month, day) = month_after(rest, year, 1);
            days_before_year(year) + days_before_month(year, month) + day - 1 == days_before_year(
                1970,
            ) + at as int / 86400
        }),
{
    let (year, rest) = year_after(at as int / 86400, 1970);
    years_add_up(at as int / 86400, 1970);
    months_add_up(rest, year, 1);
}

/// The record keeps the newest lines in their order: each line that it holds is the next
/// of what it held, and nothing newer is left out.
pub proof fn the_newest_lines_stay(lines: Seq<Seq<char>>, line: Seq<char>, i: int)
    requires
        0 <= i < recorded(lines, line).len(),
    ensures
        ({
            let after = recorded(lines, line);
            let whole = lines.push(line);
            &&& after.len() <= whole.len()
            &&& after[i] == whole[whole.len() - after.len() + i]
            &&& lines.len() < super::MAX_ENTRIES ==> after == whole
        }),
{
}

/// A stamp is the date and the time of day: the year, the month, the day, the hour and the
/// minute, in that order, each as it was then.
pub proof fn a_stamp_tells_the_time(at: u64)
    ensures
        exists|year: int, month: int, day: int, hour: int, minute: int|
            #![trigger days_before_month(year, month), digits(day, 2), digits(hour, 2), digits(minute, 2)]
            stamped(at) == digits(year, 4) + "-"@ + digits(month, 2) + "-"@ + digits(day, 2) + " "@
                + digits(hour, 2) + ":"@ + digits(minute, 2) && days_before_year(year)
                + days_before_month(year, month) + day - 1 == days_before_year(1970) + at as int
                / 86400 && 1 <= month <= 12 && 1 <= day <= month_days(year, month) && 0 <= minute
                < 60 && 3600 * hour + 60 * minute <= at as int % 86400 && at as int % 86400 < 3600
                * hour + 60 * minute + 60,
{
    let (year, rest) = year_after(at as int / 86400, 1970);
    let (month, day) = month_after(rest, year, 1);
    years_add_up(at as int / 86400, 1970);
    months_add_up(rest, year, 1);
    let seconds = at as int % 86400;
    let hour = seconds / 3600;
    let minute = (seconds % 3600) / 60;
    assert(days_before_month(year, month) == days_before_month(year, month));
    assert(digits(day, 2) == digits(day, 2));
    assert(stamped(at) == digits(year, 4) + "-"@ + digits(month, 2) + "-"@ + digits(day, 2) + " "@
        + digits(hour, 2) + ":"@ + digits(minute, 2));
}

} // verus!
