//! The Gregorian calendar, and the order of day and month in numeric dates.
use vstd::prelude::*;

use crate::text::{decimal, decimal_text, joined, outcome};

verus! {

/// A leap year of the Gregorian calendar.
pub open spec fn is_leap(y: int) -> bool {
    (y % 4 == 0 && y % 100 != 0) || y % 400 == 0
}

/// The number of days in month `m` of year `y`; 0 where there is no such month.
pub open spec fn month_days(y: int, m: int) -> int {
    if m == 2 {
        if is_leap(y) {
            29
        } else {
            28
        }
    } else if m == 4 || m == 6 || m == 9 || m == 11 {
        30
    } else if 1 <= m <= 12 {
        31
    } else {
        0
    }
}

/// Month and day, in this order, of a date that begins with the numbers `a` and `b`.
/// The month comes first unless `dayfirst` is set; a number above 12 in its place is
/// the day whatever the order.
pub open spec fn month_and_day(a: u8, b: u8, dayfirst: bool) -> Result<(u8, u8), Seq<char>> {
    let (month, day) = if dayfirst {
        (b, a)
    } else {
        (a, b)
    };
    if month <= 12 {
        Ok((month, day))
    } else if day <= 12 {
        Ok((day, month))
    } else {
        Err("month out of range: "@ + decimal(month as nat))
    }
}

/// The number of days in month `m` of year `y`; 0 where there is no such month.
pub fn days_in_month(y: i32, m: u8) -> (r: u8)
    ensures
        r == month_days(y as int, m as int),
{
    match m {
        1 | 3 | 5 | 7 | 8 | 10 | 12 => 31,
        4 | 6 | 9 | 11 => 30,
        2 => {
            if is_leap_year(y) {
                29
            } else {
                28
            }
        },
        _ => 0,
    }
}

/// Whether `y` is a leap year.
fn is_leap_year(y: i32) -> (r: bool)
    ensures
        r == is_leap(y as int),
{
    // whether a number divides the year does not depend on the sign of the year
    let v: i64 = if y < 0 {
        -(y as i64)
    } else {
        y as i64
    };
    proof {
        lemma_leap_negated(y as int);
    }
    (v % 4 == 0 && v % 100 != 0) || v % 400 == 0
}

proof fn lemma_leap_negated(y: int)
    ensures
        is_leap(-y) == is_leap(y),
{
    assert((-y) % 4 == 0 <==> y % 4 == 0);
    assert((-y) % 100 == 0 <==> y % 100 == 0);
    assert((-y) % 400 == 0 <==> y % 400 == 0);
}

/// Resolves the first two numbers of a date into month and day: month first by
/// default, day first with `dayfirst`. A value above 12 can only be a day.
pub fn resolve_md(a: u8, b: u8, dayfirst: bool) -> (r: Result<(u8, u8), String>)
    ensures
        outcome(r) == month_and_day(a, b, dayfirst),
{
    let (mut mo, mut d) = if dayfirst {
        (b, a)
    } else {
        (a, b)
    };
    if mo > 12 && d <= 12 {
        std::mem::swap(&mut mo, &mut d);
    }
    if mo > 12 {
        return Err(joined("month out of range: ", decimal_text(mo as u64).as_str()));
    }
    Ok((mo, d))
}

/// `dayfirst` swaps the roles of the two numbers.
pub proof fn law_dayfirst_swaps(a: u8, b: u8, dayfirst: bool)
    ensures
        month_and_day(a, b, dayfirst) == month_and_day(b, a, !dayfirst),
{
}

/// Where just one of the two numbers is above 12, it is the day, whatever the order.
pub proof fn law_above_12_is_the_day(a: u8, b: u8, dayfirst: bool)
    requires
        a <= 12,
        b > 12,
    ensures
        month_and_day(a, b, dayfirst) == Ok::<(u8, u8), Seq<char>>((a, b)),
        month_and_day(b, a, dayfirst) == Ok::<(u8, u8), Seq<char>>((a, b)),
{
}

/// A year has 365 days, a leap year 366.
pub proof fn law_days_of_a_year(y: int)
    ensures
        month_days(y, 1) + month_days(y, 2) + month_days(y, 3) + month_days(y, 4) + month_days(y, 5)
            + month_days(y, 6) + month_days(y, 7) + month_days(y, 8) + month_days(y, 9)
            + month_days(y, 10) + month_days(y, 11) + month_days(y, 12) == (if is_leap(y) {
            366int
        } else {
            365
        }),
{
}

/// The number of leap years up to year `y`: every fourth year, but of the full centuries
/// only every fourth.
pub open spec fn leaps(y: int) -> int {
    y / 4 - y / 100 + y / 400
}

/// A year is a leap year exactly if the count of leap years goes up with it.
pub proof fn law_leap_years(y: int)
    ensures
        is_leap(y) <==> leaps(y) == leaps(y - 1) + 1,
        !is_leap(y) <==> leaps(y) == leaps(y - 1),
{
}

/// The lengths of the months: 31 and 30 in turn, from January and again from August on;
/// February has 28 days, and one more in a leap year. There are no other months.
pub proof fn law_month_lengths(y: int, m: int)
    ensures
        m == 2 ==> month_days(y, m) == 28 + (leaps(y) - leaps(y - 1)),
        1 <= m <= 7 && m != 2 ==> month_days(y, m) == 30 + m % 2,
        8 <= m <= 12 ==> month_days(y, m) == 31 - m % 2,
        m < 1 || m > 12 ==> month_days(y, m) == 0,
{
    law_leap_years(y);
}

/// Two numbers that could both be the month are taken in their order: month first, or
/// day first where asked for. Two that could both only be the day are rejected, with the
/// one in the place of the month.
pub proof fn law_order_decides(a: u8, b: u8)
    ensures
        a <= 12 && b <= 12 ==> {
            &&& month_and_day(a, b, false) == Ok::<(u8, u8), Seq<char>>((a, b))
            &&& month_and_day(a, b, true) == Ok::<(u8, u8), Seq<char>>((b, a))
        },
        a > 12 && b > 12 ==> {
            &&& month_and_day(a, b, false) == Err::<(u8, u8), Seq<char>>(
                "month out of range: "@ + decimal(a as nat),
            )
            &&& month_and_day(a, b, true) == Err::<(u8, u8), Seq<char>>(
                "month out of range: "@ + decimal(b as nat),
            )
        },
{
}

} // verus!
