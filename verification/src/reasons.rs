//! The reasons that are given for a failure, each with the inputs on which it comes.
use vstd::prelude::*;

use crate::calendar::{leaps, month_and_day};
use crate::clock::{after_t, clock, fraction, time_of_day};
use crate::date::{after_weekday, date, month_at};
use crate::debug::{char_debug, str_debug};
use crate::names::{month_of, zone_of};
use crate::offset::{signed_num, zone};
use crate::parser::{Parsed, parse_tokens};
use crate::read::{Step, bounded, separator, year};
use crate::text::{can_cut, decimal, head_of, is_digits, tens, value};
use crate::token::{Token, at};

verus! {

/// A zone is looked for only where tokens are left. A word that names none, a number and a
/// separator that is no sign are rejected, and the message shows them.
pub proof fn law_zone_reasons(t: Seq<Token>, i: int)
    requires
        0 <= i,
    ensures
        i >= t.len() ==> zone(t, i).out == Ok::<Option<i32>, Seq<char>>(None) && zone(t, i).next == i,
        at(t, i) matches Some(Token::Alpha(a)) ==> (zone_of(a) is None ==> zone(t, i).next == i && zone(
            t,
            i,
        ).out == Err::<Option<i32>, Seq<char>>("unknown timezone name '"@ + a + "'"@)),
        at(t, i) matches Some(Token::Num(n)) ==> zone(t, i).next == i && zone(t, i).out == Err::<
            Option<i32>,
            Seq<char>,
        >(
            "unexpected token "@ + ("Num("@ + str_debug(n) + ")"@)
                + " where timezone/offset expected"@,
        ),
        at(t, i) matches Some(Token::Sep(c)) ==> (c != '+' && c != '-' ==> zone(t, i).next == i && zone(
            t,
            i,
        ).out == Err::<Option<i32>, Seq<char>>(
            "unexpected token "@ + ("Sep("@ + char_debug(c) + ")"@)
                + " where timezone/offset expected"@,
        )),
{
}

/// Without a sign there is no offset, and nothing is taken. Behind a sign there must be a
/// number of one, two, four or six digits.
pub proof fn law_offset_reasons(t: Seq<Token>, i: int)
    requires
        0 <= i,
    ensures
        at(t, i) != Some(Token::Sep('+')) && at(t, i) != Some(Token::Sep('-')) ==> signed_num(
            t,
            i,
        ).out == Ok::<Option<i32>, Seq<char>>(None) && signed_num(t, i).next == i,
        at(t, i) == Some(Token::Sep('+')) || at(t, i) == Some(Token::Sep('-')) ==> match at(t, i + 1) {
            Some(Token::Num(n)) => {
                &&& signed_num(t, i).next >= i + 2
                &&& n.len() != 1 && n.len() != 2 && n.len() != 4 && n.len() != 6 ==> signed_num(
                    t,
                    i,
                ).out == Err::<Option<i32>, Seq<char>>("bad offset format"@)
                &&& n.len() == 4 && value(n.skip(2)) > 59 ==> signed_num(t, i).out == Err::<
                    Option<i32>,
                    Seq<char>,
                >("offset minutes out of range"@)
                &&& n.len() == 6 && (value(n.subrange(2, 4)) > 59 || value(n.skip(4)) > 59)
                    ==> signed_num(t, i).out == Err::<Option<i32>, Seq<char>>(
                    "offset out of range"@,
                )
            },
            _ => signed_num(t, i).next == i + 1 && signed_num(t, i).out == Err::<
                Option<i32>,
                Seq<char>,
            >("expected digits after sign"@),
        },
{
}

/// Behind hours of one or two digits, a colon must be followed by minutes, and a second
/// colon by seconds; both must fit in 32 bits, and be below 60.
pub proof fn law_colon_reasons(t: Seq<Token>, i: int, n: Seq<char>)
    requires
        0 <= i,
        at(t, i) == Some(Token::Sep('+')) || at(t, i) == Some(Token::Sep('-')),
        at(t, i + 1) == Some(Token::Num(n)),
        n.len() == 1 || n.len() == 2,
        at(t, i + 2) == Some(Token::Sep(':')),
    ensures
        match at(t, i + 3) {
            Some(Token::Num(m)) => {
                let second_colon = at(t, i + 4) == Some(Token::Sep(':'));
                &&& value(m) > 0x7fff_ffff ==> signed_num(t, i).out == Err::<Option<i32>, Seq<char>>(
                    "bad offset minutes"@,
                )
                &&& value(m) <= 0x7fff_ffff && second_colon ==> match at(t, i + 5) {
                    Some(Token::Num(s)) => {
                        &&& value(s) > 0x7fff_ffff ==> signed_num(t, i).out == Err::<
                            Option<i32>,
                            Seq<char>,
                        >("bad offset seconds"@)
                        &&& value(s) <= 0x7fff_ffff && (value(m) > 59 || value(s) > 59) ==> signed_num(
                            t,
                            i,
                        ).out == Err::<Option<i32>, Seq<char>>(
                            "offset minutes/seconds out of range"@,
                        )
                    },
                    _ => signed_num(t, i).out == Err::<Option<i32>, Seq<char>>(
                        "bad offset seconds"@,
                    ),
                }
                &&& 59 < value(m) <= 0x7fff_ffff && !second_colon ==> signed_num(t, i).out == Err::<
                    Option<i32>,
                    Seq<char>,
                >("offset minutes/seconds out of range"@)
            },
            _ => signed_num(t, i).out == Err::<Option<i32>, Seq<char>>("bad offset minutes"@),
        },
{
}

/// A date begins with a number or with the name of a month. A number is followed by a
/// slash, a dash or the name of a month; nothing else is a date.
pub proof fn law_date_reasons(t: Seq<Token>, i: int, dayfirst: bool)
    requires
        0 <= i,
    ensures
        at(t, i) matches Some(Token::Alpha(a)) ==> (month_of(a) is None ==> date(t, i, dayfirst).out
            == Err::<(i32, u8, u8), Seq<char>>("unknown month name '"@ + a + "'"@)),
        at(t, i) is None || (at(t, i) matches Some(Token::Sep(_))) ==> date(t, i, dayfirst).out
            == Err::<(i32, u8, u8), Seq<char>>("unrecognized date layout"@),
        at(t, i) matches Some(Token::Num(n)) ==> (at(t, i + 1) != Some(Token::Sep('/')) && at(t, i + 1)
            != Some(Token::Sep('-')) && month_at(t, i + 1) is None ==> date(t, i, dayfirst).out
            == Err::<(i32, u8, u8), Seq<char>>("unrecognized date layout"@)),
{
}

/// A time and a zone must take up all tokens, and on the 12-hour clock the hour is from 1
/// to 12.
pub proof fn law_clock_reasons(t: Seq<Token>, i: int)
    ensures
        ({
            let time = time_of_day(t, after_t(t, i));
            let z = zone(t, time.next);
            &&& time.out matches Err(e) ==> clock(t, i) == Err::<
                (u8, u8, u8, u32, Option<i32>),
                Seq<char>,
            >(e)
            &&& time.out is Ok ==> (z.out matches Err(e) ==> clock(t, i) == Err::<
                (u8, u8, u8, u32, Option<i32>),
                Seq<char>,
            >(e))
            &&& time.out is Ok && z.out is Ok && z.next != t.len() ==> clock(t, i) == Err::<
                (u8, u8, u8, u32, Option<i32>),
                Seq<char>,
            >("unexpected trailing tokens"@)
            &&& time.out matches Ok(r) ==> (z.out is Ok && z.next == t.len() && r.half is Some && (
            r.hour < 1 || r.hour > 12) ==> clock(t, i) == Err::<
                (u8, u8, u8, u32, Option<i32>),
                Seq<char>,
            >("hour out of range for AM/PM clock"@))
        }),
{
}

/// The date is looked at first, then what follows it, then whether the year is in range,
/// and last whether the month has the day; the message names day, month and year.
pub proof fn law_order_of_reasons(t: Seq<Token>, dayfirst: bool)
    ensures
        ({
            let d = date(t, after_weekday(t), dayfirst);
            let c = clock(t, d.next);
            &&& d.out matches Err(e) ==> parse_tokens(t, dayfirst) == Err::<Parsed, Seq<char>>(e)
            &&& d.out is Ok ==> (c matches Err(e) ==> parse_tokens(t, dayfirst) == Err::<
                Parsed,
                Seq<char>,
            >(e))
            &&& d.out matches Ok(ymd) ==> (c is Ok && (ymd.0 < 1 || ymd.0 > 9999) ==> parse_tokens(
                t,
                dayfirst,
            ) == Err::<Parsed, Seq<char>>("year out of range"@))
            &&& d.out matches Ok(ymd) ==> (c is Ok && 1 <= ymd.0 <= 9999 && (ymd.1 == 2 && ymd.2 > 28
                + (leaps(ymd.0 as int) - leaps(ymd.0 - 1)) || (ymd.1 == 4 || ymd.1 == 6 || ymd.1 == 9
                || ymd.1 == 11) && ymd.2 > 30) ==> parse_tokens(t, dayfirst) == Err::<
                Parsed,
                Seq<char>,
            >(
                "day "@ + decimal(ymd.2 as nat) + " out of range for month "@ + decimal(ymd.1 as nat)
                    + " (year "@ + decimal(ymd.0 as nat) + ")"@,
            ))
        }),
{
    if let Ok(ymd) = date(t, after_weekday(t), dayfirst).out {
        crate::calendar::law_month_lengths(ymd.0 as int, ymd.1 as int);
    }
}

/// The reason of a failure.
pub open spec fn fails_with<T>(s: Step<T>, why: Seq<char>) -> bool {
    s.out == Err::<T, Seq<char>>(why)
}

/// In a date `YYYY-MM-DD` the first part, from the left, that is not as it should be gives
/// the reason.
pub proof fn law_iso_reasons(t: Seq<Token>, i: int, n: Seq<char>, dayfirst: bool)
    requires
        0 <= i,
        at(t, i) == Some(Token::Num(n)),
        n.len() == 4,
        at(t, i + 1) == Some(Token::Sep('-')),
    ensures
        ({
            let d = date(t, i, dayfirst);
            let month = bounded(t, i + 2, 2, 1, 12, "month"@).out;
            let dash = separator(t, i + 3, '-').out;
            let day = bounded(t, i + 4, 2, 1, 31, "day"@).out;
            &&& month matches Err(e) ==> fails_with(d, e)
            &&& month is Ok ==> (dash matches Err(e) ==> fails_with(d, e))
            &&& month is Ok && dash is Ok ==> (day matches Err(e) ==> fails_with(d, e))
            &&& month is Ok && dash is Ok && day is Ok ==> d.out is Ok
        }),
{
}

/// In a date of two numbers and a year the first part, from the left, that is not as it
/// should be gives the reason; which number is the month is asked last.
pub proof fn law_numeric_reasons(t: Seq<Token>, i: int, n: Seq<char>, c: char, dayfirst: bool)
    requires
        0 <= i,
        at(t, i) == Some(Token::Num(n)),
        at(t, i + 1) == Some(Token::Sep(c)),
        c == '/' || (c == '-' && n.len() <= 2 && at(t, i + 2) matches Some(Token::Num(_))),
    ensures
        ({
            let d = date(t, i, dayfirst);
            let a = bounded(t, i, 2, 1, 31, "date part"@).out;
            let b = bounded(t, i + 2, 2, 1, 31, "date part"@).out;
            let sep = separator(t, i + 3, c).out;
            let y = year(t, i + 4).out;
            &&& a matches Err(e) ==> fails_with(d, e)
            &&& a is Ok ==> (b matches Err(e) ==> fails_with(d, e))
            &&& a is Ok && b is Ok ==> (sep matches Err(e) ==> fails_with(d, e))
            &&& a is Ok && b is Ok && sep is Ok ==> (y matches Err(e) ==> fails_with(d, e))
            &&& a is Ok && b is Ok && sep is Ok && y is Ok ==> match month_and_day(
                a->Ok_0 as u8,
                b->Ok_0 as u8,
                dayfirst,
            ) {
                Ok(_) => d.out is Ok,
                Err(e) => fails_with(d, e),
            }
        }),
{
}

/// In a date with the name of a month the first part, from the left, that is not as it
/// should be gives the reason.
pub proof fn law_named_reasons(t: Seq<Token>, i: int, dayfirst: bool)
    requires
        0 <= i,
    ensures
        month_at(t, i) is Some ==> {
            let d = date(t, i, dayfirst);
            let day = bounded(t, i + 1, 2, 1, 31, "day"@).out;
            let y = if at(t, i + 2) == Some(Token::Sep(',')) {
                year(t, i + 3).out
            } else {
                year(t, i + 2).out
            };
            &&& day matches Err(e) ==> fails_with(d, e)
            &&& day is Ok ==> (y matches Err(e) ==> fails_with(d, e))
            &&& day is Ok && y is Ok ==> d.out is Ok
        },
        at(t, i) matches Some(Token::Num(n)) ==> (month_at(t, i + 1) is Some ==> {
            let d = date(t, i, dayfirst);
            let day = bounded(t, i, 2, 1, 31, "day"@).out;
            let y = year(t, i + 2).out;
            &&& n.len() > 2 ==> fails_with(d, "unrecognized date layout"@)
            &&& n.len() <= 2 ==> (day matches Err(e) ==> fails_with(d, e))
            &&& n.len() <= 2 && day is Ok ==> (y matches Err(e) ==> fails_with(d, e))
            &&& n.len() <= 2 && day is Ok && y is Ok ==> d.out is Ok
        }),
{
}

/// In a time the first of hour, minute and second that is not as it should be gives the
/// reason. A colon that follows the hour or the minute must be followed by a number.
pub proof fn law_time_reasons(t: Seq<Token>, i: int)
    requires
        0 <= i,
        at(t, i) matches Some(Token::Num(_)),
    ensures
        ({
            let x = time_of_day(t, i);
            let h = bounded(t, i, 2, 0, 23, "hour"@).out;
            let m = bounded(t, i + 2, 2, 0, 59, "minute"@).out;
            let s = bounded(t, i + 4, 2, 0, 59, "second"@).out;
            let with_m = at(t, i + 1) == Some(Token::Sep(':'));
            let with_s = with_m && at(t, i + 3) == Some(Token::Sep(':'));
            &&& h matches Err(e) ==> fails_with(x, e)
            &&& h is Ok && !with_m ==> x.out is Ok
            &&& h is Ok && with_m ==> (m matches Err(e) ==> fails_with(x, e))
            &&& h is Ok && with_m && m is Ok && !with_s ==> x.out is Ok
            &&& h is Ok && with_s && m is Ok ==> (s matches Err(e) ==> fails_with(x, e))
        }),
{
}

/// A correction behind a zone name fails for its own reasons, and a signed offset too.
pub proof fn law_correction_reasons(t: Seq<Token>, i: int)
    requires
        0 <= i,
    ensures
        at(t, i) matches Some(Token::Alpha(a)) ==> (zone_of(a) is Some ==> (signed_num(t, i + 1).out matches Err(
            e,
        ) ==> fails_with(zone(t, i), e))),
        at(t, i) == Some(Token::Sep('+')) || at(t, i) == Some(Token::Sep('-')) ==> zone(t, i)
            == signed_num(t, i),
{
}

/// Of a fraction of a second the first six bytes count. They are digits, or a plus sign and
/// digits; anything else is rejected.
pub proof fn law_fractions(f: Seq<char>)
    requires
        can_cut(f, 6),
    ensures
        ({
            let h = head_of(f, 6);
            let plus = h.len() > 0 && h[0] == '+';
            &&& !plus && is_digits(h) ==> fraction(f) == Ok::<u32, Seq<char>>(
                (value(h) * tens((6 - h.len()) as nat)) as u32,
            )
            &&& plus && is_digits(h.skip(1)) ==> fraction(f) == Ok::<u32, Seq<char>>(
                (value(h.skip(1)) * tens((6 - h.len()) as nat)) as u32,
            )
            &&& !(!plus && is_digits(h)) && !(plus && is_digits(h.skip(1))) ==> fraction(f) == Err::<
                u32,
                Seq<char>,
            >("bad fractional seconds"@)
        }),
{
}

} // verus!
