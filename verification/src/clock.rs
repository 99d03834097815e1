//! The time of day and the zone that follow a date.
use vstd::prelude::*;

use crate::names::{lemma_upper_is, same_letter};
use crate::offset::{lemma_zone, max_offset, min_offset, parse_offset, zone};
use crate::read::{Step, bounded, failed, got, take_u};
use crate::text::{
    can_cut, chars_of, head, head_of, is_digit, is_digits, lemma_ascii_head, lemma_head,
    lemma_million, lemma_runs_are_ascii, lemma_scalar, lemma_tens, lemma_value_tens, outcome, same_text, tens,
    to_uppercase, uppered, value,
};
use crate::token::{Tok, Token, all_wf, alpha_at, get_alpha, get_num, is_sep, num_at, sep_at, views};

verus! {

/// The number that a text writes: digits, after an optional plus sign.
pub open spec fn unsigned(s: Seq<char>) -> Option<int> {
    let digits = if s.len() > 0 && s[0] == '+' {
        s.skip(1)
    } else {
        s
    };
    if is_digits(digits) {
        Some(value(digits))
    } else {
        None
    }
}

/// The microseconds that a decimal fraction of a second stands for. Six digits
/// count; missing ones are zeros.
pub open spec fn fraction(f: Seq<char>) -> Result<u32, Seq<char>> {
    let h = head_of(f, 6);
    match unsigned(h) {
        Some(v) => Ok((v * tens((6 - h.len()) as nat)) as u32),
        None => Err("bad fractional seconds"@),
    }
}

/// A time of day as it is written: on the 12-hour clock where `half` tells which
/// half of the day it is in, `true` for the second.
pub struct Reading {
    pub hour: u8,
    pub minute: u8,
    pub second: u8,
    pub micros: u32,
    pub half: Option<bool>,
}

/// The half of the day that a word stands for.
pub open spec fn half_of(w: Seq<char>) -> Option<bool> {
    let u = uppered(w);
    if u == "AM"@ || u == "A"@ {
        Some(false)
    } else if u == "PM"@ || u == "P"@ {
        Some(true)
    } else {
        None
    }
}

/// The half of the day at `i`.
pub open spec fn half_at(t: Seq<Token>, i: int) -> Option<bool> {
    match alpha_at(t, i) {
        Some(a) => half_of(a),
        None => None,
    }
}

/// The end of a time of day whose numbers are read: a half of the day may follow.
pub open spec fn with_half(
    t: Seq<Token>,
    hour: i64,
    minute: i64,
    second: i64,
    micros: u32,
    i: int,
) -> Step<Reading> {
    let half = half_at(t, i);
    got(
        Reading { hour: hour as u8, minute: minute as u8, second: second as u8, micros, half },
        if half is Some {
            i + 1
        } else {
            i
        },
    )
}

/// The seconds at `i`, with their fraction, after the given hour and minute.
pub open spec fn from_second(t: Seq<Token>, hour: i64, minute: i64, i: int) -> Step<Reading> {
    let s = bounded(t, i, 2, 0, 59, "second"@);
    match s.out {
        Err(e) => failed(e, i),
        Ok(second) => match num_at(t, i + 2) {
            Some(f) => if sep_at(t, i + 1, '.') {
                match fraction(f) {
                    Ok(micros) => with_half(t, hour, minute, second, micros, i + 3),
                    Err(e) => failed(e, i),
                }
            } else {
                with_half(t, hour, minute, second, 0, i + 1)
            },
            None => with_half(t, hour, minute, second, 0, i + 1),
        },
    }
}

/// The minutes at `i` and what follows, after the given hour.
pub open spec fn from_minute(t: Seq<Token>, hour: i64, i: int) -> Step<Reading> {
    let m = bounded(t, i, 2, 0, 59, "minute"@);
    match m.out {
        Err(e) => failed(e, i),
        Ok(minute) => if sep_at(t, i + 1, ':') {
            from_second(t, hour, minute, i + 2)
        } else {
            with_half(t, hour, minute, 0, 0, i + 1)
        },
    }
}

/// The time of day at `i`: `H[:MM[:SS[.f]]]` and a half of the day; midnight where
/// there is no number.
pub open spec fn time_of_day(t: Seq<Token>, i: int) -> Step<Reading> {
    if num_at(t, i) is None {
        got(Reading { hour: 0, minute: 0, second: 0, micros: 0, half: None }, i)
    } else {
        let h = bounded(t, i, 2, 0, 23, "hour"@);
        match h.out {
            Err(e) => failed(e, i),
            Ok(hour) => if sep_at(t, i + 1, ':') {
                from_minute(t, hour, i + 2)
            } else {
                with_half(t, hour, 0, 0, 0, i + 1)
            },
        }
    }
}

/// The position after a `T` that stands before a number, as in ISO 8601.
pub open spec fn after_t(t: Seq<Token>, i: int) -> int {
    match alpha_at(t, i) {
        Some(a) => if (a == "T"@ || a == "t"@) && num_at(t, i + 1) is Some {
            i + 1
        } else {
            i
        },
        None => i,
    }
}

/// The hour of the day for an hour on the 12-hour clock, where there is one; with
/// no half of the day, the hour itself.
pub open spec fn hour_of_day(hour: u8, half: Option<bool>) -> Option<u8> {
    match half {
        None => Some(hour),
        Some(second) => if hour == 0 || hour > 12 {
            None
        } else if second {
            Some((hour % 12 + 12) as u8)
        } else {
            Some((hour % 12) as u8)
        },
    }
}

/// The time of day and the zone that take up all tokens from `i` on: hour, minute,
/// second, microseconds, and the offset from UTC where there is a zone.
pub open spec fn clock(t: Seq<Token>, i: int) -> Result<
    (u8, u8, u8, u32, Option<i32>),
    Seq<char>,
> {
    let time = time_of_day(t, after_t(t, i));
    let z = zone(t, time.next);
    match time.out {
        Err(e) => Err(e),
        Ok(c) => match z.out {
            Err(e) => Err(e),
            Ok(offset) => if z.next != t.len() {
                Err("unexpected trailing tokens"@)
            } else {
                match hour_of_day(c.hour, c.half) {
                    None => Err("hour out of range for AM/PM clock"@),
                    Some(hour) => Ok((hour, c.minute, c.second, c.micros, offset)),
                }
            },
        },
    }
}

/// A fraction of a second is below a million microseconds.
pub proof fn lemma_fraction(f: Seq<char>)
    requires
        can_cut(f, 6),
    ensures
        fraction(f) matches Ok(v) ==> v < 1_000_000,
        unsigned(head_of(f, 6)) matches Some(v) ==> 0 <= v * tens(
            (6 - head_of(f, 6).len()) as nat,
        ) < 1_000_000,
{
    let h = head_of(f, 6);
    lemma_head(f, 6);
    lemma_tens();
    if let Some(v) = unsigned(h) {
        let digits = if h.len() > 0 && h[0] == '+' {
            h.skip(1)
        } else {
            h
        };
        lemma_value_tens(digits);
        let n = h.len() as int;
        let scale = tens((6 - n) as nat);
        assert(0 <= v < tens(n as nat));
        lemma_million(n as nat);
        lemma_million((6 - n) as nat);
        assert(0 <= v * scale < tens(n as nat) * scale) by (nonlinear_arith)
            requires
                0 <= v < tens(n as nat),
                scale > 0,
        ;
    }
}

/// A time of day that was read is on the clock.
pub proof fn lemma_time_of_day(t: Seq<Token>, i: int)
    requires
        all_wf(t),
    ensures
        time_of_day(t, i).out matches Ok(r) ==> {
            &&& r.hour < 24
            &&& r.minute < 60
            &&& r.second < 60
            &&& r.micros < 1_000_000
            &&& i <= time_of_day(t, i).next
        },
{
    if let Some(f) = num_at(t, i + 6) {
        assert(t[i + 6].wf());
        lemma_runs_are_ascii(f);
        lemma_ascii_head(f, 6);
        lemma_fraction(f);
    }
}

/// A time of day that was read with its zone is on the clock, and the offset is not
/// beyond the furthest that can be written to the west or to the east.
pub proof fn lemma_clock(t: Seq<Token>, i: int)
    requires
        all_wf(t),
    ensures
        clock(t, i) matches Ok((hour, minute, second, micros, offset)) ==> {
            &&& hour < 24
            &&& minute < 60
            &&& second < 60
            &&& micros < 1_000_000
            &&& offset matches Some(v) ==> min_offset() <= v <= max_offset()
        },
{
    let k = time_of_day(t, after_t(t, i)).next;
    lemma_time_of_day(t, after_t(t, i));
    lemma_zone(t, k);
}

/// The microseconds of a decimal fraction of a second.
pub fn frac_micros(f: &str) -> (r: Result<u32, String>)
    requires
        can_cut(f@, 6),
    ensures
        outcome(r) == fraction(f@),
{
    let h = head(f, 6);
    proof {
        lemma_head(f@, 6);
        lemma_tens();
    }
    let chars = chars_of(h);
    let from: usize = if chars.len() > 0 && chars[0] == '+' {
        1
    } else {
        0
    };
    let ghost digits = h@.skip(from as int);
    assert(from == 0 ==> digits =~= h@);
    if from == chars.len() {
        return Err("bad fractional seconds".to_string());
    }
    let mut v: u32 = 0;
    let mut k: usize = from;
    while k < chars.len()
        invariant
            chars@ == h@,
            h@.len() <= 6,
            from <= k <= chars.len(),
            h@ == head_of(f@, 6),
            from == (if h@.len() > 0 && h@[0] == '+' {
                1int
            } else {
                0
            }),
            digits == h@.skip(from as int),
            from == 0 ==> digits == h@,
            forall|j: int| 0 <= j < k - from ==> is_digit(#[trigger] digits[j]),
            v == value(digits.take(k - from)),
            v < tens((k - from) as nat),
        decreases chars.len() - k,
    {
        let c = chars[k];
        assert(digits[k - from] == c);
        if !('0' <= c && c <= '9') {
            assert(!is_digits(digits));
            return Err("bad fractional seconds".to_string());
        }
        assert(digits.take(k + 1 - from).drop_last() =~= digits.take(k - from));
        proof {
            lemma_tens();
            reveal_with_fuel(tens, 7);
        }
        v = v * 10 + (c as u32 - '0' as u32);
        k = k + 1;
    }
    assert(digits.take(chars.len() - from) =~= digits);
    assert(is_digits(digits));
    let mut n: usize = chars.len();
    proof {
        lemma_value_tens(digits);
    }
    let ghost written = v as int;
    while n < 6
        invariant
            h@.len() <= n <= 6,
            v == written * tens((n - h@.len()) as nat),
            v < tens(n as nat),
        decreases 6 - n,
    {
        proof {
            lemma_tens();
            let scale = tens((n - h@.len()) as nat);
            assert((written * scale) * 10 == written * (scale * 10)) by (nonlinear_arith);
        }
        v = v * 10;
        n = n + 1;
    }
    Ok(v)
}

/// The half of the day at `i`, if a word for one stands there.
fn get_half(toks: &[Tok], i: usize) -> (r: Option<bool>)
    ensures
        r == half_at(views(toks@), i as int),
        r is Some ==> i < toks.len(),
{
    match get_alpha(toks, i) {
        Some(a) => {
            let up = to_uppercase(a);
            let u = up.as_str();
            if same_text(u, "AM") || same_text(u, "A") {
                Some(false)
            } else if same_text(u, "PM") || same_text(u, "P") {
                Some(true)
            } else {
                None
            }
        },
        None => None,
    }
}

/// Takes a time of day: `H[:MM[:SS[.f]]]` and a half of the day; midnight where
/// there is no number.
fn take_time(toks: &[Tok], i: &mut usize) -> (r: Result<Reading, String>)
    requires
        all_wf(views(toks@)),
    ensures
        outcome(r) == time_of_day(views(toks@), *old(i) as int).out,
        r is Ok ==> *final(i) == time_of_day(views(toks@), *old(i) as int).next,
{
    let mut minute: u8 = 0;
    let mut second: u8 = 0;
    let mut micros: u32 = 0;
    if get_num(toks, *i).is_none() {
        return Ok(Reading { hour: 0, minute, second, micros, half: None });
    }
    let hour = match take_u(toks, i, 2, 0, 23, "hour") {
        Ok(v) => v as u8,
        Err(e) => return Err(e),
    };
    if is_sep(toks, *i, ':') {
        *i = *i + 1;
        minute =
        match take_u(toks, i, 2, 0, 59, "minute") {
            Ok(v) => v as u8,
            Err(e) => return Err(e),
        };
        if is_sep(toks, *i, ':') {
            *i = *i + 1;
            second =
            match take_u(toks, i, 2, 0, 59, "second") {
                Ok(v) => v as u8,
                Err(e) => return Err(e),
            };
            if is_sep(toks, *i, '.') {
                if let Some(f) = get_num(toks, *i + 1) {
                    proof {
                        assert(views(toks@)[*i + 1].wf());
                        lemma_runs_are_ascii(f@);
                        lemma_ascii_head(f@, 6);
                    }
                    micros =
                    match frac_micros(f) {
                        Ok(v) => v,
                        Err(e) => return Err(e),
                    };
                    *i = *i + 2;
                }
            }
        }
    }
    let half = get_half(toks, *i);
    if half.is_some() {
        *i = *i + 1;
    }
    Ok(Reading { hour, minute, second, micros, half })
}

/// The hour of the day for an hour on the 12-hour clock.
fn to_24_hours(hour: u8, half: Option<bool>) -> (r: Option<u8>)
    ensures
        r == hour_of_day(hour, half),
{
    match half {
        None => Some(hour),
        Some(second) => {
            if hour == 0 || hour > 12 {
                return None;
            }
            Some(
                match (hour, second) {
                    (12, false) => 0,
                    (12, true) => 12,
                    (h, false) => h,
                    (h, true) => h + 12,
                },
            )
        },
    }
}

/// Reads the optional time of day and the optional zone that start at token `i` and
/// take up all that is left.
pub fn parse_time_and_offset(toks: &[Tok], i: usize) -> (r: Result<
    (u8, u8, u8, u32, Option<i32>),
    String,
>)
    requires
        all_wf(views(toks@)),
    ensures
        outcome(r) == clock(views(toks@), i as int),
{
    let mut i: usize = i;
    if let Some(a) = get_alpha(toks, i) {
        if (same_text(a, "T") || same_text(a, "t")) && get_num(toks, i + 1).is_some() {
            i = i + 1;
        }
    }
    let time = match take_time(toks, &mut i) {
        Ok(time) => time,
        Err(e) => return Err(e),
    };
    let offset = match parse_offset(toks, &mut i) {
        Ok(offset) => offset,
        Err(e) => return Err(e),
    };
    if i != toks.len() {
        return Err("unexpected trailing tokens".to_string());
    }
    match to_24_hours(time.hour, time.half) {
        Some(hour) => Ok((hour, time.minute, time.second, time.micros, offset)),
        None => Err("hour out of range for AM/PM clock".to_string()),
    }
}

/// The two halves of the 12-hour clock make up the day: each hour of the day is written
/// in one way, with an hour from 1 to 12.
pub proof fn law_twelve_hour_clock(h: u8)
    requires
        h < 24,
    ensures
        exists|hour: u8, second: bool|
            #![trigger hour_of_day(hour, Some(second))]
            1 <= hour <= 12 && hour_of_day(hour, Some(second)) == Some(h),
        forall|x: u8, y: u8, p: bool, q: bool|
            #![trigger hour_of_day(x, Some(p)), hour_of_day(y, Some(q))]
            hour_of_day(x, Some(p)) == Some(h) && hour_of_day(y, Some(q)) == Some(h) ==> x == y && p
                == q,
{
    let second = h >= 12;
    let hour: u8 = if h % 12 == 0 {
        12
    } else {
        (h % 12) as u8
    };
    assert(hour_of_day(hour, Some(second)) == Some(h));
}

/// Without a half of the day the hour is the hour of the day, noon included.
pub proof fn law_24_hour_clock(hour: u8)
    ensures
        hour_of_day(hour, None) == Some(hour),
{
}

/// With a half of the day the hour must be from 1 to 12. The hour of the day then shows
/// the same on a clock face of twelve hours, and lies in that half.
pub proof fn law_halves_of_the_day(hour: u8, second: bool)
    ensures
        hour_of_day(hour, Some(second)) is Some <==> 1 <= hour <= 12,
        hour_of_day(hour, Some(second)) matches Some(h) ==> {
            &&& h % 12 == hour % 12
            &&& second <==> h >= 12
            &&& h < 24
        },
{
}

/// The words for the halves of the day are `a` and `p`, in either case, with or without
/// an `m`.
pub proof fn law_half_words(w: Seq<char>)
    ensures
        half_of(w) is Some <==> {
            &&& w.len() == 1 || (w.len() == 2 && same_letter(w[1], 'm'))
            &&& same_letter(w[0], 'a') || same_letter(w[0], 'p')
        },
        half_of(w) matches Some(second) ==> (second <==> same_letter(w[0], 'p')),
{
    reveal_strlit("AM");
    reveal_strlit("A");
    reveal_strlit("PM");
    reveal_strlit("P");
    lemma_upper_is(w, "AM"@);
    lemma_upper_is(w, "A"@);
    lemma_upper_is(w, "PM"@);
    lemma_upper_is(w, "P"@);
    if w.len() >= 1 {
        lemma_scalar(w[0]);
    }
    if w.len() >= 2 {
        lemma_scalar(w[1]);
    }
}

} // verus!
