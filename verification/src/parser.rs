//! Parsing of a text into a date and time.
use vstd::prelude::*;

use crate::calendar::{days_in_month, law_month_lengths, leaps, month_days};
use crate::clock::{
    after_t, clock, lemma_clock, lemma_time_of_day, parse_time_and_offset, time_of_day,
};
use crate::date::{after_weekday, date, lemma_date, skip_weekday, take_date};
use crate::debug::{debug_str, str_debug};
use crate::offset::{lemma_zone, max_offset, min_offset};
use crate::text::{decimal, decimal_text, joined, outcome};
use crate::token::{Token, lemma_tokens_wf, num_at, sep_at, tokenize, tokens};

verus! {

/// A date and time. `offset` is in seconds east of UTC; a time without one is naive.
#[derive(Debug, Clone, Copy)]
pub struct Parsed {
    pub year: i32,
    pub month: u8,
    pub day: u8,
    pub hour: u8,
    pub minute: u8,
    pub second: u8,
    pub micros: u32,
    pub offset: Option<i32>,
}

/// The zone of a date and time.
#[derive(Debug, Clone, Copy, PartialEq, Eq, Structural)]
pub enum Zone {
    /// No zone is known.
    Naive,
    Utc,
    /// A fixed number of seconds east of UTC, other than 0.
    Fixed(i32),
}

impl Parsed {
    /// The date exists in the calendar, and the time on the clock.
    pub open spec fn wf(self) -> bool {
        &&& 1 <= self.year <= 9999
        &&& 1 <= self.month <= 12
        &&& 1 <= self.day <= month_days(self.year as int, self.month as int)
        &&& self.hour < 24
        &&& self.minute < 60
        &&& self.second < 60
        &&& self.micros < 1_000_000
    }

    /// The zone: none, UTC itself, or a fixed offset.
    pub open spec fn zone_spec(self) -> Zone {
        match self.offset {
            None => Zone::Naive,
            Some(seconds) => if seconds == 0 {
                Zone::Utc
            } else {
                Zone::Fixed(seconds)
            },
        }
    }

    /// The zone: none, UTC itself, or a fixed offset.
    pub fn zone(&self) -> (r: Zone)
        ensures
            r == self.zone_spec(),
            match r {
                Zone::Naive => self.offset is None,
                Zone::Utc => self.offset == Some(0i32),
                Zone::Fixed(s) => s != 0 && self.offset == Some(s),
            },
    {
        match self.offset {
            None => Zone::Naive,
            Some(0) => Zone::Utc,
            Some(seconds) => Zone::Fixed(seconds),
        }
    }
}

/// A date and time from its parts, if the year is in range and the month has the day.
pub open spec fn assembled(
    ymd: (i32, u8, u8),
    hms: (u8, u8, u8, u32, Option<i32>),
) -> Result<Parsed, Seq<char>> {
    let (year, month, day) = ymd;
    let (hour, minute, second, micros, offset) = hms;
    if !(1 <= year <= 9999) {
        Err("year out of range"@)
    } else if day > month_days(year as int, month as int) {
        Err(
            "day "@ + decimal(day as nat) + " out of range for month "@ + decimal(month as nat)
                + " (year "@ + decimal(year as nat) + ")"@,
        )
    } else {
        Ok(Parsed { year, month, day, hour, minute, second, micros, offset })
    }
}

/// The date and time that a token sequence stands for: a weekday that is skipped, a
/// date, and what follows it.
pub open spec fn parse_tokens(t: Seq<Token>, dayfirst: bool) -> Result<Parsed, Seq<char>> {
    let d = date(t, after_weekday(t), dayfirst);
    match d.out {
        Err(e) => Err(e),
        Ok(ymd) => match clock(t, d.next) {
            Err(e) => Err(e),
            Ok(hms) => assembled(ymd, hms),
        },
    }
}

/// The date and time that a text stands for, or the reason why it stands for none.
pub open spec fn parse_text(s: Seq<char>, dayfirst: bool) -> Result<Parsed, Seq<char>> {
    parse_tokens(tokens(s), dayfirst)
}

/// The message for a text that could not be parsed, given how the text is shown.
pub open spec fn failure(shown: Seq<char>, why: Seq<char>) -> Seq<char> {
    "rustdate: could not parse "@ + shown + ": "@ + why
}

/// What `parse` gives for a text.
pub open spec fn parse_spec(s: Seq<char>, dayfirst: bool) -> Result<Parsed, Seq<char>> {
    match parse_text(s, dayfirst) {
        Ok(p) => Ok(p),
        Err(why) => Err(failure(str_debug(s), why)),
    }
}

/// Whatever is parsed is a date of the calendar and a time on the clock, and its
/// offset is not beyond the furthest that can be written to the west or to the east.
pub proof fn law_parsed_is_valid(s: Seq<char>, dayfirst: bool)
    ensures
        parse_text(s, dayfirst) matches Ok(p) ==> {
            &&& p.wf()
            &&& p.offset matches Some(v) ==> min_offset() <= v <= max_offset()
        },
{
    let t = tokens(s);
    let i = after_weekday(t);
    lemma_tokens_wf(s);
    lemma_date(t, i, dayfirst);
    lemma_clock(t, date(t, i, dayfirst).next);
}

/// Checks the parts of a date and time against the calendar and puts them together.
fn assemble(ymd: (i32, u8, u8), hms: (u8, u8, u8, u32, Option<i32>)) -> (r: Result<Parsed, String>)
    ensures
        outcome(r) == assembled(ymd, hms),
{
    let (year, month, day) = ymd;
    let (hour, minute, second, micros, offset) = hms;
    if !(1 <= year && year <= 9999) {
        return Err("year out of range".to_string());
    }
    if day > days_in_month(year, month) {
        let mut e = joined("day ", decimal_text(day as u64).as_str());
        e.append(" out of range for month ");
        e.append(decimal_text(month as u64).as_str());
        e.append(" (year ");
        e.append(decimal_text(year as u64).as_str());
        e.append(")");
        return Err(e);
    }
    Ok(Parsed { year, month, day, hour, minute, second, micros, offset })
}

/// Parses a text into a date and time. In a numeric date the month comes first,
/// unless `dayfirst` is set. The error is the reason.
pub fn parse_inner(s: &str, dayfirst: bool) -> (r: Result<Parsed, String>)
    ensures
        outcome(r) == parse_text(s@, dayfirst),
        r matches Ok(p) ==> p.wf() && parse_text(s@, dayfirst) == Ok::<Parsed, Seq<char>>(p),
        r matches Err(e) ==> parse_text(s@, dayfirst) == Err::<Parsed, Seq<char>>(e@),
{
    proof {
        law_parsed_is_valid(s@, dayfirst);
    }
    let toks_v = tokenize(s);
    let toks = toks_v.as_slice();
    let mut i: usize = skip_weekday(toks);
    let ymd = match take_date(toks, &mut i, dayfirst) {
        Ok(ymd) => ymd,
        Err(e) => return Err(e),
    };
    match parse_time_and_offset(toks, i) {
        Ok(hms) => assemble(ymd, hms),
        Err(e) => Err(e),
    }
}

/// The message for a text that could not be parsed, given how the text is shown.
pub fn failure_message(shown: &str, why: &str) -> (r: String)
    ensures
        r@ == failure(shown@, why@),
        r@ == "rustdate: could not parse "@ + shown@ + ": "@ + why@,
{
    let mut r = joined("rustdate: could not parse ", shown);
    r.append(": ");
    r.append(why);
    r
}

/// Parses a text into a date and time: naive when the text has no zone, aware when
/// it has one. The error says which text failed and why.
pub fn parse(s: &str, dayfirst: bool) -> (r: Result<Parsed, String>)
    ensures
        outcome(r) == parse_spec(s@, dayfirst),
        r matches Ok(p) ==> p.wf() && parse_text(s@, dayfirst) == Ok::<Parsed, Seq<char>>(p),
        r matches Err(e) ==> parse_text(s@, dayfirst) matches Err(why) && e@
            == "rustdate: could not parse "@ + str_debug(s@) + ": "@ + why,
{
    match parse_inner(s, dayfirst) {
        Ok(p) => Ok(p),
        Err(why) => Err(failure_message(debug_str(s).as_str(), why.as_str())),
    }
}

/// Where the zone of a text would start: behind its date and its time of day.
pub open spec fn zone_start(s: Seq<char>, dayfirst: bool) -> int {
    let t = tokens(s);
    let d = date(t, after_weekday(t), dayfirst);
    time_of_day(t, after_t(t, d.next)).next
}

/// What is parsed is naive exactly if no tokens are left for a zone.
pub proof fn law_naive_without_zone(s: Seq<char>, dayfirst: bool)
    ensures
        parse_text(s, dayfirst) matches Ok(p) ==> (p.zone_spec() == Zone::Naive <==> zone_start(
            s,
            dayfirst,
        ) == tokens(s).len()),
{
    let t = tokens(s);
    lemma_tokens_wf(s);
    lemma_date(t, after_weekday(t), dayfirst);
    let i = date(t, after_weekday(t), dayfirst).next;
    lemma_time_of_day(t, after_t(t, i));
    lemma_zone(t, zone_start(s, dayfirst));
}

/// Whether the tokens from `i` on are a date of two numbers and a year.
pub open spec fn is_numeric(t: Seq<Token>, i: int) -> bool {
    match num_at(t, i) {
        Some(n) => sep_at(t, i + 1, '/') || (n.len() <= 2 && sep_at(t, i + 1, '-') && num_at(
            t,
            i + 2,
        ) is Some),
        None => false,
    }
}

/// `dayfirst` matters to dates of two numbers and a year only.
pub proof fn law_dayfirst_is_for_numeric_dates(s: Seq<char>)
    requires
        !is_numeric(tokens(s), after_weekday(tokens(s))),
    ensures
        parse_text(s, true) == parse_text(s, false),
{
}

/// The zone says what the offset says: none without one, UTC for 0, and else, east or
/// west, a fixed zone of that many seconds.
pub proof fn law_zone_is_the_offset(p: Parsed)
    ensures
        p.offset is None ==> p.zone_spec() == Zone::Naive,
        p.offset matches Some(s) ==> s == 0 ==> p.zone_spec() == Zone::Utc,
        p.offset matches Some(s) ==> s != 0 ==> p.zone_spec() == Zone::Fixed(s),
{
}

/// Dates and times that differ in their offsets differ in their zones.
pub proof fn law_zones_tell_offsets_apart(p: Parsed, q: Parsed)
    ensures
        p.zone_spec() == q.zone_spec() <==> p.offset == q.offset,
{
}

/// `parse` gives all that was read from the text, unchanged; where nothing could be read,
/// the message shows the text and says why.
pub proof fn law_parse_gives_what_is_read(s: Seq<char>, dayfirst: bool)
    ensures
        parse_text(s, dayfirst) matches Ok(p) ==> parse_spec(s, dayfirst) == Ok::<Parsed, Seq<char>>(
            p,
        ),
        parse_text(s, dayfirst) matches Err(why) ==> parse_spec(s, dayfirst) == Err::<
            Parsed,
            Seq<char>,
        >("rustdate: could not parse "@ + str_debug(s) + ": "@ + why),
{
}

/// Every field of what is parsed is in its range, and the day is one that its month has.
pub proof fn law_fields_in_range(s: Seq<char>, dayfirst: bool)
    ensures
        parse_text(s, dayfirst) matches Ok(p) ==> {
            &&& 1 <= p.year <= 9999
            &&& 1 <= p.month <= 12
            &&& 1 <= p.day <= 31
            &&& p.month == 4 || p.month == 6 || p.month == 9 || p.month == 11 ==> p.day <= 30
            &&& p.month == 2 ==> p.day <= 28 + (leaps(p.year as int) - leaps(p.year - 1))
            &&& p.hour <= 23
            &&& p.minute <= 59
            &&& p.second <= 59
            &&& p.micros <= 999_999
            &&& p.offset matches Some(v) ==> -388_799 <= v <= 379_799
        },
{
    law_parsed_is_valid(s, dayfirst);
    if let Ok(p) = parse_text(s, dayfirst) {
        law_month_lengths(p.year as int, p.month as int);
    }
}

/// The spacing of a text does not matter beyond its tokens: texts with the same tokens are
/// parsed alike.
pub proof fn law_tokens_tell(a: Seq<char>, b: Seq<char>, dayfirst: bool)
    requires
        tokens(a) == tokens(b),
    ensures
        parse_text(a, dayfirst) == parse_text(b, dayfirst),
{
}

} // verus!
