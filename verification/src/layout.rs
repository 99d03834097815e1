//! The supported layouts as texts, and the law that each of them is read as it says.
use vstd::prelude::*;

use crate::calendar::month_days;
use crate::clock::{
    Reading, after_t, clock, fraction, half_at, half_of, hour_of_day, law_half_words, time_of_day,
    unsigned,
};
use crate::date::{after_weekday, date, day_name_year, iso_date, name_day_year, numeric_date};
use crate::laws::{
    law_tokens_apart, lemma_tokens_digits, lemma_tokens_letters, lemma_tokens_sep,
    lemma_tokens_space,
};
use crate::names::{law_zone_names, month_of, names_weekday, zone_of};
use crate::offset::{max_signed, signed, signed_num, zone};
use crate::parser::{Parsed, parse_spec, parse_text, parse_tokens};
use crate::read::{Step, full_year, got};
use crate::text::{
    Class, class, head_of, is_digit, is_digits, is_letters, lemma_ascii_head, lemma_runs_are_ascii,
    lemma_value_bound, tens, uppered, value,
};
use crate::token::{Token, at, sep_at, tokens};

verus! {

broadcast use crate::text::lemma_scalars;

/// One or two digits.
pub open spec fn short(n: Seq<char>) -> bool {
    is_digits(n) && n.len() <= 2
}

/// A number behind a separator, or nothing.
pub open spec fn part_text(c: char, n: Option<Seq<char>>) -> Seq<char> {
    match n {
        Some(n) => seq![c] + n,
        None => seq![],
    }
}

/// The tokens of a number behind a separator.
pub open spec fn part_tokens(c: char, n: Option<Seq<char>>) -> Seq<Token> {
    match n {
        Some(n) => seq![Token::Sep(c), Token::Num(n)],
        None => seq![],
    }
}

/// A single space, or nothing.
pub open spec fn gap_text(gap: bool) -> Seq<char> {
    if gap {
        seq![' ']
    } else {
        seq![]
    }
}

/// The value of an optional number; 0 where it is missing.
pub open spec fn value_or_0(n: Option<Seq<char>>) -> int {
    match n {
        Some(n) => value(n),
        None => 0,
    }
}

/// A weekday in front of a date, as in `Sun, ` or `Sunday `.
pub struct WeekdayText {
    pub name: Seq<char>,
    pub comma: bool,
}

impl WeekdayText {
    pub open spec fn wf(self) -> bool {
        is_letters(self.name) && names_weekday(self.name)
    }

    pub open spec fn text(self) -> Seq<char> {
        if self.comma {
            self.name + seq![','] + seq![' ']
        } else {
            self.name + seq![' ']
        }
    }

    pub open spec fn toks(self) -> Seq<Token> {
        if self.comma {
            seq![Token::Alpha(self.name), Token::Sep(',')]
        } else {
            seq![Token::Alpha(self.name)]
        }
    }
}

/// A date in one of the layouts. Numbers are kept as they are written.
pub enum DateText {
    /// `YYYY-MM-DD`
    Iso { y: Seq<char>, m: Seq<char>, d: Seq<char> },
    /// `A/B/Y` or `A-B-Y`
    Numeric { a: Seq<char>, b: Seq<char>, y: Seq<char>, sep: char },
    /// `Mon D Y` or `Mon D, Y`
    NameFirst { name: Seq<char>, d: Seq<char>, comma: bool, y: Seq<char> },
    /// `D Mon Y`
    DayFirst { d: Seq<char>, name: Seq<char>, y: Seq<char> },
}

/// A year of two or four digits.
pub open spec fn year_wf(y: Seq<char>) -> bool {
    is_digits(y) && (y.len() == 2 || y.len() == 4)
}

/// The year that two or four digits write.
pub open spec fn year_value(y: Seq<char>) -> int {
    if y.len() == 2 {
        full_year(value(y))
    } else {
        value(y)
    }
}

impl DateText {
    /// The date has the shape of its layout. Whether its numbers are those of a date
    /// is left open.
    pub open spec fn wf(self) -> bool {
        match self {
            DateText::Iso { y, m, d } => is_digits(y) && y.len() == 4 && short(m) && short(d),
            DateText::Numeric { a, b, y, sep } => short(a) && short(b) && year_wf(y) && (sep == '/'
                || sep == '-'),
            DateText::NameFirst { name, d, comma, y } => is_letters(name) && month_of(name) is Some
                && short(d) && year_wf(y),
            DateText::DayFirst { d, name, y } => short(d) && is_letters(name) && month_of(
                name,
            ) is Some && year_wf(y),
        }
    }

    pub open spec fn text(self) -> Seq<char> {
        match self {
            DateText::Iso { y, m, d } => y + seq!['-'] + m + seq!['-'] + d,
            DateText::Numeric { a, b, y, sep } => a + seq![sep] + b + seq![sep] + y,
            DateText::NameFirst { name, d, comma, y } => if comma {
                name + seq![' '] + d + seq![','] + seq![' '] + y
            } else {
                name + seq![' '] + d + seq![' '] + y
            },
            DateText::DayFirst { d, name, y } => d + seq![' '] + name + seq![' '] + y,
        }
    }

    pub open spec fn toks(self) -> Seq<Token> {
        match self {
            DateText::Iso { y, m, d } => seq![
                Token::Num(y),
                Token::Sep('-'),
                Token::Num(m),
                Token::Sep('-'),
                Token::Num(d),
            ],
            DateText::Numeric { a, b, y, sep } => seq![
                Token::Num(a),
                Token::Sep(sep),
                Token::Num(b),
                Token::Sep(sep),
                Token::Num(y),
            ],
            DateText::NameFirst { name, d, comma, y } => if comma {
                seq![Token::Alpha(name), Token::Num(d), Token::Sep(','), Token::Num(y)]
            } else {
                seq![Token::Alpha(name), Token::Num(d), Token::Num(y)]
            },
            DateText::DayFirst { d, name, y } => seq![
                Token::Num(d),
                Token::Alpha(name),
                Token::Num(y),
            ],
        }
    }

    /// Year, month and day as they are written. With two numbers in front, the month
    /// comes first unless `dayfirst` is set; a number above 12 in its place is the day.
    pub open spec fn written(self, dayfirst: bool) -> (int, int, int) {
        match self {
            DateText::Iso { y, m, d } => (value(y), value(m), value(d)),
            DateText::Numeric { a, b, y, sep } => {
                let (month, day) = if dayfirst {
                    (value(b), value(a))
                } else {
                    (value(a), value(b))
                };
                if month > 12 && day <= 12 {
                    (year_value(y), day, month)
                } else {
                    (year_value(y), month, day)
                }
            },
            DateText::NameFirst { name, d, comma, y } => (
                year_value(y),
                month_of(name)->0 as int,
                value(d),
            ),
            DateText::DayFirst { d, name, y } => (year_value(y), month_of(name)->0 as int, value(d)),
        }
    }
}

/// A signed offset: `+HH[:MM[:SS]]`, `+HHMM` or `+HHMMSS`, or with a minus sign.
pub struct OffsetText {
    pub minus: bool,
    pub digits: Seq<char>,
    pub m: Option<Seq<char>>,
    pub s: Option<Seq<char>>,
}

impl OffsetText {
    pub open spec fn wf(self) -> bool {
        &&& is_digits(self.digits)
        &&& self.m matches Some(m) ==> is_digits(m)
        &&& self.s matches Some(s) ==> is_digits(s) && self.m is Some
        &&& self.digits.len() <= 2 || (self.m is None && (self.digits.len() == 4
            || self.digits.len() == 6))
    }

    pub open spec fn sign(self) -> char {
        if self.minus {
            '-'
        } else {
            '+'
        }
    }

    pub open spec fn text(self) -> Seq<char> {
        seq![self.sign()] + self.digits + part_text(':', self.m) + part_text(':', self.s)
    }

    pub open spec fn toks(self) -> Seq<Token> {
        seq![Token::Sep(self.sign()), Token::Num(self.digits)] + part_tokens(':', self.m)
            + part_tokens(':', self.s)
    }

    /// Hours, minutes and seconds as they are written.
    pub open spec fn written(self) -> (int, int, int) {
        if self.digits.len() <= 2 {
            (value(self.digits), value_or_0(self.m), value_or_0(self.s))
        } else if self.digits.len() == 4 {
            (value(self.digits.take(2)), value(self.digits.skip(2)), 0)
        } else {
            (
                value(self.digits.take(2)),
                value(self.digits.subrange(2, 4)),
                value(self.digits.skip(4)),
            )
        }
    }

    /// The offset in seconds, if the minutes and the seconds are below 60.
    pub open spec fn read(self) -> Option<int> {
        let (h, m, s) = self.written();
        if m > 59 || s > 59 {
            None
        } else {
            Some(signed(self.minus, h * 3600 + m * 60 + s))
        }
    }
}

/// A zone: an offset, or a name with an optional correction.
pub enum ZoneText {
    Offset(OffsetText),
    Named(Seq<char>, Option<OffsetText>),
}

impl ZoneText {
    pub open spec fn wf(self) -> bool {
        match self {
            ZoneText::Offset(o) => o.wf(),
            ZoneText::Named(name, correction) => {
                &&& is_letters(name)
                &&& zone_of(name) is Some
                &&& correction matches Some(o) ==> o.wf()
            },
        }
    }

    pub open spec fn text(self) -> Seq<char> {
        match self {
            ZoneText::Offset(o) => o.text(),
            ZoneText::Named(name, None) => name,
            ZoneText::Named(name, Some(o)) => name + o.text(),
        }
    }

    pub open spec fn toks(self) -> Seq<Token> {
        match self {
            ZoneText::Offset(o) => o.toks(),
            ZoneText::Named(name, None) => seq![Token::Alpha(name)],
            ZoneText::Named(name, Some(o)) => seq![Token::Alpha(name)] + o.toks(),
        }
    }

    /// The offset of the zone in seconds, if its parts are in range.
    pub open spec fn read(self) -> Option<int> {
        match self {
            ZoneText::Offset(o) => o.read(),
            ZoneText::Named(name, None) => zone_of(name),
            ZoneText::Named(name, Some(o)) => match o.read() {
                Some(v) => Some(zone_of(name)->0 + v),
                None => None,
            },
        }
    }
}

/// A time of day behind a date: `H[:MM[:SS[.f]]]`, a half of the day, a zone. `lead`
/// stands between the date and the time.
pub struct TimeText {
    pub lead: char,
    pub h: Seq<char>,
    pub m: Option<Seq<char>>,
    pub s: Option<Seq<char>>,
    pub f: Option<Seq<char>>,
    pub half_gap: bool,
    pub half: Option<Seq<char>>,
    pub zone_gap: bool,
    pub zone: Option<ZoneText>,
}

impl TimeText {
    pub open spec fn wf(self) -> bool {
        &&& self.lead == ' ' || self.lead == 'T' || self.lead == 't'
        &&& short(self.h)
        &&& self.m matches Some(m) ==> short(m)
        &&& self.s matches Some(s) ==> short(s) && self.m is Some
        &&& self.f matches Some(f) ==> is_digits(f) && self.s is Some
        &&& self.half matches Some(w) ==> is_letters(w) && half_of(w) is Some
        &&& self.zone matches Some(z) ==> z.wf() && (z is Named && self.half is Some
            ==> self.zone_gap)
    }

    pub open spec fn half_text(self) -> Seq<char> {
        match self.half {
            Some(w) => gap_text(self.half_gap) + w,
            None => seq![],
        }
    }

    pub open spec fn half_toks(self) -> Seq<Token> {
        match self.half {
            Some(w) => seq![Token::Alpha(w)],
            None => seq![],
        }
    }

    pub open spec fn zone_text(self) -> Seq<char> {
        match self.zone {
            Some(z) => gap_text(self.zone_gap) + z.text(),
            None => seq![],
        }
    }

    pub open spec fn zone_toks(self) -> Seq<Token> {
        match self.zone {
            Some(z) => z.toks(),
            None => seq![],
        }
    }

    pub open spec fn lead_toks(self) -> Seq<Token> {
        if self.lead == ' ' {
            seq![]
        } else {
            seq![Token::Alpha(seq![self.lead])]
        }
    }

    pub open spec fn text(self) -> Seq<char> {
        seq![self.lead] + self.h + part_text(':', self.m) + part_text(':', self.s) + part_text(
            '.',
            self.f,
        ) + self.half_text() + self.zone_text()
    }

    /// The tokens of the time of day itself.
    pub open spec fn time_toks(self) -> Seq<Token> {
        seq![Token::Num(self.h)] + part_tokens(':', self.m) + part_tokens(':', self.s)
            + part_tokens('.', self.f) + self.half_toks()
    }

    pub open spec fn toks(self) -> Seq<Token> {
        self.lead_toks() + self.time_toks() + self.zone_toks()
    }

    /// The half of the day.
    pub open spec fn half_read(self) -> Option<bool> {
        match self.half {
            Some(w) => half_of(w),
            None => None,
        }
    }

    /// The time of day as it is written, if its numbers are in range.
    pub open spec fn reading(self) -> Option<Reading> {
        if value(self.h) > 23 || value_or_0(self.m) > 59 || value_or_0(self.s) > 59 {
            None
        } else {
            Some(
                Reading {
                    hour: value(self.h) as u8,
                    minute: value_or_0(self.m) as u8,
                    second: value_or_0(self.s) as u8,
                    micros: match self.f {
                        Some(f) => micros(f) as u32,
                        None => 0,
                    },
                    half: self.half_read(),
                },
            )
        }
    }

    /// The offset, if there is a zone.
    pub open spec fn offset(self) -> Option<i32> {
        match self.zone {
            Some(z) => Some(z.read()->0 as i32),
            None => None,
        }
    }

    /// Hour, minute, second, microseconds and offset, if the numbers are in range and
    /// the hour is on the clock that the half of the day asks for.
    pub open spec fn read(self) -> Option<(u8, u8, u8, u32, Option<i32>)> {
        match self.reading() {
            None => None,
            Some(r) => if self.zone matches Some(z) && z.read() is None {
                None
            } else {
                match hour_of_day(r.hour, r.half) {
                    Some(hour) => Some((hour, r.minute, r.second, r.micros, self.offset())),
                    None => None,
                }
            },
        }
    }
}

/// The microseconds of a fraction of a second: the first six digits, filled up with
/// zeros.
pub open spec fn micros(f: Seq<char>) -> int {
    if f.len() <= 6 {
        value(f) * tens((6 - f.len()) as nat)
    } else {
        value(f.take(6))
    }
}

/// A text in one of the supported layouts.
pub struct Layout {
    pub weekday: Option<WeekdayText>,
    pub date: DateText,
    pub time: Option<TimeText>,
}

impl Layout {
    pub open spec fn wf(self) -> bool {
        &&& self.weekday matches Some(w) ==> w.wf()
        &&& self.date.wf()
        &&& self.time matches Some(t) ==> t.wf()
    }

    pub open spec fn weekday_text(self) -> Seq<char> {
        match self.weekday {
            Some(w) => w.text(),
            None => seq![],
        }
    }

    pub open spec fn weekday_toks(self) -> Seq<Token> {
        match self.weekday {
            Some(w) => w.toks(),
            None => seq![],
        }
    }

    pub open spec fn time_text(self) -> Seq<char> {
        match self.time {
            Some(t) => t.text(),
            None => seq![],
        }
    }

    pub open spec fn time_toks(self) -> Seq<Token> {
        match self.time {
            Some(t) => t.toks(),
            None => seq![],
        }
    }

    pub open spec fn text(self) -> Seq<char> {
        self.weekday_text() + self.date.text() + self.time_text()
    }

    pub open spec fn toks(self) -> Seq<Token> {
        self.weekday_toks() + self.date.toks() + self.time_toks()
    }

    /// The time of day; midnight without a zone where there is none.
    pub open spec fn time_read(self) -> Option<(u8, u8, u8, u32, Option<i32>)> {
        match self.time {
            Some(t) => t.read(),
            None => Some((0, 0, 0, 0, None)),
        }
    }

    /// The date and time that the text says, if there is such a date and such a time.
    pub open spec fn read(self, dayfirst: bool) -> Option<Parsed> {
        said(self.date.written(dayfirst), self.time_read())
    }
}

/// The date and time with the given year, month and day, if the calendar has that day,
/// and with the given time, if there is one.
pub open spec fn said(
    ymd: (int, int, int),
    hms: Option<(u8, u8, u8, u32, Option<i32>)>,
) -> Option<Parsed> {
    let (y, m, d) = ymd;
    match hms {
        None => None,
        Some((hour, minute, second, micros, offset)) => if 1 <= y <= 9999 && 1 <= m <= 12 && 1 <= d
            <= month_days(y, m) {
            Some(
                Parsed {
                    year: y as i32,
                    month: m as u8,
                    day: d as u8,
                    hour,
                    minute,
                    second,
                    micros,
                    offset,
                },
            )
        } else {
            None
        },
    }
}

/// A text and its tokens, followed by a character that is a token or white space.
proof fn lemma_then_char(a: Seq<char>, c: char)
    requires
        class(c) == Class::Space || class(c) == Class::Other,
    ensures
        tokens(a + seq![c]) == tokens(a) + (if class(c) == Class::Space {
            seq![]
        } else {
            seq![Token::Sep(c)]
        }),
{
    law_tokens_apart(a, seq![c]);
    if class(c) == Class::Space {
        lemma_tokens_space(c);
    } else {
        lemma_tokens_sep(c);
    }
}

/// A text that does not end in a digit, followed by a number.
proof fn lemma_then_digits(a: Seq<char>, n: Seq<char>)
    requires
        is_digits(n),
        a.len() > 0 ==> class(a.last()) != Class::Digit,
    ensures
        tokens(a + n) == tokens(a) + seq![Token::Num(n)],
        class((a + n).last()) == Class::Digit,
{
    law_tokens_apart(a, n);
    lemma_tokens_digits(n);
    assert((a + n).last() == n[n.len() - 1]);
}

/// A text that does not end in a letter, followed by a word.
proof fn lemma_then_letters(a: Seq<char>, w: Seq<char>)
    requires
        is_letters(w),
        a.len() > 0 ==> class(a.last()) != Class::Letter,
    ensures
        tokens(a + w) == tokens(a) + seq![Token::Alpha(w)],
        class((a + w).last()) == Class::Letter,
{
    law_tokens_apart(a, w);
    lemma_tokens_letters(w);
    assert((a + w).last() == w[w.len() - 1]);
}

/// A text that ends in a digit, followed by an optional number behind a separator.
proof fn lemma_then_part(a: Seq<char>, c: char, n: Option<Seq<char>>)
    requires
        class(c) == Class::Other,
        n matches Some(n) ==> is_digits(n),
        a.len() > 0,
        class(a.last()) == Class::Digit,
    ensures
        tokens(a + part_text(c, n)) == tokens(a) + part_tokens(c, n),
        (a + part_text(c, n)).len() > 0,
        class((a + part_text(c, n)).last()) == Class::Digit,
{
    match n {
        Some(n) => {
            lemma_then_char(a, c);
            lemma_then_digits(a + seq![c], n);
            assert(a + seq![c] + n =~= a + (seq![c] + n));
            assert(tokens(a) + seq![Token::Sep(c)] + seq![Token::Num(n)] =~= tokens(a)
                + seq![Token::Sep(c), Token::Num(n)]);
        },
        None => {
            assert(a + part_text(c, None) =~= a);
            assert(tokens(a) + part_tokens(c, None) =~= tokens(a));
        },
    }
}

impl WeekdayText {
    /// A weekday has the tokens of its parts, and ends in a space.
    pub proof fn lemma_tokens(self)
        requires
            self.wf(),
        ensures
            tokens(self.text()) == self.toks(),
            self.text().len() > 0,
            class(self.text().last()) == Class::Space,
    {
        lemma_tokens_letters(self.name);
        if self.comma {
            lemma_then_char(self.name, ',');
            lemma_then_char(self.name + seq![','], ' ');
        } else {
            lemma_then_char(self.name, ' ');
        }
        assert(tokens(self.text()) =~= self.toks());
    }
}

impl DateText {
    proof fn lemma_tokens(self)
        requires
            self.wf(),
        ensures
            tokens(self.text()) == self.toks(),
            self.text().len() > 0,
            class(self.text()[0]) == Class::Digit || class(self.text()[0]) == Class::Letter,
            class(self.text().last()) == Class::Digit,
    {
        match self {
            DateText::Iso { y, m, d } => {
                lemma_tokens_digits(y);
                lemma_then_char(y, '-');
                lemma_then_digits(y + seq!['-'], m);
                lemma_then_char(y + seq!['-'] + m, '-');
                lemma_then_digits(y + seq!['-'] + m + seq!['-'], d);
                assert(self.text()[0] == y[0]);
            },
            DateText::Numeric { a, b, y, sep } => {
                lemma_tokens_digits(a);
                lemma_then_char(a, sep);
                lemma_then_digits(a + seq![sep], b);
                lemma_then_char(a + seq![sep] + b, sep);
                lemma_then_digits(a + seq![sep] + b + seq![sep], y);
                assert(self.text()[0] == a[0]);
            },
            DateText::NameFirst { name, d, comma, y } => {
                lemma_tokens_letters(name);
                lemma_then_char(name, ' ');
                lemma_then_digits(name + seq![' '], d);
                let s = name + seq![' '] + d;
                if comma {
                    lemma_then_char(s, ',');
                    lemma_then_char(s + seq![','], ' ');
                    lemma_then_digits(s + seq![','] + seq![' '], y);
                } else {
                    lemma_then_char(s, ' ');
                    lemma_then_digits(s + seq![' '], y);
                }
                assert(self.text()[0] == name[0]);
            },
            DateText::DayFirst { d, name, y } => {
                lemma_tokens_digits(d);
                lemma_then_char(d, ' ');
                lemma_then_letters(d + seq![' '], name);
                lemma_then_char(d + seq![' '] + name, ' ');
                lemma_then_digits(d + seq![' '] + name + seq![' '], y);
                assert(self.text()[0] == d[0]);
            },
        }
        assert(tokens(self.text()) =~= self.toks());
    }
}

impl OffsetText {
    proof fn lemma_tokens(self)
        requires
            self.wf(),
        ensures
            tokens(self.text()) == self.toks(),
            self.text().len() > 0,
            self.text()[0] == self.sign(),
    {
        let c = seq![self.sign()];
        lemma_tokens_sep(self.sign());
        lemma_then_digits(c, self.digits);
        lemma_then_part(c + self.digits, ':', self.m);
        lemma_then_part(c + self.digits + part_text(':', self.m), ':', self.s);
        assert(c[0] == self.sign());
        assert(tokens(self.text()) =~= self.toks());
    }
}

impl ZoneText {
    proof fn lemma_tokens(self)
        requires
            self.wf(),
        ensures
            tokens(self.text()) == self.toks(),
            self.text().len() > 0,
            self is Offset ==> class(self.text()[0]) == Class::Other,
            self is Named ==> class(self.text()[0]) == Class::Letter,
    {
        match self {
            ZoneText::Offset(o) => {
                o.lemma_tokens();
            },
            ZoneText::Named(name, None) => {
                lemma_tokens_letters(name);
            },
            ZoneText::Named(name, Some(o)) => {
                o.lemma_tokens();
                lemma_tokens_letters(name);
                law_tokens_apart(name, o.text());
                assert((name + o.text())[0] == name[0]);
            },
        }
    }
}

impl TimeText {
    /// The half of the day, behind a text that ends in a digit.
    proof fn lemma_half_tokens(self, d: Seq<char>)
        requires
            self.wf(),
            d.len() > 0,
            class(d.last()) == Class::Digit,
        ensures
            tokens(d + self.half_text()) == tokens(d) + self.half_toks(),
            (d + self.half_text()).len() > 0,
            class((d + self.half_text()).last()) == (if self.half is Some {
                Class::Letter
            } else {
                Class::Digit
            }),
    {
        let e = d + self.half_text();
        match self.half {
            Some(w) => {
                if self.half_gap {
                    lemma_then_char(d, ' ');
                    lemma_then_letters(d + seq![' '], w);
                    assert(d + seq![' '] + w =~= e);
                    assert(tokens(d) + Seq::<Token>::empty() =~= tokens(d));
                } else {
                    lemma_then_letters(d, w);
                    assert(d + w =~= e);
                }
            },
            None => {
                assert(e =~= d);
                assert(tokens(d) + self.half_toks() =~= tokens(d));
            },
        }
    }

    /// The zone, behind a text that ends in the half of the day or in a digit.
    proof fn lemma_zone_tokens(self, e: Seq<char>)
        requires
            self.wf(),
            e.len() > 0,
            class(e.last()) == (if self.half is Some {
                Class::Letter
            } else {
                Class::Digit
            }),
        ensures
            tokens(e + self.zone_text()) == tokens(e) + self.zone_toks(),
    {
        let s = e + self.zone_text();
        match self.zone {
            Some(z) => {
                z.lemma_tokens();
                if self.zone_gap {
                    lemma_then_char(e, ' ');
                    law_tokens_apart(e + seq![' '], z.text());
                    assert(e + seq![' '] + z.text() =~= s);
                    assert(tokens(e) + Seq::<Token>::empty() =~= tokens(e));
                } else {
                    law_tokens_apart(e, z.text());
                    assert(e + z.text() =~= s);
                }
            },
            None => {
                assert(s =~= e);
                assert(tokens(e) + self.zone_toks() =~= tokens(e));
            },
        }
    }

    /// The numbers of the time.
    proof fn lemma_number_tokens(self)
        requires
            self.wf(),
        ensures
            ({
                let d = seq![self.lead] + self.h + part_text(':', self.m) + part_text(':', self.s)
                    + part_text('.', self.f);
                &&& tokens(d) == self.lead_toks() + seq![Token::Num(self.h)] + part_tokens(
                    ':',
                    self.m,
                ) + part_tokens(':', self.s) + part_tokens('.', self.f)
                &&& d.len() > 0
                &&& class(d.last()) == Class::Digit
            }),
    {
        let lead = seq![self.lead];
        if self.lead == ' ' {
            lemma_tokens_space(' ');
        } else {
            lemma_tokens_letters(lead);
        }
        assert(tokens(lead) =~= self.lead_toks());
        lemma_then_digits(lead, self.h);
        let a = lead + self.h;
        lemma_then_part(a, ':', self.m);
        let b = a + part_text(':', self.m);
        lemma_then_part(b, ':', self.s);
        lemma_then_part(b + part_text(':', self.s), '.', self.f);
    }

    proof fn lemma_tokens(self)
        requires
            self.wf(),
        ensures
            tokens(self.text()) == self.toks(),
            self.text().len() > 0,
            self.text()[0] == self.lead,
    {
        let d = seq![self.lead] + self.h + part_text(':', self.m) + part_text(':', self.s)
            + part_text('.', self.f);
        self.lemma_number_tokens();
        self.lemma_half_tokens(d);
        self.lemma_zone_tokens(d + self.half_text());
        let rest = seq![Token::Num(self.h)] + part_tokens(':', self.m) + part_tokens(':', self.s)
            + part_tokens('.', self.f);
        assert(tokens(d) =~= self.lead_toks() + rest);
        assert(self.lead_toks() + rest + self.half_toks() =~= self.lead_toks() + (rest
            + self.half_toks()));
        assert(self.text()[0] == self.lead);
    }
}

impl Layout {
    /// A text in a supported layout has the tokens of its parts.
    pub proof fn lemma_tokens(self)
        requires
            self.wf(),
        ensures
            tokens(self.text()) == self.toks(),
    {
        let a = self.weekday_text();
        match self.weekday {
            Some(w) => {
                w.lemma_tokens();
            },
            None => {
                assert(tokens(a) =~= self.weekday_toks());
            },
        }
        self.date.lemma_tokens();
        law_tokens_apart(a, self.date.text());
        let b = a + self.date.text();
        assert(b.last() == self.date.text().last());
        match self.time {
            Some(t) => {
                t.lemma_tokens();
            },
            None => {
                assert(tokens(self.time_text()) =~= self.time_toks());
            },
        }
        law_tokens_apart(b, self.time_text());
    }
}

/// The tokens `p` stand in `t` from `i` on.
pub open spec fn holds(t: Seq<Token>, i: int, p: Seq<Token>) -> bool {
    &&& 0 <= i
    &&& i + p.len() <= t.len()
    &&& forall|k: int| 0 <= k < p.len() ==> t[i + k] == #[trigger] p[k]
}

proof fn lemma_holds(t: Seq<Token>, i: int, p: Seq<Token>, k: int)
    requires
        holds(t, i, p),
        0 <= k < p.len(),
    ensures
        at(t, i + k) == Some(p[k]),
{
}

/// Parts of what stands in `t` stand there too.
proof fn lemma_holds_parts(t: Seq<Token>, i: int, p: Seq<Token>, q: Seq<Token>)
    requires
        holds(t, i, p + q),
    ensures
        holds(t, i, p),
        holds(t, i + p.len(), q),
{
    assert forall|k: int| 0 <= k < p.len() implies t[i + k] == #[trigger] p[k] by {
        assert((p + q)[k] == p[k]);
    }
    assert forall|k: int| 0 <= k < q.len() implies t[i + p.len() + k] == #[trigger] q[k] by {
        assert((p + q)[p.len() + k] == q[k]);
    }
}

impl DateText {
    /// The date at `i` is read as it is written, if its month and its day can be those
    /// of a date.
    spec fn is_read(self, t: Seq<Token>, i: int, dayfirst: bool) -> bool {
        let (y, m, d) = self.written(dayfirst);
        &&& 0 <= y <= 9999
        &&& if 1 <= m <= 12 && 1 <= d <= 31 {
            date(t, i, dayfirst) == got((y as i32, m as u8, d as u8), i + self.toks().len())
        } else {
            date(t, i, dayfirst).out is Err
        }
    }

    proof fn lemma_iso(self, t: Seq<Token>, i: int, dayfirst: bool)
        requires
            self.wf(),
            holds(t, i, self.toks()),
            self is Iso,
        ensures
            self.is_read(t, i, dayfirst),
    {
        let p = self.toks();
        if let DateText::Iso { y, m, d } = self {
            lemma_holds(t, i, p, 0);
            lemma_holds(t, i, p, 1);
            lemma_holds(t, i, p, 2);
            lemma_holds(t, i, p, 3);
            lemma_holds(t, i, p, 4);
            lemma_value_bound(y);
            lemma_value_bound(m);
            lemma_value_bound(d);
            assert(date(t, i, dayfirst) == iso_date(t, i, y));
        }
    }

    proof fn lemma_numeric(self, t: Seq<Token>, i: int, dayfirst: bool)
        requires
            self.wf(),
            holds(t, i, self.toks()),
            self is Numeric,
        ensures
            self.is_read(t, i, dayfirst),
    {
        let p = self.toks();
        if let DateText::Numeric { a, b, y, sep } = self {
            lemma_holds(t, i, p, 0);
            lemma_holds(t, i, p, 1);
            lemma_holds(t, i, p, 2);
            lemma_holds(t, i, p, 3);
            lemma_holds(t, i, p, 4);
            lemma_value_bound(a);
            lemma_value_bound(b);
            lemma_value_bound(y);
            assert(date(t, i, dayfirst) == numeric_date(t, i, sep, dayfirst));
        }
    }

    proof fn lemma_named(self, t: Seq<Token>, i: int, dayfirst: bool)
        requires
            self.wf(),
            holds(t, i, self.toks()),
            self is NameFirst || self is DayFirst,
        ensures
            self.is_read(t, i, dayfirst),
    {
        let p = self.toks();
        lemma_holds(t, i, p, 0);
        lemma_holds(t, i, p, 1);
        lemma_holds(t, i, p, 2);
        match self {
            DateText::NameFirst { name, d, comma, y } => {
                if comma {
                    lemma_holds(t, i, p, 3);
                }
                lemma_value_bound(d);
                lemma_value_bound(y);
                assert(date(t, i, dayfirst) == name_day_year(t, i, name));
            },
            DateText::DayFirst { d, name, y } => {
                lemma_value_bound(d);
                lemma_value_bound(y);
                assert(date(t, i, dayfirst) == day_name_year(t, i, month_of(name)->0));
            },
            _ => {},
        }
    }

    proof fn lemma_date(self, t: Seq<Token>, i: int, dayfirst: bool)
        requires
            self.wf(),
            holds(t, i, self.toks()),
        ensures
            self.is_read(t, i, dayfirst),
    {
        match self {
            DateText::Iso { .. } => self.lemma_iso(t, i, dayfirst),
            DateText::Numeric { .. } => self.lemma_numeric(t, i, dayfirst),
            _ => self.lemma_named(t, i, dayfirst),
        }
    }
}

impl OffsetText {
    /// An offset at the end of the tokens is read as it is written, if its parts are in
    /// range.
    proof fn lemma_read(self, t: Seq<Token>, i: int)
        requires
            self.wf(),
            holds(t, i, self.toks()),
            i + self.toks().len() == t.len(),
        ensures
            match self.read() {
                Some(v) => signed_num(t, i) == got(Some(v as i32), t.len() as int),
                None => signed_num(t, i).out is Err,
            },
            self.read() matches Some(v) ==> -max_signed() <= v <= max_signed(),
    {
        let p = self.toks();
        lemma_holds(t, i, p, 0);
        lemma_holds(t, i, p, 1);
        lemma_value_bound(self.digits);
        if self.digits.len() == 4 {
            lemma_value_bound(self.digits.take(2));
            lemma_value_bound(self.digits.skip(2));
        } else if self.digits.len() == 6 {
            lemma_value_bound(self.digits.take(2));
            lemma_value_bound(self.digits.subrange(2, 4));
            lemma_value_bound(self.digits.skip(4));
        }
        if let Some(m) = self.m {
            assert(p[2] == Token::Sep(':'));
            assert(p[3] == Token::Num(m));
            lemma_holds(t, i, p, 2);
            lemma_holds(t, i, p, 3);
            lemma_value_bound(m);
        }
        if let Some(s) = self.s {
            assert(p[4] == Token::Sep(':'));
            assert(p[5] == Token::Num(s));
            lemma_holds(t, i, p, 4);
            lemma_holds(t, i, p, 5);
            lemma_value_bound(s);
        }
    }
}

/// A zone name is not a half of the day.
pub proof fn lemma_zone_is_no_half(w: Seq<char>)
    ensures
        zone_of(w) is Some ==> half_of(w) is None,
{
    reveal_strlit("Z");
    reveal_strlit("GMT");
    reveal_strlit("UTC");
    reveal_strlit("UT");
    reveal_strlit("EST");
    reveal_strlit("EDT");
    reveal_strlit("CST");
    reveal_strlit("CDT");
    reveal_strlit("MST");
    reveal_strlit("MDT");
    reveal_strlit("PST");
    reveal_strlit("PDT");
    reveal_strlit("IST");
    reveal_strlit("AM");
    reveal_strlit("A");
    reveal_strlit("PM");
    reveal_strlit("P");
    let u = uppered(w);
    assert("Z"@[0] == 'Z' && "A"@[0] == 'A' && "P"@[0] == 'P');
    assert("UT"@[0] == 'U' && "AM"@[0] == 'A' && "PM"@[0] == 'P');
    if zone_of(w) is Some {
        assert(u == "Z"@ || u == "UT"@ || u.len() == 3);
    }
}

impl ZoneText {
    /// A zone at the end of the tokens is read as it is written, if its parts are in
    /// range.
    proof fn lemma_read(self, t: Seq<Token>, i: int)
        requires
            self.wf(),
            holds(t, i, self.toks()),
            i + self.toks().len() == t.len(),
        ensures
            match self.read() {
                Some(v) => zone(t, i) == got(Some(v as i32), t.len() as int),
                None => zone(t, i).out is Err,
            },
            !sep_at(t, i, ':'),
            !sep_at(t, i, '.'),
            half_at(t, i) is None,
            self.read() matches Some(v) ==> -388_799 <= v <= 379_799,
    {
        let p = self.toks();
        lemma_holds(t, i, p, 0);
        match self {
            ZoneText::Offset(o) => {
                o.lemma_read(t, i);
            },
            ZoneText::Named(name, None) => {
                lemma_zone_is_no_half(name);
            },
            ZoneText::Named(name, Some(o)) => {
                lemma_zone_is_no_half(name);
                lemma_holds_parts(t, i, seq![Token::Alpha(name)], o.toks());
                o.lemma_read(t, i + 1);
            },
        }
    }
}

impl ZoneText {
    proof fn lemma_toks(self)
        ensures
            self.toks().len() > 0,
            match self {
                ZoneText::Offset(o) => self.toks()[0] == Token::Sep(o.sign()),
                ZoneText::Named(name, _) => self.toks()[0] == Token::Alpha(name),
            },
    {
    }
}

/// A zone name is not the `T` in front of a time.
pub proof fn lemma_zone_is_no_t(w: Seq<char>)
    ensures
        zone_of(w) is Some ==> w != "T"@ && w != "t"@,
{
    reveal_strlit("T");
    reveal_strlit("t");
    law_zone_names(w);
}

/// For a run of digits, the fraction of a second is the first six of them, filled up
/// with zeros: further digits are cut off.
pub proof fn law_fraction(f: Seq<char>)
    requires
        is_digits(f),
    ensures
        fraction(f) == Ok::<u32, Seq<char>>(micros(f) as u32),
        0 <= micros(f) < 1_000_000,
{
    lemma_runs_are_ascii(f);
    lemma_ascii_head(f, 6);
    crate::clock::lemma_fraction(f);
    let h = head_of(f, 6);
    assert(is_digits(h));
    assert(unsigned(h) == Some(value(h)));
    assert(f.len() == 6 ==> f.take(6) =~= f);
    crate::text::lemma_tens();
}

impl TimeText {
    /// The time of day is read as it is written, if its numbers are in range.
    proof fn lemma_reading(self, t: Seq<Token>, i: int)
        requires
            self.wf(),
            holds(t, i, self.time_toks()),
            !sep_at(t, i + self.time_toks().len(), ':'),
            !sep_at(t, i + self.time_toks().len(), '.'),
            half_at(t, i + self.time_toks().len()) is None,
        ensures
            match self.reading() {
                Some(r) => time_of_day(t, i) == got(r, i + self.time_toks().len()),
                None => time_of_day(t, i).out is Err,
            },
    {
        let p = self.time_toks();
        let m = part_tokens(':', self.m);
        let s = part_tokens(':', self.s);
        let f = part_tokens('.', self.f);
        let w = self.half_toks();
        lemma_holds_parts(t, i, seq![Token::Num(self.h)] + m + s + f, w);
        lemma_holds_parts(t, i, seq![Token::Num(self.h)] + m + s, f);
        lemma_holds_parts(t, i, seq![Token::Num(self.h)] + m, s);
        lemma_holds_parts(t, i, seq![Token::Num(self.h)], m);
        lemma_holds(t, i, seq![Token::Num(self.h)], 0);
        lemma_value_bound(self.h);
        if let Some(n) = self.m {
            lemma_holds(t, i + 1, m, 0);
            lemma_holds(t, i + 1, m, 1);
            lemma_value_bound(n);
        }
        if let Some(n) = self.s {
            lemma_holds(t, i + 3, s, 0);
            lemma_holds(t, i + 3, s, 1);
            lemma_value_bound(n);
        }
        if let Some(n) = self.f {
            lemma_holds(t, i + 5, f, 0);
            lemma_holds(t, i + 5, f, 1);
            law_fraction(n);
        }
        if let Some(n) = self.half {
            lemma_holds(t, i + p.len() - 1, w, 0);
        }
    }

    /// A time at the end of the tokens is read as it is written, if its parts are in
    /// range.
    proof fn lemma_read(self, t: Seq<Token>, i: int)
        requires
            self.wf(),
            holds(t, i, self.toks()),
            i + self.toks().len() == t.len(),
        ensures
            match self.read() {
                Some(v) => clock(t, i) == Ok::<_, Seq<char>>(v),
                None => clock(t, i) is Err,
            },
    {
        let lead = self.lead_toks();
        let time = self.time_toks();
        lemma_holds_parts(t, i, lead + time, self.zone_toks());
        lemma_holds_parts(t, i, lead, time);
        let j = i + lead.len();
        let k = j + time.len();
        lemma_holds(t, j, time, 0);
        assert(time[0] == Token::Num(self.h));
        reveal_strlit("T");
        reveal_strlit("t");
        if self.lead != ' ' {
            lemma_holds(t, i, lead, 0);
            assert(seq![self.lead] =~= "T"@ || seq![self.lead] =~= "t"@);
        }
        assert(after_t(t, i) == j);
        if let Some(z) = self.zone {
            z.lemma_read(t, k);
        }
        self.lemma_reading(t, j);
    }
}

/// The end of a text in a supported layout without a time is midnight.
proof fn lemma_no_time(t: Seq<Token>)
    ensures
        clock(t, t.len() as int) == Ok::<_, Seq<char>>((0u8, 0u8, 0u8, 0u32, None::<i32>)),
{
}

/// A weekday is skipped where there is one, and nothing else is.
proof fn lemma_weekday(l: Layout, t: Seq<Token>)
    requires
        l.wf(),
        holds(t, 0, l.weekday_toks()),
        holds(t, l.weekday_toks().len() as int, l.date.toks()),
    ensures
        after_weekday(t) == l.weekday_toks().len(),
{
    let i = l.weekday_toks().len() as int;
    lemma_holds(t, i, l.date.toks(), 0);
    if let Some(w) = l.weekday {
        lemma_holds(t, 0, w.toks(), 0);
        if w.comma {
            lemma_holds(t, 0, w.toks(), 1);
        }
    }
}

/// The parts of a text in a supported layout put together.
proof fn lemma_together(
    t: Seq<Token>,
    dayfirst: bool,
    d: Step<(i32, u8, u8)>,
    ymd: (int, int, int),
    hms: Option<(u8, u8, u8, u32, Option<i32>)>,
)
    requires
        date(t, after_weekday(t), dayfirst) == d,
        0 <= ymd.0 <= 9999,
        if 1 <= ymd.1 <= 12 && 1 <= ymd.2 <= 31 {
            d.out == Ok::<_, Seq<char>>((ymd.0 as i32, ymd.1 as u8, ymd.2 as u8))
        } else {
            d.out is Err
        },
        d.out is Ok ==> match hms {
            Some(v) => clock(t, d.next) == Ok::<_, Seq<char>>(v),
            None => clock(t, d.next) is Err,
        },
    ensures
        match said(ymd, hms) {
            Some(p) => parse_tokens(t, dayfirst) == Ok::<Parsed, Seq<char>>(p),
            None => parse_tokens(t, dayfirst) is Err,
        },
{
}

/// A text with the tokens of a supported layout, however they are spaced, is parsed
/// exactly if the date and the time that it says exist, and then into that date and time,
/// every field of it.
pub proof fn law_layout_tokens(l: Layout, s: Seq<char>, dayfirst: bool)
    requires
        l.wf(),
        tokens(s) == l.toks(),
    ensures
        match l.read(dayfirst) {
            Some(p) => {
                &&& parse_text(s, dayfirst) == Ok::<Parsed, Seq<char>>(p)
                &&& parse_spec(s, dayfirst) == Ok::<Parsed, Seq<char>>(p)
            },
            None => parse_text(s, dayfirst) is Err && parse_spec(s, dayfirst) is Err,
        },
{
    let t = l.toks();
    assert(holds(t, 0, t));
    lemma_holds_parts(t, 0, l.weekday_toks() + l.date.toks(), l.time_toks());
    lemma_holds_parts(t, 0, l.weekday_toks(), l.date.toks());
    let i = l.weekday_toks().len() as int;
    lemma_weekday(l, t);
    l.date.lemma_date(t, i, dayfirst);
    match l.time {
        Some(time) => {
            time.lemma_read(t, i + l.date.toks().len());
        },
        None => {
            lemma_no_time(t);
        },
    }
    lemma_together(t, dayfirst, date(t, i, dayfirst), l.date.written(dayfirst), l.time_read());
}

/// A text in a supported layout is parsed exactly if the date and the time that it says
/// exist, and then into that date and time: naive where the text has no zone, aware
/// where it has one.
pub proof fn law_layouts(l: Layout, dayfirst: bool)
    requires
        l.wf(),
    ensures
        match l.read(dayfirst) {
            Some(p) => {
                &&& parse_text(l.text(), dayfirst) == Ok::<Parsed, Seq<char>>(p)
                &&& parse_spec(l.text(), dayfirst) == Ok::<Parsed, Seq<char>>(p)
            },
            None => parse_text(l.text(), dayfirst) is Err && parse_spec(l.text(), dayfirst) is Err,
        },
{
    l.lemma_tokens();
    law_layout_tokens(l, l.text(), dayfirst);
}

/// The time of a text in a supported layout, field by field. Without a half of the day the
/// hour is the number that is written for it. With one, it is the hour of that half that
/// shows the same on a clock face of twelve hours, and the number is from 1 to 12.
pub proof fn law_time_as_written(l: Layout, t: TimeText, dayfirst: bool)
    requires
        l.wf(),
        l.time == Some(t),
    ensures
        parse_spec(l.text(), dayfirst) matches Ok(p) ==> {
            &&& t.half is None ==> p.hour == value(t.h)
            &&& t.half matches Some(w) ==> {
                &&& 1 <= value(t.h) <= 12
                &&& p.hour % 12 == value(t.h) % 12
                &&& p.hour >= 12 <==> w[0] == 'p' || w[0] == 'P'
            }
            &&& match t.m {
                Some(m) => p.minute == value(m),
                None => p.minute == 0,
            }
            &&& match t.s {
                Some(s) => p.second == value(s),
                None => p.second == 0,
            }
            &&& t.f is None ==> p.micros == 0
            &&& t.f matches Some(f) ==> f.len() == 6 ==> p.micros == value(f)
            &&& p.offset is Some <==> t.zone is Some
        },
{
    law_layouts(l, dayfirst);
    lemma_value_bound(t.h);
    if let Some(m) = t.m {
        lemma_value_bound(m);
    }
    if let Some(s) = t.s {
        lemma_value_bound(s);
    }
    if let Some(f) = t.f {
        law_fraction(f);
        crate::text::lemma_tens();
    }
    if let Some(w) = t.half {
        law_half_words(w);
    }
    if let Some(r) = t.reading() {
        crate::clock::law_24_hour_clock(r.hour);
        if let Some(second) = r.half {
            crate::clock::law_halves_of_the_day(r.hour, second);
        }
    }
}

/// A zone may stand right behind a date: the time is then midnight in that zone.
pub proof fn law_zone_without_time(l: Layout, z: ZoneText, s: Seq<char>, dayfirst: bool)
    requires
        l.wf(),
        l.time is None,
        z.wf(),
        tokens(s) == l.toks() + z.toks(),
    ensures
        match (l.read(dayfirst), z.read()) {
            (Some(p), Some(v)) => parse_spec(s, dayfirst) == Ok::<Parsed, Seq<char>>(
                Parsed { offset: Some(v as i32), ..p },
            ),
            _ => parse_spec(s, dayfirst) is Err,
        },
        z.read() matches Some(v) ==> -388_799 <= v <= 379_799,
{
    let t = tokens(s);
    let i = l.weekday_toks().len() as int;
    let k = l.toks().len() as int;
    assert(l.toks() =~= l.weekday_toks() + l.date.toks());
    assert(holds(t, 0, t));
    lemma_holds_parts(t, 0, l.toks(), z.toks());
    lemma_holds_parts(t, 0, l.weekday_toks(), l.date.toks());
    lemma_weekday(l, t);
    l.date.lemma_date(t, i, dayfirst);
    z.lemma_read(t, k);
    z.lemma_toks();
    lemma_holds(t, k, z.toks(), 0);
    if z is Named {
        let name = z->Named_0;
        lemma_zone_is_no_t(name);
    }
    assert(after_t(t, k) == k);
    assert(time_of_day(t, k).next == k);
    let hms = match z.read() {
        Some(v) => Some((0u8, 0u8, 0u8, 0u32, Some(v as i32))),
        None => None,
    };
    lemma_together(t, dayfirst, date(t, i, dayfirst), l.date.written(dayfirst), hms);
}

/// The opposite sign gives the opposite offset.
pub proof fn law_signs_mirror(digits: Seq<char>, m: Option<Seq<char>>, s: Option<Seq<char>>)
    requires
        (OffsetText { minus: false, digits, m, s }).wf(),
    ensures
        ({
            let east = signed_num(tokens((OffsetText { minus: false, digits, m, s }).text()), 0).out;
            let west = signed_num(tokens((OffsetText { minus: true, digits, m, s }).text()), 0).out;
            match east {
                Ok(Some(v)) => v >= 0 && west == Ok::<Option<i32>, Seq<char>>(Some((-v) as i32)),
                Ok(None) => false,
                Err(e) => west is Err,
            }
        }),
{
    let a = OffsetText { minus: false, digits, m, s };
    let b = OffsetText { minus: true, digits, m, s };
    a.lemma_tokens();
    b.lemma_tokens();
    a.lemma_read(a.toks(), 0);
    b.lemma_read(b.toks(), 0);
    lemma_value_bound(digits);
    if let Some(m) = m {
        lemma_value_bound(m);
    }
    if let Some(s) = s {
        lemma_value_bound(s);
    }
    if digits.len() >= 4 {
        lemma_value_bound(digits.take(2));
        if digits.len() == 4 {
            lemma_value_bound(digits.skip(2));
        } else {
            lemma_value_bound(digits.subrange(2, 4));
            lemma_value_bound(digits.skip(4));
        }
    }
}

/// A zero behind a fraction of a second changes nothing, and neither does any digit behind
/// the sixth.
pub proof fn law_further_digits(f: Seq<char>, c: char)
    requires
        is_digits(f),
        is_digit(c),
    ensures
        c == '0' || f.len() >= 6 ==> fraction(f.push(c)) == fraction(f),
{
    let g = f.push(c);
    assert(is_digits(g));
    law_fraction(f);
    law_fraction(g);
    crate::text::law_digits_in_base_ten(f, c);
    if f.len() >= 6 {
        assert(g.take(6) =~= f.take(6));
        assert(f.len() == 6 ==> f.take(6) =~= f);
        crate::text::lemma_tens();
    } else if c == '0' {
        let scale = tens((5 - f.len()) as nat);
        assert(tens((6 - f.len()) as nat) == scale * 10);
        assert(value(f) * (scale * 10) == (10 * value(f)) * scale) by (nonlinear_arith);
        assert(g.len() == 6 ==> g.take(6) =~= g);
    }
}

/// In a date of two numbers and a year, `dayfirst` swaps the roles of the two numbers.
pub proof fn law_dayfirst_flips(
    a: Seq<char>,
    b: Seq<char>,
    y: Seq<char>,
    sep: char,
    weekday: Option<WeekdayText>,
    time: Option<TimeText>,
    dayfirst: bool,
)
    requires
        (Layout { weekday, date: DateText::Numeric { a, b, y, sep }, time }).wf(),
    ensures
        ({
            let l = Layout { weekday, date: DateText::Numeric { a, b, y, sep }, time };
            let r = Layout { weekday, date: DateText::Numeric { a: b, b: a, y, sep }, time };
            match parse_text(l.text(), dayfirst) {
                Ok(p) => parse_text(r.text(), !dayfirst) == Ok::<Parsed, Seq<char>>(p),
                Err(_) => parse_text(r.text(), !dayfirst) is Err,
            }
        }),
{
    let l = Layout { weekday, date: DateText::Numeric { a, b, y, sep }, time };
    let r = Layout { weekday, date: DateText::Numeric { a: b, b: a, y, sep }, time };
    law_layouts(l, dayfirst);
    law_layouts(r, !dayfirst);
    assert(l.date.written(dayfirst) == r.date.written(!dayfirst));
}

/// In a date of two numbers and a year of which just one number is above 12, `dayfirst`
/// does not matter: the number above 12 is the day.
pub proof fn law_above_12_is_read_as_day(
    a: Seq<char>,
    b: Seq<char>,
    y: Seq<char>,
    sep: char,
    weekday: Option<WeekdayText>,
    time: Option<TimeText>,
)
    requires
        (Layout { weekday, date: DateText::Numeric { a, b, y, sep }, time }).wf(),
        (value(a) > 12) != (value(b) > 12),
    ensures
        ({
            let l = Layout { weekday, date: DateText::Numeric { a, b, y, sep }, time };
            match parse_text(l.text(), true) {
                Ok(p) => {
                    &&& parse_text(l.text(), false) == Ok::<Parsed, Seq<char>>(p)
                    &&& p.day > 12
                },
                Err(_) => parse_text(l.text(), false) is Err,
            }
        }),
{
    let l = Layout { weekday, date: DateText::Numeric { a, b, y, sep }, time };
    law_layouts(l, true);
    law_layouts(l, false);
    lemma_value_bound(a);
    lemma_value_bound(b);
}

/// Two ways to write an offset are read alike: as the same offset, or both rejected.
pub open spec fn same_offset(a: OffsetText, b: OffsetText) -> bool {
    match signed_num(tokens(a.text()), 0).out {
        Ok(v) => signed_num(tokens(b.text()), 0).out == Ok::<Option<i32>, Seq<char>>(v),
        Err(_) => signed_num(tokens(b.text()), 0).out is Err,
    }
}

/// Offsets that write the same hours, minutes and seconds are read alike.
proof fn lemma_same_offset(a: OffsetText, b: OffsetText)
    requires
        a.wf(),
        b.wf(),
        a.minus == b.minus,
        a.written() == b.written(),
    ensures
        same_offset(a, b),
{
    a.lemma_tokens();
    b.lemma_tokens();
    a.lemma_read(a.toks(), 0);
    b.lemma_read(b.toks(), 0);
}

/// An offset means the same with colons between its parts and without: `HHMM` is
/// `HH:MM`, and `HHMMSS` is `HH:MM:SS`.
pub proof fn law_compact_offset(minus: bool, hh: Seq<char>, mm: Seq<char>, ss: Seq<char>)
    requires
        is_digits(hh),
        is_digits(mm),
        is_digits(ss),
        hh.len() == 2,
        mm.len() == 2,
        ss.len() == 2,
    ensures
        same_offset(
            OffsetText { minus, digits: hh + mm, m: None, s: None },
            OffsetText { minus, digits: hh, m: Some(mm), s: None },
        ),
        same_offset(
            OffsetText { minus, digits: hh + mm + ss, m: None, s: None },
            OffsetText { minus, digits: hh, m: Some(mm), s: Some(ss) },
        ),
{
    assert((hh + mm).take(2) =~= hh);
    assert((hh + mm).skip(2) =~= mm);
    lemma_same_offset(
        OffsetText { minus, digits: hh + mm, m: None, s: None },
        OffsetText { minus, digits: hh, m: Some(mm), s: None },
    );
    assert((hh + mm + ss).take(2) =~= hh);
    assert((hh + mm + ss).subrange(2, 4) =~= mm);
    assert((hh + mm + ss).skip(4) =~= ss);
    lemma_same_offset(
        OffsetText { minus, digits: hh + mm + ss, m: None, s: None },
        OffsetText { minus, digits: hh, m: Some(mm), s: Some(ss) },
    );
}

/// Hours alone are hours and no minutes: `HH` is `HH00`.
pub proof fn law_hours_alone(minus: bool, hh: Seq<char>)
    requires
        is_digits(hh),
        hh.len() == 2,
    ensures
        same_offset(
            OffsetText { minus, digits: hh, m: None, s: None },
            OffsetText { minus, digits: hh + seq!['0', '0'], m: None, s: None },
        ),
{
    let zeros = seq!['0', '0'];
    reveal_with_fuel(value, 3);
    assert(value(zeros) == 0);
    assert((hh + zeros).take(2) =~= hh);
    assert((hh + zeros).skip(2) =~= zeros);
    lemma_same_offset(
        OffsetText { minus, digits: hh, m: None, s: None },
        OffsetText { minus, digits: hh + zeros, m: None, s: None },
    );
}

/// The date and the time of a text are read apart from one another: the date of one text
/// and the time of another, put together behind any weekday, are read as they are in
/// theirs.
pub proof fn law_parts(k: Layout, l: Layout, weekday: Option<WeekdayText>, dayfirst: bool)
    requires
        k.wf(),
        l.wf(),
        weekday matches Some(w) ==> w.wf(),
    ensures
        ({
            let m = Layout { weekday, date: k.date, time: l.time };
            let bare = Layout { weekday: None, date: k.date, time: None };
            let p = parse_spec(k.text(), dayfirst);
            let q = parse_spec(l.text(), dayfirst);
            &&& p is Ok && q is Ok ==> parse_spec(m.text(), dayfirst) == Ok::<Parsed, Seq<char>>(
                Parsed { year: p->Ok_0.year, month: p->Ok_0.month, day: p->Ok_0.day, ..q->Ok_0 },
            )
            &&& parse_spec(bare.text(), dayfirst) is Err ==> parse_spec(m.text(), dayfirst) is Err
            &&& parse_spec(m.text(), dayfirst) is Ok ==> parse_spec(bare.text(), dayfirst) is Ok
        }),
{
    let m = Layout { weekday, date: k.date, time: l.time };
    let bare = Layout { weekday: None, date: k.date, time: None };
    law_layouts(k, dayfirst);
    law_layouts(l, dayfirst);
    law_layouts(m, dayfirst);
    law_layouts(bare, dayfirst);
}

} // verus!
