//! Texts that are written for numbers, and what they are read back as. Every law here
//! speaks of a text, spelled out from the numbers and words in it, and of what `parse`
//! gives for that text.
use vstd::prelude::*;

use crate::calendar::{law_month_lengths, leaps, month_days};
use crate::clock::{half_of, law_24_hour_clock, law_half_words, law_halves_of_the_day};
use crate::invariance::law_weekday_is_skipped;
use crate::layout::{
    DateText, Layout, OffsetText, TimeText, WeekdayText, ZoneText, law_layouts, micros, part_text,
};
use crate::names::{
    begins_as, law_month_names, law_weekday_names, month_of, names_weekday, same_letter, zone_of,
};
use crate::parser::{Parsed, parse_spec, parse_text};
use crate::read::law_years_of_two_digits;
use crate::text::{is_digits, is_letters, law_digits_in_base_ten, value};
use crate::token::{alpha_at, sep_at, tokens};

verus! {

broadcast use crate::text::lemma_scalars;

/// The digit for a number below 10.
pub open spec fn figure(v: int) -> char {
    (48 + v) as char
}

/// A number below 100 in two digits.
pub open spec fn two(v: int) -> Seq<char> {
    seq![figure(v / 10), figure(v % 10)]
}

/// A number below 10000 in four digits.
pub open spec fn four(v: int) -> Seq<char> {
    seq![figure(v / 1000), figure(v / 100 % 10), figure(v / 10 % 10), figure(v % 10)]
}

/// A number below a million in six digits.
pub open spec fn six(v: int) -> Seq<char> {
    seq![
        figure(v / 100_000),
        figure(v / 10_000 % 10),
        figure(v / 1000 % 10),
        figure(v / 100 % 10),
        figure(v / 10 % 10),
        figure(v % 10),
    ]
}

/// A number below 100 in two digits, or in one where that is enough and no zero is wanted.
pub open spec fn one_or_two(v: int, zero: bool) -> Seq<char> {
    if zero || v >= 10 {
        two(v)
    } else {
        seq![figure(v)]
    }
}

/// Whether the Gregorian calendar has a day, in the years from 1 to 9999.
pub open spec fn day_exists(y: int, m: int, d: int) -> bool {
    &&& 1 <= y <= 9999
    &&& 1 <= m <= 12
    &&& 1 <= d <= 31
    &&& m == 2 ==> d <= 28 + (leaps(y) - leaps(y - 1))
    &&& m == 4 || m == 6 || m == 9 || m == 11 ==> d <= 30
}

/// `parse` gives `p` for a text where `holds` does, and rejects the text otherwise.
pub open spec fn read_as(s: Seq<char>, dayfirst: bool, holds: bool, p: Parsed) -> bool {
    if holds {
        parse_spec(s, dayfirst) == Ok::<Parsed, Seq<char>>(p)
    } else {
        parse_spec(s, dayfirst) is Err
    }
}

/// The same, for use within proofs.
#[verifier::opaque]
spec fn is_read_as(s: Seq<char>, dayfirst: bool, holds: bool, p: Parsed) -> bool {
    read_as(s, dayfirst, holds, p)
}

/// A text in a layout is read as the layout says.
proof fn lemma_read_as(l: Layout, s: Seq<char>, dayfirst: bool, holds: bool, p: Parsed)
    requires
        l.wf(),
        l.text() == s,
        l.read(dayfirst) == (if holds {
            Some(p)
        } else {
            None
        }),
    ensures
        is_read_as(s, dayfirst, holds, p),
{
    law_layouts(l, dayfirst);
    reveal(is_read_as);
}

/// Midnight of a day, without a zone.
pub open spec fn midnight(y: int, m: int, d: int) -> Parsed {
    Parsed {
        year: y as i32,
        month: m as u8,
        day: d as u8,
        hour: 0,
        minute: 0,
        second: 0,
        micros: 0,
        offset: None,
    }
}

/// A day in the ISO layout.
pub open spec fn iso(y: int, m: int, d: int, zero: bool) -> Seq<char> {
    four(y) + seq!['-'] + one_or_two(m, zero) + seq!['-'] + one_or_two(d, zero)
}

proof fn lemma_two(v: int)
    requires
        0 <= v < 100,
    ensures
        is_digits(two(v)),
        value(two(v)) == v,
{
    reveal_with_fuel(value, 3);
    let s = two(v);
    assert(s.drop_last() =~= seq![figure(v / 10)]);
    assert(s.drop_last().drop_last() =~= Seq::empty());
}

proof fn lemma_one_or_two(v: int, zero: bool)
    requires
        0 <= v < 100,
    ensures
        is_digits(one_or_two(v, zero)),
        one_or_two(v, zero).len() <= 2,
        value(one_or_two(v, zero)) == v,
{
    lemma_two(v);
    if !zero && v < 10 {
        reveal_with_fuel(value, 2);
        assert(seq![figure(v)].drop_last() =~= Seq::empty());
    }
}

proof fn lemma_four(v: int)
    requires
        0 <= v < 10_000,
    ensures
        is_digits(four(v)),
        value(four(v)) == v,
{
    let a = two(v / 100);
    let b = a.push(figure(v / 10 % 10));
    lemma_two(v / 100);
    law_digits_in_base_ten(a, figure(v / 10 % 10));
    law_digits_in_base_ten(b, figure(v % 10));
    assert(four(v) =~= b.push(figure(v % 10)));
    lemma_last_two(v);
}

proof fn lemma_six(v: int)
    requires
        0 <= v < 1_000_000,
    ensures
        is_digits(six(v)),
        value(six(v)) == v,
{
    let a = four(v / 100);
    let b = a.push(figure(v / 10 % 10));
    lemma_four(v / 100);
    law_digits_in_base_ten(a, figure(v / 10 % 10));
    law_digits_in_base_ten(b, figure(v % 10));
    lemma_shifts(v);
    assert(six(v) =~= b.push(figure(v % 10)));
    lemma_last_two(v);
}

proof fn lemma_last_two(v: int)
    requires
        0 <= v,
    ensures
        10 * (10 * (v / 100) + v / 10 % 10) + v % 10 == v,
        v / 100 / 10 == v / 1000,
        v / 100 % 10 == v / 100 - 10 * (v / 1000),
{
}

proof fn lemma_shifts(v: int)
    requires
        0 <= v,
    ensures
        v / 100 / 1000 == v / 100_000,
        v / 100 / 100 == v / 10_000,
        v / 100 / 10 == v / 1000,
{
}

proof fn lemma_day_exists(y: int, m: int, d: int)
    ensures
        day_exists(y, m, d) <==> 1 <= y <= 9999 && 1 <= m <= 12 && 1 <= d <= month_days(y, m),
{
    law_month_lengths(y, m);
}

/// A day in the ISO layout is read back as midnight of that day, and rejected exactly if
/// there is no such day.
pub proof fn law_iso_days(y: int, m: int, d: int, zero: bool, dayfirst: bool)
    requires
        0 <= y < 10_000,
        0 <= m < 100,
        0 <= d < 100,
    ensures
        read_as(iso(y, m, d, zero), dayfirst, day_exists(y, m, d), midnight(y, m, d)),
{
    lemma_iso_days(y, m, d, zero, dayfirst);
    reveal(is_read_as);
}

proof fn lemma_iso_days(y: int, m: int, d: int, zero: bool, dayfirst: bool)
    requires
        0 <= y < 10_000,
        0 <= m < 100,
        0 <= d < 100,
    ensures
        is_read_as(iso(y, m, d, zero), dayfirst, day_exists(y, m, d), midnight(y, m, d)),
{
    let l = Layout {
        weekday: None,
        date: DateText::Iso { y: four(y), m: one_or_two(m, zero), d: one_or_two(d, zero) },
        time: None,
    };
    lemma_four(y);
    lemma_one_or_two(m, zero);
    lemma_one_or_two(d, zero);
    lemma_day_exists(y, m, d);
    assert(l.text() =~= iso(y, m, d, zero));
    lemma_read_as(l, l.text(), dayfirst, day_exists(y, m, d), midnight(y, m, d));
}

/// A year as it may be written: in four digits, or in two.
pub open spec fn year_text(y: int, long: bool) -> Seq<char> {
    if long {
        four(y)
    } else {
        two(y % 100)
    }
}

/// A year that can be written so: any in four digits, and one from 1969 to 2068 in two.
pub open spec fn year_fits(y: int, long: bool) -> bool {
    if long {
        0 <= y < 10_000
    } else {
        1969 <= y <= 2068
    }
}

proof fn lemma_year_text(y: int, long: bool)
    requires
        year_fits(y, long),
    ensures
        crate::layout::year_wf(year_text(y, long)),
        crate::layout::year_value(year_text(y, long)) == y,
{
    if long {
        lemma_four(y);
    } else {
        lemma_two(y % 100);
        law_years_of_two_digits(y % 100);
    }
}

/// Two numbers and a year, with slashes or dashes between them.
pub open spec fn numeric(a: int, b: int, y: int, sep: char, zero: bool, long: bool) -> Seq<char> {
    one_or_two(a, zero) + seq![sep] + one_or_two(b, zero) + seq![sep] + year_text(y, long)
}

/// A day in a numeric layout. Where both numbers could be the month, the first is, or with
/// `dayfirst` the second. Where just one could, it is, whatever the order. Where neither
/// could, the text is rejected.
pub proof fn law_numeric_days(
    a: int,
    b: int,
    y: int,
    sep: char,
    zero: bool,
    long: bool,
    dayfirst: bool,
)
    requires
        0 <= a < 100,
        0 <= b < 100,
        year_fits(y, long),
        sep == '/' || sep == '-',
    ensures
        ({
            let s = numeric(a, b, y, sep, zero, long);
            &&& a <= 12 && b <= 12 && !dayfirst ==> read_as(
                s,
                dayfirst,
                day_exists(y, a, b),
                midnight(y, a, b),
            )
            &&& a <= 12 && b <= 12 && dayfirst ==> read_as(
                s,
                dayfirst,
                day_exists(y, b, a),
                midnight(y, b, a),
            )
            &&& a <= 12 && b > 12 ==> read_as(
                s,
                dayfirst,
                day_exists(y, a, b),
                midnight(y, a, b),
            )
            &&& a > 12 && b <= 12 ==> read_as(
                s,
                dayfirst,
                day_exists(y, b, a),
                midnight(y, b, a),
            )
            &&& a > 12 && b > 12 ==> parse_spec(s, dayfirst) is Err
        }),
{
    lemma_numeric(a, b, y, sep, zero, long, dayfirst);
    reveal(is_read_as);
}

proof fn lemma_numeric(
    a: int,
    b: int,
    y: int,
    sep: char,
    zero: bool,
    long: bool,
    dayfirst: bool,
)
    requires
        0 <= a < 100,
        0 <= b < 100,
        year_fits(y, long),
        sep == '/' || sep == '-',
    ensures
        ({
            let (m, d) = if a <= 12 && (b > 12 || !dayfirst) {
                (a, b)
            } else {
                (b, a)
            };
            is_read_as(
                numeric(a, b, y, sep, zero, long),
                dayfirst,
                day_exists(y, m, d),
                midnight(y, m, d),
            )
        }),
{
    let l = Layout {
        weekday: None,
        date: DateText::Numeric {
            a: one_or_two(a, zero),
            b: one_or_two(b, zero),
            y: year_text(y, long),
            sep,
        },
        time: None,
    };
    let (m, d) = if a <= 12 && (b > 12 || !dayfirst) {
        (a, b)
    } else {
        (b, a)
    };
    lemma_year_text(y, long);
    lemma_one_or_two(a, zero);
    lemma_one_or_two(b, zero);
    lemma_day_exists(y, a, b);
    lemma_day_exists(y, b, a);
    assert(l.text() =~= numeric(a, b, y, sep, zero, long));
    lemma_read_as(l, l.text(), dayfirst, day_exists(y, m, d), midnight(y, m, d));
}

/// A day with the name of its month: any word of letters that begins with the three
/// letters of month `m`, in either case.
pub proof fn law_named_days(
    name: Seq<char>,
    m: int,
    d: int,
    y: int,
    comma: bool,
    zero: bool,
    long: bool,
    dayfirst: bool,
)
    requires
        is_letters(name),
        1 <= m <= 12,
        begins_as(name, "janfebmaraprmayjunjulaugsepoctnovdec"@, m - 1),
        0 <= d < 100,
        year_fits(y, long),
    ensures
        read_as(
            name + seq![' '] + one_or_two(d, zero) + (if comma {
                seq![',', ' ']
            } else {
                seq![' ']
            }) + year_text(y, long),
            dayfirst,
            day_exists(y, m, d),
            midnight(y, m, d),
        ),
        read_as(
            one_or_two(d, zero) + seq![' '] + name + seq![' '] + year_text(y, long),
            dayfirst,
            day_exists(y, m, d),
            midnight(y, m, d),
        ),
{
    law_month_names(name, m as u8);
    lemma_name_first(name, m, d, y, comma, zero, long, dayfirst);
    lemma_day_first(name, m, d, y, zero, long, dayfirst);
    reveal(is_read_as);
}

proof fn lemma_name_first(
    name: Seq<char>,
    m: int,
    d: int,
    y: int,
    comma: bool,
    zero: bool,
    long: bool,
    dayfirst: bool,
)
    requires
        is_letters(name),
        1 <= m <= 12,
        month_of(name) == Some(m as u8),
        0 <= d < 100,
        year_fits(y, long),
    ensures
        is_read_as(
            name + seq![' '] + one_or_two(d, zero) + (if comma {
                seq![',', ' ']
            } else {
                seq![' ']
            }) + year_text(y, long),
            dayfirst,
            day_exists(y, m, d),
            midnight(y, m, d),
        ),
{
    let l = Layout {
        weekday: None,
        date: DateText::NameFirst { name, d: one_or_two(d, zero), comma, y: year_text(y, long) },
        time: None,
    };
    lemma_year_text(y, long);
    lemma_one_or_two(d, zero);
    lemma_day_exists(y, m, d);
    assert(l.text() =~= name + seq![' '] + one_or_two(d, zero) + (if comma {
        seq![',', ' ']
    } else {
        seq![' ']
    }) + year_text(y, long));
    lemma_read_as(l, l.text(), dayfirst, day_exists(y, m, d), midnight(y, m, d));
}

proof fn lemma_day_first(
    name: Seq<char>,
    m: int,
    d: int,
    y: int,
    zero: bool,
    long: bool,
    dayfirst: bool,
)
    requires
        is_letters(name),
        1 <= m <= 12,
        month_of(name) == Some(m as u8),
        0 <= d < 100,
        year_fits(y, long),
    ensures
        is_read_as(
            one_or_two(d, zero) + seq![' '] + name + seq![' '] + year_text(y, long),
            dayfirst,
            day_exists(y, m, d),
            midnight(y, m, d),
        ),
{
    let l = Layout {
        weekday: None,
        date: DateText::DayFirst { d: one_or_two(d, zero), name, y: year_text(y, long) },
        time: None,
    };
    lemma_year_text(y, long);
    lemma_one_or_two(d, zero);
    lemma_day_exists(y, m, d);
    assert(l.text() =~= one_or_two(d, zero) + seq![' '] + name + seq![' '] + year_text(y, long));
    lemma_read_as(l, l.text(), dayfirst, day_exists(y, m, d), midnight(y, m, d));
}

/// A number behind a separator, or nothing.
pub open spec fn behind(c: char, v: Option<int>, zero: bool) -> Seq<char> {
    match v {
        Some(v) => seq![c] + one_or_two(v, zero),
        None => seq![],
    }
}

/// Microseconds behind a point, or nothing.
pub open spec fn behind_point(us: Option<int>) -> Seq<char> {
    match us {
        Some(us) => seq!['.'] + six(us),
        None => seq![],
    }
}

/// A number that may be missing; it is 0 then.
pub open spec fn or_0(v: Option<int>) -> int {
    match v {
        Some(v) => v,
        None => 0,
    }
}

/// A number below `n`, if there is one.
pub open spec fn below(v: Option<int>, n: int) -> bool {
    match v {
        Some(v) => 0 <= v < n,
        None => true,
    }
}

/// A time of day as numbers. Minutes, seconds and microseconds may be missing, from the
/// last on.
pub struct TimeNumbers {
    pub h: int,
    pub m: Option<int>,
    pub s: Option<int>,
    pub us: Option<int>,
    pub zero: bool,
}

impl TimeNumbers {
    /// The numbers can be written.
    pub open spec fn fits(self) -> bool {
        &&& 0 <= self.h < 100
        &&& below(self.m, 100)
        &&& below(self.s, 100)
        &&& below(self.us, 1_000_000)
        &&& self.s is Some ==> self.m is Some
        &&& self.us is Some ==> self.s is Some
    }

    /// The time in digits, colons and a point.
    pub open spec fn text(self) -> Seq<char> {
        one_or_two(self.h, self.zero) + behind(':', self.m, self.zero) + behind(
            ':',
            self.s,
            self.zero,
        ) + behind_point(self.us)
    }

    /// The layout of the time.
    spec fn layout(self, lead: char) -> TimeText {
        TimeText {
            lead,
            h: one_or_two(self.h, self.zero),
            m: match self.m {
                Some(m) => Some(one_or_two(m, self.zero)),
                None => None,
            },
            s: match self.s {
                Some(s) => Some(one_or_two(s, self.zero)),
                None => None,
            },
            f: match self.us {
                Some(us) => Some(six(us)),
                None => None,
            },
            half_gap: false,
            half: None,
            zone_gap: false,
            zone: None,
        }
    }

    proof fn lemma_wf(self, lead: char)
        requires
            self.fits(),
            lead == ' ' || lead == 'T' || lead == 't',
        ensures
            self.layout(lead).wf(),
    {
        lemma_one_or_two(self.h, self.zero);
        if let Some(m) = self.m {
            lemma_one_or_two(m, self.zero);
        }
        if let Some(s) = self.s {
            lemma_one_or_two(s, self.zero);
        }
        if let Some(us) = self.us {
            lemma_six(us);
        }
    }

    proof fn lemma_text(self, lead: char)
        ensures
            self.layout(lead).text() == seq![lead] + self.text(),
    {
        let x = self.layout(lead);
        let m = behind(':', self.m, self.zero);
        let s = behind(':', self.s, self.zero);
        let us = behind_point(self.us);
        assert(part_text(':', x.m) == m);
        assert(part_text(':', x.s) == s);
        assert(part_text('.', x.f) == us);
        assert(seq![lead] + x.h + m + s + us + Seq::<char>::empty() + Seq::<char>::empty()
            =~= seq![lead] + (x.h + m + s + us));
    }

    proof fn lemma_reading(self, lead: char)
        requires
            self.fits(),
        ensures
            self.h < 24 && or_0(self.m) < 60 && or_0(self.s) < 60 ==> (self.layout(lead).reading() matches Some(
                r,
            ) && r.hour == self.h && r.minute == or_0(self.m) && r.second == or_0(self.s) && r.micros
                == or_0(self.us) && r.half is None),
            !(self.h < 24 && or_0(self.m) < 60 && or_0(self.s) < 60) ==> self.layout(lead).reading() is None,
    {
        lemma_one_or_two(self.h, self.zero);
        if let Some(m) = self.m {
            lemma_one_or_two(m, self.zero);
        }
        if let Some(s) = self.s {
            lemma_one_or_two(s, self.zero);
        }
        if let Some(us) = self.us {
            lemma_micros(us);
        }
    }

    proof fn lemma_layout(self, lead: char)
        requires
            self.fits(),
            lead == ' ' || lead == 'T' || lead == 't',
        ensures
            self.layout(lead).wf(),
            self.layout(lead).text() == seq![lead] + self.text(),
            self.h < 24 && or_0(self.m) < 60 && or_0(self.s) < 60 ==> (self.layout(lead).reading() matches Some(
                r,
            ) && r.hour == self.h && r.minute == or_0(self.m) && r.second == or_0(self.s) && r.micros
                == or_0(self.us) && r.half is None),
            !(self.h < 24 && or_0(self.m) < 60 && or_0(self.s) < 60) ==> self.layout(lead).reading() is None,
    {
        self.lemma_wf(lead);
        self.lemma_text(lead);
        self.lemma_reading(lead);
    }
}

proof fn lemma_micros(us: int)
    requires
        0 <= us < 1_000_000,
    ensures
        micros(six(us)) == us,
{
    lemma_six(us);
    crate::text::lemma_tens();
}

/// A day in the ISO layout and a time on the 24-hour clock, behind a space or a `T`, are
/// read back as that day and that time, down to the microsecond; the text is rejected
/// exactly if there is no such day or no such time.
pub proof fn law_times(y: int, mo: int, d: int, lead: char, t: TimeNumbers, dayfirst: bool)
    requires
        0 <= y < 10_000,
        0 <= mo < 100,
        0 <= d < 100,
        lead == ' ' || lead == 'T' || lead == 't',
        t.fits(),
    ensures
        read_as(
            iso(y, mo, d, true) + (seq![lead] + t.text()),
            dayfirst,
            day_exists(y, mo, d) && t.h < 24 && or_0(t.m) < 60 && or_0(t.s) < 60,
            Parsed {
                hour: t.h as u8,
                minute: or_0(t.m) as u8,
                second: or_0(t.s) as u8,
                micros: or_0(t.us) as u32,
                ..midnight(y, mo, d)
            },
        ),
{
    lemma_times(y, mo, d, lead, t, dayfirst);
    reveal(is_read_as);
}

proof fn lemma_times(y: int, mo: int, d: int, lead: char, t: TimeNumbers, dayfirst: bool)
    requires
        0 <= y < 10_000,
        0 <= mo < 100,
        0 <= d < 100,
        lead == ' ' || lead == 'T' || lead == 't',
        t.fits(),
    ensures
        is_read_as(
            iso(y, mo, d, true) + (seq![lead] + t.text()),
            dayfirst,
            day_exists(y, mo, d) && t.h < 24 && or_0(t.m) < 60 && or_0(t.s) < 60,
            Parsed {
                hour: t.h as u8,
                minute: or_0(t.m) as u8,
                second: or_0(t.s) as u8,
                micros: or_0(t.us) as u32,
                ..midnight(y, mo, d)
            },
        ),
{
    let time = t.layout(lead);
    let l = iso_layout(y, mo, d, time);
    t.lemma_layout(lead);
    lemma_iso_layout(y, mo, d, time);
    if let Some(r) = time.reading() {
        law_24_hour_clock(r.hour);
    }
    lemma_read_as(
        l,
        l.text(),
        dayfirst,
        day_exists(y, mo, d) && t.h < 24 && or_0(t.m) < 60 && or_0(t.s) < 60,
        Parsed {
            hour: t.h as u8,
            minute: or_0(t.m) as u8,
            second: or_0(t.s) as u8,
            micros: or_0(t.us) as u32,
            ..midnight(y, mo, d)
        },
    );
}

/// The layout of a day in ISO form with a time.
spec fn iso_layout(y: int, mo: int, d: int, time: TimeText) -> Layout {
    Layout {
        weekday: None,
        date: DateText::Iso { y: four(y), m: one_or_two(mo, true), d: one_or_two(d, true) },
        time: Some(time),
    }
}

proof fn lemma_iso_layout(y: int, mo: int, d: int, time: TimeText)
    requires
        0 <= y < 10_000,
        0 <= mo < 100,
        0 <= d < 100,
        time.wf(),
    ensures
        iso_layout(y, mo, d, time).wf(),
        iso_layout(y, mo, d, time).text() == iso(y, mo, d, true) + time.text(),
        iso_layout(y, mo, d, time).date.written(true) == (y, mo, d),
        iso_layout(y, mo, d, time).date.written(false) == (y, mo, d),
        day_exists(y, mo, d) <==> 1 <= y <= 9999 && 1 <= mo <= 12 && 1 <= d <= month_days(y, mo),
{
    lemma_four(y);
    lemma_one_or_two(mo, true);
    lemma_one_or_two(d, true);
    lemma_day_exists(y, mo, d);
    assert(iso_layout(y, mo, d, time).text() =~= iso(y, mo, d, true) + time.text());
}

/// An hour as it shows on a clock face of twelve hours.
pub open spec fn on_the_face(h: int) -> int {
    if h % 12 == 0 {
        12
    } else {
        h % 12
    }
}

/// A time on the 12-hour clock, with a word for the half of the day, is read back as the
/// hour of the day; an hour that is on no clock face is rejected.
pub proof fn law_twelve_hour_times(
    y: int,
    mo: int,
    d: int,
    t: TimeNumbers,
    word: Seq<char>,
    gap: bool,
    dayfirst: bool,
)
    requires
        day_exists(y, mo, d),
        t.fits(),
        or_0(t.m) < 60,
        or_0(t.s) < 60,
        is_letters(word),
        word.len() == 1 || (word.len() == 2 && same_letter(word[1], 'm')),
        same_letter(word[0], 'a') || same_letter(word[0], 'p'),
    ensures
        ({
            let s = iso(y, mo, d, true) + (seq![' '] + t.text() + (if gap {
                seq![' ']
            } else {
                seq![]
            }) + word);
            &&& t.h < 1 || t.h > 12 ==> parse_spec(s, dayfirst) is Err
            &&& forall|hour: int|
                0 <= hour < 24 && t.h == #[trigger] on_the_face(hour) && (same_letter(word[0], 'p')
                    <==> hour >= 12) ==> parse_spec(s, dayfirst) == Ok::<Parsed, Seq<char>>(
                    Parsed {
                        hour: hour as u8,
                        minute: or_0(t.m) as u8,
                        second: or_0(t.s) as u8,
                        micros: or_0(t.us) as u32,
                        ..midnight(y, mo, d)
                    },
                )
        }),
{
    if t.h < 1 || t.h > 12 {
        lemma_twelve(y, mo, d, t, word, gap, dayfirst, 0);
        reveal(is_read_as);
    }
    assert forall|hour: int|
        0 <= hour < 24 && t.h == #[trigger] on_the_face(hour) && (same_letter(word[0], 'p') <==> hour
            >= 12) implies read_as(
        iso(y, mo, d, true) + (seq![' '] + t.text() + (if gap {
            seq![' ']
        } else {
            seq![]
        }) + word),
        dayfirst,
        true,
        Parsed {
            hour: hour as u8,
            minute: or_0(t.m) as u8,
            second: or_0(t.s) as u8,
            micros: or_0(t.us) as u32,
            ..midnight(y, mo, d)
        },
    ) by {
        lemma_twelve(y, mo, d, t, word, gap, dayfirst, hour);
        reveal(is_read_as);
    }
}

proof fn lemma_twelve(
    y: int,
    mo: int,
    d: int,
    t: TimeNumbers,
    word: Seq<char>,
    gap: bool,
    dayfirst: bool,
    hour: int,
)
    requires
        day_exists(y, mo, d),
        t.fits(),
        or_0(t.m) < 60,
        or_0(t.s) < 60,
        is_letters(word),
        word.len() == 1 || (word.len() == 2 && same_letter(word[1], 'm')),
        same_letter(word[0], 'a') || same_letter(word[0], 'p'),
        0 <= hour < 24,
        t.h < 1 || t.h > 12 || (t.h == on_the_face(hour) && (same_letter(word[0], 'p') <==> hour
            >= 12)),
    ensures
        is_read_as(
            iso(y, mo, d, true) + (seq![' '] + t.text() + (if gap {
                seq![' ']
            } else {
                seq![]
            }) + word),
            dayfirst,
            1 <= t.h <= 12,
            Parsed {
                hour: hour as u8,
                minute: or_0(t.m) as u8,
                second: or_0(t.s) as u8,
                micros: or_0(t.us) as u32,
                ..midnight(y, mo, d)
            },
        ),
{
    let time = TimeText { half_gap: gap, half: Some(word), ..t.layout(' ') };
    let l = iso_layout(y, mo, d, time);
    t.lemma_layout(' ');
    lemma_half_word(word);
    lemma_half_layout(t, word, gap);
    lemma_iso_layout(y, mo, d, time);
    if let Some(r) = time.reading() {
        law_halves_of_the_day(r.hour, same_letter(word[0], 'p'));
    }
    lemma_read_as(
        l,
        l.text(),
        dayfirst,
        1 <= t.h <= 12,
        Parsed {
            hour: hour as u8,
            minute: or_0(t.m) as u8,
            second: or_0(t.s) as u8,
            micros: or_0(t.us) as u32,
            ..midnight(y, mo, d)
        },
    );
}

proof fn lemma_half_word(word: Seq<char>)
    requires
        word.len() == 1 || (word.len() == 2 && same_letter(word[1], 'm')),
        same_letter(word[0], 'a') || same_letter(word[0], 'p'),
    ensures
        half_of(word) == Some(same_letter(word[0], 'p')),
{
    law_half_words(word);
}

proof fn lemma_half_layout(t: TimeNumbers, word: Seq<char>, gap: bool)
    requires
        t.fits(),
        is_letters(word),
        half_of(word) is Some,
    ensures
        ({
            let time = TimeText { half_gap: gap, half: Some(word), ..t.layout(' ') };
            &&& time.wf()
            &&& time.text() == seq![' '] + t.text() + (if gap {
                seq![' ']
            } else {
                seq![]
            }) + word
        }),
{
    let time = TimeText { half_gap: gap, half: Some(word), ..t.layout(' ') };
    let g: Seq<char> = if gap {
        seq![' ']
    } else {
        seq![]
    };
    t.lemma_layout(' ');
    assert(time.text() =~= seq![' '] + t.text() + g + word);
}

/// An offset as numbers: hours, and minutes and seconds that may be missing, with colons
/// between them or without.
pub struct OffsetNumbers {
    pub minus: bool,
    pub h: int,
    pub m: Option<int>,
    pub s: Option<int>,
    pub colons: bool,
    pub zero: bool,
}

impl OffsetNumbers {
    /// The numbers can be written.
    pub open spec fn fits(self) -> bool {
        &&& 0 <= self.h < 100
        &&& below(self.m, 100)
        &&& below(self.s, 100)
        &&& self.s is Some ==> self.m is Some
        &&& self.m is Some && !self.colons ==> self.zero
    }

    /// A number behind a colon or right behind the one before it, or nothing.
    pub open spec fn next(self, v: Option<int>) -> Seq<char> {
        match v {
            Some(v) => if self.colons {
                seq![':'] + one_or_two(v, self.zero)
            } else {
                two(v)
            },
            None => seq![],
        }
    }

    pub open spec fn text(self) -> Seq<char> {
        (if self.minus {
            seq!['-']
        } else {
            seq!['+']
        }) + one_or_two(self.h, self.zero) + self.next(self.m) + self.next(self.s)
    }

    /// The minutes and the seconds are below 60.
    pub open spec fn exists_so(self) -> bool {
        or_0(self.m) < 60 && or_0(self.s) < 60
    }

    /// The offset in seconds, to the west with a minus sign.
    pub open spec fn seconds(self) -> int {
        let v = self.h * 3600 + or_0(self.m) * 60 + or_0(self.s);
        if self.minus {
            -v
        } else {
            v
        }
    }

    /// The layout of the offset.
    spec fn layout(self) -> OffsetText {
        if self.colons {
            OffsetText {
                minus: self.minus,
                digits: one_or_two(self.h, self.zero),
                m: match self.m {
                    Some(m) => Some(one_or_two(m, self.zero)),
                    None => None,
                },
                s: match self.s {
                    Some(s) => Some(one_or_two(s, self.zero)),
                    None => None,
                },
            }
        } else {
            OffsetText {
                minus: self.minus,
                digits: one_or_two(self.h, self.zero) + self.next(self.m) + self.next(self.s),
                m: None,
                s: None,
            }
        }
    }

    proof fn lemma_layout(self)
        requires
            self.fits(),
        ensures
            self.layout().wf(),
            self.layout().text() == self.text(),
            self.exists_so() ==> self.layout().read() == Some(self.seconds()),
            !self.exists_so() ==> self.layout().read() is None,
    {
        lemma_one_or_two(self.h, self.zero);
        if let Some(m) = self.m {
            lemma_two(m);
            lemma_one_or_two(m, self.zero);
        }
        if let Some(s) = self.s {
            lemma_two(s);
            lemma_one_or_two(s, self.zero);
        }
        let o = self.layout();
        assert(o.text() =~= self.text());
        if !self.colons {
            let n = o.digits;
            assert(self.m is Some ==> n.take(2) =~= one_or_two(self.h, self.zero));
            if let Some(m) = self.m {
                if let Some(s) = self.s {
                    assert(n.subrange(2, 4) =~= two(m));
                    assert(n.skip(4) =~= two(s));
                } else {
                    assert(n.skip(2) =~= two(m));
                }
            } else {
                assert(n =~= one_or_two(self.h, self.zero));
            }
            assert(o.written() == (self.h, or_0(self.m), or_0(self.s)));
        } else {
            assert(o.written() == (self.h, or_0(self.m), or_0(self.s)));
        }
    }
}

/// A zone behind a time: a name, an offset, or a name and an offset that corrects it. The
/// offset of the zone is that of the name and of the correction together, and the date
/// and time are those that are written.
pub proof fn law_zones(
    y: int,
    mo: int,
    d: int,
    t: TimeNumbers,
    gap: bool,
    name: Option<Seq<char>>,
    offset: Option<OffsetNumbers>,
    dayfirst: bool,
)
    requires
        day_exists(y, mo, d),
        t.fits(),
        t.h < 24,
        or_0(t.m) < 60,
        or_0(t.s) < 60,
        name is Some || offset is Some,
        name matches Some(w) ==> is_letters(w) && zone_of(w) is Some,
        offset matches Some(o) ==> o.fits(),
    ensures
        ({
            let w = match name {
                Some(w) => w,
                None => seq![],
            };
            let base = match name {
                Some(w) => zone_of(w)->0,
                None => 0,
            };
            let (o, delta) = match offset {
                Some(o) => (o.text(), o.seconds()),
                None => (seq![], 0),
            };
            read_as(
                iso(y, mo, d, true) + (seq!['T'] + t.text() + (if gap {
                    seq![' ']
                } else {
                    seq![]
                }) + w + o),
                dayfirst,
                offset matches Some(o) ==> o.exists_so(),
                Parsed {
                    hour: t.h as u8,
                    minute: or_0(t.m) as u8,
                    second: or_0(t.s) as u8,
                    micros: or_0(t.us) as u32,
                    offset: Some((base + delta) as i32),
                    ..midnight(y, mo, d)
                },
            )
        }),
{
    lemma_zones(y, mo, d, t, gap, name, offset, dayfirst);
    reveal(is_read_as);
}

proof fn lemma_zones(
    y: int,
    mo: int,
    d: int,
    t: TimeNumbers,
    gap: bool,
    name: Option<Seq<char>>,
    offset: Option<OffsetNumbers>,
    dayfirst: bool,
)
    requires
        day_exists(y, mo, d),
        t.fits(),
        t.h < 24,
        or_0(t.m) < 60,
        or_0(t.s) < 60,
        name is Some || offset is Some,
        name matches Some(w) ==> is_letters(w) && zone_of(w) is Some,
        offset matches Some(o) ==> o.fits(),
    ensures
        ({
            let w = match name {
                Some(w) => w,
                None => seq![],
            };
            let base = match name {
                Some(w) => zone_of(w)->0,
                None => 0,
            };
            let (o, delta) = match offset {
                Some(o) => (o.text(), o.seconds()),
                None => (seq![], 0),
            };
            is_read_as(
                iso(y, mo, d, true) + (seq!['T'] + t.text() + (if gap {
                    seq![' ']
                } else {
                    seq![]
                }) + w + o),
                dayfirst,
                offset matches Some(o) ==> o.exists_so(),
                Parsed {
                    hour: t.h as u8,
                    minute: or_0(t.m) as u8,
                    second: or_0(t.s) as u8,
                    micros: or_0(t.us) as u32,
                    offset: Some((base + delta) as i32),
                    ..midnight(y, mo, d)
                },
            )
        }),
{
    let zone = zone_layout(name, offset);
    let time = TimeText { zone_gap: gap, zone: Some(zone), ..t.layout('T') };
    let l = iso_layout(y, mo, d, time);
    lemma_zone_layout(name, offset);
    t.lemma_layout('T');
    lemma_zone_text(t, gap, zone);
    lemma_iso_layout(y, mo, d, time);
    if let Some(r) = time.reading() {
        law_24_hour_clock(r.hour);
    }
    let g: Seq<char> = if gap {
        seq![' ']
    } else {
        seq![]
    };
    let w: Seq<char> = match name {
        Some(w) => w,
        None => seq![],
    };
    let o: Seq<char> = match offset {
        Some(o) => o.text(),
        None => seq![],
    };
    assert(seq!['T'] + t.text() + g + (w + o) =~= seq!['T'] + t.text() + g + w + o);
    let base = match name {
        Some(w) => zone_of(w)->0,
        None => 0,
    };
    let delta = match offset {
        Some(o) => o.seconds(),
        None => 0,
    };
    lemma_read_as(
        l,
        l.text(),
        dayfirst,
        offset matches Some(o) ==> o.exists_so(),
        Parsed {
            hour: t.h as u8,
            minute: or_0(t.m) as u8,
            second: or_0(t.s) as u8,
            micros: or_0(t.us) as u32,
            offset: Some((base + delta) as i32),
            ..midnight(y, mo, d)
        },
    );
}

/// The layout of a zone.
spec fn zone_layout(name: Option<Seq<char>>, offset: Option<OffsetNumbers>) -> ZoneText {
    match (name, offset) {
        (Some(w), Some(o)) => ZoneText::Named(w, Some(o.layout())),
        (Some(w), None) => ZoneText::Named(w, None),
        (None, Some(o)) => ZoneText::Offset(o.layout()),
        (None, None) => arbitrary(),
    }
}

proof fn lemma_zone_layout(name: Option<Seq<char>>, offset: Option<OffsetNumbers>)
    requires
        name is Some || offset is Some,
        name matches Some(w) ==> is_letters(w) && zone_of(w) is Some,
        offset matches Some(o) ==> o.fits(),
    ensures
        ({
            let z = zone_layout(name, offset);
            let w = match name {
                Some(w) => w,
                None => seq![],
            };
            let base = match name {
                Some(w) => zone_of(w)->0,
                None => 0,
            };
            let (o, delta) = match offset {
                Some(o) => (o.text(), o.seconds()),
                None => (seq![], 0),
            };
            &&& z.wf()
            &&& z.text() == w + o
            &&& match offset {
                Some(o) => if o.exists_so() {
                    z.read() == Some(base + delta)
                } else {
                    z.read() is None
                },
                None => z.read() == Some(base),
            }
        }),
{
    if let Some(o) = offset {
        o.lemma_layout();
        if name is None {
            assert(Seq::<char>::empty() + o.text() =~= o.text());
        }
    } else if let Some(w) = name {
        assert(w + Seq::<char>::empty() =~= w);
    }
}

proof fn lemma_zone_text(t: TimeNumbers, gap: bool, zone: ZoneText)
    requires
        t.fits(),
        zone.wf(),
    ensures
        ({
            let time = TimeText { zone_gap: gap, zone: Some(zone), ..t.layout('T') };
            &&& time.wf()
            &&& time.text() == seq!['T'] + t.text() + (if gap {
                seq![' ']
            } else {
                seq![]
            }) + zone.text()
        }),
{
    let time = TimeText { zone_gap: gap, zone: Some(zone), ..t.layout('T') };
    let g: Seq<char> = if gap {
        seq![' ']
    } else {
        seq![]
    };
    t.lemma_layout('T');
    assert(time.text() =~= seq!['T'] + t.text() + g + zone.text());
}

/// A word of letters that begins, in either case, with the three letters of a weekday is
/// skipped in front of a text, with or without a comma behind it. (Left out are texts that
/// start with such a word themselves, or, behind a weekday without a comma, with a comma.)
pub proof fn law_weekdays_in_front(
    name: Seq<char>,
    k: int,
    comma: bool,
    s: Seq<char>,
    dayfirst: bool,
)
    requires
        is_letters(name),
        0 <= k < 7,
        begins_as(name, "montuewedthufrisatsun"@, k),
        alpha_at(tokens(s), 0) matches Some(a) ==> !names_weekday(a),
        !comma ==> !sep_at(tokens(s), 0, ','),
    ensures
        parse_text(
            name + (if comma {
                seq![',', ' ']
            } else {
                seq![' ']
            }) + s,
            dayfirst,
        ) == parse_text(s, dayfirst),
{
    let w = WeekdayText { name, comma };
    lemma_weekday_text(w);
    lemma_weekday(name, k);
    lemma_meaning(w, s, dayfirst);
    lemma_same_meaning(
        name + (if comma {
            seq![',', ' ']
        } else {
            seq![' ']
        }) + s,
        s,
        dayfirst,
    );
}

proof fn lemma_same_meaning(a: Seq<char>, b: Seq<char>, dayfirst: bool)
    requires
        meaning(a, dayfirst) == meaning(b, dayfirst),
    ensures
        parse_text(a, dayfirst) == parse_text(b, dayfirst),
{
    reveal(meaning);
}

/// What a text is parsed into, for use within proofs.
#[verifier::opaque]
spec fn meaning(s: Seq<char>, dayfirst: bool) -> Result<Parsed, Seq<char>> {
    parse_text(s, dayfirst)
}

proof fn lemma_meaning(w: WeekdayText, s: Seq<char>, dayfirst: bool)
    requires
        w.wf(),
        alpha_at(tokens(s), 0) matches Some(a) ==> !names_weekday(a),
        !w.comma ==> !sep_at(tokens(s), 0, ','),
    ensures
        meaning(w.text() + s, dayfirst) == meaning(s, dayfirst),
{
    law_weekday_is_skipped(w, s, dayfirst);
    reveal(meaning);
}

proof fn lemma_weekday(name: Seq<char>, k: int)
    requires
        0 <= k < 7,
        begins_as(name, "montuewedthufrisatsun"@, k),
    ensures
        names_weekday(name),
{
    law_weekday_names(name);
}

proof fn lemma_weekday_text(w: WeekdayText)
    ensures
        w.text() == w.name + (if w.comma {
            seq![',', ' ']
        } else {
            seq![' ']
        }),
{
    if w.comma {
        assert(w.text() =~= w.name + seq![',', ' ']);
    }
}

} // verus!
