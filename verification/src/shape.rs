//! Nothing but the supported layouts is parsed: the tokens of a text that is parsed are
//! those of a layout.
use vstd::prelude::*;

use crate::clock::{after_t, clock, half_at, half_of, time_of_day};
use crate::date::{after_weekday, date, lemma_date};
use crate::layout::{
    DateText, Layout, OffsetText, TimeText, WeekdayText, ZoneText, holds, part_tokens,
};
use crate::names::{month_of, names_weekday, zone_of};
use crate::offset::{sign_at, signed_num, zone};
use crate::parser::parse_text;
use crate::text::is_letters;
use crate::token::{Token, all_wf, alpha_at, at, lemma_tokens_wf, num_at, sep_at, tokens};

verus! {

broadcast use crate::text::lemma_scalars;

/// The tokens are those of a layout, or of one without a time and a zone behind it.
pub open spec fn has_layout(t: Seq<Token>, l: Layout, z: Option<ZoneText>) -> bool {
    &&& l.wf()
    &&& match z {
        Some(z) => z.wf() && l.time is None && t == l.toks() + z.toks(),
        None => t == l.toks(),
    }
}

/// A signed offset that is taken has the shape of one.
proof fn find_offset(t: Seq<Token>, i: int) -> (o: OffsetText)
    requires
        all_wf(t),
        0 <= i,
        signed_num(t, i).out matches Ok(v) && v is Some,
    ensures
        o.wf(),
        holds(t, i, o.toks()),
        signed_num(t, i).next == i + o.toks().len(),
{
    let minus = sign_at(t, i)->0;
    let n = num_at(t, i + 1)->0;
    assert(t[i + 1].wf());
    if n.len() > 2 || !sep_at(t, i + 2, ':') {
        let o = OffsetText { minus, digits: n, m: None, s: None };
        assert(o.toks() =~= seq![Token::Sep(o.sign()), Token::Num(n)]);
        o
    } else {
        let m = num_at(t, i + 3)->0;
        assert(t[i + 3].wf());
        if !sep_at(t, i + 4, ':') {
            let o = OffsetText { minus, digits: n, m: Some(m), s: None };
            assert(o.toks() =~= seq![
                Token::Sep(o.sign()),
                Token::Num(n),
                Token::Sep(':'),
                Token::Num(m),
            ]);
            o
        } else {
            let s = num_at(t, i + 5)->0;
            assert(t[i + 5].wf());
            let o = OffsetText { minus, digits: n, m: Some(m), s: Some(s) };
            assert(o.toks() =~= seq![
                Token::Sep(o.sign()),
                Token::Num(n),
                Token::Sep(':'),
                Token::Num(m),
                Token::Sep(':'),
                Token::Num(s),
            ]);
            o
        }
    }
}

/// A zone that is taken has the shape of one.
proof fn find_zone(t: Seq<Token>, i: int) -> (z: ZoneText)
    requires
        all_wf(t),
        0 <= i < t.len(),
        zone(t, i).out is Ok,
    ensures
        z.wf(),
        holds(t, i, z.toks()),
        zone(t, i).next == i + z.toks().len(),
{
    assert(t[i].wf());
    match t[i] {
        Token::Alpha(name) => {
            if sign_at(t, i + 1) is Some {
                let o = find_offset(t, i + 1);
                let p = seq![Token::Alpha(name)];
                assert forall|k: int| 0 <= k < (p + o.toks()).len() implies t[i + k] == #[trigger] (p
                    + o.toks())[k] by {
                    if k > 0 {
                        assert(t[i + 1 + (k - 1)] == o.toks()[k - 1]);
                    }
                }
                ZoneText::Named(name, Some(o))
            } else {
                ZoneText::Named(name, None)
            }
        },
        _ => ZoneText::Offset(find_offset(t, i)),
    }
}

/// A date that is taken has the shape of one.
proof fn find_date(t: Seq<Token>, i: int, dayfirst: bool) -> (d: DateText)
    requires
        all_wf(t),
        0 <= i,
        date(t, i, dayfirst).out is Ok,
    ensures
        d.wf(),
        holds(t, i, d.toks()),
        date(t, i, dayfirst).next == i + d.toks().len(),
{
    lemma_date(t, i, dayfirst);
    assert(t[i].wf());
    match t[i] {
        Token::Num(n) => {
            if n.len() == 4 && sep_at(t, i + 1, '-') {
                let m = num_at(t, i + 2)->0;
                let d = num_at(t, i + 4)->0;
                assert(t[i + 2].wf());
                assert(t[i + 4].wf());
                DateText::Iso { y: n, m, d }
            } else if sep_at(t, i + 1, '/') || sep_at(t, i + 1, '-') {
                let b = num_at(t, i + 2)->0;
                let y = num_at(t, i + 4)->0;
                assert(t[i + 2].wf());
                assert(t[i + 4].wf());
                let sep = if sep_at(t, i + 1, '/') {
                    '/'
                } else {
                    '-'
                };
                DateText::Numeric { a: n, b, y, sep }
            } else {
                let name = alpha_at(t, i + 1)->0;
                let y = num_at(t, i + 2)->0;
                assert(t[i + 1].wf());
                assert(t[i + 2].wf());
                DateText::DayFirst { d: n, name, y }
            }
        },
        Token::Alpha(name) => {
            let d = num_at(t, i + 1)->0;
            let comma = sep_at(t, i + 2, ',');
            assert(t[i + 1].wf());
            if comma {
                assert(t[i + 3].wf());
                DateText::NameFirst { name, d, comma, y: num_at(t, i + 3)->0 }
            } else {
                assert(t[i + 2].wf());
                DateText::NameFirst { name, d, comma, y: num_at(t, i + 2)->0 }
            }
        },
        _ => arbitrary(),
    }
}

/// The numbers of a time that is taken, by what follows each of them.
spec fn time_at(t: Seq<Token>, i: int) -> TimeText {
    let m = if sep_at(t, i + 1, ':') {
        num_at(t, i + 2)
    } else {
        None
    };
    let s = if m is Some && sep_at(t, i + 3, ':') {
        num_at(t, i + 4)
    } else {
        None
    };
    let f = if s is Some && sep_at(t, i + 5, '.') {
        num_at(t, i + 6)
    } else {
        None
    };
    let k = i + 1 + part_tokens(':', m).len() + part_tokens(':', s).len() + part_tokens(
        '.',
        f,
    ).len();
    let half = match half_at(t, k) {
        Some(_) => alpha_at(t, k),
        None => None,
    };
    TimeText {
        lead: ' ',
        h: num_at(t, i)->0,
        m,
        s,
        f,
        half_gap: true,
        half,
        zone_gap: true,
        zone: None,
    }
}

/// A time that is taken has the shape of one.
proof fn lemma_time_at(t: Seq<Token>, i: int)
    requires
        all_wf(t),
        0 <= i,
        num_at(t, i) is Some,
        time_of_day(t, i).out is Ok,
    ensures
        time_at(t, i).wf(),
        holds(t, i, time_at(t, i).time_toks()),
        time_of_day(t, i).next == i + time_at(t, i).time_toks().len(),
{
    let x = time_at(t, i);
    let a = seq![Token::Num(x.h)];
    let m = part_tokens(':', x.m);
    let s = part_tokens(':', x.s);
    let f = part_tokens('.', x.f);
    assert(t[i].wf());
    if x.m is Some {
        assert(t[i + 2].wf());
    }
    if x.s is Some {
        assert(t[i + 4].wf());
    }
    if x.f is Some {
        assert(t[i + 6].wf());
    }
    let k = i + 1 + m.len() + s.len() + f.len();
    if x.half is Some {
        assert(t[k].wf());
    }
    lemma_join(t, i, a, m);
    lemma_join(t, i, a + m, s);
    lemma_join(t, i, a + m + s, f);
    lemma_join(t, i, a + m + s + f, x.half_toks());
}

/// What stands side by side stands there together.
proof fn lemma_join(t: Seq<Token>, i: int, p: Seq<Token>, q: Seq<Token>)
    requires
        holds(t, i, p),
        holds(t, i + p.len(), q),
    ensures
        holds(t, i, p + q),
{
    assert forall|k: int| 0 <= k < (p + q).len() implies t[i + k] == #[trigger] (p + q)[k] by {
        if k >= p.len() {
            assert(t[i + p.len() + (k - p.len())] == q[k - p.len()]);
        }
    }
}

/// Tokens that stand in `t` from its start to its end are all of it.
proof fn lemma_whole(t: Seq<Token>, p: Seq<Token>)
    requires
        holds(t, 0, p),
        p.len() == t.len(),
    ensures
        t == p,
{
    assert forall|k: int| 0 <= k < t.len() implies t[k] == p[k] by {
        assert(t[0 + k] == p[k]);
    }
    assert(t =~= p);
}

/// A time and zone that take up all that is left have the shape of one.
proof fn find_time(t: Seq<Token>, i: int) -> (x: TimeText)
    requires
        all_wf(t),
        0 <= i,
        clock(t, i) is Ok,
        num_at(t, after_t(t, i)) is Some,
    ensures
        x.wf(),
        holds(t, i, x.toks()),
        i + x.toks().len() == t.len(),
{
    let j = after_t(t, i);
    let y = time_at(t, j);
    lemma_time_at(t, j);
    let k = time_of_day(t, j).next;
    let lead = if j == i {
        ' '
    } else {
        reveal_strlit("T");
        reveal_strlit("t");
        let a = alpha_at(t, i)->0;
        assert(a[0] == 'T' || a[0] == 't');
        assert(a =~= seq![a[0]]);
        a[0]
    };
    if k < t.len() {
        let z = find_zone(t, k);
        let x = TimeText { lead, zone: Some(z), ..y };
        assert(x.time_toks() == y.time_toks());
        lemma_join(t, i, x.lead_toks(), x.time_toks());
        lemma_join(t, i, x.lead_toks() + x.time_toks(), x.zone_toks());
        x
    } else {
        let x = TimeText { lead, ..y };
        assert(x.time_toks() == y.time_toks());
        lemma_join(t, i, x.lead_toks(), x.time_toks());
        assert(holds(t, i + (x.lead_toks() + x.time_toks()).len(), x.zone_toks()));
        lemma_join(t, i, x.lead_toks() + x.time_toks(), x.zone_toks());
        x
    }
}

/// The weekday and the date of tokens in which a date is taken.
proof fn find_front(t: Seq<Token>, dayfirst: bool) -> (e: Layout)
    requires
        all_wf(t),
        date(t, after_weekday(t), dayfirst).out is Ok,
    ensures
        e.wf(),
        e.time is None,
        e.toks() == e.weekday_toks() + e.date.toks(),
        holds(t, 0, e.toks()),
        date(t, after_weekday(t), dayfirst).next == e.toks().len(),
{
    let i = after_weekday(t);
    let weekday = if i == 0 {
        None
    } else {
        assert(t[0].wf());
        Some(WeekdayText { name: alpha_at(t, 0)->0, comma: i == 2 })
    };
    let d = find_date(t, i, dayfirst);
    let e = Layout { weekday, date: d, time: None };
    assert(e.weekday_toks().len() == i);
    assert(holds(t, 0, e.weekday_toks()));
    lemma_join(t, 0, e.weekday_toks(), d.toks());
    assert(e.toks() =~= e.weekday_toks() + d.toks());
    e
}

/// The layout of tokens behind whose date a time and a zone take up all that is left.
proof fn find_layout(t: Seq<Token>, e: Layout) -> (r: (Layout, Option<ZoneText>))
    requires
        all_wf(t),
        e.wf(),
        e.time is None,
        e.toks() == e.weekday_toks() + e.date.toks(),
        holds(t, 0, e.toks()),
        clock(t, e.toks().len() as int) is Ok,
    ensures
        has_layout(t, r.0, r.1),
{
    let k = e.toks().len() as int;
    if num_at(t, after_t(t, k)) is Some {
        let x = find_time(t, k);
        let l = Layout { time: Some(x), ..e };
        lemma_join(t, 0, e.toks(), x.toks());
        assert(l.toks() == e.toks() + x.toks());
        lemma_whole(t, l.toks());
        (l, None)
    } else if k < t.len() {
        let z = find_bare_zone(t, k);
        lemma_join(t, 0, e.toks(), z.toks());
        lemma_whole(t, e.toks() + z.toks());
        (e, Some(z))
    } else {
        lemma_whole(t, e.toks());
        (e, None)
    }
}

/// A zone without a time that takes up all that is left has the shape of one.
proof fn find_bare_zone(t: Seq<Token>, k: int) -> (z: ZoneText)
    requires
        all_wf(t),
        0 <= k < t.len(),
        clock(t, k) is Ok,
        num_at(t, after_t(t, k)) is None,
    ensures
        z.wf(),
        holds(t, k, z.toks()),
        k + z.toks().len() == t.len(),
{
    assert(after_t(t, k) == k);
    find_zone(t, k)
}

/// A text that is parsed has the tokens of a layout, or of one without a time and a zone
/// behind it. With `layout::law_layout_tokens` and `layout::law_zone_without_time`, which
/// say what such tokens are read as, this says which texts are parsed, and as what.
pub proof fn law_only_layouts(s: Seq<char>, dayfirst: bool)
    requires
        parse_text(s, dayfirst) is Ok,
    ensures
        exists|l: Layout, z: Option<ZoneText>| has_layout(tokens(s), l, z),
{
    let t = tokens(s);
    lemma_tokens_wf(s);
    let e = find_front(t, dayfirst);
    let (l, z) = find_layout(t, e);
    assert(has_layout(t, l, z));
}

/// A token that has a place in a date and time: a number, one of six separators, or a word
/// for a weekday, a month, a half of the day or a zone, or the `T` before a time.
pub open spec fn known(x: Token) -> bool {
    match x {
        Token::Num(_) => true,
        Token::Sep(c) => c == ',' || c == '-' || c == '/' || c == ':' || c == '.' || c == '+',
        Token::Alpha(a) => {
            ||| names_weekday(a)
            ||| month_of(a) is Some
            ||| half_of(a) is Some
            ||| zone_of(a) is Some
            ||| a == seq!['T']
            ||| a == seq!['t']
        },
    }
}

spec fn all_known(t: Seq<Token>) -> bool {
    forall|i: int| 0 <= i < t.len() ==> known(#[trigger] t[i])
}

proof fn lemma_known_join(p: Seq<Token>, q: Seq<Token>)
    requires
        all_known(p),
        all_known(q),
    ensures
        all_known(p + q),
{
}

proof fn lemma_known_part(c: char, n: Option<Seq<char>>)
    requires
        c == ':' || c == '.',
    ensures
        all_known(part_tokens(c, n)),
{
}

proof fn lemma_known_offset(o: OffsetText)
    ensures
        all_known(o.toks()),
        o.toks().len() <= 6,
{
    let p = seq![Token::Sep(o.sign()), Token::Num(o.digits)];
    lemma_known_part(':', o.m);
    lemma_known_part(':', o.s);
    lemma_known_join(p, part_tokens(':', o.m));
    lemma_known_join(p + part_tokens(':', o.m), part_tokens(':', o.s));
}

proof fn lemma_known_zone(z: ZoneText)
    requires
        z.wf(),
    ensures
        all_known(z.toks()),
        z.toks().len() <= 7,
{
    match z {
        ZoneText::Offset(o) => lemma_known_offset(o),
        ZoneText::Named(name, None) => {},
        ZoneText::Named(name, Some(o)) => {
            lemma_known_offset(o);
            lemma_known_join(seq![Token::Alpha(name)], o.toks());
        },
    }
}

proof fn lemma_known_time(x: TimeText)
    requires
        x.wf(),
    ensures
        all_known(x.toks()),
        x.toks().len() <= 16,
{
    let a = seq![Token::Num(x.h)];
    let m = part_tokens(':', x.m);
    let s = part_tokens(':', x.s);
    let f = part_tokens('.', x.f);
    lemma_known_part(':', x.m);
    lemma_known_part(':', x.s);
    lemma_known_part('.', x.f);
    lemma_known_join(a, m);
    lemma_known_join(a + m, s);
    lemma_known_join(a + m + s, f);
    lemma_known_join(a + m + s + f, x.half_toks());
    if let Some(z) = x.zone {
        lemma_known_zone(z);
    }
    lemma_known_join(x.lead_toks(), x.time_toks());
    lemma_known_join(x.lead_toks() + x.time_toks(), x.zone_toks());
}

/// A text that is parsed holds no more than a date and a time: at most a weekday, five
/// tokens of a date and sixteen of a time with its zone, each of them one that has a
/// place there. So a text with anything else in it is rejected.
pub proof fn law_nothing_unknown(s: Seq<char>, dayfirst: bool)
    requires
        parse_text(s, dayfirst) is Ok,
    ensures
        forall|i: int| 0 <= i < tokens(s).len() ==> known(#[trigger] tokens(s)[i]),
        3 <= tokens(s).len() <= 23,
{
    law_only_layouts(s, dayfirst);
    let (l, z) = choose|l: Layout, z: Option<ZoneText>| has_layout(tokens(s), l, z);
    lemma_known_layout(tokens(s), l, z);
}

proof fn lemma_known_date(d: DateText)
    requires
        d.wf(),
    ensures
        all_known(d.toks()),
        3 <= d.toks().len() <= 5,
{
}

proof fn lemma_known_layout(t: Seq<Token>, l: Layout, z: Option<ZoneText>)
    requires
        has_layout(t, l, z),
    ensures
        all_known(t),
        3 <= t.len() <= 23,
{
    lemma_known_date(l.date);
    if let Some(x) = l.time {
        lemma_known_time(x);
    }
    lemma_known_join(l.weekday_toks(), l.date.toks());
    lemma_known_join(l.weekday_toks() + l.date.toks(), l.time_toks());
    if let Some(z) = z {
        lemma_known_zone(z);
        lemma_known_join(l.toks(), z.toks());
    }
}

} // verus!
