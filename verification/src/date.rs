//! The layouts of a date.
use vstd::prelude::*;

use crate::calendar::{month_and_day, resolve_md};
use crate::names::{is_weekday, month_from_name, month_of, names_weekday};
use crate::read::{Step, bounded, expect_sep, failed, got, separator, take_u, take_year, year};
use crate::text::{
    ascii_len, joined, lemma_ascii_head, lemma_runs_are_ascii, lemma_value_bound, outcome,
    read_digits, value,
};
use crate::token::{
    Tok, Token, all_wf, alpha_at, at, get_alpha, get_num, is_sep, num_at, sep_at, views,
};

verus! {

/// `YYYY-MM-DD`, where the year is the number `n` at `i`.
pub open spec fn iso_date(t: Seq<Token>, i: int, n: Seq<char>) -> Step<(i32, u8, u8)> {
    let month = bounded(t, i + 2, 2, 1, 12, "month"@);
    let dash = separator(t, i + 3, '-');
    let day = bounded(t, i + 4, 2, 1, 31, "day"@);
    match (month.out, dash.out, day.out) {
        (Err(e), _, _) => failed(e, i),
        (_, Err(e), _) => failed(e, i),
        (_, _, Err(e)) => failed(e, i),
        (Ok(m), Ok(_), Ok(d)) => got((value(n) as i32, m as u8, d as u8), i + 5),
    }
}

/// Two numbers and a year with the separator `c` between them; `dayfirst` tells the
/// order of the two.
pub open spec fn numeric_date(t: Seq<Token>, i: int, c: char, dayfirst: bool) -> Step<
    (i32, u8, u8),
> {
    let first = bounded(t, i, 2, 1, 31, "date part"@);
    let sep1 = separator(t, i + 1, c);
    let second = bounded(t, i + 2, 2, 1, 31, "date part"@);
    let sep2 = separator(t, i + 3, c);
    let y = year(t, i + 4);
    match (first.out, sep1.out, second.out, sep2.out, y.out) {
        (Err(e), _, _, _, _) => failed(e, i),
        (_, Err(e), _, _, _) => failed(e, i),
        (_, _, Err(e), _, _) => failed(e, i),
        (_, _, _, Err(e), _) => failed(e, i),
        (_, _, _, _, Err(e)) => failed(e, i),
        (Ok(a), Ok(_), Ok(b), Ok(_), Ok(y)) => match month_and_day(a as u8, b as u8, dayfirst) {
            Ok((m, d)) => got((y, m, d), i + 5),
            Err(e) => failed(e, i),
        },
    }
}

/// Day, month name and year, as in `6 Sep 2026`, where the name is that of month `m`.
pub open spec fn day_name_year(t: Seq<Token>, i: int, m: u8) -> Step<(i32, u8, u8)> {
    let day = bounded(t, i, 2, 1, 31, "day"@);
    let y = year(t, i + 2);
    match (day.out, y.out) {
        (Err(e), _) => failed(e, i),
        (_, Err(e)) => failed(e, i),
        (Ok(d), Ok(y)) => got((y, m, d as u8), i + 3),
    }
}

/// Month name, day and year, as in `Sep 6 2026` or `Sep 6, 2026`, where the name is
/// the word `a` at `i`.
pub open spec fn name_day_year(t: Seq<Token>, i: int, a: Seq<char>) -> Step<(i32, u8, u8)> {
    let day = bounded(t, i + 1, 2, 1, 31, "day"@);
    let k: int = if sep_at(t, i + 2, ',') {
        i + 3
    } else {
        i + 2
    };
    let y = year(t, k);
    match (month_of(a), day.out, y.out) {
        (None, _, _) => failed("unknown month name '"@ + a + "'"@, i),
        (_, Err(e), _) => failed(e, i),
        (_, _, Err(e)) => failed(e, i),
        (Some(m), Ok(d), Ok(y)) => got((y, m, d as u8), k + 1),
    }
}

/// The month that the word at `i` names.
pub open spec fn month_at(t: Seq<Token>, i: int) -> Option<u8> {
    match alpha_at(t, i) {
        Some(a) => month_of(a),
        None => None,
    }
}

/// The date at `i`: year, month, day. What stands at `i` and behind it tells the
/// layout.
pub open spec fn date(t: Seq<Token>, i: int, dayfirst: bool) -> Step<(i32, u8, u8)> {
    match at(t, i) {
        Some(Token::Num(n)) => if n.len() == 4 && sep_at(t, i + 1, '-') {
            iso_date(t, i, n)
        } else if sep_at(t, i + 1, '/') {
            numeric_date(t, i, '/', dayfirst)
        } else if n.len() <= 2 && sep_at(t, i + 1, '-') && num_at(t, i + 2) is Some {
            numeric_date(t, i, '-', dayfirst)
        } else {
            match month_at(t, i + 1) {
                Some(m) => if n.len() <= 2 {
                    day_name_year(t, i, m)
                } else {
                    failed("unrecognized date layout"@, i)
                },
                None => failed("unrecognized date layout"@, i),
            }
        },
        Some(Token::Alpha(a)) => name_day_year(t, i, a),
        _ => failed("unrecognized date layout"@, i),
    }
}

/// The position after a weekday at the front, and after a comma behind it.
pub open spec fn after_weekday(t: Seq<Token>) -> int {
    match alpha_at(t, 0) {
        Some(a) => if !names_weekday(a) {
            0
        } else if sep_at(t, 1, ',') {
            2
        } else {
            1
        },
        None => 0,
    }
}

/// A date that was read has a month of the year and a day that some month has, and
/// ends within the tokens.
pub proof fn lemma_date(t: Seq<Token>, i: int, dayfirst: bool)
    requires
        0 <= i,
    ensures
        date(t, i, dayfirst).out matches Ok((y, m, d)) ==> {
            &&& 1 <= m <= 12
            &&& 1 <= d <= 31
            &&& i < date(t, i, dayfirst).next <= t.len()
        },
{
}

/// The month that the word at `i` names.
fn get_month(toks: &[Tok], i: usize) -> (r: Option<u8>)
    requires
        all_wf(views(toks@)),
    ensures
        r == month_at(views(toks@), i as int),
        r is Some ==> i < toks.len(),
{
    match get_alpha(toks, i) {
        Some(a) => {
            proof {
                assert(views(toks@)[i as int].wf());
                lemma_runs_are_ascii(a@);
                lemma_ascii_head(a@, 3);
            }
            month_from_name(a)
        },
        None => None,
    }
}

/// Takes a date of the layout `YYYY-MM-DD`, whose year `n` stands at `i`.
fn take_iso(toks: &[Tok], i: &mut usize, n: &str) -> (r: Result<(i32, u8, u8), String>)
    requires
        all_wf(views(toks@)),
        num_at(views(toks@), *old(i) as int) == Some(n@),
        n@.len() == 4,
        *old(i) + 1 < toks.len(),
    ensures
        outcome(r) == iso_date(views(toks@), *old(i) as int, n@).out,
        r is Ok ==> *final(i) == *old(i) + 5,
{
    proof {
        assert(views(toks@)[*i as int].wf());
        lemma_value_bound(n@);
    }
    let y = match read_digits(n, 9999) {
        Some(y) => y as i32,
        None => return Err("bad year".to_string()),
    };
    *i = *i + 2;
    let mo = match take_u(toks, i, 2, 1, 12, "month") {
        Ok(v) => v as u8,
        Err(e) => return Err(e),
    };
    if let Err(e) = expect_sep(toks, i, '-') {
        return Err(e);
    }
    let d = match take_u(toks, i, 2, 1, 31, "day") {
        Ok(v) => v as u8,
        Err(e) => return Err(e),
    };
    Ok((y, mo, d))
}

/// Takes two numbers and a year with the separator `c` between them.
fn take_numeric(toks: &[Tok], i: &mut usize, c: char, dayfirst: bool) -> (r: Result<
    (i32, u8, u8),
    String,
>)
    requires
        all_wf(views(toks@)),
    ensures
        outcome(r) == numeric_date(views(toks@), *old(i) as int, c, dayfirst).out,
        r is Ok ==> *final(i) == *old(i) + 5,
{
    let a = match take_u(toks, i, 2, 1, 31, "date part") {
        Ok(v) => v as u8,
        Err(e) => return Err(e),
    };
    if let Err(e) = expect_sep(toks, i, c) {
        return Err(e);
    }
    let b = match take_u(toks, i, 2, 1, 31, "date part") {
        Ok(v) => v as u8,
        Err(e) => return Err(e),
    };
    if let Err(e) = expect_sep(toks, i, c) {
        return Err(e);
    }
    let y = match take_year(toks, i) {
        Ok(y) => y,
        Err(e) => return Err(e),
    };
    match resolve_md(a, b, dayfirst) {
        Ok((mo, d)) => Ok((y, mo, d)),
        Err(e) => Err(e),
    }
}

/// Takes day, month name and year, where the name is that of month `mo`.
fn take_day_name_year(toks: &[Tok], i: &mut usize, mo: u8) -> (r: Result<(i32, u8, u8), String>)
    requires
        all_wf(views(toks@)),
        *old(i) + 1 < toks.len(),
    ensures
        outcome(r) == day_name_year(views(toks@), *old(i) as int, mo).out,
        r is Ok ==> *final(i) == *old(i) + 3,
{
    let d = match take_u(toks, i, 2, 1, 31, "day") {
        Ok(v) => v as u8,
        Err(e) => return Err(e),
    };
    *i = *i + 1;
    match take_year(toks, i) {
        Ok(y) => Ok((y, mo, d)),
        Err(e) => Err(e),
    }
}

/// Takes month name, day and year, where the name is the word `a` at `i`.
fn take_name_day_year(toks: &[Tok], i: &mut usize, a: &str) -> (r: Result<(i32, u8, u8), String>)
    requires
        all_wf(views(toks@)),
        alpha_at(views(toks@), *old(i) as int) == Some(a@),
    ensures
        outcome(r) == name_day_year(views(toks@), *old(i) as int, a@).out,
        r is Ok ==> *final(i) == name_day_year(views(toks@), *old(i) as int, a@).next,
{
    let mo = match get_month(toks, *i) {
        Some(mo) => mo,
        None => {
            let mut e = joined("unknown month name '", a);
            e.append("'");
            return Err(e);
        },
    };
    *i = *i + 1;
    let d = match take_u(toks, i, 2, 1, 31, "day") {
        Ok(v) => v as u8,
        Err(e) => return Err(e),
    };
    if is_sep(toks, *i, ',') {
        *i = *i + 1;
    }
    match take_year(toks, i) {
        Ok(y) => Ok((y, mo, d)),
        Err(e) => Err(e),
    }
}

/// Takes a date in any of the layouts: year, month, day.
pub fn take_date(toks: &[Tok], i: &mut usize, dayfirst: bool) -> (r: Result<
    (i32, u8, u8),
    String,
>)
    requires
        all_wf(views(toks@)),
    ensures
        outcome(r) == date(views(toks@), *old(i) as int, dayfirst).out,
        r is Ok ==> *final(i) == date(views(toks@), *old(i) as int, dayfirst).next,
{
    if let Some(n) = get_num(toks, *i) {
        proof {
            assert(views(toks@)[*i as int].wf());
            lemma_runs_are_ascii(n@);
        }
        let len = ascii_len(n);
        if len == 4 && is_sep(toks, *i + 1, '-') {
            take_iso(toks, i, n)
        } else if is_sep(toks, *i + 1, '/') {
            take_numeric(toks, i, '/', dayfirst)
        } else if len <= 2 && is_sep(toks, *i + 1, '-') && get_num(toks, *i + 2).is_some() {
            take_numeric(toks, i, '-', dayfirst)
        } else {
            match get_month(toks, *i + 1) {
                Some(mo) if len <= 2 => take_day_name_year(toks, i, mo),
                _ => Err("unrecognized date layout".to_string()),
            }
        }
    } else if let Some(a) = get_alpha(toks, *i) {
        take_name_day_year(toks, i, a)
    } else {
        Err("unrecognized date layout".to_string())
    }
}

/// The position after a weekday at the front, such as `Sun,` or `Sunday`.
pub fn skip_weekday(toks: &[Tok]) -> (r: usize)
    requires
        all_wf(views(toks@)),
    ensures
        r == after_weekday(views(toks@)),
{
    match get_alpha(toks, 0) {
        Some(a) => {
            proof {
                assert(views(toks@)[0].wf());
                lemma_runs_are_ascii(a@);
                lemma_ascii_head(a@, 3);
            }
            if !is_weekday(a) {
                0
            } else if is_sep(toks, 1, ',') {
                2
            } else {
                1
            }
        },
        None => 0,
    }
}

} // verus!
