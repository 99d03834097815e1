//! Readers: functions that take the next item off a token sequence.
use vstd::prelude::*;

use crate::debug::{char_debug, debug_char};
use crate::text::{
    ascii_len, decimal, decimal_text, joined, lemma_runs_are_ascii, lemma_value_bound, outcome,
    read_digits, value,
};
use crate::token::{Tok, Token, all_wf, get_num, is_sep, num_at, sep_at, views};

verus! {

/// What a reader gave, and the position that it left behind.
pub struct Step<T> {
    pub out: Result<T, Seq<char>>,
    pub next: int,
}

/// The step of a reader that returned `r` and left the position `i`.
pub open spec fn step<T>(r: Result<T, String>, i: usize) -> Step<T> {
    Step { out: outcome(r), next: i as int }
}

/// A value was read; go on at `next`.
pub open spec fn got<T>(v: T, next: int) -> Step<T> {
    Step { out: Ok(v), next }
}

/// Nothing was read, for the reason `why`.
pub open spec fn failed<T>(why: Seq<char>, next: int) -> Step<T> {
    Step { out: Err(why), next }
}

/// The separator `c`.
pub open spec fn separator(t: Seq<Token>, i: int, c: char) -> Step<()> {
    if sep_at(t, i, c) {
        got((), i + 1)
    } else {
        failed("expected "@ + char_debug(c), i)
    }
}

/// A number of at most `max_digits` digits between `lo` and `hi`.
pub open spec fn bounded(
    t: Seq<Token>,
    i: int,
    max_digits: int,
    lo: int,
    hi: int,
    what: Seq<char>,
) -> Step<i64> {
    match num_at(t, i) {
        None => failed("expected "@ + what, i),
        Some(n) => if n.len() > max_digits {
            failed(what + ": too many digits"@, i)
        } else if value(n) > i64::MAX {
            failed("bad "@ + what, i)
        } else if value(n) < lo || value(n) > hi {
            failed(what + " out of range: "@ + decimal(value(n) as nat), i)
        } else {
            got(value(n) as i64, i + 1)
        },
    }
}

/// A year of two digits is in the years from 1969 to 2068.
pub open spec fn full_year(v: int) -> int {
    if v < 69 {
        2000 + v
    } else {
        1900 + v
    }
}

/// A year of four digits, or of two.
pub open spec fn year(t: Seq<Token>, i: int) -> Step<i32> {
    match num_at(t, i) {
        None => failed("expected year"@, i),
        Some(n) => if n.len() == 4 {
            got(value(n) as i32, i + 1)
        } else if n.len() == 2 {
            got(full_year(value(n)) as i32, i + 1)
        } else {
            failed("year must be 2 or 4 digits"@, i)
        },
    }
}

/// The message for a missing item, given how the item is shown.
pub fn expected(shown: &str) -> (r: String)
    ensures
        r@ == "expected "@ + shown@,
{
    joined("expected ", shown)
}

/// Takes the separator `c`.
pub fn expect_sep(toks: &[Tok], i: &mut usize, c: char) -> (r: Result<(), String>)
    ensures
        step(r, *final(i)) == separator(views(toks@), *old(i) as int, c),
{
    if is_sep(toks, *i, c) {
        *i = *i + 1;
        Ok(())
    } else {
        Err(expected(debug_char(c).as_str()))
    }
}

/// Takes a number of at most `max_digits` digits that lies between `lo` and `hi`.
pub fn take_u(
    toks: &[Tok],
    i: &mut usize,
    max_digits: usize,
    lo: i64,
    hi: i64,
    what: &str,
) -> (r: Result<i64, String>)
    requires
        all_wf(views(toks@)),
    ensures
        step(r, *final(i)) == bounded(
            views(toks@),
            *old(i) as int,
            max_digits as int,
            lo as int,
            hi as int,
            what@,
        ),
{
    let n = match get_num(toks, *i) {
        Some(n) => n,
        _ => return Err(expected(what)),
    };
    proof {
        assert(views(toks@)[*i as int].wf());
        lemma_runs_are_ascii(n@);
        lemma_value_bound(n@);
    }
    if ascii_len(n) > max_digits {
        return Err(joined(what, ": too many digits"));
    }
    let v = match read_digits(n, i64::MAX) {
        Some(v) => v,
        None => return Err(joined("bad ", what)),
    };
    if v < lo || v > hi {
        let mut e = joined(what, " out of range: ");
        e.append(decimal_text(v as u64).as_str());
        return Err(e);
    }
    *i = *i + 1;
    Ok(v)
}

/// Takes a year of four digits, or of two.
pub fn take_year(toks: &[Tok], i: &mut usize) -> (r: Result<i32, String>)
    requires
        all_wf(views(toks@)),
    ensures
        step(r, *final(i)) == year(views(toks@), *old(i) as int),
{
    let n = match get_num(toks, *i) {
        Some(n) => n,
        _ => return Err("expected year".to_string()),
    };
    proof {
        assert(views(toks@)[*i as int].wf());
        lemma_runs_are_ascii(n@);
        lemma_value_bound(n@);
    }
    let y: i32 = match ascii_len(n) {
        4 => match read_digits(n, 9999) {
            Some(v) => v as i32,
            None => return Err("bad year".to_string()),
        },
        2 => match read_digits(n, 99) {
            Some(v) => if v < 69 {
                2000 + v as i32
            } else {
                1900 + v as i32
            },
            None => return Err("bad year".to_string()),
        },
        _ => return Err("year must be 2 or 4 digits".to_string()),
    };
    *i = *i + 1;
    Ok(y)
}

/// A year of two digits is the one year from 1969 to 2068 that ends in them.
pub proof fn law_years_of_two_digits(v: int)
    requires
        0 <= v < 100,
    ensures
        1969 <= full_year(v) <= 2068,
        (full_year(v) - v) % 100 == 0,
{
}

/// A number is taken exactly if it has no more digits than allowed and lies within its
/// bounds; it is then the number that the digits write, and one token further on.
pub proof fn law_bounded(
    t: Seq<Token>,
    i: int,
    max_digits: int,
    lo: int,
    hi: int,
    what: Seq<char>,
    n: Seq<char>,
)
    requires
        0 <= i < t.len(),
        t[i] == Token::Num(n),
        i64::MIN <= lo,
        hi <= i64::MAX,
    ensures
        bounded(t, i, max_digits, lo, hi, what).out is Ok <==> n.len() <= max_digits && lo <= value(n)
            <= hi,
        bounded(t, i, max_digits, lo, hi, what) matches Step { out: Ok(v), next } ==> v == value(n)
            && next == i + 1,
        bounded(t, i, max_digits, lo, hi, what) matches Step { out: Err(e), next } ==> {
            &&& next == i
            &&& n.len() > max_digits ==> e == what + ": too many digits"@
            &&& n.len() <= max_digits && value(n) <= i64::MAX ==> e == what + " out of range: "@
                + decimal(value(n) as nat)
            &&& n.len() <= max_digits && value(n) > i64::MAX ==> e == "bad "@ + what
        },
{
}

/// Where no number stands, none is taken, and the message says what was expected.
pub proof fn law_expected(t: Seq<Token>, i: int, max_digits: int, lo: int, hi: int, what: Seq<char>)
    requires
        !(0 <= i < t.len() && t[i] is Num),
    ensures
        bounded(t, i, max_digits, lo, hi, what) == failed::<i64>("expected "@ + what, i),
        year(t, i) == failed::<i32>("expected year"@, i),
{
}

/// A separator is taken exactly where it stands; else the message shows it.
pub proof fn law_separator(t: Seq<Token>, i: int, c: char)
    ensures
        separator(t, i, c).out is Ok <==> 0 <= i < t.len() && t[i] == Token::Sep(c),
        separator(t, i, c).out is Ok ==> separator(t, i, c).next == i + 1,
        separator(t, i, c) matches Step { out: Err(e), next } ==> next == i && e == "expected "@
            + char_debug(c),
{
}

/// A year is taken exactly if it has two digits or four. Four digits are the year; two
/// are how it ends.
pub proof fn law_year(t: Seq<Token>, i: int, n: Seq<char>)
    requires
        0 <= i < t.len(),
        t[i] == Token::Num(n),
        crate::text::is_digits(n),
    ensures
        year(t, i).out is Ok <==> n.len() == 2 || n.len() == 4,
        year(t, i) matches Step { out: Ok(y), next } ==> {
            &&& next == i + 1
            &&& n.len() == 4 ==> y == value(n)
            &&& n.len() == 2 ==> 1969 <= y <= 2068 && (y - value(n)) % 100 == 0
        },
        year(t, i) matches Step { out: Err(e), next } ==> next == i && e
            == "year must be 2 or 4 digits"@,
{
    lemma_value_bound(n);
}

/// A step holds what was returned, its message character by character, and the position.
pub proof fn law_step<T>(r: Result<T, String>, i: usize)
    ensures
        step(r, i).next == i,
        r matches Ok(v) ==> step(r, i).out == Ok::<T, Seq<char>>(v),
        r matches Err(e) ==> step(r, i).out == Err::<T, Seq<char>>(e@),
{
}

} // verus!
