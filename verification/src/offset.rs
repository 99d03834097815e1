//! Offsets from UTC: signed numbers such as `+05:30`, zone names, and zone names
//! with a correction such as `UTC+2`.
use vstd::prelude::*;

use crate::debug::{char_debug, debug_char, debug_str, str_debug};
use crate::names::{named_tz, zone_of};
use crate::read::{Step, failed, got, step};
use crate::text::{ascii_len, joined, lemma_runs_are_ascii, lemma_value_bound, read_digits, value};
use crate::token::{Tok, Token, all_wf, at, get_num, is_sep, num_at, sep_at, views};

verus! {

/// The sign at `i`, and whether it is a minus.
pub open spec fn sign_at(t: Seq<Token>, i: int) -> Option<bool> {
    if sep_at(t, i, '+') {
        Some(false)
    } else if sep_at(t, i, '-') {
        Some(true)
    } else {
        None
    }
}

/// An optional part of an offset: a colon and a number.
pub enum Field {
    /// There is no colon.
    Absent,
    /// The colon is not followed by a number that fits.
    Bad,
    Value(int),
}

/// The optional part at `i`.
pub open spec fn colon_field(t: Seq<Token>, i: int) -> Field {
    if !sep_at(t, i, ':') {
        Field::Absent
    } else {
        match num_at(t, i + 1) {
            Some(n) => if value(n) <= i32::MAX {
                Field::Value(value(n))
            } else {
                Field::Bad
            },
            None => Field::Bad,
        }
    }
}

/// Hours, minutes and seconds as seconds, or the reason `why` where the minutes or
/// the seconds exceed 59.
pub open spec fn seconds(hh: int, mm: int, ss: int, why: Seq<char>, next: int) -> Step<int> {
    if mm > 59 || ss > 59 {
        failed(why, next)
    } else {
        got(hh * 3600 + mm * 60 + ss, next)
    }
}

/// The offset `HH[:MM[:SS]]` whose hours were read and whose rest starts at `i`.
pub open spec fn spaced_out(t: Seq<Token>, hh: int, i: int) -> Step<int> {
    let why = "offset minutes/seconds out of range"@;
    match colon_field(t, i) {
        Field::Absent => seconds(hh, 0, 0, why, i),
        Field::Bad => failed("bad offset minutes"@, i + 1),
        Field::Value(mm) => match colon_field(t, i + 2) {
            Field::Absent => seconds(hh, mm, 0, why, i + 2),
            Field::Bad => failed("bad offset seconds"@, i + 3),
            Field::Value(ss) => seconds(hh, mm, ss, why, i + 4),
        },
    }
}

/// The seconds of an offset without its sign, whose first number is `n` and whose
/// rest starts at `i`: `HH[:MM[:SS]]`, `HHMM` or `HHMMSS`.
pub open spec fn magnitude(t: Seq<Token>, n: Seq<char>, i: int) -> Step<int> {
    if n.len() == 1 || n.len() == 2 {
        spaced_out(t, value(n), i)
    } else if n.len() == 4 {
        seconds(value(n.take(2)), value(n.skip(2)), 0, "offset minutes out of range"@, i)
    } else if n.len() == 6 {
        seconds(
            value(n.take(2)),
            value(n.subrange(2, 4)),
            value(n.skip(4)),
            "offset out of range"@,
            i,
        )
    } else {
        failed("bad offset format"@, i)
    }
}

/// `v` with its sign.
pub open spec fn signed(negative: bool, v: int) -> int {
    if negative {
        -v
    } else {
        v
    }
}

/// A signed offset, or nothing where there is no sign.
pub open spec fn signed_num(t: Seq<Token>, i: int) -> Step<Option<i32>> {
    match sign_at(t, i) {
        None => got(None, i),
        Some(negative) => match num_at(t, i + 1) {
            None => failed("expected digits after sign"@, i + 1),
            Some(n) => {
                let m = magnitude(t, n, i + 2);
                match m.out {
                    Ok(v) => got(Some(signed(negative, v) as i32), m.next),
                    Err(e) => failed(e, m.next),
                }
            },
        },
    }
}

/// How a token is shown in a message.
pub open spec fn token_debug(t: Token) -> Seq<char> {
    match t {
        Token::Num(n) => "Num("@ + str_debug(n) + ")"@,
        Token::Alpha(a) => "Alpha("@ + str_debug(a) + ")"@,
        Token::Sep(c) => "Sep("@ + char_debug(c) + ")"@,
    }
}

/// The zone at `i`: nothing at the end of the tokens, else a zone name, a signed
/// offset, or a zone name and a signed correction, which add up.
pub open spec fn zone(t: Seq<Token>, i: int) -> Step<Option<i32>> {
    match at(t, i) {
        None => got(None, i),
        Some(Token::Alpha(a)) => match zone_of(a) {
            None => failed("unknown timezone name '"@ + a + "'"@, i),
            Some(base) => {
                let d = signed_num(t, i + 1);
                match d.out {
                    Ok(Some(delta)) => got(Some((base + delta) as i32), d.next),
                    Ok(None) => got(Some(base as i32), d.next),
                    Err(e) => failed(e, d.next),
                }
            },
        },
        Some(x) => if sign_at(t, i) is Some {
            signed_num(t, i)
        } else {
            failed("unexpected token "@ + token_debug(x) + " where timezone/offset expected"@, i)
        },
    }
}

/// The largest offset that two digits of hours, minutes and seconds can write.
pub open spec fn max_signed() -> int {
    99int * 3600 + 59 * 60 + 59
}

/// What a signed offset can be.
pub proof fn lemma_signed_num(t: Seq<Token>, i: int)
    requires
        all_wf(t),
    ensures
        signed_num(t, i).out matches Ok(Some(v)) ==> -max_signed() <= v <= max_signed(),
        sign_at(t, i) is Some ==> signed_num(t, i).out != Ok::<Option<i32>, Seq<char>>(None),
        i <= signed_num(t, i).next,
        0 <= i <= t.len() ==> signed_num(t, i).next <= t.len(),
{
    if let Some(n) = num_at(t, i + 1) {
        if sign_at(t, i) is Some {
            assert(t[i + 1].wf());
            lemma_magnitude(t, n, i + 2);
        }
    }
}

/// The offset furthest to the east that a zone name and a correction can write.
pub open spec fn max_offset() -> int {
    max_signed() + 5 * 3600 + 30 * 60
}

/// The offset furthest to the west that a zone name and a correction can write.
pub open spec fn min_offset() -> int {
    -max_signed() - 8 * 3600
}

/// What the offset of a zone can be.
pub proof fn lemma_zone(t: Seq<Token>, i: int)
    requires
        all_wf(t),
    ensures
        zone(t, i).out matches Ok(Some(v)) ==> min_offset() <= v <= max_offset(),
        zone(t, i).out matches Ok(v) ==> (v is None <==> at(t, i) is None),
        i <= zone(t, i).next,
{
    lemma_signed_num(t, i);
    lemma_signed_num(t, i + 1);
}

/// What an offset without its sign can be.
pub proof fn lemma_magnitude(t: Seq<Token>, n: Seq<char>, i: int)
    requires
        all_wf(t),
        crate::text::is_digits(n),
    ensures
        magnitude(t, n, i).out matches Ok(v) ==> 0 <= v <= max_signed(),
        i <= magnitude(t, n, i).next,
        0 <= i <= t.len() ==> magnitude(t, n, i).next <= t.len(),
{
    lemma_value_bound(n);
    if n.len() == 4 {
        lemma_value_bound(n.take(2));
        lemma_value_bound(n.skip(2));
    } else if n.len() == 6 {
        lemma_value_bound(n.take(2));
        lemma_value_bound(n.subrange(2, 4));
        lemma_value_bound(n.skip(4));
    } else {
        if let Some(m) = num_at(t, i + 1) {
            assert(t[i + 1].wf());
            lemma_value_bound(m);
        }
        if let Some(m) = num_at(t, i + 3) {
            assert(t[i + 3].wf());
            lemma_value_bound(m);
        }
    }
}

/// Takes the optional part at `i`: the number after a colon, or 0.
fn take_field(toks: &[Tok], i: &mut usize, why: &str) -> (r: Result<i32, String>)
    requires
        all_wf(views(toks@)),
    ensures
        step(r, *final(i)) == (match colon_field(views(toks@), *old(i) as int) {
            Field::Absent => got(0i32, *old(i) as int),
            Field::Bad => failed(why@, *old(i) + 1),
            Field::Value(v) => got(v as i32, *old(i) + 2),
        }),
{
    if !is_sep(toks, *i, ':') {
        return Ok(0);
    }
    *i = *i + 1;
    match get_num(toks, *i) {
        Some(n) => {
            proof {
                assert(views(toks@)[*i as int].wf());
                lemma_value_bound(n@);
            }
            match read_digits(n, i32::MAX as i64) {
                Some(v) => {
                    *i = *i + 1;
                    Ok(v as i32)
                },
                None => Err(why.to_string()),
            }
        },
        None => Err(why.to_string()),
    }
}

/// The number that the digits of `n` from `a` to `b` write.
fn part(n: &str, a: usize, b: usize) -> (r: i32)
    requires
        crate::text::is_digits(n@),
        a < b <= n@.len(),
        b - a <= 2,
    ensures
        r == value(n@.subrange(a as int, b as int)),
        0 <= r < 100,
{
    proof {
        lemma_runs_are_ascii(n@);
        lemma_value_bound(n@.subrange(a as int, b as int));
    }
    match read_digits(n.substring_ascii(a, b), 99) {
        Some(v) => v as i32,
        None => 0,
    }
}

/// Takes an optional signed offset such as `+05:30`, `-07:00`, `+0530` or `+05`.
/// Tokens are taken only where there is a sign; without one the result is `None`.
pub fn parse_signed_num(toks: &[Tok], i: &mut usize) -> (r: Result<Option<i32>, String>)
    requires
        all_wf(views(toks@)),
    ensures
        step(r, *final(i)) == signed_num(views(toks@), *old(i) as int),
{
    let ghost t = views(toks@);
    let ghost start = *i as int;
    proof {
        lemma_signed_num(t, start);
    }
    let neg = if is_sep(toks, *i, '+') {
        false
    } else if is_sep(toks, *i, '-') {
        true
    } else {
        return Ok(None);
    };
    *i = *i + 1;
    let n = match get_num(toks, *i) {
        Some(n) => n,
        None => return Err("expected digits after sign".to_string()),
    };
    proof {
        assert(t[*i as int].wf());
        lemma_runs_are_ascii(n@);
        lemma_value_bound(n@);
        lemma_magnitude(t, n@, start + 2);
    }
    *i = *i + 1;
    let v: i32 = match ascii_len(n) {
        1 | 2 => {
            let hh = part(n, 0, ascii_len(n));
            assert(n@.subrange(0, n@.len() as int) =~= n@);
            let mm = match take_field(toks, i, "bad offset minutes") {
                Ok(mm) => mm,
                Err(e) => return Err(e),
            };
            // without minutes there is no second colon either
            let ss = match take_field(toks, i, "bad offset seconds") {
                Ok(ss) => ss,
                Err(e) => return Err(e),
            };
            if mm > 59 || ss > 59 {
                return Err("offset minutes/seconds out of range".to_string());
            }
            hh * 3600 + mm * 60 + ss
        },
        4 => {
            let hh = part(n, 0, 2);
            let mm = part(n, 2, 4);
            assert(n@.subrange(0, 2) =~= n@.take(2));
            assert(n@.subrange(2, 4) =~= n@.skip(2));
            if mm > 59 {
                return Err("offset minutes out of range".to_string());
            }
            hh * 3600 + mm * 60
        },
        6 => {
            let hh = part(n, 0, 2);
            let mm = part(n, 2, 4);
            let ss = part(n, 4, 6);
            assert(n@.subrange(0, 2) =~= n@.take(2));
            assert(n@.subrange(4, 6) =~= n@.skip(4));
            if mm > 59 || ss > 59 {
                return Err("offset out of range".to_string());
            }
            hh * 3600 + mm * 60 + ss
        },
        _ => return Err("bad offset format".to_string()),
    };
    Ok(Some(if neg {
        -v
    } else {
        v
    }))
}

/// Shows a token as in a message.
fn show(t: &Tok) -> (r: String)
    ensures
        r@ == token_debug(t@),
{
    match t {
        Tok::Num(n) => shown_as("Num(", debug_str(n.as_str()).as_str()),
        Tok::Alpha(a) => shown_as("Alpha(", debug_str(a.as_str()).as_str()),
        Tok::Sep(c) => shown_as("Sep(", debug_char(*c).as_str()),
    }
}

/// A token shown by its kind and, in brackets, what it holds.
fn shown_as(kind: &str, held: &str) -> (r: String)
    ensures
        r@ == kind@ + held@ + ")"@,
{
    let mut r = joined(kind, held);
    r.append(")");
    r
}

/// The message for a token that is no zone, given how the token is shown.
pub fn unexpected_token(shown: &str) -> (r: String)
    ensures
        r@ == "unexpected token "@ + shown@ + " where timezone/offset expected"@,
{
    let mut r = joined("unexpected token ", shown);
    r.append(" where timezone/offset expected");
    r
}

/// Takes an optional zone: a name, a signed offset, or a name and a correction.
pub fn parse_offset(toks: &[Tok], i: &mut usize) -> (r: Result<Option<i32>, String>)
    requires
        all_wf(views(toks@)),
    ensures
        step(r, *final(i)) == zone(views(toks@), *old(i) as int),
{
    let ghost t = views(toks@);
    proof {
        lemma_signed_num(t, *i as int);
        lemma_signed_num(t, *i + 1);
    }
    match toks.get(*i) {
        None => Ok(None),
        Some(Tok::Alpha(a)) => {
            let base = match named_tz(a.as_str()) {
                Some(base) => base,
                None => {
                    let mut e = joined("unknown timezone name '", a.as_str());
                    e.append("'");
                    return Err(e);
                },
            };
            *i = *i + 1;
            match parse_signed_num(toks, i) {
                Ok(Some(delta)) => Ok(Some(base + delta)),
                Ok(None) => Ok(Some(base)),
                Err(e) => Err(e),
            }
        },
        Some(x) => {
            if is_sep(toks, *i, '+') || is_sep(toks, *i, '-') {
                parse_signed_num(toks, i)
            } else {
                Err(unexpected_token(show(x).as_str()))
            }
        },
    }
}

} // verus!
