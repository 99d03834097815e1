//! What does not change the meaning of a text: a weekday in front, the case of
//! letters, the choice of white space.
use vstd::prelude::*;

use crate::clock::{after_t, clock, half_of, time_of_day};
use crate::date::{after_weekday, date};
use crate::laws::{is_blank, law_tokens_apart, law_white_space, lemma_tokens_blank};
use crate::layout::WeekdayText;
use crate::names::{month_of, names_weekday, stem, zone_of};
use crate::offset::{signed_num, zone};
use crate::parser::{Parsed, parse_text};
use crate::read::Step;
use crate::text::{Class, class, lower, lowered, upper, uppered};
use crate::token::{Token, alpha_at, at, lemma_run, run, sep_at, tokens};

verus! {

broadcast use crate::text::lemma_scalars;

/// `u` holds the tokens of `t`, `n` places further on.
spec fn shifted(t: Seq<Token>, u: Seq<Token>, n: int) -> bool {
    &&& n >= 0
    &&& u.len() == t.len() + n
    &&& forall|j: int| n <= j ==> #[trigger] at(u, j) == at(t, j - n)
}

/// A step that was made `n` places further on.
spec fn moved<T>(s: Step<T>, n: int) -> Step<T> {
    Step { out: s.out, next: s.next + n }
}

proof fn lemma_date_shifted(t: Seq<Token>, u: Seq<Token>, n: int, i: int, dayfirst: bool)
    requires
        shifted(t, u, n),
        0 <= i,
    ensures
        date(u, i + n, dayfirst) == moved(date(t, i, dayfirst), n),
{
}

proof fn lemma_signed_num_shifted(t: Seq<Token>, u: Seq<Token>, n: int, i: int)
    requires
        shifted(t, u, n),
        0 <= i,
    ensures
        signed_num(u, i + n) == moved(signed_num(t, i), n),
{
}

proof fn lemma_zone_shifted(t: Seq<Token>, u: Seq<Token>, n: int, i: int)
    requires
        shifted(t, u, n),
        0 <= i,
    ensures
        zone(u, i + n) == moved(zone(t, i), n),
{
    lemma_signed_num_shifted(t, u, n, i);
    lemma_signed_num_shifted(t, u, n, i + 1);
}

proof fn lemma_time_shifted(t: Seq<Token>, u: Seq<Token>, n: int, i: int)
    requires
        shifted(t, u, n),
        0 <= i,
    ensures
        time_of_day(u, i + n) == moved(time_of_day(t, i), n),
        time_of_day(t, i).next >= i,
        after_t(u, i + n) == after_t(t, i) + n,
{
}

proof fn lemma_clock_shifted(t: Seq<Token>, u: Seq<Token>, n: int, i: int)
    requires
        shifted(t, u, n),
        0 <= i,
    ensures
        clock(u, i + n) == clock(t, i),
{
    let j = after_t(t, i);
    lemma_time_shifted(t, u, n, i);
    lemma_time_shifted(t, u, n, j);
    lemma_zone_shifted(t, u, n, time_of_day(t, j).next);
}

/// A weekday in front of a text, with or without a comma, changes nothing. (A text
/// that starts with a weekday itself is left out, for of two weekdays only the first
/// is skipped; and so is one that starts with a comma, where it would be taken for the
/// comma of the weekday.)
pub proof fn law_weekday_is_skipped(w: WeekdayText, s: Seq<char>, dayfirst: bool)
    requires
        w.wf(),
        alpha_at(tokens(s), 0) matches Some(a) ==> !names_weekday(a),
        !w.comma ==> !sep_at(tokens(s), 0, ','),
    ensures
        parse_text(w.text() + s, dayfirst) == parse_text(s, dayfirst),
{
    let p = w.toks();
    let t = tokens(s);
    let u = p + t;
    let n = p.len() as int;
    w.lemma_tokens();
    law_tokens_apart(w.text(), s);
    assert(shifted(t, u, n));
    assert(u[0] == Token::Alpha(w.name));
    if w.comma {
        assert(u[1] == Token::Sep(','));
    } else {
        assert(at(u, 1) == at(t, 0));
    }
    assert(after_weekday(u) == n);
    lemma_date_shifted(t, u, n, 0, dayfirst);
    crate::date::lemma_date(t, 0, dayfirst);
    if date(t, 0, dayfirst).out is Ok {
        lemma_clock_shifted(t, u, n, date(t, 0, dayfirst).next);
    }
}

/// Where there is white space, neither its kind nor its amount matters.
pub proof fn law_any_white_space(
    a: Seq<char>,
    v: Seq<char>,
    w: Seq<char>,
    b: Seq<char>,
    dayfirst: bool,
)
    requires
        is_blank(v),
        is_blank(w),
        v.len() > 0,
        w.len() > 0,
    ensures
        parse_text(a + v + b, dayfirst) == parse_text(a + w + b, dayfirst),
{
    law_white_space(a, v, b);
    law_white_space(a, w, b);
}

/// White space around a text changes nothing.
pub proof fn law_surrounding_white_space(v: Seq<char>, s: Seq<char>, w: Seq<char>, dayfirst: bool)
    requires
        is_blank(v),
        is_blank(w),
    ensures
        parse_text(v + s + w, dayfirst) == parse_text(s, dayfirst),
{
    lemma_tokens_blank(v);
    lemma_tokens_blank(w);
    if v.len() > 0 {
        assert(class(v.last()) == Class::Space);
    }
    if w.len() > 0 {
        assert(class(w[0]) == Class::Space);
    }
    law_tokens_apart(v, s);
    law_tokens_apart(v + s, w);
    assert(tokens(v + s + w) =~= tokens(s));
}

/// A token with its letters in lower case.
spec fn lowered_token(x: Token) -> Token {
    match x {
        Token::Alpha(a) => Token::Alpha(lowered(a)),
        _ => x,
    }
}

/// Tokens with their letters in lower case.
spec fn lowered_tokens(t: Seq<Token>) -> Seq<Token> {
    t.map_values(|x: Token| lowered_token(x))
}

/// Lower case keeps the class of a character, and is what upper case makes of it too.
proof fn lemma_lower(c: char)
    ensures
        class(lower(c)) == class(c),
        lower(lower(c)) == lower(c),
        upper(lower(c)) == upper(c),
        class(c) != Class::Letter ==> lower(c) == c,
{
}

proof fn lemma_run_lowered(s: Seq<char>, k: Class)
    ensures
        run(lowered(s), k) == run(s, k),
    decreases s.len(),
{
    if s.len() > 0 {
        lemma_lower(s[0]);
        lemma_run_lowered(s.drop_first(), k);
        assert(lowered(s).drop_first() =~= lowered(s.drop_first()));
    }
}

/// Lower case changes the words of a text and leaves its tokens as they are otherwise.
proof fn lemma_tokens_lowered(s: Seq<char>)
    ensures
        tokens(lowered(s)) == lowered_tokens(tokens(s)),
    decreases s.len(),
{
    let l = lowered(s);
    if s.len() == 0 {
        assert(tokens(l) =~= lowered_tokens(tokens(s)));
    } else {
        let k = class(s[0]);
        lemma_lower(s[0]);
        lemma_run(s, k);
        lemma_run_lowered(s, k);
        let n: int = if k == Class::Digit || k == Class::Letter {
            run(s, k) as int
        } else {
            1
        };
        lemma_tokens_lowered(s.skip(n));
        assert(l.skip(n) =~= lowered(s.skip(n)));
        assert(l.take(n) =~= lowered(s.take(n)));
        if k == Class::Digit {
            assert forall|i: int| 0 <= i < n implies #[trigger] l[i] == s[i] by {
                assert(class(s[i]) == k);
                lemma_lower(s[i]);
            }
            assert(l.take(n) =~= s.take(n));
        }
        assert(tokens(l) =~= lowered_tokens(tokens(s)));
    }
}

/// The outcomes are the same, but for the reason of a failure.
spec fn alike<T>(a: Step<T>, b: Step<T>) -> bool {
    match a.out {
        Ok(_) => a == b,
        Err(_) => b.out is Err,
    }
}

/// Words mean the same in lower case.
proof fn lemma_words_lowered(a: Seq<char>)
    ensures
        month_of(lowered(a)) == month_of(a),
        names_weekday(lowered(a)) == names_weekday(a),
        zone_of(lowered(a)) == zone_of(a),
        half_of(lowered(a)) == half_of(a),
        (lowered(a) == "T"@ || lowered(a) == "t"@) == (a == "T"@ || a == "t"@),
{
    assert forall|i: int| 0 <= i < a.len() implies #[trigger] upper(lower(a[i])) == upper(a[i]) by {
        lemma_lower(a[i]);
    }
    assert(uppered(lowered(a)) =~= uppered(a));
    if a.len() >= 3 {
        lemma_lower(a[0]);
        lemma_lower(a[1]);
        lemma_lower(a[2]);
        assert(stem(lowered(a)) == stem(a));
    }
    reveal_strlit("T");
    reveal_strlit("t");
    if a.len() == 1 {
        assert(lowered(a)[0] == lower(a[0]));
        assert(a =~= "T"@ <==> a[0] == 'T');
        assert(a =~= "t"@ <==> a[0] == 't');
        assert(lowered(a) =~= "T"@ <==> lower(a[0]) == 'T');
        assert(lowered(a) =~= "t"@ <==> lower(a[0]) == 't');
    }
}

/// The tokens at `i` of `t` and of its lower case.
proof fn lemma_at_lowered(t: Seq<Token>, i: int)
    ensures
        at(lowered_tokens(t), i) == (match at(t, i) {
            Some(x) => Some(lowered_token(x)),
            None => None,
        }),
        alpha_at(t, i) matches Some(a) ==> {
            &&& alpha_at(lowered_tokens(t), i) == Some(lowered(a))
            &&& month_of(lowered(a)) == month_of(a)
            &&& names_weekday(lowered(a)) == names_weekday(a)
            &&& zone_of(lowered(a)) == zone_of(a)
            &&& half_of(lowered(a)) == half_of(a)
            &&& (lowered(a) == "T"@ || lowered(a) == "t"@) == (a == "T"@ || a == "t"@)
        },
{
    if let Some(a) = alpha_at(t, i) {
        lemma_words_lowered(a);
    }
}

proof fn lemma_date_lowered(t: Seq<Token>, i: int, dayfirst: bool)
    ensures
        alike(date(t, i, dayfirst), date(lowered_tokens(t), i, dayfirst)),
{
    lemma_at_lowered(t, i);
    lemma_at_lowered(t, i + 1);
    lemma_at_lowered(t, i + 2);
    lemma_at_lowered(t, i + 3);
    lemma_at_lowered(t, i + 4);
}

proof fn lemma_signed_num_lowered(t: Seq<Token>, i: int)
    ensures
        signed_num(lowered_tokens(t), i) == signed_num(t, i),
{
    lemma_at_lowered(t, i);
    lemma_at_lowered(t, i + 1);
    lemma_at_lowered(t, i + 2);
    lemma_at_lowered(t, i + 3);
    lemma_at_lowered(t, i + 4);
    lemma_at_lowered(t, i + 5);
}

proof fn lemma_zone_lowered(t: Seq<Token>, i: int)
    ensures
        alike(zone(t, i), zone(lowered_tokens(t), i)),
{
    lemma_at_lowered(t, i);
    lemma_signed_num_lowered(t, i);
    lemma_signed_num_lowered(t, i + 1);
}

proof fn lemma_time_lowered(t: Seq<Token>, i: int)
    ensures
        alike(time_of_day(t, i), time_of_day(lowered_tokens(t), i)),
        after_t(lowered_tokens(t), i) == after_t(t, i),
{
    lemma_at_lowered(t, i);
    lemma_at_lowered(t, i + 1);
    lemma_at_lowered(t, i + 2);
    lemma_at_lowered(t, i + 3);
    lemma_at_lowered(t, i + 4);
    lemma_at_lowered(t, i + 5);
    lemma_at_lowered(t, i + 6);
    lemma_at_lowered(t, i + 7);
}

proof fn lemma_clock_lowered(t: Seq<Token>, i: int)
    ensures
        match clock(t, i) {
            Ok(v) => clock(lowered_tokens(t), i) == Ok::<_, Seq<char>>(v),
            Err(_) => clock(lowered_tokens(t), i) is Err,
        },
{
    let j = after_t(t, i);
    lemma_time_lowered(t, i);
    lemma_time_lowered(t, j);
    lemma_zone_lowered(t, time_of_day(t, j).next);
}

proof fn lemma_parse_lowered(s: Seq<char>, dayfirst: bool)
    ensures
        match parse_text(s, dayfirst) {
            Ok(p) => parse_text(lowered(s), dayfirst) == Ok::<Parsed, Seq<char>>(p),
            Err(_) => parse_text(lowered(s), dayfirst) is Err,
        },
{
    let t = tokens(s);
    lemma_tokens_lowered(s);
    lemma_at_lowered(t, 0);
    lemma_at_lowered(t, 1);
    let i = after_weekday(t);
    assert(after_weekday(lowered_tokens(t)) == i);
    lemma_date_lowered(t, i, dayfirst);
    lemma_clock_lowered(t, date(t, i, dayfirst).next);
}

/// Texts that differ in the case of ASCII letters only are parsed into the same date
/// and time, or are both rejected.
pub proof fn law_letter_case(a: Seq<char>, b: Seq<char>, dayfirst: bool)
    requires
        lowered(a) == lowered(b),
    ensures
        match parse_text(a, dayfirst) {
            Ok(p) => parse_text(b, dayfirst) == Ok::<Parsed, Seq<char>>(p),
            Err(_) => parse_text(b, dayfirst) is Err,
        },
{
    lemma_parse_lowered(a, dayfirst);
    lemma_parse_lowered(b, dayfirst);
}

} // verus!
