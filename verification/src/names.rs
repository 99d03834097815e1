//! The words that a date may hold: months, weekdays, time zones.
use vstd::prelude::*;

use crate::text::{
    can_cut, chars_of, head, lemma_head, lower, same_text, to_lowercase, to_uppercase, upper, uppered,
};

verus! {

/// The first three letters of a word, in lower case.
pub open spec fn stem(w: Seq<char>) -> Option<(char, char, char)> {
    if w.len() < 3 {
        None
    } else {
        Some((lower(w[0]), lower(w[1]), lower(w[2])))
    }
}

/// The month that a word names. The first three letters tell.
pub open spec fn month_of(w: Seq<char>) -> Option<u8> {
    match stem(w) {
        Some(('j', 'a', 'n')) => Some(1),
        Some(('f', 'e', 'b')) => Some(2),
        Some(('m', 'a', 'r')) => Some(3),
        Some(('a', 'p', 'r')) => Some(4),
        Some(('m', 'a', 'y')) => Some(5),
        Some(('j', 'u', 'n')) => Some(6),
        Some(('j', 'u', 'l')) => Some(7),
        Some(('a', 'u', 'g')) => Some(8),
        Some(('s', 'e', 'p')) => Some(9),
        Some(('o', 'c', 't')) => Some(10),
        Some(('n', 'o', 'v')) => Some(11),
        Some(('d', 'e', 'c')) => Some(12),
        _ => None,
    }
}

/// Whether a word names a day of the week. The first three letters tell.
pub open spec fn names_weekday(w: Seq<char>) -> bool {
    match stem(w) {
        Some(('m', 'o', 'n')) => true,
        Some(('t', 'u', 'e')) => true,
        Some(('w', 'e', 'd')) => true,
        Some(('t', 'h', 'u')) => true,
        Some(('f', 'r', 'i')) => true,
        Some(('s', 'a', 't')) => true,
        Some(('s', 'u', 'n')) => true,
        _ => false,
    }
}

/// The offset from UTC, in seconds to the east, that a zone name stands for.
pub open spec fn zone_of(w: Seq<char>) -> Option<int> {
    let u = uppered(w);
    if u == "Z"@ || u == "GMT"@ || u == "UTC"@ || u == "UT"@ {
        Some(0)
    } else if u == "EST"@ {
        Some(-5 * 3600)
    } else if u == "EDT"@ {
        Some(-4 * 3600)
    } else if u == "CST"@ {
        Some(-6 * 3600)
    } else if u == "CDT"@ {
        Some(-5 * 3600)
    } else if u == "MST"@ {
        Some(-7 * 3600)
    } else if u == "MDT"@ {
        Some(-6 * 3600)
    } else if u == "PST"@ {
        Some(-8 * 3600)
    } else if u == "PDT"@ {
        Some(-7 * 3600)
    } else if u == "IST"@ {
        Some(5int * 3600 + 30 * 60)
    } else {
        None
    }
}

/// The first three characters of a word in lower case, unless it is shorter or one
/// of them is beyond ASCII.
fn stem_of(w: &str) -> (r: Option<(char, char, char)>)
    requires
        can_cut(w@, 3),
    ensures
        match r {
            Some(x) => stem(w@) == r,
            None => match stem(w@) {
                Some((a, b, c)) => a > '\u{7f}' || b > '\u{7f}' || c > '\u{7f}',
                None => true,
            },
        },
{
    let h = head(w, 3);
    proof {
        lemma_head(w@, 3);
    }
    let l = to_lowercase(h);
    let chars = chars_of(l.as_str());
    if chars.len() == 3 {
        Some((chars[0], chars[1], chars[2]))
    } else {
        None
    }
}

/// The month that a word names.
pub fn month_from_name(w: &str) -> (r: Option<u8>)
    requires
        can_cut(w@, 3),
    ensures
        r == month_of(w@),
{
    match stem_of(w) {
        Some(('j', 'a', 'n')) => Some(1),
        Some(('f', 'e', 'b')) => Some(2),
        Some(('m', 'a', 'r')) => Some(3),
        Some(('a', 'p', 'r')) => Some(4),
        Some(('m', 'a', 'y')) => Some(5),
        Some(('j', 'u', 'n')) => Some(6),
        Some(('j', 'u', 'l')) => Some(7),
        Some(('a', 'u', 'g')) => Some(8),
        Some(('s', 'e', 'p')) => Some(9),
        Some(('o', 'c', 't')) => Some(10),
        Some(('n', 'o', 'v')) => Some(11),
        Some(('d', 'e', 'c')) => Some(12),
        _ => None,
    }
}

/// Whether a word names a day of the week.
pub fn is_weekday(w: &str) -> (r: bool)
    requires
        can_cut(w@, 3),
    ensures
        r == names_weekday(w@),
{
    match stem_of(w) {
        Some(('m', 'o', 'n')) => true,
        Some(('t', 'u', 'e')) => true,
        Some(('w', 'e', 'd')) => true,
        Some(('t', 'h', 'u')) => true,
        Some(('f', 'r', 'i')) => true,
        Some(('s', 'a', 't')) => true,
        Some(('s', 'u', 'n')) => true,
        _ => false,
    }
}

/// The offset that a zone name stands for.
pub fn named_tz(w: &str) -> (r: Option<i32>)
    ensures
        match r {
            Some(v) => zone_of(w@) == Some(v as int),
            None => zone_of(w@) is None,
        },
{
    let up = to_uppercase(w);
    let u = up.as_str();
    if same_text(u, "Z") || same_text(u, "GMT") || same_text(u, "UTC") || same_text(u, "UT") {
        Some(0)
    } else if same_text(u, "EST") {
        Some(-5 * 3600)
    } else if same_text(u, "EDT") {
        Some(-4 * 3600)
    } else if same_text(u, "CST") {
        Some(-6 * 3600)
    } else if same_text(u, "CDT") {
        Some(-5 * 3600)
    } else if same_text(u, "MST") {
        Some(-7 * 3600)
    } else if same_text(u, "MDT") {
        Some(-6 * 3600)
    } else if same_text(u, "PST") {
        Some(-8 * 3600)
    } else if same_text(u, "PDT") {
        Some(-7 * 3600)
    } else if same_text(u, "IST") {
        Some(5 * 3600 + 30 * 60)
    } else {
        None
    }
}

/// The letter `a` is the lower-case letter `b` in either case.
pub open spec fn same_letter(a: char, b: char) -> bool {
    a as int == b as int || a as int + 32 == b as int
}

/// A word begins with three letters, in either case.
pub open spec fn begins_with(w: Seq<char>, a: char, b: char, c: char) -> bool {
    w.len() >= 3 && same_letter(w[0], a) && same_letter(w[1], b) && same_letter(w[2], c)
}

/// A word begins with the `k`-th three letters of `table`.
pub open spec fn begins_as(w: Seq<char>, table: Seq<char>, k: int) -> bool {
    begins_with(w, table[3 * k], table[3 * k + 1], table[3 * k + 2])
}

/// A word names month `m` exactly if it begins, in either case, with the three letters of
/// that month; what follows them does not matter.
pub proof fn law_month_names(w: Seq<char>, m: u8)
    ensures
        month_of(w) == Some(m) <==> 1 <= m <= 12 && begins_as(
            w,
            "janfebmaraprmayjunjulaugsepoctnovdec"@,
            m - 1,
        ),
{
    reveal_strlit("janfebmaraprmayjunjulaugsepoctnovdec");
    if w.len() >= 3 {
        crate::text::lemma_scalar(w[0]);
        crate::text::lemma_scalar(w[1]);
        crate::text::lemma_scalar(w[2]);
    }
}

/// A word names a weekday exactly if it begins, in either case, with the three letters of
/// one; what follows them does not matter.
pub proof fn law_weekday_names(w: Seq<char>)
    ensures
        names_weekday(w) <==> exists|k: int|
            0 <= k < 7 && #[trigger] begins_as(w, "montuewedthufrisatsun"@, k),
{
    reveal_strlit("montuewedthufrisatsun");
    if w.len() >= 3 {
        crate::text::lemma_scalar(w[0]);
        crate::text::lemma_scalar(w[1]);
        crate::text::lemma_scalar(w[2]);
    }
    if names_weekday(w) {
        let t = "montuewedthufrisatsun"@;
        assert(begins_as(w, t, 0) || begins_as(w, t, 1) || begins_as(w, t, 2) || begins_as(w, t, 3)
            || begins_as(w, t, 4) || begins_as(w, t, 5) || begins_as(w, t, 6));
    }
}

/// Words that agree in their first three letters, whatever the case, name the same month
/// and are both weekdays or both not.
pub proof fn law_three_letters_tell(v: Seq<char>, w: Seq<char>)
    requires
        v.len() >= 3,
        w.len() >= 3,
        lower(v[0]) == lower(w[0]),
        lower(v[1]) == lower(w[1]),
        lower(v[2]) == lower(w[2]),
    ensures
        month_of(v) == month_of(w),
        names_weekday(v) == names_weekday(w),
{
}

/// The names in full, each with its month or as a weekday.
pub proof fn law_full_names()
    ensures
        month_of("January"@) == Some(1u8),
        month_of("February"@) == Some(2u8),
        month_of("March"@) == Some(3u8),
        month_of("April"@) == Some(4u8),
        month_of("May"@) == Some(5u8),
        month_of("June"@) == Some(6u8),
        month_of("July"@) == Some(7u8),
        month_of("August"@) == Some(8u8),
        month_of("September"@) == Some(9u8),
        month_of("October"@) == Some(10u8),
        month_of("November"@) == Some(11u8),
        month_of("December"@) == Some(12u8),
        names_weekday("Monday"@),
        names_weekday("Tuesday"@),
        names_weekday("Wednesday"@),
        names_weekday("Thursday"@),
        names_weekday("Friday"@),
        names_weekday("Saturday"@),
        names_weekday("Sunday"@),
{
    reveal_strlit("January");
    reveal_strlit("February");
    reveal_strlit("March");
    reveal_strlit("April");
    reveal_strlit("May");
    reveal_strlit("June");
    reveal_strlit("July");
    reveal_strlit("August");
    reveal_strlit("September");
    reveal_strlit("October");
    reveal_strlit("November");
    reveal_strlit("December");
    reveal_strlit("Monday");
    reveal_strlit("Tuesday");
    reveal_strlit("Wednesday");
    reveal_strlit("Thursday");
    reveal_strlit("Friday");
    reveal_strlit("Saturday");
    reveal_strlit("Sunday");
}

/// The upper case of `w` is the text `lit` exactly if they are as long and agree letter
/// by letter.
pub proof fn lemma_upper_is(w: Seq<char>, lit: Seq<char>)
    ensures
        uppered(w) == lit <==> w.len() == lit.len() && forall|i: int|
            0 <= i < w.len() ==> upper(#[trigger] w[i]) == lit[i],
{
    let u = uppered(w);
    if w.len() == lit.len() && forall|i: int| 0 <= i < w.len() ==> upper(#[trigger] w[i]) == lit[i] {
        assert(u =~= lit);
    }
    if u == lit {
        assert forall|i: int| 0 <= i < w.len() implies upper(#[trigger] w[i]) == lit[i] by {
            assert(u[i] == upper(w[i]));
        }
    }
}

/// The names of zones, in either case, and their offsets. The names of UTC stand for 0, and
/// `IST` for five and a half hours to the east. The American zones are `E`, `C`, `M` and
/// `P`, an hour apart from five hours west on, each with standard time (`S`) and daylight
/// time (`D`), which is an hour further east. There are no other names.
pub proof fn law_zone_names(w: Seq<char>)
    ensures
        zone_of(w) is Some <==> {
            ||| w.len() == 1 && same_letter(w[0], 'z')
            ||| w.len() == 2 && same_letter(w[0], 'u') && same_letter(w[1], 't')
            ||| w.len() == 3 && begins_with(w, 'g', 'm', 't')
            ||| w.len() == 3 && begins_with(w, 'u', 't', 'c')
            ||| w.len() == 3 && begins_with(w, 'i', 's', 't')
            ||| w.len() == 3 && same_letter(w[2], 't') && (same_letter(w[1], 's') || same_letter(
                w[1],
                'd',
            )) && (same_letter(w[0], 'e') || same_letter(w[0], 'c') || same_letter(w[0], 'm')
                || same_letter(w[0], 'p'))
        },
        zone_of(w) matches Some(v) ==> {
            let daylight: int = if w.len() == 3 && same_letter(w[1], 'd') {
                3600
            } else {
                0
            };
            &&& w.len() < 3 || same_letter(w[0], 'g') || same_letter(w[0], 'u') ==> v == 0
            &&& w.len() == 3 && same_letter(w[0], 'i') ==> v == 19_800
            &&& w.len() == 3 && same_letter(w[0], 'e') ==> v == daylight - 18_000
            &&& w.len() == 3 && same_letter(w[0], 'c') ==> v == daylight - 21_600
            &&& w.len() == 3 && same_letter(w[0], 'm') ==> v == daylight - 25_200
            &&& w.len() == 3 && same_letter(w[0], 'p') ==> v == daylight - 28_800
        },
{
    reveal_strlit("Z");
    reveal_strlit("GMT");
    reveal_strlit("UTC");
    reveal_strlit("UT");
    reveal_strlit("EST");
    reveal_strlit("EDT");
    reveal_strlit("CST");
    reveal_strlit("CDT");
    reveal_strlit("MST");
    reveal_strlit("MDT");
    reveal_strlit("PST");
    reveal_strlit("PDT");
    reveal_strlit("IST");
    lemma_upper_is(w, "Z"@);
    lemma_upper_is(w, "GMT"@);
    lemma_upper_is(w, "UTC"@);
    lemma_upper_is(w, "UT"@);
    lemma_upper_is(w, "EST"@);
    lemma_upper_is(w, "EDT"@);
    lemma_upper_is(w, "CST"@);
    lemma_upper_is(w, "CDT"@);
    lemma_upper_is(w, "MST"@);
    lemma_upper_is(w, "MDT"@);
    lemma_upper_is(w, "PST"@);
    lemma_upper_is(w, "PDT"@);
    lemma_upper_is(w, "IST"@);
    if w.len() >= 1 {
        crate::text::lemma_scalar(w[0]);
    }
    if w.len() >= 2 {
        crate::text::lemma_scalar(w[1]);
    }
    if w.len() >= 3 {
        crate::text::lemma_scalar(w[2]);
    }
}

} // verus!
