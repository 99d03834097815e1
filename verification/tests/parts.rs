use rustdate::calendar::{days_in_month, resolve_md};
use rustdate::clock::{frac_micros, parse_time_and_offset};
use rustdate::date::{skip_weekday, take_date};
use rustdate::names::{is_weekday, month_from_name, named_tz};
use rustdate::offset::{parse_offset, parse_signed_num, unexpected_token};
use rustdate::parser::failure_message;
use rustdate::read::{expect_sep, expected, take_u, take_year};
use rustdate::text::{
    ascii_len, chars_of, classify, decimal_text, head, is_whitespace, joined, read_digits,
    same_text, to_lowercase, to_uppercase, Class,
};
use rustdate::token::{as_alpha, as_num, get_alpha, get_num, is_sep, tokenize, Tok};

fn num(s: &str) -> Tok {
    Tok::Num(s.to_string())
}

fn alpha(s: &str) -> Tok {
    Tok::Alpha(s.to_string())
}

#[test]
fn characters_are_classed_as_in_std() {
    for v in 0..=0x10FFFFu32 {
        if let Some(c) = char::from_u32(v) {
            assert_eq!(is_whitespace(c), c.is_whitespace(), "{:?}", c);
            let k = classify(c);
            assert_eq!(k == Class::Digit, c.is_ascii_digit(), "{:?}", c);
            assert_eq!(k == Class::Letter, c.is_ascii_alphabetic(), "{:?}", c);
            assert_eq!(k == Class::Space, c.is_whitespace(), "{:?}", c);
        }
    }
}

#[test]
fn case_is_mapped_as_in_std() {
    let s = "aZ09 zA\u{e9}\u{c9}\u{3a3}@[`{";
    assert_eq!(to_lowercase(s), s.to_ascii_lowercase());
    assert_eq!(to_uppercase(s), s.to_ascii_uppercase());
}

#[test]
fn strings() {
    assert_eq!(chars_of("a\u{e9}1"), vec!['a', '\u{e9}', '1']);
    assert_eq!(ascii_len("abc"), 3);
    assert!(same_text("", ""));
    assert!(same_text("\u{e9}t\u{e9}", "\u{e9}t\u{e9}"));
    assert!(!same_text("abc", "abd"));
    assert!(!same_text("abc", "abcd"));
    assert_eq!(joined("ab", "cd"), "abcd");
    assert_eq!(head("September", 3), "Sep");
    assert_eq!(head("Se", 3), "Se");
    assert_eq!(head("a\u{e9}b", 3), "a\u{e9}");
}

#[test]
fn numbers() {
    assert_eq!(read_digits("007", 9), Some(7));
    assert_eq!(read_digits("10", 9), None);
    assert_eq!(read_digits("9223372036854775807", i64::MAX), Some(i64::MAX));
    assert_eq!(read_digits("9223372036854775808", i64::MAX), None);
    assert_eq!(read_digits("2147483648", i32::MAX as i64), None);
    for v in [0u64, 7, 10, 99, 100, 2026, u64::MAX] {
        assert_eq!(decimal_text(v), v.to_string());
    }
}

#[test]
fn tokens_of_a_text() {
    assert_eq!(
        tokenize("Sun, 06 Sep 2026T14:23\u{e9}"),
        vec![
            alpha("Sun"),
            Tok::Sep(','),
            num("06"),
            alpha("Sep"),
            num("2026"),
            alpha("T"),
            num("14"),
            Tok::Sep(':'),
            num("23"),
            Tok::Sep('\u{e9}'),
        ]
    );
    assert_eq!(tokenize(" \t\u{a0}\u{3000}"), vec![]);
    assert_eq!(as_num(&num("12")), Some("12"));
    assert_eq!(as_num(&alpha("a")), None);
    assert_eq!(as_alpha(&alpha("a")), Some("a"));
    assert_eq!(as_alpha(&Tok::Sep('a')), None);
    let t = tokenize("1 a -");
    assert_eq!(get_num(&t, 0), Some("1"));
    assert_eq!(get_num(&t, 1), None);
    assert_eq!(get_num(&t, 9), None);
    assert_eq!(get_alpha(&t, 1), Some("a"));
    assert_eq!(get_alpha(&t, 2), None);
    assert!(is_sep(&t, 2, '-'));
    assert!(!is_sep(&t, 2, '+'));
    assert!(!is_sep(&t, 3, '-'));
}

#[test]
fn months() {
    for (k, name) in [
        "January", "February", "March", "April", "May", "June", "July", "August", "September",
        "October", "November", "December",
    ]
    .iter()
    .enumerate()
    {
        let m = Some(k as u8 + 1);
        assert_eq!(month_from_name(name), m);
        assert_eq!(month_from_name(&name[..3].to_uppercase()), m);
        assert_eq!(month_from_name(&name[..3].to_lowercase()), m);
        assert!(!is_weekday(name));
    }
    assert_eq!(month_from_name("ja"), None);
    assert_eq!(month_from_name(""), None);
    assert_eq!(month_from_name("Mon"), None);
    assert_eq!(month_from_name("mar\u{e9}"), Some(3));
    assert_eq!(month_from_name("\u{65e5}an"), None);
}

#[test]
fn weekdays() {
    for name in ["Monday", "tue", "WED", "Thursday", "Fri", "sat", "Sun"] {
        assert!(is_weekday(name), "{}", name);
        assert_eq!(month_from_name(name), None);
    }
    assert!(!is_weekday("su"));
    assert!(!is_weekday("Sep"));
}

#[test]
fn zones() {
    assert_eq!(named_tz("z"), Some(0));
    assert_eq!(named_tz("Gmt"), Some(0));
    assert_eq!(named_tz("EST"), Some(-18000));
    assert_eq!(named_tz("pdt"), Some(-25200));
    assert_eq!(named_tz("IST"), Some(19800));
    assert_eq!(named_tz("CET"), None);
    assert_eq!(named_tz(""), None);
    assert_eq!(named_tz("\u{65e5}"), None);
}

#[test]
fn readers_take_what_they_expect() {
    let t = tokenize("12-345");
    let mut i = 0;
    assert_eq!(take_u(&t, &mut i, 2, 0, 23, "hour"), Ok(12));
    assert_eq!(i, 1);
    assert_eq!(expect_sep(&t, &mut i, '-'), Ok(()));
    assert_eq!(i, 2);
    assert_eq!(
        take_u(&t, &mut i, 2, 0, 23, "hour"),
        Err("hour: too many digits".to_string())
    );
    assert_eq!(take_year(&t, &mut i), Err("year must be 2 or 4 digits".to_string()));
    assert_eq!(i, 2);
    assert_eq!(take_u(&t, &mut i, 3, 0, 23, "hour"), Err("hour out of range: 345".to_string()));
    assert_eq!(take_u(&t, &mut i, 3, 346, 999, "n"), Err("n out of range: 345".to_string()));
    assert_eq!(take_u(&t, &mut i, 3, 345, 345, "n"), Ok(345));
    assert_eq!(i, 3);
    assert_eq!(take_u(&t, &mut i, 2, 0, 23, "hour"), Err("expected hour".to_string()));
    assert_eq!(expect_sep(&t, &mut i, '-'), Err("expected '-'".to_string()));
    assert_eq!(expect_sep(&t, &mut i, '\''), Err("expected '\\''".to_string()));
    assert_eq!(take_year(&t, &mut i), Err("expected year".to_string()));
    assert_eq!(i, 3);
    let t = tokenize("99999999999999999999 2026 07");
    let mut i = 0;
    assert_eq!(take_u(&t, &mut i, 30, 0, 23, "n"), Err("bad n".to_string()));
    i = 1;
    assert_eq!(take_year(&t, &mut i), Ok(2026));
    assert_eq!(take_year(&t, &mut i), Ok(2007));
    assert_eq!(i, 3);
}

#[test]
fn fractions() {
    assert_eq!(frac_micros("1"), Ok(100_000));
    assert_eq!(frac_micros("000001"), Ok(1));
    assert_eq!(frac_micros("123456"), Ok(123_456));
    assert_eq!(frac_micros("1234569"), Ok(123_456));
    assert_eq!(frac_micros("+5"), Ok(50_000));
    for bad in ["", "+", "12a", "-5", "\u{e9}"] {
        assert_eq!(frac_micros(bad), Err("bad fractional seconds".to_string()), "{}", bad);
    }
}

#[test]
fn signed_offsets_move_the_position() {
    for (text, out, next) in [
        ("Z", Ok(None), 0),
        ("+05:30", Ok(Some(19800)), 4),
        ("-07:00:01", Ok(Some(-25201)), 6),
        ("+0530", Ok(Some(19800)), 2),
        ("-053015", Ok(Some(-19815)), 2),
        ("+5 rest", Ok(Some(18000)), 2),
        ("+", Err("expected digits after sign".to_string()), 1),
        ("+05:x", Err("bad offset minutes".to_string()), 3),
        ("+05:30:x", Err("bad offset seconds".to_string()), 5),
        ("+12345", Err("bad offset format".to_string()), 2),
    ] {
        let t = tokenize(text);
        let mut i = 0;
        assert_eq!(parse_signed_num(&t, &mut i), out, "{}", text);
        assert_eq!(i, next, "{}", text);
    }
}

#[test]
fn zones_move_the_position() {
    for (text, out, next) in [
        ("", Ok(None), 0),
        ("utc", Ok(Some(0)), 1),
        ("EST+1", Ok(Some(-14400)), 3),
        ("-01", Ok(Some(-3600)), 2),
        ("CET", Err("unknown timezone name 'CET'".to_string()), 0),
        ("UTC+", Err("expected digits after sign".to_string()), 2),
        (
            "5",
            Err("unexpected token Num(\"5\") where timezone/offset expected".to_string()),
            0,
        ),
    ] {
        let t = tokenize(text);
        let mut i = 0;
        assert_eq!(parse_offset(&t, &mut i), out, "{}", text);
        assert_eq!(i, next, "{}", text);
    }
}

#[test]
fn times() {
    let at = |s: &str| parse_time_and_offset(&tokenize(s), 0);
    assert_eq!(at(""), Ok((0, 0, 0, 0, None)));
    assert_eq!(at("T14"), Ok((14, 0, 0, 0, None)));
    assert_eq!(at("t14:23"), Ok((14, 23, 0, 0, None)));
    assert_eq!(at("2:23:45.5 PM EST"), Ok((14, 23, 45, 500_000, Some(-18000))));
    assert_eq!(at("-05"), Ok((0, 0, 0, 0, Some(-18000))));
    assert_eq!(at("UTC"), Ok((0, 0, 0, 0, Some(0))));
    assert_eq!(parse_time_and_offset(&tokenize("x 14:23"), 1), Ok((14, 23, 0, 0, None)));
    assert_eq!(at("14:23Z 5"), Err("unexpected trailing tokens".to_string()));
}

#[test]
fn dates() {
    let mut i = 0;
    assert_eq!(take_date(&tokenize("2026-09-06 x"), &mut i, false), Ok((2026, 9, 6)));
    assert_eq!(i, 5);
    i = 0;
    assert_eq!(take_date(&tokenize("6/9/26"), &mut i, true), Ok((2026, 9, 6)));
    i = 0;
    assert_eq!(take_date(&tokenize("Sep 6, 2026"), &mut i, false), Ok((2026, 9, 6)));
    assert_eq!(i, 4);
    assert_eq!(skip_weekday(&tokenize("Sun, x")), 2);
    assert_eq!(skip_weekday(&tokenize("Sun x")), 1);
    assert_eq!(skip_weekday(&tokenize("Sep x")), 0);
    assert_eq!(skip_weekday(&tokenize("")), 0);
}

#[test]
fn month_lengths() {
    let lengths = [31, 28, 31, 30, 31, 30, 31, 31, 30, 31, 30, 31];
    for m in 1..=12u8 {
        assert_eq!(days_in_month(2026, m), lengths[m as usize - 1]);
    }
    assert_eq!(days_in_month(2024, 2), 29);
    assert_eq!(days_in_month(2100, 2), 28);
    assert_eq!(days_in_month(2000, 2), 29);
    assert_eq!(days_in_month(-4, 2), 29);
    assert_eq!(days_in_month(-100, 2), 28);
    assert_eq!(days_in_month(2026, 0), 0);
    assert_eq!(days_in_month(2026, 13), 0);
}

#[test]
fn month_and_day_order() {
    assert_eq!(resolve_md(6, 9, false), Ok((6, 9)));
    assert_eq!(resolve_md(6, 9, true), Ok((9, 6)));
    assert_eq!(resolve_md(25, 12, false), Ok((12, 25)));
    assert_eq!(resolve_md(25, 12, true), Ok((12, 25)));
    assert_eq!(resolve_md(25, 13, false), Err("month out of range: 25".to_string()));
    assert_eq!(resolve_md(25, 13, true), Err("month out of range: 13".to_string()));
}

#[test]
fn messages() {
    assert_eq!(expected("x"), "expected x");
    assert_eq!(unexpected_token("X"), "unexpected token X where timezone/offset expected");
    assert_eq!(failure_message("X", "y"), "rustdate: could not parse X: y");
}
