use rustdate::batch::gather;
use rustdate::token::{tokenize, Tok};
use rustdate::{parse, parse_inner, parse_many, Parsed};

fn read(s: &str, dayfirst: bool) -> Option<(i32, u8, u8, u8, u8, u8, u32, Option<i32>)> {
    parse_inner(s, dayfirst)
        .ok()
        .map(|x| (x.year, x.month, x.day, x.hour, x.minute, x.second, x.micros, x.offset))
}

fn strings(texts: &[&str]) -> Vec<String> {
    texts.iter().map(|s| s.to_string()).collect()
}

#[test]
fn every_layout_is_read_as_it_says() {
    let dates = ["2026-09-06", "9/6/2026", "09-06-26", "Sep 6 2026", "sept 6, 26", "06 SEPTEMBER 2026"];
    let times = [
        ("", (0, 0, 0, 0, None)),
        (" 14", (14, 0, 0, 0, None)),
        ("T14:23", (14, 23, 0, 0, None)),
        ("t14:23:45", (14, 23, 45, 0, None)),
        (" 14:23:45.5", (14, 23, 45, 500_000, None)),
        (" 2:23 PM", (14, 23, 0, 0, None)),
        (" 2:23:45.25pm EST", (14, 23, 45, 250_000, Some(-18000))),
        ("T14:23Z", (14, 23, 0, 0, Some(0))),
        ("T14:23 -0730", (14, 23, 0, 0, Some(-27000))),
        ("T14:23+01:02:03", (14, 23, 0, 0, Some(3723))),
        ("T14:23 UTC-1", (14, 23, 0, 0, Some(-3600))),
    ];
    for weekday in ["", "Sun ", "Sunday, "] {
        for date in dates {
            for (time, (h, m, s, us, offset)) in times {
                let text = format!("{}{}{}", weekday, date, time);
                assert_eq!(
                    read(&text, false),
                    Some((2026, 9, 6, h, m, s, us, offset)),
                    "{}",
                    text
                );
            }
        }
    }
}

#[test]
fn layouts_with_no_such_date_or_time_are_rejected() {
    for text in [
        "2026-00-01", "2026-13-01", "2026-09-31", "0000-09-06", "0/1/2026", "13/13/2026",
        "Feb 29 2026", "2026-09-06 24:00", "2026-09-06 14:60", "2026-09-06 13:00 PM",
        "2026-09-06 14:23+05:60",
    ] {
        assert_eq!(read(text, false), None, "{}", text);
        assert_eq!(read(text, true), None, "{}", text);
    }
}

#[test]
fn what_is_parsed_is_a_date() {
    for m in 0..=99u8 {
        for d in 0..=99u8 {
            let text = format!("2026-{:02}-{:02}", m, d);
            let days = [31, 28, 31, 30, 31, 30, 31, 31, 30, 31, 30, 31];
            let exists = 1 <= m && m <= 12 && 1 <= d && d <= days[m as usize - 1];
            assert_eq!(read(&text, false).is_some(), exists, "{}", text);
        }
    }
}

#[test]
fn weekday_is_skipped() {
    for s in ["6 Sep 2026 14:23 UTC", "2026-09-06", "garbage", "", "12"] {
        for w in ["Sun ", "Sun, ", "wednesday "] {
            let with = format!("{}{}", w, s);
            assert_eq!(parse_inner(&with, false).err(), parse_inner(s, false).err());
            assert_eq!(read(&with, false), read(s, false));
        }
    }
}

#[test]
fn white_space_does_not_matter() {
    let plain = read("Sep 6 2026 14:23", false);
    assert!(plain.is_some());
    assert_eq!(read("\tSep\u{a0}6\n2026 \u{3000} 14 : 23 ", false), plain);
    assert_eq!(tokenize("a 1"), tokenize("a\r\n1"));
    assert_eq!(tokenize(" a1 "), tokenize("a1"));
}

#[test]
fn tokens_spell_the_text() {
    for s in ["Sun, 06 Sep 2026T14:23:45.5+05:30", " x\u{e9} 12ab//  ", ""] {
        let spelled: String = tokenize(s)
            .iter()
            .map(|t| match t {
                Tok::Num(n) => n.clone(),
                Tok::Alpha(a) => a.clone(),
                Tok::Sep(c) => c.to_string(),
            })
            .collect();
        let squeezed: String = s.chars().filter(|c| !c.is_whitespace()).collect();
        assert_eq!(spelled, squeezed);
    }
    let both = [tokenize("12a"), tokenize("-3")].concat();
    assert_eq!(tokenize("12a-3"), both);
}

#[test]
fn letter_case_does_not_matter() {
    for s in ["sun, 6 sep 2026t2:23 pm est", "6 SEP 2026 14:23Z", "Sep 6 2026 XYZ"] {
        let plain = read(s, false);
        assert_eq!(read(&s.to_uppercase(), false), plain);
        assert_eq!(read(&s.to_lowercase(), false), plain);
    }
}

#[test]
fn dayfirst_flips_numeric_dates_only() {
    for (a, b) in [(6, 9), (1, 31), (25, 12), (31, 31), (12, 12)] {
        let x = format!("{}/{}/2026 8:05", a, b);
        let y = format!("{}/{}/2026 8:05", b, a);
        assert_eq!(read(&x, true), read(&y, false));
        assert_eq!(read(&x, false), read(&y, true));
    }
    assert_eq!(read("25-12-2026", true), read("25-12-2026", false));
    for s in ["2026-09-06", "Sep 6 2026", "6 Sep 2026", "nothing"] {
        assert_eq!(read(s, true), read(s, false));
    }
}

#[test]
fn naive_without_zone() {
    for s in ["2026-09-06", "2026-09-06 14:23", "2026-09-06 2:23 PM"] {
        assert_eq!(read(s, false).unwrap().7, None);
        for z in [" Z", " +01", "-0100", " EST"] {
            assert!(read(&format!("{}{}", s, z), false).unwrap().7.is_some());
        }
    }
}

#[test]
fn compact_offsets() {
    let at = |z: &str| read(&format!("2026-09-06 14:23{}", z), false);
    for (hh, mm, ss) in [("05", "30", "15"), ("00", "00", "00"), ("23", "59", "60"), ("05", "60", "01")] {
        for sign in ["+", "-"] {
            assert_eq!(
                at(&format!("{}{}:{}", sign, hh, mm)),
                at(&format!("{}{}{}", sign, hh, mm))
            );
            assert_eq!(
                at(&format!("{}{}:{}:{}", sign, hh, mm, ss)),
                at(&format!("{}{}{}{}", sign, hh, mm, ss))
            );
            assert_eq!(at(&format!("{}{}", sign, hh)), at(&format!("{}{}00", sign, hh)));
        }
    }
    assert_eq!(at("+05").unwrap().7, Some(18000));
}

#[test]
fn offsets_furthest_out() {
    let at = |z: &str| read(&format!("2026-09-06 14:23 {}", z), false).unwrap().7;
    assert_eq!(at("IST+99:59:59"), Some(379_799));
    assert_eq!(at("PST-99:59:59"), Some(-388_799));
}

#[test]
fn tokens_are_classed_and_maximal() {
    for s in ["Sun,06Sep2026T14:23:45.5+05:30", "a1b22//cc,,3\u{e9}\u{661}"] {
        let t = tokenize(s);
        for x in &t {
            match x {
                Tok::Num(n) => assert!(!n.is_empty() && n.chars().all(|c| c.is_ascii_digit())),
                Tok::Alpha(a) => {
                    assert!(!a.is_empty() && a.chars().all(|c| c.is_ascii_alphabetic()))
                }
                Tok::Sep(c) => assert!(!c.is_ascii_alphanumeric() && !c.is_whitespace()),
            }
        }
        for pair in t.windows(2) {
            assert!(!matches!(pair, [Tok::Num(_), Tok::Num(_)]));
            assert!(!matches!(pair, [Tok::Alpha(_), Tok::Alpha(_)]));
        }
    }
}

#[test]
fn many_texts_in_order() {
    let texts: Vec<String> = (1..=28).map(|d| format!("{}/2/2026", d)).collect();
    let batch = parse_many(&texts, true);
    assert!(batch.failure.is_none());
    let days: Vec<(u8, u8)> = batch.parsed.iter().map(|p| (p.month, p.day)).collect();
    let expected: Vec<(u8, u8)> = (1..=28u8).map(|d| (2, d)).collect();
    assert_eq!(days, expected);
    let batch = parse_many(&vec![], false);
    assert!(batch.failure.is_none());
    assert_eq!(batch.parsed.len(), 0);
}

#[test]
fn first_bad_text_in_order_is_reported() {
    let texts = strings(&["2026-09-06", "6 Sep 2026", "bad", "2026-09-07", "worse"]);
    let batch = parse_many(&texts, false);
    assert_eq!(batch.parsed.len(), 2);
    assert_eq!(
        batch.failure,
        Some("rustdate: could not parse \"bad\": unknown month name 'bad'".to_string())
    );
    assert_eq!(batch.failure, parse("bad", false).err());
}

#[test]
fn outcomes_are_gathered_up_to_the_first_failure() {
    let p = parse_inner("2026-09-06", false).unwrap();
    let texts = strings(&["a", "b\n", "c"]);
    let outcomes: Vec<Result<Parsed, String>> =
        vec![Ok(p), Err("no".to_string()), Err("never".to_string())];
    let batch = gather(&texts, outcomes);
    assert_eq!(batch.parsed.len(), 1);
    assert_eq!(batch.parsed[0].day, 6);
    assert_eq!(batch.failure, Some("rustdate: could not parse \"b\\n\": no".to_string()));
}

#[test]
fn fractions_are_cut_and_filled() {
    let at = |f: &str| read(&format!("2026-09-06 14:23:45.{}", f), false).unwrap().6;
    assert_eq!(at("1"), at("100000"));
    assert_eq!(at("123456"), at("123456999"));
    assert_eq!(at("999999999"), 999_999);
}

#[test]
fn hours_of_the_twelve_hour_clock() {
    let mut seen = [0; 24];
    for h in 1..=12 {
        for half in ["AM", "PM"] {
            seen[read(&format!("2026-09-06 {}:00 {}", h, half), false).unwrap().3 as usize] += 1;
        }
    }
    assert_eq!(seen, [1; 24]);
}
