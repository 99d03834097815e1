use rustdate::{parse, parse_inner, Parsed, Zone};

fn p(s: &str) -> Parsed {
    parse_inner(s, false).unwrap_or_else(|e| panic!("{}: {}", s, e))
}

fn p_df(s: &str, dayfirst: bool) -> Parsed {
    parse_inner(s, dayfirst).unwrap_or_else(|e| panic!("{}: {}", s, e))
}

fn fields(x: &Parsed) -> (i32, u8, u8, u8, u8, u8, u32, Option<i32>) {
    (x.year, x.month, x.day, x.hour, x.minute, x.second, x.micros, x.offset)
}

fn why(s: &str) -> String {
    match parse_inner(s, false) {
        Ok(x) => panic!("{:?} was parsed: {:?}", s, x),
        Err(e) => e,
    }
}

#[test]
fn iso() {
    let x = p("2026-09-06T14:23:45Z");
    assert_eq!((x.year, x.month, x.day, x.hour, x.minute, x.second), (2026, 9, 6, 14, 23, 45));
    assert_eq!(x.offset, Some(0));
    let x = p("2026-09-06 14:23:45+05:30");
    assert_eq!(x.offset, Some(19800));
    let x = p("2026-09-06T14:23:45.123456-07:00");
    assert_eq!(x.micros, 123456);
    assert_eq!(x.offset, Some(-25200));
    let x = p("2026-09-06T14:23");
    assert_eq!((x.hour, x.minute, x.second), (14, 23, 0));
    assert_eq!(x.offset, None);
}

#[test]
fn human() {
    let x = p("Sep 6 2026 2:23 PM");
    assert_eq!((x.month, x.day, x.year, x.hour, x.minute), (9, 6, 2026, 14, 23));
    let x = p("6 Sep 2026");
    assert_eq!((x.month, x.day, x.year, x.hour), (9, 6, 2026, 0));
    let x = p("Sun, 06 Sep 2026 14:23:45 GMT");
    assert_eq!(x.offset, Some(0));
}

#[test]
fn slash() {
    let x = p("06/09/2026 14:23:45");
    assert_eq!((x.month, x.day, x.year, x.hour), (6, 9, 2026, 14));
    let x = p("12/25/26 8:05 AM");
    assert_eq!((x.month, x.day, x.year, x.hour), (12, 25, 2026, 8));
}

#[test]
fn dayfirst_and_dashed() {
    // month first by default, but a number above 12 is the day
    let x = p("25/12/2026");
    assert_eq!((x.month, x.day, x.year), (12, 25, 2026));
    let x = p("13/05/2026");
    assert_eq!((x.month, x.day), (5, 13));
    // dayfirst flips the order
    let x = p_df("06/09/2026", true);
    assert_eq!((x.month, x.day, x.year), (9, 6, 2026));
    // with dashes
    let x = p("12-25-2026 8:05");
    assert_eq!((x.month, x.day, x.year, x.hour), (12, 25, 2026, 8));
    let x = p_df("25-12-2026", true);
    assert_eq!((x.month, x.day), (12, 25));
}

#[test]
fn rejects() {
    for bad in ["", "garbage", "2026-13-40", "2026-02-30", "25/13/2026", "Sep 40 2026"] {
        assert!(parse_inner(bad, false).is_err(), "should reject {:?}", bad);
    }
}

#[test]
fn usage_examples() {
    let x = parse("2026-09-06T14:23:45Z", false).unwrap();
    assert_eq!(fields(&x), (2026, 9, 6, 14, 23, 45, 0, Some(0)));
    assert_eq!(x.zone(), Zone::Utc);
    let x = parse("Sep 6 2026 2:23 PM", false).unwrap();
    assert_eq!(fields(&x), (2026, 9, 6, 14, 23, 0, 0, None));
    assert_eq!(x.zone(), Zone::Naive);
    let x = parse("06/09/2026 14:23:45", false).unwrap();
    assert_eq!(fields(&x), (2026, 6, 9, 14, 23, 45, 0, None));
    let x = parse("06/09/2026", true).unwrap();
    assert_eq!(fields(&x), (2026, 9, 6, 0, 0, 0, 0, None));
    let x = parse("2026-09-06 14:23:45+05:30", false).unwrap();
    assert_eq!(fields(&x), (2026, 9, 6, 14, 23, 45, 0, Some(19800)));
    assert_eq!(x.zone(), Zone::Fixed(19800));
}

#[test]
fn format_table() {
    assert_eq!(fields(&p("2026-09-06")), (2026, 9, 6, 0, 0, 0, 0, None));
    assert_eq!(
        fields(&p("2026-09-06T14:23:45.123456Z")),
        (2026, 9, 6, 14, 23, 45, 123456, Some(0))
    );
    assert_eq!(p("2026-09-06T14:23:45+0530").offset, Some(19800));
    assert_eq!(p("2026-09-06T14:23:45-07:00").offset, Some(-25200));
    assert_eq!(fields(&p("12-25-2026 8:05 AM")), (2026, 12, 25, 8, 5, 0, 0, None));
    assert_eq!(fields(&p("Sep 6, 2026")), (2026, 9, 6, 0, 0, 0, 0, None));
    assert_eq!(
        fields(&p("Sun, 06 Sep 2026 14:23:45 GMT")),
        (2026, 9, 6, 14, 23, 45, 0, Some(0))
    );
    assert_eq!(fields(&p("Sunday 6 September 2026")), (2026, 9, 6, 0, 0, 0, 0, None));
}

#[test]
fn zone_names() {
    for (name, hours) in [
        ("GMT", 0),
        ("UTC", 0),
        ("Z", 0),
        ("UT", 0),
        ("EST", -5),
        ("EDT", -4),
        ("CST", -6),
        ("CDT", -5),
        ("MST", -7),
        ("MDT", -6),
        ("PST", -8),
        ("PDT", -7),
    ] {
        let s = format!("2026-09-06 14:23 {}", name);
        assert_eq!(p(&s).offset, Some(hours * 3600), "{}", s);
    }
    assert_eq!(p("2026-09-06 14:23 IST").offset, Some(19800));
    assert_eq!(p("2026-09-06 14:23 UTC+2").offset, Some(7200));
    assert_eq!(p("2026-09-06 14:23 EST-00:30").offset, Some(-19800));
    assert_eq!(p("2026-09-06 14:23 GMT+0").offset, Some(0));
}

#[test]
fn offsets() {
    assert_eq!(p("2026-09-06 14:23+5").offset, Some(18000));
    assert_eq!(p("2026-09-06 14:23 -05:30:15").offset, Some(-19815));
    assert_eq!(p("2026-09-06 14:23+053015").offset, Some(19815));
    assert_eq!(p("2026-09-06 14:23-00:00").offset, Some(0));
    assert_eq!(p("2026-09-06 14:23+00:00").zone(), Zone::Utc);
    assert_eq!(p("2026-09-06 14:23+05:0000000030").offset, Some(19800));
    assert_eq!(p("2026-09-06 14:23+99:59:59").offset, Some(359_999));
}

#[test]
fn twelve_hour_clock() {
    for (text, hour) in [
        ("12:00 AM", 0),
        ("1:00 AM", 1),
        ("11:00 a", 11),
        ("12:00 PM", 12),
        ("1:00 pm", 13),
        ("11:00PM", 23),
        ("3 P", 15),
    ] {
        assert_eq!(p(&format!("Sep 6 2026 {}", text)).hour, hour, "{}", text);
    }
    assert_eq!(why("Sep 6 2026 0:30 AM"), "hour out of range for AM/PM clock");
    assert_eq!(why("Sep 6 2026 13:30 PM"), "hour out of range for AM/PM clock");
    assert_eq!(p("Sep 6 2026 8:05 AM EST").offset, Some(-18000));
}

#[test]
fn years_of_two_digits() {
    assert_eq!(p("1/2/00").year, 2000);
    assert_eq!(p("1/2/68").year, 2068);
    assert_eq!(p("1/2/69").year, 1969);
    assert_eq!(p("1/2/70").year, 1970);
    assert_eq!(p("1/2/99").year, 1999);
    assert_eq!(p("6 Sep 26").year, 2026);
}

#[test]
fn leap_days() {
    assert_eq!(p("2024-02-29").day, 29);
    assert_eq!(p("2000-02-29").day, 29);
    assert_eq!(why("1900-02-29"), "day 29 out of range for month 2 (year 1900)");
    assert_eq!(why("2023-02-29"), "day 29 out of range for month 2 (year 2023)");
    assert_eq!(why("2026-04-31"), "day 31 out of range for month 4 (year 2026)");
}

#[test]
fn reasons_of_failure() {
    for (text, reason) in [
        ("", "unrecognized date layout"),
        ("-", "unrecognized date layout"),
        ("2026", "unrecognized date layout"),
        ("2026 Sep 6", "unrecognized date layout"),
        ("6-Sep-2026", "unrecognized date layout"),
        ("garbage", "unknown month name 'garbage'"),
        ("Mon", "unrecognized date layout"),
        ("Mon Tue 6 Sep 2026", "unknown month name 'Tue'"),
        ("2026-13-40", "month out of range: 13"),
        ("2026-009-06", "month: too many digits"),
        ("2026-x", "expected month"),
        ("2026-09/06", "expected '-'"),
        ("2026-09-", "expected day"),
        ("2026-09-32", "day out of range: 32"),
        ("2026-02-30", "day 30 out of range for month 2 (year 2026)"),
        ("0000-01-01", "year out of range"),
        ("1/2-2026", "expected '/'"),
        ("1-2/2026", "expected '-'"),
        ("32/1/2026", "date part out of range: 32"),
        ("1/0/2026", "date part out of range: 0"),
        ("123/1/2026", "date part: too many digits"),
        ("25/13/2026", "month out of range: 25"),
        ("1/2/x", "expected year"),
        ("1/2/026", "year must be 2 or 4 digits"),
        ("Sep 40 2026", "day out of range: 40"),
        ("Sep x", "expected day"),
        ("Sep 6", "expected year"),
        ("2026-09-06 24:00", "hour out of range: 24"),
        ("2026-09-06 100:00", "hour: too many digits"),
        ("2026-09-06 14:60", "minute out of range: 60"),
        ("2026-09-06 14:", "expected minute"),
        ("2026-09-06 14:23:60", "second out of range: 60"),
        ("2026-09-06 14:23:", "expected second"),
        ("2026-09-06 14:23 XYZ", "unknown timezone name 'XYZ'"),
        ("2026-09-06 T", "unknown timezone name 'T'"),
        ("2026-09-06 14:23+", "expected digits after sign"),
        ("2026-09-06 14:23+123", "bad offset format"),
        ("2026-09-06 14:23+05:", "bad offset minutes"),
        ("2026-09-06 14:23+05:99999999999", "bad offset minutes"),
        ("2026-09-06 14:23+05:30:", "bad offset seconds"),
        ("2026-09-06 14:23+05:60", "offset minutes/seconds out of range"),
        ("2026-09-06 14:23+05:30:60", "offset minutes/seconds out of range"),
        ("2026-09-06 14:23+0560", "offset minutes out of range"),
        ("2026-09-06 14:23+053060", "offset out of range"),
        ("2026-09-06 14:23Z Z", "unexpected trailing tokens"),
        (
            "2026-09-06 14 15",
            "unexpected token Num(\"15\") where timezone/offset expected",
        ),
        (
            "2026-09-06 14:23 ?",
            "unexpected token Sep('?') where timezone/offset expected",
        ),
        (
            "2026-09-06 14:23:45.",
            "unexpected token Sep('.') where timezone/offset expected",
        ),
    ] {
        assert_eq!(why(text), reason, "{:?}", text);
    }
}

#[test]
fn failure_names_the_text() {
    let e = parse("a \"b\"\n", false).unwrap_err();
    assert_eq!(e, "rustdate: could not parse \"a \\\"b\\\"\\n\": unknown month name 'a'");
    let e = parse("", true).unwrap_err();
    assert_eq!(e, "rustdate: could not parse \"\": unrecognized date layout");
}
