use rcal::date::Date;
use rcal::date::get_after_month;
use rcal::date::get_before_month;
use rcal::date::get_days_from_ym;
use rcal::date::get_year_month;
use rcal::date::is_all_same_year;
use rcal::date::last_day_in_month;
use rcal::render::format_month;
use rcal::parse::parse_month;

fn ymd(year: i32, month: u32, day: u32) -> Date {
    Date { year, month, day }
}

#[test]
fn test_format_month() {
    let today = ymd(0, 1, 1);
    let leap_february = vec![
        "   February 2020      ",
        "Su Mo Tu We Th Fr Sa  ",
        "                   1  ",
        " 2  3  4  5  6  7  8  ",
        " 9 10 11 12 13 14 15  ",
        "16 17 18 19 20 21 22  ",
        "23 24 25 26 27 28 29  ",
        "                      ",
    ];
    assert_eq!(format_month(2020, 2, true, today), leap_february);

    let may = vec![
        "        May           ",
        "Su Mo Tu We Th Fr Sa  ",
        "                1  2  ",
        " 3  4  5  6  7  8  9  ",
        "10 11 12 13 14 15 16  ",
        "17 18 19 20 21 22 23  ",
        "24 25 26 27 28 29 30  ",
        "31                    ",
    ];
    assert_eq!(format_month(2020, 5, false, today), may);

    let april_hl = vec![
        "     April 2021       ",
        "Su Mo Tu We Th Fr Sa  ",
        "             1  2  3  ",
        " 4  5  6 \u{1b}[7m 7\u{1b}[0m  8  9 10  ",
        "11 12 13 14 15 16 17  ",
        "18 19 20 21 22 23 24  ",
        "25 26 27 28 29 30     ",
        "                      ",
    ];
    let today = ymd(2021, 4, 7);
    assert_eq!(format_month(2021, 4, true, today), april_hl);
}

#[test]
fn test_last_day_in_month() {
    assert_eq!(last_day_in_month(2020, 1), ymd(2020, 1, 31));
    assert_eq!(last_day_in_month(2020, 2), ymd(2020, 2, 29));
    assert_eq!(last_day_in_month(2020, 4), ymd(2020, 4, 30));
}

#[test]
fn test_get_before_month() {
    assert_eq!(get_before_month(0, 2022, 1), ymd(2022, 1, 1));
    assert_eq!(get_before_month(1, 2022, 1), ymd(2021, 12, 1));
    assert_eq!(get_before_month(3, 2022, 1), ymd(2021, 10, 1));
    assert_eq!(get_before_month(6, 2022, 12), ymd(2022, 6, 1));
    assert_eq!(get_before_month(12, 2022, 2), ymd(2021, 2, 1));
}

#[test]
fn test_get_after_month() {
    assert_eq!(get_after_month(0, 2022, 6), ymd(2022, 6, 30));
    assert_eq!(get_after_month(1, 2022, 6), ymd(2022, 7, 31));
    assert_eq!(get_after_month(3, 2022, 1), ymd(2022, 4, 30));
    assert_eq!(get_after_month(6, 2022, 12), ymd(2023, 6, 30));
    assert_eq!(get_after_month(12, 2022, 2), ymd(2023, 2, 28));
}

#[test]
fn test_get_year_month() {
    let start_date = ymd(2024, 6, 1);
    let end_date = ymd(2024, 8, 31);
    assert_eq!(
        get_year_month(start_date, end_date),
        vec![(2024, 6), (2024, 7), (2024, 8)]
    );
    let start_date = ymd(2024, 11, 1);
    let end_date = ymd(2025, 1, 31);
    assert_eq!(
        get_year_month(start_date, end_date),
        vec![(2024, 11), (2024, 12), (2025, 1)]
    );
    let start_date = ymd(2024, 1, 1);
    let end_date = ymd(2024, 12, 31);
    assert_eq!(
        get_year_month(start_date, end_date),
        vec![
            (2024, 1),
            (2024, 2),
            (2024, 3),
            (2024, 4),
            (2024, 5),
            (2024, 6),
            (2024, 7),
            (2024, 8),
            (2024, 9),
            (2024, 10),
            (2024, 11),
            (2024, 12)
        ]
    );
}

#[test]
fn test_is_all_same_year() {
    assert!(is_all_same_year(vec![(2024, 6), (2024, 7), (2024, 8)]));
    assert!(!is_all_same_year(vec![(2024, 11), (2024, 12), (2025, 1)]));
    assert!(is_all_same_year(vec![
        (2024, 1),
        (2024, 2),
        (2024, 3),
        (2024, 4),
        (2024, 5),
        (2024, 6),
        (2024, 7),
        (2024, 8),
        (2024, 9),
        (2024, 10),
        (2024, 11),
        (2024, 12)
    ]));
}

#[test]
fn test_parse_month() {
    let res = parse_month("1".to_string());
    assert!(res.is_ok());
    assert_eq!(res.unwrap(), 1u32);

    let res = parse_month("12".to_string());
    assert!(res.is_ok());
    assert_eq!(res.unwrap(), 12u32);

    let res = parse_month("jan".to_string());
    assert!(res.is_ok());
    assert_eq!(res.unwrap(), 1u32);

    let res = parse_month("0".to_string());
    assert!(res.is_err());
    assert_eq!(
        res.unwrap_err().to_string(),
        r#"month "0" not in the range 1 through 12"#
    );

    let res = parse_month("13".to_string());
    assert!(res.is_err());
    assert_eq!(
        res.unwrap_err().to_string(),
        r#"month "13" not in the range 1 through 12"#
    );

    let res = parse_month("foo".to_string());
    assert!(res.is_err());
    assert_eq!(res.unwrap_err().to_string(), r#"Invalid month "foo""#);
}

#[test]
fn test_parse_month_prefixes() {
    assert_eq!(parse_month("juL".to_string()).unwrap(), 7);
    assert_eq!(parse_month("FEBR".to_string()).unwrap(), 2);
    assert_eq!(parse_month("december".to_string()).unwrap(), 12);
    // "ju" is a prefix of both June and July: ambiguity is an error.
    let res = parse_month("ju".to_string());
    assert_eq!(res.unwrap_err().to_string(), r#"Invalid month "ju""#);
    // An empty string matches every name; still not exactly one.
    let res = parse_month("".to_string());
    assert_eq!(res.unwrap_err().to_string(), r#"Invalid month """#);
    // A number too large for u32 falls through to name matching.
    let res = parse_month("99999999999".to_string());
    assert_eq!(
        res.unwrap_err().to_string(),
        r#"Invalid month "99999999999""#
    );
}

#[test]
fn test_february_leap_rules() {
    // Divisible by 400: leap.
    assert_eq!(last_day_in_month(2000, 2), ymd(2000, 2, 29));
    // Divisible by 100 but not 400: not leap.
    assert_eq!(last_day_in_month(1900, 2), ymd(1900, 2, 28));
    // Divisible by 4 only: leap.
    assert_eq!(last_day_in_month(2024, 2), ymd(2024, 2, 29));
    // Not divisible by 4: not leap.
    assert_eq!(last_day_in_month(2023, 2), ymd(2023, 2, 28));
    assert_eq!(get_days_from_ym(2000, 2), 29);
    assert_eq!(get_days_from_ym(1900, 2), 28);
}

#[test]
fn test_get_year_month_partial_start() {
    // A start date past the 1st excludes its own month.
    let start_date = ymd(2024, 6, 15);
    let end_date = ymd(2024, 8, 31);
    assert_eq!(get_year_month(start_date, end_date), vec![(2024, 7), (2024, 8)]);
    // A span inside one month with no first-of-month day yields nothing.
    let start_date = ymd(2024, 6, 2);
    let end_date = ymd(2024, 6, 30);
    assert_eq!(get_year_month(start_date, end_date), vec![]);
}
