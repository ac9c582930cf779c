use rcal::date::Date;
use rcal::date::get_year_month;
use rcal::layout::tile_months;
use rcal::layout::year_banner;
use rcal::render::format_month;
use rcal::render::get_calendar;
use rcal::render::month_name;

fn ymd(year: i32, month: u32, day: u32) -> Date {
    Date { year, month, day }
}

#[test]
fn test_tile_twelve_months() {
    let today = ymd(0, 1, 1);
    let pairs = get_year_month(ymd(2024, 1, 1), ymd(2024, 12, 31));
    let calendar = get_calendar(pairs, false, today);
    assert_eq!(calendar.len(), 12);
    let out = tile_months(calendar.clone());
    // Four groups of 8 lines and 3 separator lines: 35 lines in all.
    assert_eq!(out.len(), 35);
    // The separators stand after each of the first three groups only.
    assert_eq!(out[8], "");
    assert_eq!(out[17], "");
    assert_eq!(out[26], "");
    for (i, line) in out.iter().enumerate() {
        if i == 8 || i == 17 || i == 26 {
            continue;
        }
        assert!(!line.is_empty());
    }
    // Each printed line concatenates the three blocks' lines in order.
    assert_eq!(out[0], format!("{}{}{}", calendar[0][0], calendar[1][0], calendar[2][0]));
    assert_eq!(out[34], format!("{}{}{}", calendar[9][7], calendar[10][7], calendar[11][7]));
}

#[test]
fn test_tile_partial_groups_dropped() {
    let today = ymd(0, 1, 1);
    let pairs = get_year_month(ymd(2024, 1, 1), ymd(2024, 4, 30));
    let calendar = get_calendar(pairs, true, today);
    assert_eq!(calendar.len(), 4);
    let out = tile_months(calendar);
    // One complete group of three; the fourth block is dropped; one
    // separator follows the group.
    assert_eq!(out.len(), 9);
    assert_eq!(out[8], "");

    let empty: Vec<Vec<String>> = Vec::new();
    assert_eq!(tile_months(empty).len(), 0);
}

#[test]
fn test_year_banner() {
    assert_eq!(year_banner(2024), format!("{:>32}", 2024));
    assert_eq!(year_banner(1), format!("{:>32}", 1));
    assert_eq!(year_banner(9999), format!("{:>32}", 9999));
    assert_eq!(year_banner(2024).len(), 32);
}

#[test]
fn test_month_names() {
    assert_eq!(month_name(1), "January");
    assert_eq!(month_name(6), "June");
    assert_eq!(month_name(12), "December");
}

#[test]
fn test_format_month_lines_are_fixed_width() {
    let today = ymd(0, 1, 1);
    for month in 1..=12u32 {
        let block = format_month(2021, month, true, today);
        assert_eq!(block.len(), 8);
        for line in &block {
            assert_eq!(line.chars().count(), 22);
        }
    }
    // A highlighted day adds exactly the 8 characters of the two style
    // sequences and nothing of visible width.
    let block = format_month(2021, 4, true, ymd(2021, 4, 7));
    assert_eq!(block[3].chars().count(), 30);
    assert_eq!(block[3].chars().filter(|c| *c == '\u{1b}').count(), 2);
}

#[test]
fn test_highlight_in_last_partial_week() {
    // May 31, 2020 falls in a final week row with a single cell: the
    // padding goes by display width, so the line still shows 22 columns.
    let block = format_month(2020, 5, false, ymd(2020, 5, 31));
    assert_eq!(block[7], "\u{1b}[7m31\u{1b}[0m                    ");
}
