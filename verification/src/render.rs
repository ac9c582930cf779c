//! Rendering one month as a fixed block of 8 text lines, each 22
//! display characters wide: a centered header, the weekday line, and up
//! to six week lines, Sunday-first, with the current day shown in
//! reverse video.

use vstd::prelude::*;
use vstd::string::StrSliceExecFns;
use vstd::string::StringExecFns;

use crate::date::Date;
use crate::date::days_before_month;
use crate::date::days_before_year;
use crate::date::days_in_month;
use crate::date::first_weekday;
use crate::date::get_days_from_ym;
use crate::date::valid_ym;
use crate::text::count_char;
use crate::text::dec_digits;
use crate::text::digit_char;
use crate::text::digit_str;
use crate::text::display_len;
use crate::text::esc_char;
use crate::text::lemma_count_char_concat;
use crate::text::lemma_count_char_zero;
use crate::text::lemma_dec_digits_len;
use crate::text::lemma_dec_digits_no_esc;
use crate::text::lemma_spaces_no_esc;
use crate::text::push_spaces;
use crate::text::spaces;
use crate::text::spaces_string;
use crate::text::u32_string;

verus! {

pub open spec fn month_name_seq(m: int) -> Seq<char> {
    if m == 1 {
        "January"@
    } else if m == 2 {
        "February"@
    } else if m == 3 {
        "March"@
    } else if m == 4 {
        "April"@
    } else if m == 5 {
        "May"@
    } else if m == 6 {
        "June"@
    } else if m == 7 {
        "July"@
    } else if m == 8 {
        "August"@
    } else if m == 9 {
        "September"@
    } else if m == 10 {
        "October"@
    } else if m == 11 {
        "November"@
    } else {
        "December"@
    }
}

/// The full English name of a month.
pub fn month_name(m: u32) -> (r: &'static str)
    requires
        1 <= m <= 12,
    ensures
        r@ == month_name_seq(m as int),
{
    if m == 1 {
        "January"
    } else if m == 2 {
        "February"
    } else if m == 3 {
        "March"
    } else if m == 4 {
        "April"
    } else if m == 5 {
        "May"
    } else if m == 6 {
        "June"
    } else if m == 7 {
        "July"
    } else if m == 8 {
        "August"
    } else if m == 9 {
        "September"
    } else if m == 10 {
        "October"
    } else if m == 11 {
        "November"
    } else {
        "December"
    }
}

pub proof fn lemma_month_name_len(m: int)
    requires
        1 <= m <= 12,
    ensures
        3 <= month_name_seq(m).len() <= 9,
{
    reveal_strlit("January");
    reveal_strlit("February");
    reveal_strlit("March");
    reveal_strlit("April");
    reveal_strlit("May");
    reveal_strlit("June");
    reveal_strlit("July");
    reveal_strlit("August");
    reveal_strlit("September");
    reveal_strlit("October");
    reveal_strlit("November");
    reveal_strlit("December");
}

/// The header text: the month name, with the year after it when asked for.
pub open spec fn title_seq(y: int, m: int, add_year: bool) -> Seq<char> {
    if add_year {
        month_name_seq(m) + seq![' '] + dec_digits(y)
    } else {
        month_name_seq(m)
    }
}

/// Text centered in a 20-character field; a surplus that cannot split
/// evenly leaves the extra space on the right.
pub open spec fn center20(s: Seq<char>) -> Seq<char>
    recommends
        s.len() <= 20,
{
    spaces((20 - s.len()) / 2) + s + spaces(20 - s.len() - (20 - s.len()) / 2)
}

pub open spec fn header_line(y: int, m: int, add_year: bool) -> Seq<char> {
    center20(title_seq(y, m, add_year)) + "  "@
}

pub open spec fn weekday_line() -> Seq<char> {
    "Su Mo Tu We Th Fr Sa  "@
}

/// The escape sequence that turns reverse video on.
pub open spec fn hl_pre() -> Seq<char> {
    seq!['\u{1b}', '[', '7', 'm']
}

/// The escape sequence that resets the style.
pub open spec fn hl_post() -> Seq<char> {
    seq!['\u{1b}', '[', '0', 'm']
}

/// A day number right-justified in a 2-character cell.
pub open spec fn day_numeral(d: int) -> Seq<char> {
    if d <= 9 {
        seq![' ', digit_char(d)]
    } else {
        seq![digit_char(d / 10), digit_char(d % 10)]
    }
}

pub open spec fn is_today_spec(y: int, m: int, d: int, today: Date) -> bool {
    today.year == y && today.month == m && today.day == d
}

/// One day cell: the 2-character numeral, wrapped in reverse video when
/// it is the current day.
pub open spec fn day_cell(y: int, m: int, d: int, today: Date) -> Seq<char> {
    if is_today_spec(y, m, d, today) {
        hl_pre() + day_numeral(d) + hl_post()
    } else {
        day_numeral(d)
    }
}

pub open spec fn blank_cell() -> Seq<char> {
    seq![' ', ' ']
}

/// The weekday column of the first of the month, Sunday-first.
pub open spec fn first_weekday_spec(y: int, m: int) -> int {
    (days_before_year(y) + days_before_month(y, m) + 1) % 7 + 1
}

/// All cells of the month in order: blank cells padding the first week
/// up to the weekday of the 1st, then one cell per day.
pub open spec fn month_cells(y: int, m: int, today: Date) -> Seq<Seq<char>> {
    Seq::new((first_weekday_spec(y, m) - 1) as nat, |i: int| blank_cell()) + Seq::new(
        days_in_month(y, m) as nat,
        |i: int| day_cell(y, m, i + 1, today),
    )
}

pub open spec fn cells_total(y: int, m: int) -> int {
    first_weekday_spec(y, m) - 1 + days_in_month(y, m)
}

/// How many calendar rows the month occupies.
pub open spec fn num_weeks(y: int, m: int) -> int {
    (cells_total(y, m) + 6) / 7
}

/// Cells joined by single spaces.
pub open spec fn join_cells(cs: Seq<Seq<char>>) -> Seq<char>
    decreases cs.len(),
{
    if cs.len() == 0 {
        Seq::empty()
    } else if cs.len() == 1 {
        cs[0]
    } else {
        join_cells(cs.drop_last()) + seq![' '] + cs.last()
    }
}

/// The cells of the `i`-th calendar row, at most 7.
pub open spec fn week_row(y: int, m: int, today: Date, i: int) -> Seq<Seq<char>> {
    month_cells(y, m, today).subrange(
        7 * i,
        if 7 * i + 7 <= cells_total(y, m) {
            7 * i + 7
        } else {
            cells_total(y, m)
        },
    )
}

/// The `i`-th week line: the joined cells, padded to 20 display
/// characters, with two trailing spaces.
pub open spec fn week_line(y: int, m: int, today: Date, i: int) -> Seq<char> {
    join_cells(week_row(y, m, today, i)) + spaces(21 - 3 * week_row(y, m, today, i).len()) + "  "@
}

/// The whole month block: header, weekday line, the month's week lines,
/// and blank lines up to 8 lines in all.
pub open spec fn month_lines(y: int, m: int, add_year: bool, today: Date) -> Seq<Seq<char>> {
    seq![header_line(y, m, add_year), weekday_line()] + Seq::new(
        6,
        |i: int|
            if i < num_weeks(y, m) {
                week_line(y, m, today, i)
            } else {
                spaces(22)
            },
    )
}

/// Relies on ansi_term's `Style::new().reverse().paint(..)`: its source
/// writes, for a style with only the reverse flag set, the reverse-video
/// code `ESC [ 7 m`, then the text, then the reset code `ESC [ 0 m`.
#[verifier::external_body]
fn reverse_video(s: &str) -> (r: String)
    ensures
        r@ == hl_pre() + s@ + hl_post(),
{
    ansi_term::Style::new().reverse().paint(s).to_string()
}

/// One day cell, highlighted when the day is today.
fn make_cell(year: i32, month: u32, d: u32, today: Date) -> (c: String)
    requires
        1 <= d <= 31,
    ensures
        c@ == day_cell(year as int, month as int, d as int, today),
{
    let mut s: String;
    if d <= 9 {
        s = String::from_str(" ");
        s.append(digit_str(d));
        proof {
            reveal_strlit(" ");
            assert(s@ =~= day_numeral(d as int));
        }
    } else {
        s = String::from_str(digit_str(d / 10));
        s.append(digit_str(d % 10));
        proof {
            assert(s@ =~= day_numeral(d as int));
        }
    }
    if today.year == year && today.month == month && today.day == d {
        reverse_video(s.as_str())
    } else {
        s
    }
}

/// The month as a block of exactly 8 lines of text, 22 display
/// characters each: header (with the year when `add_year` holds), the
/// weekday line, and the weeks, Sunday-first, the current day in
/// reverse video.
pub fn format_month(year: i32, month: u32, add_year: bool, today: Date) -> (lines: Vec<String>)
    requires
        valid_ym(year as int, month as int),
    ensures
        lines@.len() == 8,
        forall|i: int|
            0 <= i < 8 ==> lines@[i]@ == month_lines(year as int, month as int, add_year, today)[i],
{
    let ghost yi = year as int;
    let ghost mi = month as int;
    let mut lines: Vec<String> = Vec::new();

    // Header line: the title centered in 20 columns, two trailing spaces.
    let mut title = String::from_str(month_name(month));
    if add_year {
        title.append(" ");
        let ys = u32_string(year as u32);
        title.append(ys.as_str());
        proof {
            reveal_strlit(" ");
            assert(title@ =~= title_seq(yi, mi, add_year));
        }
    }
    proof {
        lemma_month_name_len(mi);
        lemma_dec_digits_len(yi);
        assert(title@ == title_seq(yi, mi, add_year));
        assert(title@.len() <= 14);
    }
    let tl = title.as_str().unicode_len();
    let left = (20 - tl) / 2;
    let mut line0 = spaces_string(left);
    line0.append(title.as_str());
    push_spaces(&mut line0, 20 - tl - left);
    line0.append("  ");
    proof {
        assert(line0@ =~= header_line(yi, mi, add_year));
    }
    lines.push(line0);

    lines.push(String::from_str("Su Mo Tu We Th Fr Sa  "));

    // The cells: leading blanks, then one cell per day.
    let w = first_weekday(year, month);
    let ndays = get_days_from_ym(year, month);
    proof {
        assert(w == first_weekday_spec(yi, mi));
    }
    let mut cells: Vec<String> = Vec::new();
    let mut b: u32 = 1;
    while b < w
        invariant
            1 <= b <= w <= 7,
            cells@.len() == b - 1,
            forall|k: int| 0 <= k < cells@.len() ==> #[trigger] cells@[k]@ == blank_cell(),
        decreases w - b,
    {
        let mut blank = String::from_str(" ");
        blank.append(" ");
        proof {
            reveal_strlit(" ");
            assert(blank@ =~= blank_cell());
        }
        cells.push(blank);
        b = b + 1;
    }
    let mut d: u32 = 1;
    while d <= ndays
        invariant
            1 <= d <= ndays + 1,
            ndays == days_in_month(yi, mi),
            w == first_weekday_spec(yi, mi),
            1 <= w <= 7,
            valid_ym(yi, mi),
            yi == year as int,
            mi == month as int,
            cells@.len() == w - 1 + d - 1,
            forall|k: int| 0 <= k < w - 1 ==> #[trigger] cells@[k]@ == blank_cell(),
            forall|k: int|
                w - 1 <= k < cells@.len() ==> #[trigger] cells@[k]@ == day_cell(
                    yi,
                    mi,
                    k - (w - 1) + 1,
                    today,
                ),
        decreases ndays + 1 - d,
    {
        cells.push(make_cell(year, month, d, today));
        d = d + 1;
    }
    proof {
        assert(cells@.len() == cells_total(yi, mi));
        assert(forall|k: int|
            0 <= k < cells@.len() ==> #[trigger] cells@[k]@ == month_cells(yi, mi, today)[k]);
    }

    // The week rows: 7 cells joined by spaces, padded to the fixed width.
    let total = cells.len();
    let mut start: usize = 0;
    let ghost mut week: int = 0;
    while start < total
        invariant
            total == cells@.len(),
            total == cells_total(yi, mi),
            valid_ym(yi, mi),
            yi == year as int,
            mi == month as int,
            forall|k: int|
                0 <= k < cells@.len() ==> #[trigger] cells@[k]@ == month_cells(yi, mi, today)[k],
            month_cells(yi, mi, today).len() == total,
            0 <= week,
            start == 7 * week || (start == total && week == num_weeks(yi, mi)),
            start <= total,
            total <= 37,
            lines@.len() == 2 + week,
            lines@[0]@ == header_line(yi, mi, add_year),
            lines@[1]@ == weekday_line(),
            forall|i: int|
                0 <= i < week ==> #[trigger] lines@[2 + i]@ == week_line(yi, mi, today, i),
        decreases total - start,
    {
        let cnt = if total - start < 7 {
            total - start
        } else {
            7
        };
        let ghost row_spec = week_row(yi, mi, today, week);
        proof {
            assert(row_spec =~= month_cells(yi, mi, today).subrange(
                start as int,
                start as int + cnt as int,
            ));
            assert(row_spec.len() == cnt);
        }
        let mut row = cells[start].clone();
        proof {
            assert(row@ == join_cells(month_cells(yi, mi, today).subrange(
                start as int,
                start as int + 1,
            ))) by {
                assert(month_cells(yi, mi, today).subrange(start as int, start as int + 1).len()
                    == 1);
                assert(month_cells(yi, mi, today).subrange(start as int, start as int + 1)[0]
                    == month_cells(yi, mi, today)[start as int]);
            }
        }
        let mut t = start + 1;
        while t < start + cnt
            invariant
                start + 1 <= t <= start + cnt,
                start + cnt <= total,
                total == cells@.len(),
                cnt <= 7,
                forall|k: int|
                    0 <= k < cells@.len() ==> #[trigger] cells@[k]@ == month_cells(
                        yi,
                        mi,
                        today,
                    )[k],
                month_cells(yi, mi, today).len() == total,
                row@ == join_cells(month_cells(yi, mi, today).subrange(start as int, t as int)),
            decreases start + cnt - t,
        {
            row.append(" ");
            row.append(cells[t].as_str());
            proof {
                reveal_strlit(" ");
                let mc = month_cells(yi, mi, today);
                let prev = mc.subrange(start as int, t as int);
                let cur = mc.subrange(start as int, t as int + 1);
                assert(cur.drop_last() =~= prev);
                assert(cur.last() == mc[t as int]);
                assert(cur.len() >= 2);
                assert(join_cells(cur) == join_cells(prev) + seq![' '] + mc[t as int]);
                assert(row@ =~= join_cells(cur));
            }
            t = t + 1;
        }
        push_spaces(&mut row, 21 - 3 * cnt);
        row.append("  ");
        proof {
            assert(row@ =~= week_line(yi, mi, today, week));
        }
        lines.push(row);
        start = start + cnt;
        proof {
            week = week + 1;
            if cnt == 7 {
                assert(start == 7 * week);
            } else {
                assert(start == total);
                assert(total == 7 * (week - 1) + cnt);
                assert((total + 6) / 7 == week) by (nonlinear_arith)
                    requires
                        total == 7 * (week - 1) + cnt,
                        1 <= cnt < 7,
                ;
                assert(week * 7 >= total);
                assert(start == 7 * week || start == total);
            }
        }
    }
    proof {
        assert(week == num_weeks(yi, mi)) by {
            if start == 7 * week {
                assert(start == total);
                assert((total + 6) / 7 == week) by (nonlinear_arith)
                    requires
                        total == 7 * week,
                        0 <= week,
                ;
            }
        }
        assert(num_weeks(yi, mi) <= 6);
    }

    // Blank lines complete the block to 8 lines.
    while lines.len() < 8
        invariant
            2 + num_weeks(yi, mi) <= lines@.len() <= 8,
            num_weeks(yi, mi) <= 6,
            valid_ym(yi, mi),
            yi == year as int,
            mi == month as int,
            lines@[0]@ == header_line(yi, mi, add_year),
            lines@[1]@ == weekday_line(),
            forall|i: int|
                0 <= i < num_weeks(yi, mi) ==> #[trigger] lines@[2 + i]@ == week_line(
                    yi,
                    mi,
                    today,
                    i,
                ),
            forall|i: int|
                num_weeks(yi, mi) <= i < lines@.len() - 2 ==> #[trigger] lines@[2 + i]@ == spaces(
                    22,
                ),
        decreases 8 - lines@.len(),
    {
        lines.push(spaces_string(22));
    }
    proof {
        let ml = month_lines(yi, mi, add_year, today);
        assert(ml.len() == 8);
        assert forall|i: int| 0 <= i < 8 implies lines@[i]@ == ml[i] by {
            if i >= 2 {
                let j = i - 2;
                assert(ml[i] == if j < num_weeks(yi, mi) {
                    week_line(yi, mi, today, j)
                } else {
                    spaces(22)
                });
                if j < num_weeks(yi, mi) {
                    assert(lines@[2 + j]@ == week_line(yi, mi, today, j));
                } else {
                    assert(lines@[2 + j]@ == spaces(22));
                }
            }
        }
    }
    lines
}

proof fn lemma_month_name_no_esc(m: int)
    requires
        1 <= m <= 12,
    ensures
        count_char(month_name_seq(m), esc_char()) == 0,
{
    reveal_strlit("January");
    reveal_strlit("February");
    reveal_strlit("March");
    reveal_strlit("April");
    reveal_strlit("May");
    reveal_strlit("June");
    reveal_strlit("July");
    reveal_strlit("August");
    reveal_strlit("September");
    reveal_strlit("October");
    reveal_strlit("November");
    reveal_strlit("December");
    lemma_count_char_zero(month_name_seq(m), esc_char());
}

proof fn lemma_hl_esc()
    ensures
        count_char(hl_pre(), esc_char()) == 1,
        count_char(hl_post(), esc_char()) == 1,
{
    reveal_with_fuel(count_char, 6);
    assert(hl_pre().drop_last() =~= seq!['\u{1b}', '[', '7']);
    assert(seq!['\u{1b}', '[', '7'].drop_last() =~= seq!['\u{1b}', '[']);
    assert(hl_post().drop_last() =~= seq!['\u{1b}', '[', '0']);
    assert(seq!['\u{1b}', '[', '0'].drop_last() =~= seq!['\u{1b}', '[']);
    assert(seq!['\u{1b}', '['].drop_last() =~= seq!['\u{1b}']);
    assert(seq!['\u{1b}'].drop_last() =~= Seq::<char>::empty());
}

/// Every cell of a month, blank, plain or highlighted, is 2 display
/// characters wide.
proof fn lemma_cell_display(y: int, m: int, today: Date, k: int)
    requires
        0 <= k < month_cells(y, m, today).len(),
    ensures
        display_len(month_cells(y, m, today)[k]) == 2,
{
    let cell = month_cells(y, m, today)[k];
    if k < first_weekday_spec(y, m) - 1 {
        assert(cell == blank_cell());
        lemma_count_char_zero(cell, esc_char());
    } else {
        let d = k - (first_weekday_spec(y, m) - 1) + 1;
        assert(cell == day_cell(y, m, d, today));
        let num = day_numeral(d);
        assert(count_char(num, esc_char()) == 0 && num.len() == 2) by {
            lemma_count_char_zero(num, esc_char());
        }
        if is_today_spec(y, m, d, today) {
            assert(cell == hl_pre() + num + hl_post());
            lemma_hl_esc();
            lemma_count_char_concat(hl_pre(), num, esc_char());
            lemma_count_char_concat(hl_pre() + num, hl_post(), esc_char());
            assert(cell.len() == 10);
            assert(count_char(cell, esc_char()) == 2);
        }
    }
}

/// Joining cells of 2 display characters with single spaces gives
/// `3 n - 1` display characters for `n` cells.
proof fn lemma_join_display(cs: Seq<Seq<char>>)
    requires
        cs.len() >= 1,
        forall|k: int| 0 <= k < cs.len() ==> display_len(#[trigger] cs[k]) == 2,
    ensures
        display_len(join_cells(cs)) == 3 * cs.len() - 1,
    decreases cs.len(),
{
    if cs.len() == 1 {
        assert(join_cells(cs) == cs[0]);
    } else {
        let dl = cs.drop_last();
        lemma_join_display(dl);
        lemma_count_char_concat(join_cells(dl), seq![' '], esc_char());
        lemma_count_char_concat(join_cells(dl) + seq![' '], cs.last(), esc_char());
        lemma_count_char_zero(seq![' '], esc_char());
    }
}

/// Every line of a month block shows exactly 22 characters on screen:
/// highlighting the current day inserts style sequences, which have no
/// display width, and changes nothing else.
pub proof fn lemma_month_block_dimensions(y: int, m: int, add_year: bool, today: Date)
    requires
        valid_ym(y, m),
    ensures
        month_lines(y, m, add_year, today).len() == 8,
        forall|i: int|
            0 <= i < 8 ==> display_len(#[trigger] month_lines(y, m, add_year, today)[i]) == 22,
{
    let ml = month_lines(y, m, add_year, today);
    assert(ml.len() == 8);

    // Header: a title of at most 14 characters centered in 20, plus 2.
    let title = title_seq(y, m, add_year);
    assert(count_char(title, esc_char()) == 0 && title.len() <= 14) by {
        lemma_month_name_len(m);
        lemma_month_name_no_esc(m);
        if add_year {
            lemma_dec_digits_len(y);
            lemma_dec_digits_no_esc(y);
            lemma_count_char_concat(month_name_seq(m), seq![' '], esc_char());
            lemma_count_char_concat(month_name_seq(m) + seq![' '], dec_digits(y), esc_char());
            lemma_count_char_zero(seq![' '], esc_char());
        }
    }
    let lpad = (20 - title.len()) / 2;
    let rpad = 20 - title.len() - lpad;
    assert(display_len(ml[0]) == 22) by {
        assert(ml[0] == header_line(y, m, add_year));
        lemma_spaces_no_esc(lpad);
        lemma_spaces_no_esc(rpad);
        lemma_two_spaces();
        lemma_count_char_concat(spaces(lpad), title, esc_char());
        lemma_count_char_concat(spaces(lpad) + title, spaces(rpad), esc_char());
        lemma_count_char_concat(center20(title), "  "@, esc_char());
    }

    // The fixed weekday line.
    assert(display_len(ml[1]) == 22) by {
        reveal_strlit("Su Mo Tu We Th Fr Sa  ");
        assert(weekday_line().len() == 22);
        assert(forall|i: int|
            0 <= i < weekday_line().len() ==> #[trigger] weekday_line()[i] != esc_char());
        lemma_count_char_zero(weekday_line(), esc_char());
    }

    // Week lines and trailing blank lines.
    assert forall|i: int| 2 <= i < 8 implies display_len(ml[i]) == 22 by {
        let j = i - 2;
        if j < num_weeks(y, m) {
            assert(ml[i] == week_line(y, m, today, j));
            lemma_week_line_display(y, m, today, j);
        } else {
            assert(ml[i] == spaces(22));
            lemma_spaces_no_esc(22);
        }
    }
}

proof fn lemma_two_spaces()
    ensures
        "  "@.len() == 2,
        count_char("  "@, esc_char()) == 0,
{
    reveal_strlit("  ");
    assert(forall|i: int| 0 <= i < "  "@.len() ==> #[trigger] "  "@[i] != esc_char());
    lemma_count_char_zero("  "@, esc_char());
}

proof fn lemma_week_line_display(y: int, m: int, today: Date, j: int)
    requires
        valid_ym(y, m),
        0 <= j < num_weeks(y, m),
    ensures
        display_len(week_line(y, m, today, j)) == 22,
{
    let total = cells_total(y, m);
    assert(1 <= total <= 37);
    assert(7 * ((total + 6) / 7) <= total + 6) by (nonlinear_arith)
        requires
            total >= 0,
    ;
    assert(7 * j <= 7 * (num_weeks(y, m) - 1));
    assert(7 * j < total);
    let row = week_row(y, m, today, j);
    assert(1 <= row.len() <= 7);
    assert(forall|k: int| 0 <= k < row.len() ==> display_len(#[trigger] row[k]) == 2) by {
        assert forall|k: int| 0 <= k < row.len() implies display_len(#[trigger] row[k]) == 2 by {
            assert(row[k] == month_cells(y, m, today)[7 * j + k]);
            lemma_cell_display(y, m, today, 7 * j + k);
        }
    }
    lemma_join_display(row);
    lemma_spaces_no_esc(21 - 3 * row.len());
    lemma_two_spaces();
    lemma_count_char_concat(join_cells(row), spaces(21 - 3 * row.len()), esc_char());
    lemma_count_char_concat(
        join_cells(row) + spaces(21 - 3 * row.len()),
        "  "@,
        esc_char(),
    );
}

/// One block per year-month pair, in order, every header carrying the
/// year exactly when `add_year` holds.
pub fn get_calendar(year_months: Vec<(i32, u32)>, add_year: bool, today: Date) -> (cal: Vec<
    Vec<String>,
>)
    requires
        forall|k: int|
            0 <= k < year_months@.len() ==> valid_ym(
                #[trigger] year_months@[k].0 as int,
                year_months@[k].1 as int,
            ),
    ensures
        cal@.len() == year_months@.len(),
        forall|k: int| 0 <= k < cal@.len() ==> #[trigger] cal@[k]@.len() == 8,
        forall|k: int, i: int|
            0 <= k < cal@.len() && 0 <= i < 8 ==> #[trigger] cal@[k]@[i]@ == month_lines(
                year_months@[k].0 as int,
                year_months@[k].1 as int,
                add_year,
                today,
            )[i],
{
    let mut cal: Vec<Vec<String>> = Vec::new();
    let mut k: usize = 0;
    while k < year_months.len()
        invariant
            k <= year_months@.len(),
            forall|j: int|
                0 <= j < year_months@.len() ==> valid_ym(
                    #[trigger] year_months@[j].0 as int,
                    year_months@[j].1 as int,
                ),
            cal@.len() == k,
            forall|j: int| 0 <= j < cal@.len() ==> #[trigger] cal@[j]@.len() == 8,
            forall|j: int, i: int|
                0 <= j < cal@.len() && 0 <= i < 8 ==> #[trigger] cal@[j]@[i]@ == month_lines(
                    year_months@[j].0 as int,
                    year_months@[j].1 as int,
                    add_year,
                    today,
                )[i],
        decreases year_months@.len() - k,
    {
        let (y, m) = year_months[k];
        cal.push(format_month(y, m, add_year, today));
        k = k + 1;
    }
    cal
}

} // verus!
