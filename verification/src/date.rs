//! Dates of the proleptic Gregorian calendar, as plain (year, month, day)
//! values, with the arithmetic the calendar needs: month lengths, leap
//! years, shifting an anchor month forwards or backwards, and enumerating
//! the months of a span.

use vstd::prelude::*;

verus! {

/// A calendar date: year 1 to 9999, month 1 to 12, day checked against
/// the month's true length.
#[derive(Clone, Copy, PartialEq, Eq, Structural, Debug)]
pub struct Date {
    pub year: i32,
    pub month: u32,
    pub day: u32,
}

/// A year and a month identify one renderable month, independent of a day.
pub open spec fn valid_ym(y: int, m: int) -> bool {
    1 <= y <= 9999 && 1 <= m <= 12
}

/// Gregorian leap years: divisible by 4, and not by 100 unless also by 400.
pub open spec fn is_leap_year(y: int) -> bool {
    y % 4 == 0 && (y % 100 != 0 || y % 400 == 0)
}

/// The number of days of a month.
pub open spec fn days_in_month(y: int, m: int) -> int
    recommends
        1 <= m <= 12,
{
    if m == 2 {
        if is_leap_year(y) {
            29
        } else {
            28
        }
    } else if m == 4 || m == 6 || m == 9 || m == 11 {
        30
    } else {
        31
    }
}

pub open spec fn valid_date(d: Date) -> bool {
    valid_ym(d.year as int, d.month as int) && 1 <= d.day <= days_in_month(
        d.year as int,
        d.month as int,
    )
}

/// Chronological order on dates.
pub open spec fn date_le(a: Date, b: Date) -> bool {
    a.year < b.year || (a.year == b.year && (a.month < b.month || (a.month == b.month && a.day
        <= b.day)))
}

/// Months on one number line: month `m` of year `y` is the `12 * y + m - 1`-th
/// month. Shifting by whole months is addition on this line.
pub open spec fn month_idx(y: int, m: int) -> int {
    12 * y + m - 1
}

pub open spec fn idx_year(i: int) -> int {
    i / 12
}

pub open spec fn idx_month(i: int) -> int {
    i % 12 + 1
}

/// Every month index splits back into the year and month it came from.
pub proof fn lemma_month_idx_roundtrip(y: int, m: int)
    requires
        1 <= m <= 12,
    ensures
        idx_year(month_idx(y, m)) == y,
        idx_month(month_idx(y, m)) == m,
{
    let i = 12 * y + m - 1;
    assert(i == 12 * y + (m - 1));
    assert(0 <= m - 1 < 12);
    assert(i / 12 == y && i % 12 == m - 1) by (nonlinear_arith)
        requires
            i == 12 * y + (m - 1),
            0 <= m - 1 < 12,
    ;
}

/// Crossing a year raises a division by 4, 100 or 400 by one exactly
/// at the multiples.
proof fn lemma_div_step(y: int, d: int)
    requires
        y >= 1,
        d >= 1,
    ensures
        y / d - (y - 1) / d == if y % d == 0 {
            1int
        } else {
            0int
        },
{
    let q = (y - 1) / d;
    let r = (y - 1) % d;
    vstd::arithmetic::div_mod::lemma_fundamental_div_mod(y - 1, d);
    if r == d - 1 {
        assert(y == d * (q + 1)) by (nonlinear_arith)
            requires
                y - 1 == d * q + r,
                r == d - 1,
        ;
        assert(y / d == q + 1 && y % d == 0) by (nonlinear_arith)
            requires
                y == d * (q + 1),
                d >= 1,
        ;
    } else {
        assert(y == d * q + (r + 1));
        assert(y / d == q && y % d == r + 1) by (nonlinear_arith)
            requires
                y == d * q + (r + 1),
                0 <= r + 1 < d,
        ;
    }
}

/// A year holds 365 days, 366 in leap years: counted across the year
/// boundary, and as the sum of its twelve months.
proof fn lemma_year_day_count(y: int)
    requires
        1 <= y <= 9999,
    ensures
        days_before_year(y + 1) - days_before_year(y) == 365 + if is_leap_year(y) {
            1int
        } else {
            0int
        },
        days_before_month(y, 13) == 365 + if is_leap_year(y) {
            1int
        } else {
            0int
        },
{
    lemma_div_step(y, 4);
    lemma_div_step(y, 100);
    lemma_div_step(y, 400);
    if y % 400 == 0 {
        vstd::arithmetic::div_mod::lemma_fundamental_div_mod(y, 400);
        let k = y / 400;
        assert(y == 400 * k);
        assert(y % 100 == 0) by (nonlinear_arith)
            requires
                y == 400 * k,
        ;
    }
    if y % 100 == 0 {
        vstd::arithmetic::div_mod::lemma_fundamental_div_mod(y, 100);
        let k = y / 100;
        assert(y == 100 * k);
        assert(y % 4 == 0) by (nonlinear_arith)
            requires
                y == 100 * k,
        ;
    }
    reveal_with_fuel(days_before_month, 14);
    assert(days_before_month(y, 13) == 365 + if is_leap_year(y) {
        1int
    } else {
        0int
    });
}

/// The rank of the first day of the given month among all days,
/// counting from zero at the first day of year 1. Accepts one year past
/// the range so that the month after December 9999 has a day number too.
fn day_number_of_first(year: i32, month: u32) -> (n: u64)
    requires
        1 <= year <= 10000,
        1 <= month <= 12,
    ensures
        n == day_number(Date { year, month, day: 1 }),
        n <= 3700000,
{
    let yy: u64 = (year - 1) as u64;
    let dby: u64 = 365 * yy + yy / 4 - yy / 100 + yy / 400;
    proof {
        assert(dby == days_before_year(year as int));
    }
    let mut dbm: u64 = 0;
    let mut mm: u32 = 1;
    while mm < month
        invariant
            1 <= mm <= month <= 12,
            1 <= year <= 10000,
            dbm == days_before_month(year as int, mm as int),
            dbm <= 31 * (mm - 1),
        decreases month - mm,
    {
        let len: u64 = if mm == 2 {
            let leap = year % 4 == 0 && (year % 100 != 0 || year % 400 == 0);
            if leap {
                29
            } else {
                28
            }
        } else if mm == 4 || mm == 6 || mm == 9 || mm == 11 {
            30
        } else {
            31
        };
        proof {
            assert(len == days_in_month(year as int, mm as int));
        }
        dbm = dbm + len;
        mm = mm + 1;
    }
    dby + dbm
}

/// The number of days of the given month, computed as the first day of
/// the following month stepped back to the month at hand: the distance
/// between the two months' first days.
pub fn get_days_from_ym(year: i32, month: u32) -> (n: u32)
    requires
        valid_ym(year as int, month as int),
    ensures
        n == days_in_month(year as int, month as int),
{
    let (ny, nm) = if month == 12 {
        (year + 1, 1)
    } else {
        (year, month + 1)
    };
    let a = day_number_of_first(year, month);
    let b = day_number_of_first(ny, nm);
    proof {
        if month == 12 {
            lemma_year_day_count(year as int);
        }
        assert(b - a == days_in_month(year as int, month as int));
    }
    (b - a) as u32
}

/// The last calendar day of the given month.
pub fn last_day_in_month(year: i32, month: u32) -> (d: Date)
    requires
        valid_ym(year as int, month as int),
    ensures
        d.year == year,
        d.month == month,
        d.day == days_in_month(year as int, month as int),
        valid_date(d),
{
    Date { year, month, day: get_days_from_ym(year, month) }
}

/// February has 29 days exactly in leap years, else 28: the last day of
/// February falls on the 29th iff the year is divisible by 4, and not by
/// 100 unless also by 400.
pub proof fn lemma_february_length(y: int)
    ensures
        days_in_month(y, 2) == 29 <==> (y % 4 == 0 && (y % 100 != 0 || y % 400 == 0)),
        !(y % 4 == 0 && (y % 100 != 0 || y % 400 == 0)) ==> days_in_month(y, 2) == 28,
{
}

/// Days of the years before year `y`, counting from a day zero on the
/// first day of year 1: 365 per year, plus one per leap year among them.
pub open spec fn days_before_year(y: int) -> int {
    365 * (y - 1) + (y - 1) / 4 - (y - 1) / 100 + (y - 1) / 400
}

/// Days of the months of year `y` before month `m`.
pub open spec fn days_before_month(y: int, m: int) -> int
    decreases m,
{
    if m <= 1 {
        0
    } else {
        days_before_month(y, m - 1) + days_in_month(y, m - 1)
    }
}

/// The rank of a date among all days, counting from zero at the first
/// day of year 1.
pub open spec fn day_number(d: Date) -> int {
    days_before_year(d.year as int) + days_before_month(d.year as int, d.month as int) + d.day - 1
}

/// The weekday of a date, Sunday-first: Sunday is 1, Saturday is 7. Day
/// zero of the calendar (the first day of year 1) is a Monday.
pub open spec fn weekday_from_sunday(d: Date) -> int {
    (day_number(d) + 1) % 7 + 1
}

/// The weekday of the first day of the given month, Sunday-first.
pub fn first_weekday(year: i32, month: u32) -> (w: u32)
    requires
        valid_ym(year as int, month as int),
    ensures
        w == weekday_from_sunday(Date { year, month, day: 1 }),
        1 <= w <= 7,
{
    let dn = day_number_of_first(year, month);
    ((dn + 1) % 7 + 1) as u32
}

/// The first day of the month `n` months before the anchor month.
pub fn get_before_month(n: u32, year: i32, month: u32) -> (d: Date)
    requires
        valid_ym(year as int, month as int),
        month_idx(year as int, month as int) - n >= month_idx(1, 1),
    ensures
        d.year == idx_year(month_idx(year as int, month as int) - n),
        d.month == idx_month(month_idx(year as int, month as int) - n),
        d.day == 1,
        valid_date(d),
{
    let idx: u64 = 12 * (year as u64) + (month as u64) - 1 - (n as u64);
    let y: i32 = (idx / 12) as i32;
    let m: u32 = (idx % 12) as u32 + 1;
    proof {
        let i = month_idx(year as int, month as int) - n;
        assert(idx == i);
        assert(12 <= i <= 12 * 9999 + 11);
        assert(1 <= i / 12 <= 9999 && 0 <= i % 12 < 12) by (nonlinear_arith)
            requires
                12 <= i <= 12 * 9999 + 11,
        ;
    }
    Date { year: y, month: m, day: 1 }
}

/// The last day of the month `n` months after the anchor month.
pub fn get_after_month(n: u32, year: i32, month: u32) -> (d: Date)
    requires
        valid_ym(year as int, month as int),
        month_idx(year as int, month as int) + n <= month_idx(9999, 12),
    ensures
        d.year == idx_year(month_idx(year as int, month as int) + n),
        d.month == idx_month(month_idx(year as int, month as int) + n),
        d.day == days_in_month(d.year as int, d.month as int),
        valid_date(d),
{
    let idx: u64 = 12 * (year as u64) + (month as u64) - 1 + (n as u64);
    let y: i32 = (idx / 12) as i32;
    let m: u32 = (idx % 12) as u32 + 1;
    proof {
        let i = month_idx(year as int, month as int) + n;
        assert(idx == i);
        assert(12 <= i <= 12 * 9999 + 11);
        assert(1 <= i / 12 <= 9999 && 0 <= i % 12 < 12) by (nonlinear_arith)
            requires
                12 <= i <= 12 * 9999 + 11,
        ;
    }
    let day: u32 = get_days_from_ym(y, m);
    Date { year: y, month: m, day }
}

/// Shifting an anchor month by zero months leaves it in place: the first
/// day before-shift and the last day after-shift both belong to the anchor
/// month itself.
pub proof fn lemma_shift_months_zero(y: int, m: int)
    requires
        valid_ym(y, m),
    ensures
        idx_year(month_idx(y, m) - 0) == y,
        idx_month(month_idx(y, m) - 0) == m,
        idx_year(month_idx(y, m) + 0) == y,
        idx_month(month_idx(y, m) + 0) == m,
{
    lemma_month_idx_roundtrip(y, m);
}

/// The months whose first day lies in `[start, end]`, as month indexes:
/// the first such index (the start month itself where `start` is its first
/// day, else the next month) ...
pub open spec fn span_first_idx(start: Date) -> int {
    if start.day == 1 {
        month_idx(start.year as int, start.month as int)
    } else {
        month_idx(start.year as int, start.month as int) + 1
    }
}

/// ... through the month of `end`.
pub open spec fn span_last_idx(end: Date) -> int {
    month_idx(end.year as int, end.month as int)
}

/// All year-month pairs whose first day falls between the two dates,
/// inclusive, in chronological order. A partial month at the start (a
/// `start_date` that is not the first of its month) is excluded.
pub fn get_year_month(start_date: Date, end_date: Date) -> (pairs: Vec<(i32, u32)>)
    requires
        valid_date(start_date),
        valid_date(end_date),
        date_le(start_date, end_date),
    ensures
        pairs@.len() == if span_last_idx(end_date) >= span_first_idx(start_date) {
            span_last_idx(end_date) - span_first_idx(start_date) + 1
        } else {
            0
        },
        forall|k: int|
            0 <= k < pairs@.len() ==> #[trigger] pairs@[k] == (
            idx_year(span_first_idx(start_date) + k) as i32,
            idx_month(span_first_idx(start_date) + k) as u32,
            ),
        forall|k: int|
            0 <= k < pairs@.len() ==> valid_ym(pairs@[k].0 as int, pairs@[k].1 as int),
{
    let mut lo: u64 = 12 * (start_date.year as u64) + (start_date.month as u64) - 1;
    if start_date.day != 1 {
        lo = lo + 1;
    }
    let hi: u64 = 12 * (end_date.year as u64) + (end_date.month as u64) - 1;
    proof {
        assert(lo == span_first_idx(start_date));
        assert(hi == span_last_idx(end_date));
        assert(12 <= lo <= 12 * 9999 + 12);
        assert(12 <= hi <= 12 * 9999 + 11);
    }
    let mut pairs: Vec<(i32, u32)> = Vec::new();
    let mut i: u64 = lo;
    while i <= hi
        invariant
            lo == span_first_idx(start_date),
            hi == span_last_idx(end_date),
            lo <= i,
            i <= hi + 1,
            12 <= lo <= 12 * 9999 + 12,
            hi <= 12 * 9999 + 11,
            pairs@.len() == i - lo,
            forall|k: int|
                0 <= k < pairs@.len() ==> #[trigger] pairs@[k] == (
                idx_year(lo as int + k) as i32,
                idx_month(lo as int + k) as u32,
                ),
            forall|k: int|
                0 <= k < pairs@.len() ==> valid_ym(pairs@[k].0 as int, pairs@[k].1 as int),
        decreases hi + 1 - i,
    {
        let y: i32 = (i / 12) as i32;
        let m: u32 = (i % 12) as u32 + 1;
        proof {
            assert(1 <= (i as int) / 12 <= 9999 && 0 <= (i as int) % 12 < 12) by (nonlinear_arith)
                requires
                    12 <= i as int <= 12 * 9999 + 11,
            ;
        }
        pairs.push((y, m));
        i = i + 1;
    }
    pairs
}

/// True iff every pair carries the same year as the first pair. The
/// caller supplies at least one pair.
pub fn is_all_same_year(year_months: Vec<(i32, u32)>) -> (r: bool)
    requires
        year_months@.len() > 0,
    ensures
        r == forall|k: int| 0 <= k < year_months@.len() ==> #[trigger] year_months@[k].0 == year_months@[0].0,
{
    let first: i32 = year_months[0].0;
    let mut j: usize = 0;
    while j < year_months.len()
        invariant
            year_months@.len() > 0,
            first == year_months@[0].0,
            j <= year_months@.len(),
            forall|k: int| 0 <= k < j ==> #[trigger] year_months@[k].0 == first,
        decreases year_months@.len() - j,
    {
        if year_months[j].0 != first {
            return false;
        }
        j = j + 1;
    }
    true
}

} // verus!
