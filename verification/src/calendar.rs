//! Dates of Unix timestamps, as SQLite's date functions write them.
use crate::text::{
    digit_char, lemma_text_less_head, lemma_text_less_prefix, lemma_text_order_is_total, optional,
    text_less,
};
use vstd::prelude::*;

verus! {

/// The reason why SQLite did not answer.
#[verifier::external_type_specification]
#[verifier::external_body]
pub struct ExSqliteError(rusqlite::Error);

/// The last second of the year 9999.
pub const LAST_SECOND: i64 = 253_402_300_799;

/// What SQLite's `date(ts, 'unixepoch')` gives; `None` stands for SQL `NULL`.
pub uninterp spec fn sqlite_date(ts: i64) -> Option<Seq<char>>;

/// What SQLite's `datetime(ts, 'unixepoch')` gives; `None` stands for SQL `NULL`.
pub uninterp spec fn sqlite_datetime(ts: i64) -> Option<Seq<char>>;

/// Whether `y` is a leap year.
pub open spec fn is_leap(y: int) -> bool {
    y % 4 == 0 && (y % 100 != 0 || y % 400 == 0)
}

/// The number of days of a month.
pub open spec fn month_days(y: int, m: int) -> int {
    if m == 2 {
        if is_leap(y) {
            29
        } else {
            28
        }
    } else if m == 4 || m == 6 || m == 9 || m == 11 {
        30
    } else {
        31
    }
}

/// A calendar date of the years 1970 to 9999.
pub open spec fn is_date(y: int, m: int, d: int) -> bool {
    1970 <= y <= 9999 && 1 <= m <= 12 && 1 <= d <= month_days(y, m)
}

/// The days from 1970-01-01 to the first day of the year.
pub open spec fn days_before_year(y: int) -> int
    decreases y,
{
    if y <= 1970 {
        0
    } else {
        days_before_year(y - 1) + if is_leap(y - 1) {
            366int
        } else {
            365int
        }
    }
}

/// The days from the first day of the year to the first day of the month.
pub open spec fn days_before_month(y: int, m: int) -> int
    decreases m,
{
    if m <= 1 {
        0
    } else {
        days_before_month(y, m - 1) + month_days(y, m - 1)
    }
}

/// The days from 1970-01-01 to a date.
pub open spec fn day_number(y: int, m: int, d: int) -> int {
    days_before_year(y) + days_before_month(y, m) + d - 1
}

/// A number below 100 as two digits.
pub open spec fn two_digits(n: int) -> Seq<char> {
    seq![digit_char(n / 10), digit_char(n % 10)]
}

/// A date as `YYYY-MM-DD`.
pub open spec fn date_text(y: int, m: int, d: int) -> Seq<char> {
    two_digits(y / 100) + two_digits(y % 100) + seq!['-'] + two_digits(m) + seq!['-'] + two_digits(
        d,
    )
}

/// The time of day as `HH:MM:SS`, for a number of seconds since midnight.
pub open spec fn clock_text(seconds: int) -> Seq<char> {
    two_digits(seconds / 3600) + seq![':'] + two_digits((seconds / 60) % 60) + seq![':']
        + two_digits(seconds % 60)
}

/// `text` is the date, `YYYY-MM-DD`, of the day `number` days after 1970-01-01.
pub open spec fn is_day_text(text: Seq<char>, number: int) -> bool {
    exists|y: int, m: int, d: int|
        #[trigger] is_date(y, m, d) && day_number(y, m, d) == number && text == date_text(y, m, d)
}

/// `text` is the date and time, `YYYY-MM-DD HH:MM:SS`, of the second `ts` after
/// the start of 1970.
pub open spec fn is_second_text(text: Seq<char>, ts: int) -> bool {
    exists|day: Seq<char>|
        #[trigger] is_day_text(day, ts / 86400) && text == day + seq![' '] + clock_text(ts % 86400)
}

/// Runs SQLite's `date(ts, 'unixepoch')` on a database in memory. Taken on
/// trust: an answer depends on `ts` alone; from 1970 to 9999 it is the UTC date
/// of that second; it is `NULL` exactly before noon of 24 November 4714
/// BC and after 9999. That SQLite answers at all rests on the machine and is not
/// promised.
#[verifier::external_body]
pub(crate) fn utc_date(ts: i64) -> (day: Result<Option<String>, rusqlite::Error>)
    ensures
        day matches Ok(text) ==> optional(text) == sqlite_date(ts),
        day matches Ok(text) ==> (text is Some <==> -210_866_760_000 <= ts <= LAST_SECOND),
        0 <= ts ==> (day matches Ok(Some(text)) ==> is_day_text(text@, ts as int / 86400)),
{
    let conn = rusqlite::Connection::open_in_memory()?;
    conn.query_row("SELECT date(?1,'unixepoch')", [ts], |row| row.get(0))
}

/// Runs SQLite's `datetime(ts, 'unixepoch')` on a database in memory. Taken on
/// trust: an answer depends on `ts` alone; from 1970 to 9999 it is the UTC date
/// and time of that second, `YYYY-MM-DD HH:MM:SS`; it is `NULL` exactly before
/// noon of 24 November 4714 BC and after 9999. That SQLite answers at all rests
/// on the machine and is not promised.
#[verifier::external_body]
pub(crate) fn utc_datetime(ts: i64) -> (time: Result<Option<String>, rusqlite::Error>)
    ensures
        time matches Ok(text) ==> optional(text) == sqlite_datetime(ts),
        time matches Ok(text) ==> (text is Some <==> -210_866_760_000 <= ts <= LAST_SECOND),
        0 <= ts ==> (time matches Ok(Some(text)) ==> is_second_text(text@, ts as int)),
{
    let conn = rusqlite::Connection::open_in_memory()?;
    conn.query_row("SELECT datetime(?1,'unixepoch')", [ts], |row| row.get(0))
}

// ---------------------------------------------------------------------------
// Laws of the calendar
// ---------------------------------------------------------------------------

proof fn lemma_months_grow(y: int, m: int, n: int)
    requires
        1 <= m <= n <= 13,
    ensures
        days_before_month(y, m) >= 28 * (m - 1),
        m < n ==> days_before_month(y, m) + month_days(y, m) <= days_before_month(y, n),
    decreases n + m,
{
    if m > 1 {
        lemma_months_grow(y, m - 1, m);
    }
    if m < n - 1 {
        lemma_months_grow(y, m, n - 1);
    }
}

proof fn lemma_year_length(y: int)
    ensures
        days_before_month(y, 13) == if is_leap(y) {
            366int
        } else {
            365int
        },
{
    reveal_with_fuel(days_before_month, 14);
}

proof fn lemma_years_grow(y: int, z: int)
    requires
        1970 <= y <= z,
    ensures
        y < z ==> days_before_year(y) + days_before_month(y, 13) <= days_before_year(z),
    decreases z - y,
{
    lemma_year_length(y);
    if y < z {
        if y < z - 1 {
            lemma_years_grow(y, z - 1);
        }
    }
}

/// An earlier date in year, month and day has a smaller day number.
proof fn lemma_later_date_later_day(y: int, m: int, d: int, z: int, n: int, e: int)
    requires
        is_date(y, m, d),
        is_date(z, n, e),
        y < z || (y == z && (m < n || (m == n && d < e))),
    ensures
        day_number(y, m, d) < day_number(z, n, e),
{
    lemma_months_grow(y, m, 13);
    lemma_months_grow(z, n, 13);
    lemma_months_grow(z, 1, n);
    if y < z {
        lemma_years_grow(y, z);
    } else if m < n {
        lemma_months_grow(y, m, n);
    }
}

proof fn lemma_two_digits_order(a: int, b: int)
    requires
        0 <= a < b < 100,
    ensures
        text_less(two_digits(a), two_digits(b)),
{
    reveal_with_fuel(text_less, 3);
    assert(two_digits(a).drop_first() =~= seq![digit_char(a % 10)]);
    assert(two_digits(b).drop_first() =~= seq![digit_char(b % 10)]);
}

/// An earlier date in year, month and day has a smaller text.
proof fn lemma_later_date_larger_text(y: int, m: int, d: int, z: int, n: int, e: int)
    requires
        is_date(y, m, d),
        is_date(z, n, e),
        y < z || (y == z && (m < n || (m == n && d < e))),
    ensures
        text_less(date_text(y, m, d), date_text(z, n, e)),
{
    let dash = seq!['-'];
    let a = date_text(y, m, d);
    let b = date_text(z, n, e);
    if y / 100 < z / 100 {
        lemma_two_digits_order(y / 100, z / 100);
        let (ra, rb) = (a.skip(2), b.skip(2));
        assert(a =~= two_digits(y / 100) + ra);
        assert(b =~= two_digits(z / 100) + rb);
        lemma_text_less_head(two_digits(y / 100), two_digits(z / 100), ra, rb);
    } else if y < z {
        lemma_two_digits_order(y % 100, z % 100);
        let (ra, rb) = (a.skip(4), b.skip(4));
        let century = two_digits(y / 100);
        assert(a =~= century + (two_digits(y % 100) + ra));
        assert(b =~= century + (two_digits(z % 100) + rb));
        lemma_text_less_head(two_digits(y % 100), two_digits(z % 100), ra, rb);
        lemma_text_less_prefix(century, two_digits(y % 100) + ra, two_digits(z % 100) + rb);
    } else if m < n {
        lemma_two_digits_order(m, n);
        let (ra, rb) = (a.skip(7), b.skip(7));
        let year = two_digits(y / 100) + two_digits(y % 100) + dash;
        assert(a =~= year + (two_digits(m) + ra));
        assert(b =~= year + (two_digits(n) + rb));
        lemma_text_less_head(two_digits(m), two_digits(n), ra, rb);
        lemma_text_less_prefix(year, two_digits(m) + ra, two_digits(n) + rb);
    } else {
        lemma_two_digits_order(d, e);
        let month = two_digits(y / 100) + two_digits(y % 100) + dash + two_digits(m) + dash;
        assert(a =~= month + two_digits(d));
        assert(b =~= month + two_digits(e));
        lemma_text_less_prefix(month, two_digits(d), two_digits(e));
    }
}

/// Law: dates in `YYYY-MM-DD` follow the calendar. Two of them are the same text
/// exactly when they are the same day, and text order is chronological order.
pub proof fn law_day_texts_follow_the_calendar(a: Seq<char>, x: int, b: Seq<char>, y: int)
    requires
        is_day_text(a, x),
        is_day_text(b, y),
    ensures
        a == b <==> x == y,
        text_less(a, b) <==> x < y,
{
    let (ya, ma, da) = choose|yy: int, mm: int, dd: int|
        #[trigger] is_date(yy, mm, dd) && day_number(yy, mm, dd) == x && a == date_text(yy, mm, dd);
    let (yb, mb, db) = choose|yy: int, mm: int, dd: int|
        #[trigger] is_date(yy, mm, dd) && day_number(yy, mm, dd) == y && b == date_text(yy, mm, dd);
    lemma_text_order_is_total(a, b);
    if ya < yb || (ya == yb && (ma < mb || (ma == mb && da < db))) {
        lemma_later_date_later_day(ya, ma, da, yb, mb, db);
        lemma_later_date_larger_text(ya, ma, da, yb, mb, db);
    } else if yb < ya || (ya == yb && (mb < ma || (ma == mb && db < da))) {
        lemma_later_date_later_day(yb, mb, db, ya, ma, da);
        lemma_later_date_larger_text(yb, mb, db, ya, ma, da);
    }
}

} // verus!
