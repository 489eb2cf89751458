//! Severity counts summed up by calendar day.
use crate::calendar::{
    is_day_text, law_day_texts_follow_the_calendar, sqlite_date, utc_date, LAST_SECOND,
};
use crate::db::{clamp, clamped, rows_of, CheckTable, QueryError, Row};
use crate::severity::{SeverityCounts, Sums};
use crate::text::{
    is_text_less, lemma_text_order_is_total, lemma_text_order_is_transitive, optional, text_less,
    texts,
};
use vstd::prelude::*;

verus! {

/// The scans of one calendar day (UTC), with their severity counts added up.
#[derive(Debug)]
pub struct TrendPoint {
    /// The UTC date, `YYYY-MM-DD`.
    pub day: String,
    pub scans: i64,
    pub severity: SeverityCounts,
    pub total_vulns: i64,
}

/// What a [`TrendPoint`] holds.
pub struct Trend {
    pub day: Seq<char>,
    pub scans: i64,
    pub severity: SeverityCounts,
    pub total_vulns: i64,
}

impl View for TrendPoint {
    type V = Trend;

    open spec fn view(&self) -> Trend {
        Trend {
            day: self.day@,
            scans: self.scans,
            severity: self.severity,
            total_vulns: self.total_vulns,
        }
    }
}

/// What a list of points holds.
pub open spec fn trends_of(list: Seq<TrendPoint>) -> Seq<Trend> {
    list.map_values(|p: TrendPoint| p@)
}

/// The dates of a list of optional texts.
pub open spec fn dates_of(list: Seq<Option<String>>) -> Seq<Option<Seq<char>>> {
    list.map_values(|d: Option<String>| optional(d))
}

/// The dates of the rows, as SQLite writes them.
pub open spec fn row_dates(rows: Seq<Row>) -> Seq<Option<Seq<char>>> {
    rows.map_values(|row: Row| sqlite_date(row.timestamp))
}

// ---------------------------------------------------------------------------
// The days that occur
// ---------------------------------------------------------------------------

/// Every day is later, in text order, than all days after it.
pub open spec fn falls(list: Seq<Seq<char>>) -> bool {
    forall|j: int, k: int|
        #![trigger list[j], list[k]]
        0 <= j < k < list.len() ==> text_less(list[k], list[j])
}

/// `list` holds the dates that occur in `dates`, each once, latest first.
pub open spec fn is_day_list(dates: Seq<Option<Seq<char>>>, list: Seq<Seq<char>>) -> bool {
    &&& forall|k: int| 0 <= k < list.len() ==> dates.contains(Some(#[trigger] list[k]))
    &&& forall|i: int|
        0 <= i < dates.len() && (#[trigger] dates[i]) is Some ==> list.contains(dates[i]->0)
    &&& falls(list)
}

/// The dates that occur in `dates`, each once, latest first.
pub open spec fn day_list(dates: Seq<Option<Seq<char>>>) -> Seq<Seq<char>> {
    choose|list: Seq<Seq<char>>| is_day_list(dates, list)
}

proof fn lemma_falling_unique(a: Seq<Seq<char>>, b: Seq<Seq<char>>)
    requires
        falls(a),
        falls(b),
        forall|x: Seq<char>| a.contains(x) <==> b.contains(x),
    ensures
        a == b,
    decreases a.len(),
{
    if a.len() == 0 {
        if b.len() > 0 {
            assert(b.contains(b[0]));
        }
        assert(a =~= b);
    } else {
        assert(a.contains(a[0]));
        assert(b.len() > 0);
        assert(b.contains(b[0]));
        let i = choose|i: int| 0 <= i < b.len() && b[i] == a[0];
        let j = choose|j: int| 0 <= j < a.len() && a[j] == b[0];
        lemma_text_order_is_total(a[0], b[0]);
        if i > 0 && j > 0 {
            assert(text_less(b[i], b[0]));
            assert(text_less(a[j], a[0]));
        }
        assert(a[0] == b[0]);
        let (ta, tb) = (a.drop_first(), b.drop_first());
        assert forall|x: Seq<char>| ta.contains(x) <==> tb.contains(x) by {
            lemma_text_order_is_total(x, x);
            if ta.contains(x) {
                let k = choose|k: int| 0 <= k < ta.len() && ta[k] == x;
                assert(a[k + 1] == x);
                assert(text_less(a[k + 1], a[0]));
                assert(b.contains(x));
                let l = choose|l: int| 0 <= l < b.len() && b[l] == x;
                assert(l != 0);
                assert(tb[l - 1] == x);
            }
            if tb.contains(x) {
                let k = choose|k: int| 0 <= k < tb.len() && tb[k] == x;
                assert(b[k + 1] == x);
                assert(text_less(b[k + 1], b[0]));
                assert(a.contains(x));
                let l = choose|l: int| 0 <= l < a.len() && a[l] == x;
                assert(l != 0);
                assert(ta[l - 1] == x);
            }
        }
        lemma_falling_unique(ta, tb);
        assert(a =~= seq![a[0]] + ta);
        assert(b =~= seq![b[0]] + tb);
    }
}

/// Law: there is exactly one list of the days that occur, latest first.
pub proof fn law_day_list_is_unique(
    dates: Seq<Option<Seq<char>>>,
    a: Seq<Seq<char>>,
    b: Seq<Seq<char>>,
)
    requires
        is_day_list(dates, a),
        is_day_list(dates, b),
    ensures
        a == b,
{
    assert forall|x: Seq<char>| a.contains(x) <==> b.contains(x) by {
        if a.contains(x) {
            let k = choose|k: int| 0 <= k < a.len() && a[k] == x;
            assert(dates.contains(Some(a[k])));
            let i = choose|i: int| 0 <= i < dates.len() && dates[i] == Some(a[k]);
            assert(dates[i] is Some);
        }
        if b.contains(x) {
            let k = choose|k: int| 0 <= k < b.len() && b[k] == x;
            assert(dates.contains(Some(b[k])));
            let i = choose|i: int| 0 <= i < dates.len() && dates[i] == Some(b[k]);
            assert(dates[i] is Some);
        }
    }
    lemma_falling_unique(a, b);
}

/// Adding the next date at its place keeps the list of days.
proof fn lemma_day_added(dates: Seq<Option<Seq<char>>>, n: int, list: Seq<Seq<char>>, p: int)
    requires
        0 <= n < dates.len(),
        is_day_list(dates.take(n), list),
        dates[n] is Some,
        0 <= p <= list.len(),
        forall|j: int| 0 <= j < p ==> text_less(dates[n]->0, #[trigger] list[j]),
        forall|j: int| p <= j < list.len() ==> text_less(#[trigger] list[j], dates[n]->0),
    ensures
        is_day_list(dates.take(n + 1), list.insert(p, dates[n]->0)),
{
    let day = dates[n]->0;
    let longer = list.insert(p, day);
    let seen = dates.take(n);
    let more = dates.take(n + 1);
    assert forall|k: int| 0 <= k < longer.len() implies more.contains(Some(#[trigger] longer[k])) by {
        if k == p {
            assert(more[n] == Some(longer[k]));
        } else {
            let a = if k < p {
                k
            } else {
                k - 1
            };
            assert(longer[k] == list[a]);
            assert(seen.contains(Some(list[a])));
            let i = choose|i: int| 0 <= i < seen.len() && seen[i] == Some(list[a]);
            assert(more[i] == Some(list[a]));
        }
    }
    assert forall|i: int| 0 <= i < more.len() && (#[trigger] more[i]) is Some implies longer.contains(
        more[i]->0,
    ) by {
        if i == n {
            assert(longer[p] == day);
        } else {
            assert(seen[i] == more[i]);
            let k = choose|k: int| 0 <= k < list.len() && list[k] == seen[i]->0;
            if k < p {
                assert(longer[k] == list[k]);
            } else {
                assert(longer[k + 1] == list[k]);
            }
        }
    }
    assert forall|j: int, k: int|
        #![trigger longer[j], longer[k]]
        0 <= j < k < longer.len() implies text_less(longer[k], longer[j]) by {
        let a = if j < p {
            j
        } else {
            j - 1
        };
        let b = if k < p {
            k
        } else {
            k - 1
        };
        if j != p {
            assert(longer[j] == list[a]);
        }
        if k != p {
            assert(longer[k] == list[b]);
        }
    }
}

/// A date that occurred before, or none, leaves the list of days as it is.
proof fn lemma_day_known(dates: Seq<Option<Seq<char>>>, n: int, list: Seq<Seq<char>>)
    requires
        0 <= n < dates.len(),
        is_day_list(dates.take(n), list),
        dates[n] is Some ==> list.contains(dates[n]->0),
    ensures
        is_day_list(dates.take(n + 1), list),
{
    let seen = dates.take(n);
    let more = dates.take(n + 1);
    assert forall|k: int| 0 <= k < list.len() implies more.contains(Some(#[trigger] list[k])) by {
        assert(seen.contains(Some(list[k])));
        let i = choose|i: int| 0 <= i < seen.len() && seen[i] == Some(list[k]);
        assert(more[i] == Some(list[k]));
    }
    assert forall|i: int| 0 <= i < more.len() && (#[trigger] more[i]) is Some implies list.contains(
        more[i]->0,
    ) by {
        if i < n {
            assert(seen[i] == more[i]);
        }
    }
}

/// The place of a day in a falling list.
proof fn lemma_day_place(list: Seq<Seq<char>>, day: Seq<char>) -> (p: int)
    requires
        falls(list),
        !list.contains(day),
    ensures
        0 <= p <= list.len(),
        forall|j: int| 0 <= j < p ==> text_less(day, #[trigger] list[j]),
        forall|j: int| p <= j < list.len() ==> text_less(#[trigger] list[j], day),
    decreases list.len(),
{
    if list.len() == 0 {
        0
    } else {
        let last = list.last();
        let shorter = list.drop_last();
        assert(list.contains(last));
        lemma_text_order_is_total(day, last);
        if text_less(day, last) {
            assert forall|j: int| 0 <= j < list.len() implies text_less(day, #[trigger] list[j]) by {
                if j < list.len() - 1 {
                    assert(text_less(list[list.len() - 1], list[j]));
                    lemma_text_order_is_transitive(day, last, list[j]);
                }
            }
            list.len() as int
        } else {
            assert forall|x: Seq<char>| shorter.contains(x) implies list.contains(x) by {
                let k = choose|k: int| 0 <= k < shorter.len() && shorter[k] == x;
                assert(list[k] == x);
            }
            let p = lemma_day_place(shorter, day);
            assert forall|j: int| 0 <= j < p implies text_less(day, #[trigger] list[j]) by {
                assert(shorter[j] == list[j]);
            }
            assert forall|j: int| p <= j < list.len() implies text_less(#[trigger] list[j], day) by {
                if j < list.len() - 1 {
                    assert(shorter[j] == list[j]);
                }
            }
            p
        }
    }
}

proof fn lemma_day_list_exists(dates: Seq<Option<Seq<char>>>, n: int) -> (list: Seq<Seq<char>>)
    requires
        0 <= n <= dates.len(),
    ensures
        is_day_list(dates.take(n), list),
    decreases n,
{
    if n == 0 {
        Seq::empty()
    } else {
        let shorter = lemma_day_list_exists(dates, n - 1);
        if dates[n - 1] is Some && !shorter.contains(dates[n - 1]->0) {
            let p = lemma_day_place(shorter, dates[n - 1]->0);
            lemma_day_added(dates, n - 1, shorter, p);
            shorter.insert(p, dates[n - 1]->0)
        } else {
            lemma_day_known(dates, n - 1, shorter);
            shorter
        }
    }
}

/// Law: [`day_list`] holds exactly the days that occur, each once, latest first.
pub proof fn law_day_list_is_the_list(dates: Seq<Option<Seq<char>>>)
    ensures
        is_day_list(dates, day_list(dates)),
{
    let list = lemma_day_list_exists(dates, dates.len() as int);
    assert(dates.take(dates.len() as int) =~= dates);
    assert(is_day_list(dates, list));
}

/// Lists the days that occur, each once, latest first.
pub fn list_days(dates: &Vec<Option<String>>) -> (list: Vec<String>)
    ensures
        texts(list@) == day_list(dates_of(dates@)),
{
    let ghost all = dates_of(dates@);
    let mut list: Vec<String> = Vec::new();
    let mut i: usize = 0;
    proof {
        assert(all.take(0) =~= Seq::<Option<Seq<char>>>::empty());
        assert(texts(list@) =~= Seq::<Seq<char>>::empty());
    }
    while i < dates.len()
        invariant
            i <= dates@.len(),
            all == dates_of(dates@),
            is_day_list(all.take(i as int), texts(list@)),
        decreases dates@.len() - i,
    {
        let ghost before = texts(list@);
        assert(all[i as int] == optional(dates@[i as int]));
        match &dates[i] {
            Some(day) => {
                let mut p: usize = 0;
                while p < list.len() && is_text_less(day, &list[p])
                    invariant
                        p <= list@.len(),
                        before == texts(list@),
                        forall|j: int| 0 <= j < p ==> text_less(day@, #[trigger] before[j]),
                    decreases list@.len() - p,
                {
                    assert(before[p as int] == list@[p as int]@);
                    p += 1;
                }
                if p < list.len() && list[p] == *day {
                    proof {
                        assert(before[p as int] == day@);
                        lemma_day_known(all, i as int, before);
                    }
                } else {
                    proof {
                        assert forall|j: int| p <= j < before.len() implies text_less(
                            #[trigger] before[j],
                            day@,
                        ) by {
                            assert(before[p as int] == list@[p as int]@);
                            lemma_text_order_is_total(day@, before[p as int]);
                            if j > p {
                                assert(text_less(before[j], before[p as int]));
                                lemma_text_order_is_transitive(before[j], before[p as int], day@);
                            }
                        }
                        lemma_day_added(all, i as int, before, p as int);
                    }
                    list.insert(p, day.clone());
                    proof {
                        assert(texts(list@) =~= before.insert(p as int, day@));
                    }
                }
            },
            None => {
                proof {
                    lemma_day_known(all, i as int, before);
                }
            },
        }
        i += 1;
    }
    proof {
        assert(all.take(i as int) =~= all);
        law_day_list_is_the_list(all);
        law_day_list_is_unique(all, texts(list@), day_list(all));
    }
    list
}

// ---------------------------------------------------------------------------
// The sums of a day
// ---------------------------------------------------------------------------

/// The sums over those of the first `n` rows that are of the day.
pub open spec fn day_sums(
    rows: Seq<Row>,
    dates: Seq<Option<Seq<char>>>,
    day: Seq<char>,
    n: int,
) -> Sums
    decreases n,
{
    if n <= 0 {
        Sums::none()
    } else if dates[n - 1] == Some(day) {
        day_sums(rows, dates, day, n - 1).plus(rows[n - 1].severity)
    } else {
        day_sums(rows, dates, day, n - 1)
    }
}

/// Adding up the counts of the day, row by row, and then the counts themselves,
/// stays within 64 bits.
pub open spec fn day_fits(rows: Seq<Row>, dates: Seq<Option<Seq<char>>>, day: Seq<char>) -> bool {
    &&& forall|n: int| 0 <= n <= rows.len() ==> (#[trigger] day_sums(rows, dates, day, n)).in_range()
    &&& day_sums(rows, dates, day, rows.len() as int).counts().sum_fits()
}

/// The point of one day.
pub open spec fn point_of(rows: Seq<Row>, dates: Seq<Option<Seq<char>>>, day: Seq<char>) -> Trend {
    let sums = day_sums(rows, dates, day, rows.len() as int);
    Trend {
        day: day,
        scans: sums.scans as i64,
        severity: sums.counts(),
        total_vulns: sums.counts().sum() as i64,
    }
}

/// From 1970 to 9999, the date of a row is its UTC day.
pub open spec fn dates_follow_calendar(rows: Seq<Row>, dates: Seq<Option<Seq<char>>>) -> bool {
    forall|i: int|
        0 <= i < rows.len() && 0 <= (#[trigger] rows[i]).timestamp <= LAST_SECOND ==> dates[i] is Some
            && is_day_text(dates[i]->0, rows[i].timestamp as int / 86400)
}

/// The most days that a trend covers: 30 unless a limit is given, never less
/// than 1 or more than 3650.
pub open spec fn day_cap(limit: Option<i64>) -> int {
    match limit {
        Some(n) => clamped(n as int, 1, 3650),
        None => 30,
    }
}

/// The days that a trend covers: the latest ones that occur.
pub open spec fn trend_days(dates: Seq<Option<Seq<char>>>, limit: Option<i64>) -> Seq<Seq<char>> {
    let list = day_list(dates);
    if list.len() <= day_cap(limit) {
        list
    } else {
        list.take(day_cap(limit))
    }
}

/// A row without a date would be part of the trend: rows without a date come
/// after all days.
pub open spec fn reaches_undated(dates: Seq<Option<Seq<char>>>, limit: Option<i64>) -> bool {
    day_list(dates).len() < day_cap(limit) && exists|i: int|
        0 <= i < dates.len() && (#[trigger] dates[i]) is None
}

/// The sums of every day that the trend covers fit in 64 bits.
pub open spec fn trend_fits(
    rows: Seq<Row>,
    dates: Seq<Option<Seq<char>>>,
    limit: Option<i64>,
) -> bool {
    forall|k: int|
        0 <= k < trend_days(dates, limit).len() ==> day_fits(
            rows,
            dates,
            #[trigger] trend_days(dates, limit)[k],
        )
}

/// The points of a trend, latest day first.
pub open spec fn trend_of(
    rows: Seq<Row>,
    dates: Seq<Option<Seq<char>>>,
    limit: Option<i64>,
) -> Seq<Trend> {
    trend_days(dates, limit).map_values(|day: Seq<char>| point_of(rows, dates, day))
}

/// The point of one day, or `None` when its sums leave 64 bits.
pub fn sum_day(table: &CheckTable, dates: &Vec<Option<String>>, day: &String) -> (point: Option<
    TrendPoint,
>)
    requires
        table.wf(),
        dates@.len() == table@.len(),
    ensures
        match point {
            Some(p) => day_fits(table@, dates_of(dates@), day@) && p@ == point_of(
                table@,
                dates_of(dates@),
                day@,
            ),
            None => !day_fits(table@, dates_of(dates@), day@),
        },
{
    let ghost rows = table@;
    let ghost all = dates_of(dates@);
    let list = table.rows();
    assert(rows_of(list@) == rows);
    assert(list@.len() == rows.len());
    let mut scans: i64 = 0;
    let mut severity = SeverityCounts::default();
    let mut i: usize = 0;
    while i < list.len()
        invariant
            i <= list@.len() == rows.len() <= i64::MAX,
            rows == rows_of(list@),
            rows == table@,
            all == dates_of(dates@),
            dates@.len() == rows.len(),
            0 <= scans <= i,
            day_sums(rows, all, day@, i as int).scans == scans,
            forall|n: int| 0 <= n <= i ==> (#[trigger] day_sums(rows, all, day@, n)).in_range(),
            day_sums(rows, all, day@, i as int).counts() == severity,
        decreases list@.len() - i,
    {
        assert(all[i as int] == optional(dates@[i as int]));
        assert(rows[i as int].severity == list@[i as int].severity);
        let of_day: bool = match &dates[i] {
            Some(date) => *date == *day,
            None => false,
        };
        if of_day {
            match severity.checked_plus(&list[i].severity) {
                Some(sum) => {
                    severity = sum;
                },
                None => {
                    assert(!day_sums(rows, all, day@, i + 1).in_range());
                    return None;
                },
            }
            scans = scans + 1;
        }
        assert(day_sums(rows, all, day@, i + 1).in_range());
        i += 1;
    }
    match severity.checked_total() {
        Some(total_vulns) => Some(TrendPoint { day: day.clone(), scans, severity, total_vulns }),
        None => None,
    }
}

/// Sums the rows up by day, given the date of every row: the latest days that
/// occur, at most `limit` of them (30 unless given; from 1 to 3650).
pub fn trend_by_day(table: &CheckTable, dates: &Vec<Option<String>>, limit: Option<i64>) -> (trend:
    Result<Vec<TrendPoint>, QueryError>)
    requires
        table.wf(),
        dates@.len() == table@.len(),
    ensures
        match trend {
            Ok(points) => trend_fits(table@, dates_of(dates@), limit) && !reaches_undated(
                dates_of(dates@),
                limit,
            ) && trends_of(points@) == trend_of(table@, dates_of(dates@), limit),
            Err(QueryError::Overflow) => !trend_fits(table@, dates_of(dates@), limit),
            Err(QueryError::Undated) => trend_fits(table@, dates_of(dates@), limit)
                && reaches_undated(dates_of(dates@), limit),
            Err(QueryError::Dates(_)) => false,
        },
{
    let ghost rows = table@;
    let ghost all = dates_of(dates@);
    let cap: i64 = clamp(limit.unwrap_or(30), 1, 3650);
    let days = list_days(dates);
    let ghost list = day_list(all);
    let ghost covered = trend_days(all, limit);
    assert(texts(days@).len() == days@.len());
    let total: usize = days.len();
    let taken: usize = if total as u64 > cap as u64 {
        cap as usize
    } else {
        total
    };
    assert(covered =~= list.take(taken as int));
    let mut points: Vec<TrendPoint> = Vec::new();
    let mut k: usize = 0;
    while k < taken
        invariant
            k <= taken <= days@.len(),
            table.wf(),
            rows == table@,
            all == dates_of(dates@),
            dates@.len() == rows.len(),
            list == texts(days@),
            covered == trend_days(all, limit),
            covered == list.take(taken as int),
            points@.len() == k,
            forall|l: int| 0 <= l < k ==> day_fits(rows, all, #[trigger] covered[l]),
            forall|l: int|
                0 <= l < k ==> (#[trigger] points@[l])@ == point_of(rows, all, covered[l]),
        decreases taken - k,
    {
        assert(covered[k as int] == days@[k as int]@);
        match sum_day(table, dates, &days[k]) {
            Some(point) => {
                points.push(point);
            },
            None => {
                assert(!day_fits(rows, all, covered[k as int]));
                return Err(QueryError::Overflow);
            },
        }
        k += 1;
    }
    if (total as u64) < (cap as u64) {
        let mut i: usize = 0;
        while i < dates.len()
            invariant
                i <= dates@.len(),
                all == dates_of(dates@),
                forall|j: int| 0 <= j < i ==> (#[trigger] all[j]) is Some,
                list == day_list(all),
                list.len() < day_cap(limit),
                trend_fits(rows, all, limit),
                rows == table@,
            decreases dates@.len() - i,
        {
            assert(all[i as int] == optional(dates@[i as int]));
            if dates[i].is_none() {
                assert(all[i as int] is None);
                return Err(QueryError::Undated);
            }
            i += 1;
        }
    }
    proof {
        assert(trends_of(points@) =~= trend_of(rows, all, limit));
    }
    Ok(points)
}

/// The checks summed up by UTC day: the latest days that occur, at most `limit`
/// of them (30 unless given; from 1 to 3650).
pub fn query_trend(table: &CheckTable, limit: Option<i64>) -> (trend: Result<
    Vec<TrendPoint>,
    QueryError,
>)
    requires
        table.wf(),
    ensures
        match trend {
            Ok(points) => trend_fits(table@, row_dates(table@), limit) && !reaches_undated(
                row_dates(table@),
                limit,
            ) && trends_of(points@) == trend_of(table@, row_dates(table@), limit),
            Err(QueryError::Overflow) => !trend_fits(table@, row_dates(table@), limit),
            Err(QueryError::Undated) => trend_fits(table@, row_dates(table@), limit)
                && reaches_undated(row_dates(table@), limit),
            Err(QueryError::Dates(_)) => table@.len() > 0,
        },
        !(trend matches Err(QueryError::Dates(_))) ==> dates_follow_calendar(
            table@,
            row_dates(table@),
        ),
{
    let list = table.rows();
    let ghost rows = table@;
    let mut dates: Vec<Option<String>> = Vec::new();
    let mut i: usize = 0;
    while i < list.len()
        invariant
            i <= list@.len(),
            rows == rows_of(list@),
            rows == table@,
            dates@.len() == i,
            forall|j: int|
                0 <= j < i ==> optional(#[trigger] dates@[j]) == sqlite_date(rows[j].timestamp),
            forall|j: int|
                0 <= j < i && 0 <= (#[trigger] rows[j]).timestamp <= LAST_SECOND ==> sqlite_date(
                    rows[j].timestamp,
                ) is Some && is_day_text(
                    sqlite_date(rows[j].timestamp)->0,
                    rows[j].timestamp as int / 86400,
                ),
        decreases list@.len() - i,
    {
        assert(rows[i as int].timestamp == list@[i as int].timestamp);
        match utc_date(list[i].timestamp) {
            Ok(date) => {
                dates.push(date);
            },
            Err(e) => return Err(QueryError::Dates(e)),
        }
        i += 1;
    }
    proof {
        assert(dates_of(dates@) =~= row_dates(rows));
    }
    trend_by_day(table, &dates, limit)
}

// ---------------------------------------------------------------------------
// Laws
// ---------------------------------------------------------------------------

/// The severity counts of the first `n` rows, added up.
pub open spec fn row_sums(rows: Seq<Row>, n: int) -> Sums
    decreases n,
{
    if n <= 0 {
        Sums::none()
    } else {
        row_sums(rows, n - 1).plus(rows[n - 1].severity)
    }
}

/// The first `m` points, added up.
pub open spec fn point_sums(points: Seq<Trend>, m: int) -> Sums
    decreases m,
{
    if m <= 0 {
        Sums::none()
    } else {
        let before = point_sums(points, m - 1);
        let point = points[m - 1];
        Sums {
            scans: before.scans + point.scans,
            critical: before.critical + point.severity.critical,
            high: before.high + point.severity.high,
            medium: before.medium + point.severity.medium,
            low: before.low + point.severity.low,
            negligible: before.negligible + point.severity.negligible,
            unknown: before.unknown + point.severity.unknown,
        }
    }
}

/// The sums over those of the first `n` rows that are of the UTC day `number`
/// days after 1970-01-01.
pub open spec fn utc_day_sums(rows: Seq<Row>, number: int, n: int) -> Sums
    decreases n,
{
    if n <= 0 {
        Sums::none()
    } else if rows[n - 1].timestamp as int / 86400 == number {
        utc_day_sums(rows, number, n - 1).plus(rows[n - 1].severity)
    } else {
        utc_day_sums(rows, number, n - 1)
    }
}

/// The sums of the first `m` days over the first `n` rows, added up.
spec fn days_sums(
    rows: Seq<Row>,
    dates: Seq<Option<Seq<char>>>,
    list: Seq<Seq<char>>,
    m: int,
    n: int,
) -> Sums
    decreases m,
{
    if m <= 0 {
        Sums::none()
    } else {
        let before = days_sums(rows, dates, list, m - 1, n);
        let day = day_sums(rows, dates, list[m - 1], n);
        Sums {
            scans: before.scans + day.scans,
            critical: before.critical + day.critical,
            high: before.high + day.high,
            medium: before.medium + day.medium,
            low: before.low + day.low,
            negligible: before.negligible + day.negligible,
            unknown: before.unknown + day.unknown,
        }
    }
}

/// One more row adds to the sums of one day at most.
proof fn lemma_row_counts_once(
    rows: Seq<Row>,
    dates: Seq<Option<Seq<char>>>,
    list: Seq<Seq<char>>,
    m: int,
    n: int,
)
    requires
        falls(list),
        0 <= m <= list.len(),
        0 < n <= rows.len(),
    ensures
        days_sums(rows, dates, list, m, n) == (if dates[n - 1] is Some && list.take(m).contains(
            dates[n - 1]->0,
        ) {
            days_sums(rows, dates, list, m, n - 1).plus(rows[n - 1].severity)
        } else {
            days_sums(rows, dates, list, m, n - 1)
        }),
    decreases m,
{
    if m > 0 {
        let head = list.take(m);
        let shorter = list.take(m - 1);
        let day = list[m - 1];
        lemma_row_counts_once(rows, dates, list, m - 1, n);
        if dates[n - 1] == Some(day) {
            assert(head[m - 1] == day);
            if shorter.contains(day) {
                let j = choose|j: int| 0 <= j < shorter.len() && shorter[j] == day;
                assert(list[j] == day);
                assert(text_less(list[m - 1], list[j]));
                lemma_text_order_is_total(day, day);
            }
        } else if dates[n - 1] is Some {
            let date = dates[n - 1]->0;
            if head.contains(date) {
                let j = choose|j: int| 0 <= j < head.len() && head[j] == date;
                assert(shorter[j] == date);
            }
            if shorter.contains(date) {
                let j = choose|j: int| 0 <= j < shorter.len() && shorter[j] == date;
                assert(head[j] == date);
            }
        }
    }
}

proof fn lemma_no_rows(
    rows: Seq<Row>,
    dates: Seq<Option<Seq<char>>>,
    list: Seq<Seq<char>>,
    m: int,
)
    ensures
        days_sums(rows, dates, list, m, 0) == Sums::none(),
    decreases m,
{
    if m > 0 {
        lemma_no_rows(rows, dates, list, m - 1);
    }
}

proof fn lemma_days_cover_rows(rows: Seq<Row>, dates: Seq<Option<Seq<char>>>, n: int)
    requires
        dates.len() == rows.len(),
        0 <= n <= rows.len(),
        forall|i: int| 0 <= i < dates.len() ==> (#[trigger] dates[i]) is Some,
    ensures
        days_sums(rows, dates, day_list(dates), day_list(dates).len() as int, n) == row_sums(
            rows,
            n,
        ),
    decreases n,
{
    let list = day_list(dates);
    let m = list.len() as int;
    if n == 0 {
        lemma_no_rows(rows, dates, list, m);
    } else {
        lemma_days_cover_rows(rows, dates, n - 1);
        law_day_list_is_the_list(dates);
        lemma_row_counts_once(rows, dates, list, m, n);
        assert(list.take(m) =~= list);
        assert(dates[n - 1] is Some);
    }
}

proof fn lemma_scans_of_day(rows: Seq<Row>, dates: Seq<Option<Seq<char>>>, day: Seq<char>, n: int)
    requires
        0 <= n <= dates.len(),
    ensures
        0 <= day_sums(rows, dates, day, n).scans <= n,
        (exists|i: int| 0 <= i < n && #[trigger] dates[i] == Some(day)) ==> day_sums(
            rows,
            dates,
            day,
            n,
        ).scans > 0,
    decreases n,
{
    if n > 0 {
        lemma_scans_of_day(rows, dates, day, n - 1);
        if exists|i: int| 0 <= i < n && #[trigger] dates[i] == Some(day) {
            let i = choose|i: int| 0 <= i < n && #[trigger] dates[i] == Some(day);
            if i < n - 1 {
                assert(dates[i] == Some(day));
            }
        }
    }
}

proof fn lemma_points_are_days(
    rows: Seq<Row>,
    dates: Seq<Option<Seq<char>>>,
    limit: Option<i64>,
    m: int,
)
    requires
        dates.len() == rows.len() <= i64::MAX,
        trend_fits(rows, dates, limit),
        0 <= m <= trend_days(dates, limit).len(),
    ensures
        point_sums(trend_of(rows, dates, limit), m) == days_sums(
            rows,
            dates,
            day_list(dates),
            m,
            rows.len() as int,
        ),
    decreases m,
{
    if m > 0 {
        lemma_points_are_days(rows, dates, limit, m - 1);
        let day = trend_days(dates, limit)[m - 1];
        assert(day == day_list(dates)[m - 1]);
        assert(day_fits(rows, dates, day));
        assert(day_sums(rows, dates, day, rows.len() as int).in_range());
        lemma_scans_of_day(rows, dates, day, rows.len() as int);
        assert(trend_of(rows, dates, limit)[m - 1] == point_of(rows, dates, day));
    }
}

/// Law: a trend that covers all days loses nothing and counts nothing twice: its
/// scans and its severity counts add up to those of all checks.
pub proof fn law_trend_adds_up(rows: Seq<Row>, dates: Seq<Option<Seq<char>>>, limit: Option<i64>)
    requires
        dates.len() == rows.len() <= i64::MAX,
        forall|i: int| 0 <= i < dates.len() ==> (#[trigger] dates[i]) is Some,
        day_list(dates).len() <= day_cap(limit),
        trend_fits(rows, dates, limit),
    ensures
        point_sums(trend_of(rows, dates, limit), trend_of(rows, dates, limit).len() as int)
            == row_sums(rows, rows.len() as int),
        row_sums(rows, rows.len() as int).scans == rows.len(),
{
    lemma_points_are_days(rows, dates, limit, trend_days(dates, limit).len() as int);
    lemma_days_cover_rows(rows, dates, rows.len() as int);
    lemma_row_sums_scans(rows, rows.len() as int);
}

proof fn lemma_row_sums_scans(rows: Seq<Row>, n: int)
    requires
        0 <= n,
    ensures
        row_sums(rows, n).scans == n,
    decreases n,
{
    if n > 0 {
        lemma_row_sums_scans(rows, n - 1);
    }
}

/// Law: a trend has one point per day, latest day first, at most as many as its
/// cap, and every point counts at least one scan.
pub proof fn law_trend_is_latest_day_first(
    rows: Seq<Row>,
    dates: Seq<Option<Seq<char>>>,
    limit: Option<i64>,
)
    requires
        dates.len() == rows.len() <= i64::MAX,
    ensures
        trend_of(rows, dates, limit).len() <= day_cap(limit),
        forall|j: int, k: int|
            0 <= j < k < trend_of(rows, dates, limit).len() ==> text_less(
                (#[trigger] trend_of(rows, dates, limit)[k]).day,
                (#[trigger] trend_of(rows, dates, limit)[j]).day,
            ),
        forall|k: int|
            0 <= k < trend_of(rows, dates, limit).len() ==> (#[trigger] trend_of(
                rows,
                dates,
                limit,
            )[k]).scans > 0,
{
    let list = day_list(dates);
    let points = trend_of(rows, dates, limit);
    law_day_list_is_the_list(dates);
    assert forall|j: int, k: int| 0 <= j < k < points.len() implies text_less(
        (#[trigger] points[k]).day,
        (#[trigger] points[j]).day,
    ) by {
        assert(points[k].day == list[k]);
        assert(points[j].day == list[j]);
    }
    assert forall|k: int| 0 <= k < points.len() implies (#[trigger] points[k]).scans > 0 by {
        assert(points[k] == point_of(rows, dates, list[k]));
        assert(dates.contains(Some(list[k])));
        let i = choose|i: int| 0 <= i < dates.len() && dates[i] == Some(list[k]);
        lemma_scans_of_day(rows, dates, list[k], rows.len() as int);
        assert(dates[i] == Some(list[k]));
    }
}

/// Law: a trend sums the checks up by UTC day. The sums of a day are those over
/// the checks whose timestamps lie in that day.
pub proof fn law_trend_sums_utc_days(
    rows: Seq<Row>,
    dates: Seq<Option<Seq<char>>>,
    day: Seq<char>,
    number: int,
    n: int,
)
    requires
        dates.len() == rows.len(),
        0 <= n <= rows.len(),
        dates_follow_calendar(rows, dates),
        forall|i: int| 0 <= i < rows.len() ==> 0 <= (#[trigger] rows[i]).timestamp <= LAST_SECOND,
        is_day_text(day, number),
    ensures
        day_sums(rows, dates, day, n) == utc_day_sums(rows, number, n),
    decreases n,
{
    if n > 0 {
        law_trend_sums_utc_days(rows, dates, day, number, n - 1);
        let row = rows[n - 1];
        assert(0 <= row.timestamp <= LAST_SECOND);
        law_day_texts_follow_the_calendar(
            day,
            number,
            dates[n - 1]->0,
            row.timestamp as int / 86400,
        );
    }
}

} // verus!
