use grype_verify::db::{insert, query_trend, CheckRecord, CheckTable, QueryError, SeverityCounts};
use grype_verify::trend::{list_days, sum_day, trend_by_day};

fn record(timestamp: i64, high: i64) -> CheckRecord {
    CheckRecord {
        id: 0,
        timestamp,
        timestamp_iso: None,
        sbom_path: "a.spdx.json".to_string(),
        mode: "online".to_string(),
        db_updated: true,
        exit_code: 0,
        result: "clean".to_string(),
        fail_on: "critical".to_string(),
        output_fmt: "table".to_string(),
        duration_ms: 10,
        severity: SeverityCounts {
            high,
            unknown: 1,
            ..Default::default()
        },
        total_vulns: 0,
        sarif_path: None,
        raw_output: None,
    }
}

fn table(list: &[(i64, i64)]) -> CheckTable {
    let mut table = CheckTable::new();
    for (ts, high) in list {
        insert(&mut table, &record(*ts, *high)).unwrap();
    }
    table
}

fn dates(list: &[Option<&str>]) -> Vec<Option<String>> {
    list.iter().map(|d| d.map(|s| s.to_string())).collect()
}

#[test]
fn days_are_summed_latest_first() {
    // The last second of a day, the first of the next, and a later day.
    let t = table(&[(86_399, 1), (86_400, 2), (172_799, 3), (1_789_693_680, 4)]);
    let points = query_trend(&t, None).unwrap();
    assert_eq!(points.len(), 3);
    assert_eq!(points[0].day, "2026-09-18");
    assert_eq!(points[0].scans, 1);
    assert_eq!(points[0].severity.high, 4);
    assert_eq!(points[1].day, "1970-01-02");
    assert_eq!(points[1].scans, 2);
    assert_eq!(points[1].severity.high, 5);
    assert_eq!(points[1].severity.unknown, 2);
    assert_eq!(points[1].severity.critical, 0);
    assert_eq!(points[1].total_vulns, 7);
    assert_eq!(points[2].day, "1970-01-01");
    let scans: i64 = points.iter().map(|p| p.scans).sum();
    let high: i64 = points.iter().map(|p| p.severity.high).sum();
    assert_eq!(scans, 4);
    assert_eq!(high, 10);
}

#[test]
fn leap_days_have_their_own_point() {
    // 2024-02-28, 2024-02-29 and 2024-03-01, each at noon.
    let noon: i64 = 1_709_121_600;
    let t = table(&[(noon, 1), (noon + 86_400, 1), (noon + 2 * 86_400, 1)]);
    let days: Vec<String> = query_trend(&t, None)
        .unwrap()
        .into_iter()
        .map(|p| p.day)
        .collect();
    assert_eq!(days, vec!["2024-03-01", "2024-02-29", "2024-02-28"]);
}

#[test]
fn the_number_of_days_is_kept_in_range() {
    let list: Vec<(i64, i64)> = (0..35).map(|d| (d * 86_400, d)).collect();
    let t = table(&list);
    assert_eq!(query_trend(&t, None).unwrap().len(), 30);
    assert_eq!(query_trend(&t, Some(3)).unwrap().len(), 3);
    assert_eq!(query_trend(&t, Some(0)).unwrap().len(), 1);
    assert_eq!(query_trend(&t, Some(-1)).unwrap()[0].day, "1970-02-04");
    assert_eq!(query_trend(&t, Some(i64::MAX)).unwrap().len(), 35);
}

#[test]
fn rows_without_a_date_come_last() {
    let t = table(&[(0, 1), (i64::MAX, 2)]);
    assert!(matches!(query_trend(&t, None), Err(QueryError::Undated)));
    // One day fills the trend before the row without a date is reached.
    let points = query_trend(&t, Some(1)).unwrap();
    assert_eq!(points.len(), 1);
    assert_eq!(points[0].day, "1970-01-01");
}

#[test]
fn sums_that_do_not_fit_are_an_error() {
    let t = table(&[(0, i64::MAX), (1, 1)]);
    assert!(matches!(query_trend(&t, None), Err(QueryError::Overflow)));
    // The sums fit, their total does not.
    let t = table(&[(0, i64::MAX)]);
    assert!(matches!(query_trend(&t, None), Err(QueryError::Overflow)));
    assert!(sum_day(&t, &dates(&[Some("x")]), &"x".to_string()).is_none());
    assert_eq!(
        sum_day(&t, &dates(&[Some("y")]), &"x".to_string()).unwrap().scans,
        0
    );
}

#[test]
fn given_dates_decide_the_buckets() {
    let t = table(&[(1, 10), (2, 20), (3, 30)]);
    let by = dates(&[Some("b"), Some("a"), Some("b")]);
    let points = trend_by_day(&t, &by, Some(5)).unwrap();
    assert_eq!(points.len(), 2);
    assert_eq!(points[0].day, "b");
    assert_eq!(points[0].scans, 2);
    assert_eq!(points[0].severity.high, 40);
    assert_eq!(points[1].day, "a");
    assert_eq!(points[1].severity.high, 20);
    let undated = dates(&[Some("b"), None, Some("b")]);
    assert!(matches!(
        trend_by_day(&t, &undated, Some(5)),
        Err(QueryError::Undated)
    ));
    assert_eq!(trend_by_day(&t, &undated, Some(1)).unwrap().len(), 1);
}

#[test]
fn each_day_is_listed_once() {
    let by = dates(&[
        Some("2024-01-02"),
        None,
        Some("2023-12-31"),
        Some("2024-01-02"),
        Some("2024-01-10"),
        Some("-0001-01-01"),
    ]);
    assert_eq!(
        list_days(&by),
        vec!["2024-01-10", "2024-01-02", "2023-12-31", "-0001-01-01"]
    );
    assert!(list_days(&vec![]).is_empty());
}
