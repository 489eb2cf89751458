use grype_verify::calendar::LAST_SECOND;
use grype_verify::db::{
    insert, query_checks, query_trend, CheckRecord, CheckTable, QueryError, SeverityCounts,
};

fn record(timestamp: i64) -> CheckRecord {
    CheckRecord {
        id: 0,
        timestamp,
        timestamp_iso: None,
        sbom_path: "a.spdx.json".to_string(),
        mode: "online".to_string(),
        db_updated: true,
        exit_code: 0,
        result: "clean".to_string(),
        fail_on: "critical".to_string(),
        output_fmt: "table".to_string(),
        duration_ms: 10,
        severity: SeverityCounts::default(),
        total_vulns: 0,
        sarif_path: None,
        raw_output: None,
    }
}

fn table(stamps: &[i64]) -> CheckTable {
    let mut table = CheckTable::new();
    for ts in stamps {
        insert(&mut table, &record(*ts)).unwrap();
    }
    table
}

fn is_leap(y: i64) -> bool {
    y % 4 == 0 && (y % 100 != 0 || y % 400 == 0)
}

/// The date of a day, counted month by month from 1970-01-01.
fn date(mut day: i64) -> String {
    let mut y = 1970;
    while day >= 365 + is_leap(y) as i64 {
        day -= 365 + is_leap(y) as i64;
        y += 1;
    }
    let february = 28 + is_leap(y) as i64;
    let lengths = [31, february, 31, 30, 31, 30, 31, 31, 30, 31, 30, 31];
    let mut m = 0;
    while day >= lengths[m] {
        day -= lengths[m];
        m += 1;
    }
    format!("{y:04}-{:02}-{:02}", m + 1, day + 1)
}

fn date_and_time(ts: i64) -> String {
    let s = ts % 86_400;
    format!(
        "{} {:02}:{:02}:{:02}",
        date(ts / 86_400),
        s / 3600,
        s / 60 % 60,
        s % 60
    )
}

#[test]
fn timestamps_have_their_utc_date_and_time() {
    let step: i64 = 84_467_431;
    let mut stamps: Vec<i64> = (1..3000).map(|i| i * step).collect();
    stamps.push(LAST_SECOND);
    let rows = query_checks(&table(&stamps), None, Some(10_000)).unwrap();
    assert_eq!(rows.len(), stamps.len());
    for row in rows {
        assert_eq!(row.timestamp_iso, Some(date_and_time(row.timestamp)));
    }
}

#[test]
fn days_have_their_utc_date() {
    // Some 1000 days from 1970 to 9999, at different times of day.
    let step: i64 = 253_000_123;
    let stamps: Vec<i64> = (0..1000).map(|i| i * step).collect();
    let points = query_trend(&table(&stamps), Some(3650)).unwrap();
    let mut expected: Vec<String> = stamps.iter().map(|ts| date(ts / 86_400)).collect();
    expected.reverse();
    let days: Vec<String> = points.into_iter().map(|p| p.day).collect();
    assert_eq!(days, expected);
}

#[test]
fn dates_end_with_the_year_9999() {
    let day = |ts: i64| query_trend(&table(&[ts]), None);
    assert_eq!(day(LAST_SECOND).unwrap()[0].day, "9999-12-31");
    assert!(matches!(day(LAST_SECOND + 1), Err(QueryError::Undated)));
    assert_eq!(day(-1).unwrap()[0].day, "1969-12-31");
    assert_eq!(day(-210_866_760_000).unwrap()[0].day, "-4713-11-24");
    assert!(matches!(day(-210_866_760_001), Err(QueryError::Undated)));
    assert!(matches!(day(i64::MIN), Err(QueryError::Undated)));
}
