use grype_verify::db::{
    clamp, count, insert, now_unix, query_checks, query_latest_per_sbom, result_label,
    row_from_record, row_to_record, unix_timestamp, CheckRecord, CheckRow, CheckTable, InsertError,
    SeverityCounts, MAX_OUTPUT_BYTES,
};

fn temp_table() -> CheckTable {
    CheckTable::new()
}

fn sample_record(sbom: &str, mode: &str, exit_code: i32, ts: i64) -> CheckRecord {
    CheckRecord {
        id: 0,
        timestamp: ts,
        timestamp_iso: None,
        sbom_path: sbom.to_string(),
        mode: mode.to_string(),
        db_updated: mode == "online",
        exit_code,
        result: result_label(exit_code).to_string(),
        fail_on: "critical".to_string(),
        output_fmt: "table".to_string(),
        duration_ms: 500,
        severity: SeverityCounts::default(),
        total_vulns: 0,
        sarif_path: None,
        raw_output: Some("No vulnerabilities found".to_string()),
    }
}

fn sample_row(id: i64, ts: i64) -> CheckRow {
    row_from_record(&sample_record("a.spdx.json", "online", 0, ts), id)
}

#[test]
fn test_insert_and_count() {
    let mut table = temp_table();
    assert_eq!(count(&table), 0);
    insert(&mut table, &sample_record("a.spdx.json", "online", 0, 1000)).unwrap();
    insert(&mut table, &sample_record("b.spdx.json", "offline", 0, 2000)).unwrap();
    assert_eq!(count(&table), 2);
}

#[test]
fn test_insert_returns_incrementing_ids() {
    let mut table = temp_table();
    let id1 = insert(&mut table, &sample_record("a.spdx.json", "online", 0, 1000)).unwrap();
    let id2 = insert(&mut table, &sample_record("b.spdx.json", "online", 0, 2000)).unwrap();
    assert!(id2 > id1);
}

#[test]
fn test_query_checks_newest_first() {
    let mut table = temp_table();
    insert(&mut table, &sample_record("a.spdx.json", "online", 0, 1000)).unwrap();
    insert(&mut table, &sample_record("b.spdx.json", "online", 0, 3000)).unwrap();
    insert(&mut table, &sample_record("c.spdx.json", "offline", 1, 2000)).unwrap();

    let rows = query_checks(&table, None, None).unwrap();
    assert_eq!(rows.len(), 3);
    assert_eq!(rows[0].timestamp, 3000);
    assert_eq!(rows[1].timestamp, 2000);
    assert_eq!(rows[2].timestamp, 1000);
}

#[test]
fn test_query_checks_since_filter() {
    let mut table = temp_table();
    insert(&mut table, &sample_record("a.spdx.json", "online", 0, 1000)).unwrap();
    insert(&mut table, &sample_record("b.spdx.json", "online", 0, 2000)).unwrap();
    insert(&mut table, &sample_record("c.spdx.json", "online", 0, 3000)).unwrap();

    let rows = query_checks(&table, Some(1500), None).unwrap();
    assert_eq!(rows.len(), 2);
    assert!(rows.iter().all(|r| r.timestamp > 1500));
}

#[test]
fn test_query_checks_limit() {
    let mut table = temp_table();
    for ts in 1..=10 {
        insert(&mut table, &sample_record("a.spdx.json", "online", 0, ts)).unwrap();
    }
    let rows = query_checks(&table, None, Some(3)).unwrap();
    assert_eq!(rows.len(), 3);
}

#[test]
fn test_query_latest_per_sbom_returns_newest() {
    let mut table = temp_table();
    // Three checks for a.spdx.json: timestamps 1000, 2000, 3000.
    insert(&mut table, &sample_record("a.spdx.json", "online", 0, 1000)).unwrap();
    insert(&mut table, &sample_record("a.spdx.json", "online", 0, 3000)).unwrap();
    insert(&mut table, &sample_record("a.spdx.json", "offline", 0, 2000)).unwrap();
    // One check for b.spdx.json.
    insert(&mut table, &sample_record("b.spdx.json", "online", 1, 1500)).unwrap();

    let latest = query_latest_per_sbom(&table).unwrap();
    assert_eq!(latest.len(), 2);

    let a = latest
        .iter()
        .find(|r| r.sbom_path == "a.spdx.json")
        .unwrap();
    assert_eq!(
        a.timestamp, 3000,
        "should return the newest check for a.spdx.json"
    );

    let b = latest
        .iter()
        .find(|r| r.sbom_path == "b.spdx.json")
        .unwrap();
    assert_eq!(b.exit_code, 1);
}

#[test]
fn test_raw_output_truncated_at_limit() {
    let mut table = temp_table();
    let mut rec = sample_record("a.spdx.json", "online", 0, 1000);
    rec.raw_output = Some("x".repeat(MAX_OUTPUT_BYTES + 100));
    insert(&mut table, &rec).unwrap();

    let rows = query_checks(&table, None, None).unwrap();
    let stored = rows[0].raw_output.as_deref().unwrap_or("");
    assert!(stored.len() <= MAX_OUTPUT_BYTES);
    assert_eq!(stored.len(), MAX_OUTPUT_BYTES);
}

#[test]
fn test_result_label_matches_grype_exit_codes() {
    // grype: 0 = clean, 1 = application error, 2 = vulns at/above --fail-on
    assert_eq!(result_label(0), "clean");
    assert_eq!(result_label(1), "error");
    assert_eq!(result_label(2), "vulnerable");
    assert_eq!(result_label(99), "error");
}

#[test]
fn test_severity_counts_round_trip_through_db() {
    let mut table = temp_table();
    let mut rec = sample_record("a.spdx.json", "online", 2, 1000);
    rec.severity = SeverityCounts {
        critical: 3,
        high: 5,
        medium: 2,
        low: 1,
        negligible: 0,
        unknown: 4,
    };
    rec.total_vulns = rec.severity.total();
    rec.sarif_path = Some("/tmp/out.sarif".to_string());
    insert(&mut table, &rec).unwrap();

    let rows = query_checks(&table, None, None).unwrap();
    assert_eq!(rows[0].severity, rec.severity);
    assert_eq!(rows[0].total_vulns, 15);
    assert_eq!(rows[0].sarif_path.as_deref(), Some("/tmp/out.sarif"));
    assert_eq!(rows[0].result, "vulnerable");
}

#[test]
fn test_latest_per_sbom_carries_severity() {
    let mut table = temp_table();
    let mut old = sample_record("a.spdx.json", "online", 0, 1000);
    old.severity.high = 9;
    insert(&mut table, &old).unwrap();

    let mut new = sample_record("a.spdx.json", "online", 0, 2000);
    new.severity.high = 1;
    insert(&mut table, &new).unwrap();

    let latest = query_latest_per_sbom(&table).unwrap();
    assert_eq!(latest.len(), 1);
    assert_eq!(latest[0].severity.high, 1, "should carry the newest counts");
}

#[test]
fn an_inserted_record_reads_back() {
    let mut table = temp_table();
    let mut rec = sample_record("dir/a.spdx.json", "offline", 2, 1_789_693_680);
    rec.severity.medium = 8;
    rec.sarif_path = Some("a.sarif".to_string());
    rec.result = "ignored".to_string();
    rec.total_vulns = -7;
    let id = insert(&mut table, &rec).unwrap();
    let read = &query_checks(&table, None, None).unwrap()[0];
    assert_eq!(read.id, id);
    assert_eq!(read.timestamp, 1_789_693_680);
    assert_eq!(read.timestamp_iso.as_deref(), Some("2026-09-18 01:08:00"));
    assert_eq!(read.sbom_path, "dir/a.spdx.json");
    assert_eq!(read.mode, "offline");
    assert!(!read.db_updated);
    assert_eq!(read.exit_code, 2);
    assert_eq!(read.result, "vulnerable");
    assert_eq!(read.fail_on, "critical");
    assert_eq!(read.output_fmt, "table");
    assert_eq!(read.duration_ms, 500);
    assert_eq!(read.severity.medium, 8);
    assert_eq!(read.total_vulns, 8);
    assert_eq!(read.sarif_path.as_deref(), Some("a.sarif"));
    assert_eq!(read.raw_output.as_deref(), Some("No vulnerabilities found"));
}

#[test]
fn output_is_clipped_between_characters() {
    let mut rec = sample_record("a.spdx.json", "online", 0, 1);
    // Two bytes each, after one byte: the limit falls inside a character.
    let mut long = String::from("x");
    while long.len() <= MAX_OUTPUT_BYTES {
        long.push('\u{e9}');
    }
    rec.raw_output = Some(long.clone());
    let row = row_from_record(&rec, 4);
    let kept = row.raw_output.unwrap();
    assert_eq!(kept.len(), MAX_OUTPUT_BYTES - 1);
    assert!(long.starts_with(&kept));
    rec.raw_output = Some("y".repeat(MAX_OUTPUT_BYTES));
    assert_eq!(
        row_from_record(&rec, 4).raw_output.unwrap().len(),
        MAX_OUTPUT_BYTES
    );
    rec.raw_output = None;
    assert_eq!(row_from_record(&rec, 4).raw_output, None);
}

#[test]
fn rows_and_records_convert() {
    let mut row = sample_row(9, 5);
    row.db_updated = -3;
    row.severity.low = 2;
    row.severity.unknown = 3;
    row.exit_code = 1;
    let rec = row_to_record(&row, Some("when".to_string()));
    assert_eq!(rec.id, 9);
    assert!(rec.db_updated);
    assert_eq!(rec.result, "error");
    assert_eq!(rec.total_vulns, 5);
    assert_eq!(rec.timestamp_iso.as_deref(), Some("when"));
    row.db_updated = 0;
    assert!(!row_to_record(&row, None).db_updated);
}

#[test]
fn an_inserted_record_is_found_once() {
    let mut table = temp_table();
    for ts in 1..=98 {
        insert(&mut table, &sample_record("a.spdx.json", "online", 0, ts)).unwrap();
    }
    let mut rec = sample_record("old.spdx.json", "online", 2, -1);
    rec.severity.low = 3;
    let id = insert(&mut table, &rec).unwrap();
    let rows = query_checks(&table, None, None).unwrap();
    let found: Vec<&CheckRecord> = rows.iter().filter(|r| r.id == id).collect();
    assert_eq!(found.len(), 1);
    assert_eq!(found[0].sbom_path, "old.spdx.json");
    assert_eq!(found[0].total_vulns, 3);
    assert_eq!(found[0].raw_output, rec.raw_output);
}

#[test]
fn the_limit_is_kept_in_range() {
    let mut table = temp_table();
    for ts in 1..=101 {
        insert(&mut table, &sample_record("a.spdx.json", "online", 0, ts)).unwrap();
    }
    assert_eq!(query_checks(&table, None, None).unwrap().len(), 100);
    assert_eq!(query_checks(&table, None, Some(0)).unwrap().len(), 1);
    assert_eq!(query_checks(&table, None, Some(-5)).unwrap().len(), 1);
    assert_eq!(query_checks(&table, None, Some(i64::MAX)).unwrap().len(), 101);
    assert_eq!(table.select_checks(None, Some(10_001)).len(), 101);
    assert_eq!(clamp(10_001, 1, 10_000), 10_000);
    assert_eq!(clamp(1, 1, 10_000), 1);
}

#[test]
fn all_checks_are_returned_without_a_start() {
    let mut table = temp_table();
    insert(&mut table, &sample_record("a.spdx.json", "online", 0, 0)).unwrap();
    assert_eq!(query_checks(&table, None, None).unwrap().len(), 1);
    insert(&mut table, &sample_record("b.spdx.json", "online", 0, -10)).unwrap();
    assert_eq!(query_checks(&table, None, None).unwrap().len(), 2);
    assert_eq!(query_checks(&table, Some(0), None).unwrap().len(), 0);
    let rows = query_checks(&table, Some(-10), None).unwrap();
    assert_eq!(rows.len(), 1);
    assert_eq!(rows[0].sbom_path, "a.spdx.json");
    let rows = query_checks(&table, Some(-11), None).unwrap();
    assert_eq!(rows.len(), 2);
    assert_eq!(rows[1].timestamp_iso.as_deref(), Some("1969-12-31 23:59:50"));
}

#[test]
fn pulling_from_the_last_timestamp_gives_only_what_is_new() {
    let mut table = temp_table();
    insert(&mut table, &sample_record("a.spdx.json", "online", 0, 1000)).unwrap();
    insert(&mut table, &sample_record("b.spdx.json", "online", 0, 1200)).unwrap();
    let pulled = query_checks(&table, Some(0), None).unwrap();
    let last = pulled[0].timestamp;
    assert_eq!(query_checks(&table, Some(last), None).unwrap().len(), 0);
    let id = insert(&mut table, &sample_record("c.spdx.json", "online", 0, 1300)).unwrap();
    let more = query_checks(&table, Some(last), None).unwrap();
    assert_eq!(more.len(), 1);
    assert_eq!(more[0].id, id);
}

#[test]
fn among_equal_timestamps_the_later_row_comes_first() {
    let mut table = temp_table();
    for sbom in ["a", "b", "c"] {
        insert(&mut table, &sample_record(sbom, "online", 0, 50)).unwrap();
    }
    let rows = query_checks(&table, None, None).unwrap();
    let ids: Vec<i64> = rows.iter().map(|r| r.id).collect();
    assert_eq!(ids, vec![3, 2, 1]);
    assert_eq!(table.select_checks(None, Some(2)), vec![2, 1]);
}

#[test]
fn of_equally_late_checks_the_later_stored_is_the_latest() {
    let mut table = temp_table();
    insert(&mut table, &sample_record("a", "online", 0, 7)).unwrap();
    insert(&mut table, &sample_record("a", "online", 2, 7)).unwrap();
    insert(&mut table, &sample_record("a", "online", 0, 6)).unwrap();
    insert(&mut table, &sample_record("b", "online", 0, 9)).unwrap();
    assert_eq!(table.select_latest(), vec![3, 1]);
    let latest = query_latest_per_sbom(&table).unwrap();
    let ids: Vec<i64> = latest.iter().map(|r| r.id).collect();
    assert_eq!(ids, vec![4, 2]);
    let mut twice = temp_table();
    insert(&mut twice, &sample_record("a.spdx.json", "online", 0, 1000)).unwrap();
    insert(&mut twice, &sample_record("a.spdx.json", "online", 0, 1000)).unwrap();
    assert_eq!(query_latest_per_sbom(&twice).unwrap().len(), 1);
}

#[test]
fn a_table_takes_rows_with_growing_ids() {
    let rows = vec![sample_row(2, 5), sample_row(5, 4)];
    let mut table = CheckTable::from_rows(rows, 8).unwrap();
    assert_eq!(count(&table), 2);
    assert_eq!(table.rows()[1].id, 5);
    let id = insert(&mut table, &sample_record("a", "online", 0, 7)).unwrap();
    assert_eq!(id, 9);
    assert_eq!(table.rows()[2].id, 9);
    assert!(CheckTable::from_rows(vec![sample_row(2, 5), sample_row(2, 4)], 8).is_none());
    assert!(CheckTable::from_rows(vec![sample_row(3, 5), sample_row(2, 4)], 8).is_none());
    assert!(CheckTable::from_rows(vec![sample_row(9, 5)], 8).is_none());
    assert!(CheckTable::from_rows(vec![], -1).is_none());
    assert!(CheckTable::from_rows(vec![], 0).is_some());
}

#[test]
fn a_table_without_a_free_id_is_full() {
    let mut table = CheckTable::from_rows(vec![sample_row(2, 5)], i64::MAX).unwrap();
    let refused = insert(&mut table, &sample_record("a", "online", 0, 7));
    assert_eq!(refused, Err(InsertError::Full));
    assert_eq!(count(&table), 1);
}

#[test]
fn totals_that_do_not_fit_are_seen() {
    let mut rec = sample_record("a", "online", 0, 7);
    rec.severity.high = i64::MAX;
    let mut table = temp_table();
    insert(&mut table, &rec).unwrap();
    assert!(table.has_fitting_totals(&table.select_latest()));
    rec.severity.low = 1;
    rec.timestamp = 6;
    insert(&mut table, &rec).unwrap();
    // The row does not matter to a query that does not return it.
    assert!(table.has_fitting_totals(&table.select_latest()));
    assert!(table.has_fitting_totals(&table.select_checks(None, Some(1))));
    assert!(!table.has_fitting_totals(&table.select_checks(None, None)));
    assert_eq!(query_checks(&table, Some(6), None).unwrap()[0].total_vulns, i64::MAX);
}

#[test]
fn timestamps_without_a_date_have_no_text() {
    let mut table = temp_table();
    insert(&mut table, &sample_record("a", "online", 0, 253_402_300_799)).unwrap();
    insert(&mut table, &sample_record("a", "online", 0, 253_402_300_800)).unwrap();
    insert(&mut table, &sample_record("a", "online", 0, i64::MAX)).unwrap();
    insert(&mut table, &sample_record("a", "online", 0, -210_866_760_000)).unwrap();
    insert(&mut table, &sample_record("a", "online", 0, -210_866_760_001)).unwrap();
    let rows = query_checks(&table, Some(i64::MIN), None).unwrap();
    let texts: Vec<Option<&str>> = rows.iter().map(|r| r.timestamp_iso.as_deref()).collect();
    assert_eq!(
        texts,
        vec![
            None,
            None,
            Some("9999-12-31 23:59:59"),
            Some("-4713-11-24 12:00:00"),
            None
        ]
    );
}

#[test]
fn clock_readings_become_timestamps() {
    assert_eq!(unix_timestamp(None), 0);
    assert_eq!(unix_timestamp(Some(0)), 0);
    assert_eq!(unix_timestamp(Some(1_700_000_000)), 1_700_000_000);
    assert_eq!(unix_timestamp(Some(i64::MAX as u64)), i64::MAX);
    assert_eq!(unix_timestamp(Some(i64::MAX as u64 + 1)), i64::MIN);
    assert_eq!(unix_timestamp(Some(u64::MAX)), -1);
    let first = now_unix();
    let second = now_unix();
    assert!(first > 1_500_000_000);
    assert!(second >= first);
}
