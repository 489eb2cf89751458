use grype_verify::db::{
    count, insert, query_checks, query_latest_per_sbom, query_trend, result_label, CheckRecord,
    CheckRow, CheckTable, SeverityCounts,
};
use grype_verify::schema::{
    migrate, COUNT_ROWS, HAS_SEQUENCE, INSERT_ROW, SCHEMA, SELECT_LAST_ID, SELECT_MAX_ID,
    SELECT_ROWS, TABLE_INFO,
};
use rusqlite::types::Value;
use rusqlite::Connection;

fn columns(conn: &Connection) -> Vec<String> {
    let mut stmt = conn.prepare(TABLE_INFO).unwrap();
    let names = stmt
        .query_map([], |row| row.get::<_, String>(1))
        .unwrap()
        .collect::<rusqlite::Result<Vec<_>>>()
        .unwrap();
    names
}

fn run_migration(conn: &Connection) -> usize {
    let steps = migrate(&columns(conn));
    for step in &steps {
        conn.execute_batch(&step.statement).unwrap();
    }
    steps.len()
}

fn temp_conn() -> Connection {
    let conn = Connection::open_in_memory().unwrap();
    conn.execute_batch(SCHEMA).unwrap();
    run_migration(&conn);
    conn
}

fn last_id(conn: &Connection) -> i64 {
    let kept: bool = conn.query_row(HAS_SEQUENCE, [], |row| row.get(0)).unwrap();
    let query = if kept { SELECT_LAST_ID } else { SELECT_MAX_ID };
    conn.query_row(query, [], |row| row.get(0)).unwrap()
}

fn load(conn: &Connection, raw: bool) -> CheckTable {
    let mut stmt = conn.prepare(SELECT_ROWS).unwrap();
    let rows = stmt
        .query_map([raw], |row| {
            Ok(CheckRow {
                id: row.get(0)?,
                timestamp: row.get(1)?,
                sbom_path: row.get(2)?,
                mode: row.get(3)?,
                db_updated: row.get(4)?,
                exit_code: row.get(5)?,
                fail_on: row.get(6)?,
                output_fmt: row.get(7)?,
                duration_ms: row.get(8)?,
                severity: SeverityCounts {
                    critical: row.get(9)?,
                    high: row.get(10)?,
                    medium: row.get(11)?,
                    low: row.get(12)?,
                    negligible: row.get(13)?,
                    unknown: row.get(14)?,
                },
                sarif_path: row.get(15)?,
                raw_output: row.get(16)?,
            })
        })
        .unwrap()
        .collect::<rusqlite::Result<Vec<_>>>()
        .unwrap();
    CheckTable::from_rows(rows, last_id(conn)).unwrap()
}

fn optional(text: &Option<String>) -> Value {
    match text {
        Some(t) => Value::Text(t.clone()),
        None => Value::Null,
    }
}

fn store(conn: &Connection, rec: &CheckRecord) -> i64 {
    let mut table = CheckTable::from_rows(vec![], last_id(conn)).unwrap();
    let id = insert(&mut table, rec).unwrap();
    let row = &table.rows()[0];
    let values = vec![
        Value::Integer(row.id),
        Value::Integer(row.timestamp),
        Value::Text(row.sbom_path.clone()),
        Value::Text(row.mode.clone()),
        Value::Integer(row.db_updated as i64),
        Value::Integer(row.exit_code as i64),
        Value::Text(row.fail_on.clone()),
        Value::Text(row.output_fmt.clone()),
        Value::Integer(row.duration_ms),
        Value::Integer(row.severity.critical),
        Value::Integer(row.severity.high),
        Value::Integer(row.severity.medium),
        Value::Integer(row.severity.low),
        Value::Integer(row.severity.negligible),
        Value::Integer(row.severity.unknown),
        optional(&row.sarif_path),
        optional(&row.raw_output),
    ];
    conn.execute(INSERT_ROW, rusqlite::params_from_iter(values)).unwrap();
    id
}

fn sample_record(sbom: &str, mode: &str, exit_code: i32, ts: i64) -> CheckRecord {
    CheckRecord {
        id: 0,
        timestamp: ts,
        timestamp_iso: None,
        sbom_path: sbom.to_string(),
        mode: mode.to_string(),
        db_updated: mode == "online",
        exit_code,
        result: result_label(exit_code).to_string(),
        fail_on: "critical".to_string(),
        output_fmt: "table".to_string(),
        duration_ms: 500,
        severity: SeverityCounts::default(),
        total_vulns: 0,
        sarif_path: None,
        raw_output: Some("No vulnerabilities found".to_string()),
    }
}

const LEGACY_SCHEMA: &str = "CREATE TABLE checks (
         id          INTEGER PRIMARY KEY AUTOINCREMENT,
         timestamp   INTEGER NOT NULL,
         sbom_path   TEXT    NOT NULL,
         mode        TEXT    NOT NULL,
         db_updated  INTEGER NOT NULL,
         exit_code   INTEGER NOT NULL,
         fail_on     TEXT    NOT NULL,
         output_fmt  TEXT    NOT NULL,
         duration_ms INTEGER NOT NULL,
         raw_output  TEXT
     );
     INSERT INTO checks
        (timestamp, sbom_path, mode, db_updated, exit_code,
         fail_on, output_fmt, duration_ms, raw_output)
     VALUES (1000,'legacy.spdx.json','online',1,0,'critical','table',10,'old');";

#[test]
fn test_open_creates_schema() {
    let conn = temp_conn();
    let n: i64 = conn
        .query_row("SELECT COUNT(*) FROM checks", [], |r| r.get(0))
        .unwrap();
    assert_eq!(n, 0);
    assert_eq!(count(&load(&conn, true)), 0);
}

#[test]
fn test_migrate_adds_columns_to_legacy_schema() {
    let conn = Connection::open_in_memory().unwrap();
    // Recreate the pre-0.3.0 schema, which lacks severity and sarif columns.
    conn.execute_batch(LEGACY_SCHEMA).unwrap();

    run_migration(&conn);

    // The pre-existing row survives and reads back with zeroed counts.
    let rows = query_checks(&load(&conn, true), None, None).unwrap();
    assert_eq!(rows.len(), 1);
    assert_eq!(rows[0].sbom_path, "legacy.spdx.json");
    assert_eq!(rows[0].severity, SeverityCounts::default());
    assert_eq!(rows[0].sarif_path, None);
    assert_eq!(rows[0].raw_output.as_deref(), Some("old"));
}

#[test]
fn test_migrate_is_idempotent() {
    let conn = temp_conn();
    assert_eq!(run_migration(&conn), 0);
    assert_eq!(run_migration(&conn), 0);
    store(&conn, &sample_record("a.spdx.json", "online", 0, 1000));
    assert_eq!(count(&load(&conn, true)), 1);
}

#[test]
fn a_migration_adds_what_is_missing_in_order() {
    let conn = Connection::open_in_memory().unwrap();
    conn.execute_batch(LEGACY_SCHEMA).unwrap();
    let before = columns(&conn);
    let names: Vec<String> = migrate(&before).into_iter().map(|s| s.name).collect();
    assert_eq!(
        names,
        vec![
            "sev_critical",
            "sev_high",
            "sev_medium",
            "sev_low",
            "sev_negligible",
            "sev_unknown",
            "sarif_path"
        ]
    );
    assert_eq!(run_migration(&conn), 7);
    assert_eq!(columns(&conn), [before, names].concat());
    assert_eq!(run_migration(&conn), 0);
    let some = vec!["sev_low".to_string(), "SEV_HIGH".to_string()];
    let steps = migrate(&some);
    assert_eq!(steps.len(), 6);
    assert_eq!(
        steps[1].statement,
        "ALTER TABLE checks ADD COLUMN sev_high INTEGER NOT NULL DEFAULT 0;"
    );
    assert_eq!(
        steps[5].statement,
        "ALTER TABLE checks ADD COLUMN sarif_path TEXT;"
    );
}

#[test]
fn rows_survive_the_database() {
    let conn = temp_conn();
    let mut rec = sample_record("a.spdx.json", "online", 2, 1_789_693_680);
    rec.severity = SeverityCounts {
        critical: 1,
        high: 2,
        medium: 3,
        low: 4,
        negligible: 5,
        unknown: 6,
    };
    rec.sarif_path = Some("/tmp/a.sarif".to_string());
    assert_eq!(store(&conn, &rec), 1);
    assert_eq!(store(&conn, &sample_record("b.spdx.json", "offline", 1, 5)), 2);
    let table = load(&conn, true);
    let rows = query_checks(&table, None, None).unwrap();
    assert_eq!(rows.len(), 2);
    assert_eq!(rows[0].id, 1);
    assert_eq!(rows[0].timestamp_iso.as_deref(), Some("2026-09-18 01:08:00"));
    assert_eq!(rows[0].severity, rec.severity);
    assert_eq!(rows[0].total_vulns, 21);
    assert_eq!(rows[0].sarif_path.as_deref(), Some("/tmp/a.sarif"));
    assert!(rows[0].db_updated);
    assert_eq!(rows[1].mode, "offline");
    assert!(!rows[1].db_updated);
    assert_eq!(rows[1].result, "error");
    assert_eq!(rows[1].raw_output.as_deref(), Some("No vulnerabilities found"));
    // Without the output, everything else is the same.
    let bare = query_checks(&load(&conn, false), None, None).unwrap();
    assert_eq!(bare[0].raw_output, None);
    assert_eq!(bare[0].severity, rec.severity);
}

#[test]
fn ids_of_deleted_rows_are_not_given_again() {
    let conn = temp_conn();
    assert_eq!(last_id(&conn), 0);
    store(&conn, &sample_record("a", "online", 0, 1));
    store(&conn, &sample_record("b", "online", 0, 2));
    conn.execute_batch("DELETE FROM checks WHERE id = 2;").unwrap();
    assert_eq!(last_id(&conn), 2);
    assert_eq!(store(&conn, &sample_record("c", "online", 0, 3)), 3);
    assert_eq!(last_id(&conn), 3);
}

#[test]
fn a_table_without_autoincrement_is_loaded() {
    let conn = Connection::open_in_memory().unwrap();
    let plain = LEGACY_SCHEMA.replace("PRIMARY KEY AUTOINCREMENT", "PRIMARY KEY");
    conn.execute_batch(&plain).unwrap();
    conn.execute_batch(SCHEMA).unwrap();
    assert_eq!(run_migration(&conn), 7);
    assert_eq!(last_id(&conn), 1);
    let rows = query_checks(&load(&conn, true), None, None).unwrap();
    assert_eq!(rows.len(), 1);
    assert_eq!(rows[0].sbom_path, "legacy.spdx.json");
    assert_eq!(store(&conn, &sample_record("a", "online", 0, 5)), 2);
    let n: i64 = conn.query_row(COUNT_ROWS, [], |row| row.get(0)).unwrap();
    assert_eq!(n, 2);
    conn.execute_batch("DELETE FROM checks;").unwrap();
    assert_eq!(last_id(&conn), 0);
}

#[test]
fn rows_keep_their_values_across_a_migration() {
    let conn = Connection::open_in_memory().unwrap();
    conn.execute_batch(LEGACY_SCHEMA).unwrap();
    conn.execute_batch("ALTER TABLE checks ADD COLUMN sev_low INTEGER NOT NULL DEFAULT 4;")
        .unwrap();
    assert_eq!(run_migration(&conn), 6);
    let counts = load(&conn, true).rows()[0].severity;
    assert_eq!(counts.low, 4);
    assert_eq!(counts.checked_total(), Some(4));
    assert_eq!(run_migration(&conn), 0);
    let table = load(&conn, true);
    let kept = &table.rows()[0];
    assert_eq!(kept.id, 1);
    assert_eq!(kept.timestamp, 1000);
    assert_eq!(kept.duration_ms, 10);
    assert_eq!(kept.severity.low, 4);
    assert_eq!(kept.sarif_path, None);
}

#[test]
fn answers_agree_with_queries_of_the_database() {
    let conn = temp_conn();
    for (i, ts) in [500, 100, 900_000, 100, 86_399, 86_400, 0, -5].iter().enumerate() {
        let sbom = ["a", "b", "c"][i % 3];
        let mut rec = sample_record(sbom, "online", 0, *ts);
        rec.severity.high = i as i64;
        store(&conn, &rec);
    }
    let table = load(&conn, true);

    let ids = |sql: &str| -> Vec<i64> {
        let mut stmt = conn.prepare(sql).unwrap();
        let list = stmt
            .query_map([], |row| row.get(0))
            .unwrap()
            .collect::<rusqlite::Result<Vec<i64>>>()
            .unwrap();
        list
    };
    let found: Vec<i64> = query_checks(&table, None, Some(4))
        .unwrap()
        .iter()
        .map(|r| r.id)
        .collect();
    assert_eq!(
        found,
        ids("SELECT id FROM checks ORDER BY timestamp DESC LIMIT 4")
    );
    let found: Vec<i64> = query_checks(&table, Some(0), None)
        .unwrap()
        .iter()
        .map(|r| r.id)
        .collect();
    assert_eq!(
        found,
        ids("SELECT id FROM checks WHERE timestamp > 0 ORDER BY timestamp DESC LIMIT 100")
    );

    let mut latest: Vec<i64> = query_latest_per_sbom(&table)
        .unwrap()
        .iter()
        .map(|r| r.id)
        .collect();
    let mut expected = ids(
        "SELECT c.id FROM checks c INNER JOIN
             (SELECT sbom_path, MAX(timestamp) AS max_ts FROM checks GROUP BY sbom_path) m
             ON c.sbom_path = m.sbom_path AND c.timestamp = m.max_ts",
    );
    latest.sort();
    expected.sort();
    assert_eq!(latest, expected);

    let trend: Vec<(String, i64, i64)> = query_trend(&table, None)
        .unwrap()
        .into_iter()
        .map(|p| (p.day, p.scans, p.severity.high))
        .collect();
    let mut stmt = conn
        .prepare(
            "SELECT date(timestamp,'unixepoch') AS day, COUNT(*), SUM(sev_high)
             FROM checks GROUP BY day ORDER BY day DESC LIMIT 30",
        )
        .unwrap();
    let expected = stmt
        .query_map([], |row| Ok((row.get(0)?, row.get(1)?, row.get(2)?)))
        .unwrap()
        .collect::<rusqlite::Result<Vec<(String, i64, i64)>>>()
        .unwrap();
    assert_eq!(trend, expected);
}
