use grype_verify::db::{insert, query_latest_per_sbom, CheckTable, SeverityCounts};
use grype_verify::scan::{
    after_scan, after_update, breakdown_line, conclude, grype_env, recorded_line, run_grype_scan,
    tally_report, try_db_update, Finished, ScanArgs,
};

fn args() -> ScanArgs {
    ScanArgs {
        sbom_file: "upf.spdx.json".to_string(),
        db_cache_dir: None,
        output: "table".to_string(),
        fail_on: "medium".to_string(),
        sarif_file: None,
        only_fixed: false,
        require_update: false,
        update_timeout: 30,
        checks_db: "grype-checks.db".to_string(),
    }
}

fn finished(status: Option<i32>, db_updated: bool) -> Finished {
    Finished {
        timestamp: 1_789_693_680,
        db_updated,
        status,
        duration_ms: 1234,
        raw_output: "NAME  INSTALLED".to_string(),
    }
}

fn pair(key: &str, value: &str) -> (String, String) {
    (key.to_string(), value.to_string())
}

fn report(severities: &[&str]) -> Option<String> {
    let list: Vec<String> = severities
        .iter()
        .map(|s| format!("{{\"vulnerability\":{{\"severity\":\"{s}\"}}}}"))
        .collect();
    Some(format!("{{\"matches\":[{}]}}", list.join(",")))
}

#[test]
fn the_cache_directory_is_passed_on() {
    assert!(grype_env(&None).is_empty());
    assert_eq!(
        grype_env(&Some("/nfs/db".to_string())),
        vec![pair("GRYPE_DB_CACHE_DIR", "/nfs/db")]
    );
}

#[test]
fn updates_have_a_timeout() {
    let mut a = args();
    let call = try_db_update(&a);
    assert_eq!(call.args, vec!["db", "update"]);
    assert_eq!(call.env, vec![pair("GRYPE_DB_UPDATE_TIMEOUT", "30s")]);
    a.db_cache_dir = Some("d".to_string());
    a.update_timeout = u64::MAX;
    assert_eq!(
        try_db_update(&a).env,
        vec![
            pair("GRYPE_DB_CACHE_DIR", "d"),
            pair("GRYPE_DB_UPDATE_TIMEOUT", "18446744073709551615s")
        ]
    );
}

#[test]
fn scans_are_called_with_their_targets() {
    let mut a = args();
    let call = run_grype_scan(&a, "/tmp/r.json", true);
    assert_eq!(
        call.args,
        vec![
            "--output",
            "table",
            "--fail-on",
            "medium",
            "--output",
            "json=/tmp/r.json",
            "sbom:upf.spdx.json"
        ]
    );
    assert_eq!(
        call.env,
        vec![
            pair("GRYPE_DB_AUTO_UPDATE", "false"),
            pair("GRYPE_DB_VALIDATE_AGE", "false")
        ]
    );
    a.sarif_file = Some("results.sarif".to_string());
    a.only_fixed = true;
    a.db_cache_dir = Some("/db".to_string());
    let call = run_grype_scan(&a, "r", false);
    assert_eq!(
        call.args,
        vec![
            "--output",
            "table",
            "--fail-on",
            "medium",
            "--output",
            "json=r",
            "--output",
            "sarif=results.sarif",
            "--only-fixed",
            "sbom:upf.spdx.json"
        ]
    );
    assert_eq!(call.env, vec![pair("GRYPE_DB_CACHE_DIR", "/db")]);
}

#[test]
fn a_failed_update_falls_back_to_the_cached_database() {
    let plan = after_update(&args(), false, "r").unwrap();
    assert_eq!(plan.mode, "offline");
    assert_eq!(
        plan.notice,
        "[grype-verify] WARNING: DB update failed \u{2014} using cached database. \
         Results may reflect stale vulnerability data."
    );
    assert!(plan.call.env.contains(&pair("GRYPE_DB_AUTO_UPDATE", "false")));
    let plan = after_update(&args(), true, "r").unwrap();
    assert_eq!(plan.mode, "online");
    assert_eq!(
        plan.notice,
        "[grype-verify] Database updated successfully (online mode)."
    );
    assert_eq!(plan.call.args.last().unwrap(), "sbom:upf.spdx.json");
}

#[test]
fn a_required_update_must_succeed() {
    let mut a = args();
    a.require_update = true;
    assert_eq!(
        after_update(&a, false, "r").err().unwrap(),
        "DB update failed and --require-update is set. \
         Ensure network connectivity to grype.anchore.io."
    );
    assert_eq!(after_update(&a, true, "r").unwrap().mode, "online");
}

#[test]
fn the_breakdown_is_shown() {
    let counts = SeverityCounts {
        high: 15,
        medium: 8,
        ..Default::default()
    };
    assert_eq!(
        breakdown_line(&counts),
        "[grype-verify] Severity breakdown: critical=0 high=15 medium=8 low=0 negligible=0 \
         unknown=0 (total=23)"
    );
}

#[test]
fn reports_are_tallied() {
    let counts = tally_report(&report(&["High", "low", "odd"])).unwrap();
    assert_eq!(counts.high, 1);
    assert_eq!(counts.low, 1);
    assert_eq!(counts.unknown, 1);
    assert_eq!(tally_report(&None).unwrap_err(), "grype wrote no JSON report");
    assert_eq!(
        tally_report(&Some("x".to_string())).unwrap_err(),
        "grype JSON report is not valid JSON"
    );
    assert_eq!(
        tally_report(&Some("{}".to_string())).unwrap_err(),
        "grype JSON report has no `matches` array"
    );
}

#[test]
fn a_scan_is_recorded() {
    let mut a = args();
    a.sarif_file = Some("out.sarif".to_string());
    let outcome = after_scan(&a, finished(Some(2), true), &report(&["Critical", "High", "High"]));
    assert_eq!(outcome.exit_code, 2);
    assert_eq!(
        outcome.notice,
        "[grype-verify] Severity breakdown: critical=1 high=2 medium=0 low=0 negligible=0 \
         unknown=0 (total=3)"
    );
    let rec = outcome.record.unwrap();
    assert_eq!(rec.id, 0);
    assert_eq!(rec.timestamp, 1_789_693_680);
    assert_eq!(rec.timestamp_iso, None);
    assert_eq!(rec.sbom_path, "upf.spdx.json");
    assert_eq!(rec.mode, "online");
    assert!(rec.db_updated);
    assert_eq!(rec.exit_code, 2);
    assert_eq!(rec.result, "vulnerable");
    assert_eq!(rec.fail_on, "medium");
    assert_eq!(rec.output_fmt, "table");
    assert_eq!(rec.duration_ms, 1234);
    assert_eq!(rec.severity.critical, 1);
    assert_eq!(rec.total_vulns, 3);
    assert_eq!(rec.sarif_path.as_deref(), Some("out.sarif"));
    assert_eq!(rec.raw_output.as_deref(), Some("NAME  INSTALLED"));
}

#[test]
fn a_scan_without_a_report_is_recorded_without_counts() {
    let outcome = after_scan(&args(), finished(Some(1), false), &None);
    assert_eq!(outcome.exit_code, 1);
    assert_eq!(
        outcome.notice,
        "[grype-verify] WARNING: no severity breakdown: grype wrote no JSON report"
    );
    let rec = outcome.record.unwrap();
    assert_eq!(rec.result, "error");
    assert_eq!(rec.mode, "offline");
    assert!(!rec.db_updated);
    assert_eq!(rec.severity, SeverityCounts::default());
    assert_eq!(rec.total_vulns, 0);
}

#[test]
fn an_empty_path_records_nothing() {
    let mut a = args();
    a.checks_db = String::new();
    let outcome = after_scan(&a, finished(Some(0), true), &report(&[]));
    assert_eq!(outcome.exit_code, 0);
    assert!(outcome.record.is_none());
}

#[test]
fn a_scan_that_ends_without_a_code_counts_as_vulnerable() {
    let outcome = conclude(&args(), finished(None, true), Err("lost".to_string()));
    assert_eq!(outcome.exit_code, 2);
    assert_eq!(outcome.record.unwrap().result, "vulnerable");
    assert!(outcome.notice.ends_with("no severity breakdown: lost"));
}

#[test]
fn a_recorded_scan_becomes_the_latest() {
    let mut table = CheckTable::new();
    let first = after_scan(&args(), finished(Some(0), true), &report(&[]));
    insert(&mut table, &first.record.unwrap()).unwrap();
    let mut later = finished(Some(2), false);
    later.timestamp += 60;
    let second = after_scan(&args(), later, &report(&["High"]));
    let id = insert(&mut table, &second.record.unwrap()).unwrap();
    let latest = query_latest_per_sbom(&table).unwrap();
    assert_eq!(latest.len(), 1);
    assert_eq!(latest[0].id, id);
    assert_eq!(latest[0].result, "vulnerable");
    assert_eq!(latest[0].mode, "offline");
    assert_eq!(latest[0].timestamp_iso.as_deref(), Some("2026-09-18 01:09:00"));
    assert_eq!(
        recorded_line(id, "grype-checks.db"),
        "[grype-verify] Result recorded (check id=2, db=grype-checks.db)."
    );
}
