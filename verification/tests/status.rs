use grype_verify::db::{CheckRecord, SeverityCounts};
use grype_verify::status::{
    minute_text, sbom_entry, sbom_name, severity_totals, status_flag, status_mode, summarize,
    StatusArgs,
};

fn record(path: &str, result: &str, mode: &str) -> CheckRecord {
    CheckRecord {
        id: 1,
        timestamp: 1_789_693_680,
        timestamp_iso: Some("2026-09-18 01:08:00".to_string()),
        sbom_path: path.to_string(),
        mode: mode.to_string(),
        db_updated: mode == "online",
        exit_code: 0,
        result: result.to_string(),
        fail_on: "critical".to_string(),
        output_fmt: "table".to_string(),
        duration_ms: 10,
        severity: SeverityCounts::default(),
        total_vulns: 0,
        sarif_path: None,
        raw_output: None,
    }
}

#[test]
fn one_line_for_one_sbom() {
    let args = StatusArgs {
        checks_db: "grype-checks.db".to_string(),
        json: false,
    };
    let mut rec = record("upf.spdx.json", "vulnerable", "online");
    rec.severity.high = 15;
    rec.severity.medium = 8;
    assert_eq!(
        summarize(12, &vec![rec], &args.checks_db).unwrap(),
        "grype-verify: VULNERABLE | checks=12 | db=grype-checks.db | online | \
         vulns=23 (C0 H15 M8 L0 N0 U0) | \
         upf.spdx.json:vulnerable[C0 H15 M8](2026-09-18 01:08)"
    );
    assert!(!args.json);
}

#[test]
fn one_line_for_several_sboms() {
    let mut a = record("/srv/a.json", "clean", "online");
    a.severity.low = 1;
    a.severity.unknown = 2;
    let mut b = record("b/..", "error", "offline");
    b.severity.critical = 3;
    b.severity.negligible = 4;
    b.timestamp_iso = None;
    assert_eq!(
        summarize(2, &vec![a, b], "x.db").unwrap(),
        "grype-verify: ERROR | checks=2 | db=x.db | offline | \
         vulns=10 (C3 H0 M0 L1 N4 U2) | \
         a.json:clean[C0 H0 M0](2026-09-18 01:08), b/..:error[C3 H0 M0](?)"
    );
}

#[test]
fn no_checks_yet() {
    assert_eq!(
        summarize(0, &vec![], "grype-checks.db").unwrap(),
        "grype-verify: no checks recorded yet (db=grype-checks.db)"
    );
}

#[test]
fn errors_outweigh_vulnerabilities() {
    let clean = || record("a", "clean", "online");
    let vulnerable = || record("b", "vulnerable", "online");
    let error = || record("c", "error", "online");
    assert_eq!(status_flag(&vec![clean(), clean()]), "CLEAN");
    assert_eq!(status_flag(&vec![clean(), vulnerable()]), "VULNERABLE");
    assert_eq!(status_flag(&vec![error(), vulnerable()]), "ERROR");
    assert_eq!(status_flag(&vec![vulnerable(), clean(), error()]), "ERROR");
    assert_eq!(status_flag(&vec![]), "CLEAN");
}

#[test]
fn one_offline_scan_makes_the_mode_offline() {
    let online = || record("a", "clean", "online");
    let offline = || record("a", "clean", "offline");
    assert_eq!(status_mode(&vec![online(), online()]), "online");
    assert_eq!(status_mode(&vec![online(), offline()]), "offline");
    assert_eq!(status_mode(&vec![]), "online");
}

#[test]
fn totals_are_added_up_level_by_level() {
    let mut a = record("a", "clean", "online");
    a.severity = SeverityCounts {
        critical: 1,
        high: 2,
        medium: 3,
        low: 4,
        negligible: 5,
        unknown: 6,
    };
    let mut b = record("b", "clean", "online");
    b.severity.high = 10;
    let totals = severity_totals(&vec![a, b]).unwrap();
    assert_eq!(totals.critical, 1);
    assert_eq!(totals.high, 12);
    assert_eq!(totals.medium, 3);
    assert_eq!(totals.low, 4);
    assert_eq!(totals.negligible, 5);
    assert_eq!(totals.unknown, 6);
    assert_eq!(totals.total(), 31);
    assert_eq!(severity_totals(&vec![]), Some(SeverityCounts::default()));
}

#[test]
fn totals_that_do_not_fit_have_no_summary() {
    let mut a = record("a", "clean", "online");
    a.severity.high = i64::MAX;
    let mut b = record("b", "clean", "online");
    b.severity.high = 1;
    assert_eq!(severity_totals(&vec![a, b]), None);
    let mut c = record("c", "clean", "online");
    c.severity.high = i64::MAX;
    let mut d = record("d", "clean", "online");
    d.severity.low = 1;
    let both = vec![c, d];
    assert_eq!(severity_totals(&both), None);
    assert_eq!(summarize(2, &both, "x"), None);
    assert!(summarize(0, &both, "x").is_some());
}

#[test]
fn names_are_file_names() {
    for path in [
        "a.json", "/a.json", "x/y/a.json", "x/a.json/", "x/a.json/.", "x//a.json//./", "..", "x/..",
        "/", ".", "./", "", "x/../a.json", "a/.b", "...",
    ] {
        let expected = std::path::Path::new(path)
            .file_name()
            .and_then(|n| n.to_str())
            .unwrap_or(path);
        assert_eq!(sbom_name(path), expected, "{path}");
    }
}

#[test]
fn entries_show_the_minute() {
    assert_eq!(minute_text(&None), "?");
    assert_eq!(minute_text(&Some("2026".to_string())), "2026");
    assert_eq!(
        minute_text(&Some("2026-09-18 01:08:59".to_string())),
        "2026-09-18 01:08"
    );
    assert_eq!(
        minute_text(&Some("-4713-11-24 12:00:00".to_string())),
        "-4713-11-24 12:00"
    );
    let mut rec = record("d/u.json", "clean", "online");
    rec.severity.critical = -1;
    assert_eq!(sbom_entry(&rec), "u.json:clean[C-1 H0 M0](2026-09-18 01:08)");
}
