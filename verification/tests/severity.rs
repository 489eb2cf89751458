use grype_verify::severity::{level_of, Level, ReportError, SeverityCounts};

/// A grype report with one match for each severity.
fn grype_json(severities: &[&str]) -> String {
    let matches: Vec<serde_json::Value> = severities
        .iter()
        .map(|s| {
            let mut vulnerability = serde_json::Map::new();
            vulnerability.insert(
                "severity".to_string(),
                serde_json::Value::String(s.to_string()),
            );
            let mut entry = serde_json::Map::new();
            entry.insert(
                "vulnerability".to_string(),
                serde_json::Value::Object(vulnerability),
            );
            serde_json::Value::Object(entry)
        })
        .collect();
    let mut report = serde_json::Map::new();
    report.insert("matches".to_string(), serde_json::Value::Array(matches));
    serde_json::Value::Object(report).to_string()
}

#[test]
fn test_severity_counts_from_grype_json() {
    let json = grype_json(&["Critical", "High", "High", "Medium", "Low", "Negligible"]);
    let c = SeverityCounts::from_grype_json(&json).unwrap();
    assert_eq!(c.critical, 1);
    assert_eq!(c.high, 2);
    assert_eq!(c.medium, 1);
    assert_eq!(c.low, 1);
    assert_eq!(c.negligible, 1);
    assert_eq!(c.unknown, 0);
    assert_eq!(c.total(), 6);
}

#[test]
fn test_severity_counts_case_insensitive() {
    let c = SeverityCounts::from_grype_json(&grype_json(&["CRITICAL", "critical"])).unwrap();
    assert_eq!(c.critical, 2);
}

#[test]
fn test_severity_counts_unrecognised_goes_to_unknown() {
    let c = SeverityCounts::from_grype_json(&grype_json(&["Unknown", "bogus"])).unwrap();
    assert_eq!(c.unknown, 2);
    assert_eq!(c.total(), 2);
}

#[test]
fn test_severity_counts_empty_matches() {
    let c = SeverityCounts::from_grype_json(&grype_json(&[])).unwrap();
    assert_eq!(c, SeverityCounts::default());
    assert_eq!(c.total(), 0);
}

#[test]
fn test_severity_counts_missing_severity_field() {
    let json = r#"{"matches":[{"vulnerability":{"id":"CVE-1"}}]}"#;
    let c = SeverityCounts::from_grype_json(json).unwrap();
    assert_eq!(c.unknown, 1);
}

#[test]
fn test_severity_counts_rejects_non_grype_json() {
    assert!(SeverityCounts::from_grype_json("not json").is_err());
    assert!(SeverityCounts::from_grype_json(r#"{"no_matches":[]}"#).is_err());
}

#[test]
fn report_errors_name_their_reason() {
    let not_json = SeverityCounts::from_grype_json("{\"matches\":[").unwrap_err();
    assert!(matches!(not_json, ReportError::NotJson(_)));
    assert_eq!(not_json.message(), "grype JSON report is not valid JSON");
    for text in ["[]", "{}", "7", "{\"matches\":{}}", "{\"matches\":null}"] {
        let e = SeverityCounts::from_grype_json(text).unwrap_err();
        assert!(matches!(e, ReportError::NoMatches), "{text}");
        assert_eq!(e.message(), "grype JSON report has no `matches` array");
    }
    assert_eq!(
        ReportError::TooManyMatches.message(),
        "grype JSON report has too many matches to count"
    );
}

#[test]
fn severities_of_other_types_are_unknown() {
    let json = r#"{"matches":[
        7,
        "High",
        {"vulnerability":"High"},
        {"vulnerability":{"severity":3}},
        {"vulnerability":{"severity":["High"]}},
        {"severity":"High"},
        {"vulnerability":{"severity":"HiGh"}}
    ]}"#;
    let c = SeverityCounts::from_grype_json(json).unwrap();
    assert_eq!(c.unknown, 6);
    assert_eq!(c.high, 1);
    assert_eq!(c.total(), 7);
}

#[test]
fn tally_of_parsed_report() {
    let report: serde_json::Value =
        serde_json::from_str(&grype_json(&["low", "LOW", "Medium"])).unwrap();
    let c = SeverityCounts::from_report(&report).unwrap();
    assert_eq!(c.low, 2);
    assert_eq!(c.medium, 1);
    assert_eq!(c.total(), 3);
    assert!(SeverityCounts::from_report(&serde_json::Value::Null).is_err());
}

#[test]
fn tally_ignores_the_order_of_matches() {
    let a = SeverityCounts::from_grype_json(&grype_json(&["High", "Low", "x", "high"])).unwrap();
    let b = SeverityCounts::from_grype_json(&grype_json(&["x", "high", "Low", "High"])).unwrap();
    assert_eq!(a, b);
    assert_eq!(a.total(), 4);
}

#[test]
fn joined_reports_add_up() {
    let a = SeverityCounts::from_grype_json(&grype_json(&["High", "Low"])).unwrap();
    let b = SeverityCounts::from_grype_json(&grype_json(&["low", "odd", "HIGH"])).unwrap();
    let both =
        SeverityCounts::from_grype_json(&grype_json(&["High", "Low", "low", "odd", "HIGH"]))
            .unwrap();
    assert_eq!(a.checked_plus(&b), Some(both));
    let more = r#"{"source":{"matches":[1,2]},"matches":[{"vulnerability":{"severity":"low"}}]}"#;
    assert_eq!(SeverityCounts::from_grype_json(more).unwrap().total(), 1);
}

#[test]
fn only_ascii_case_is_folded() {
    assert_eq!(level_of("cRiTiCaL"), Level::Critical);
    assert_eq!(level_of("NEGLIGIBLE"), Level::Negligible);
    // U+212A, the Kelvin sign, is no ASCII letter.
    assert_eq!(level_of("un\u{212a}nown"), Level::Unknown);
    assert_eq!(level_of(" high"), Level::Unknown);
    assert_eq!(level_of(""), Level::Unknown);
}

#[test]
fn sums_are_checked() {
    let mut a = SeverityCounts::default();
    a.critical = i64::MAX;
    assert_eq!(a.checked_total(), Some(i64::MAX));
    a.high = 1;
    assert_eq!(a.checked_total(), None);
    a.high = -1;
    a.medium = 5;
    assert_eq!(a.checked_total(), None);
    let mut b = SeverityCounts::default();
    b.critical = 1;
    assert_eq!(a.checked_plus(&b), None);
    b.critical = -2;
    b.unknown = 9;
    let sum = a.checked_plus(&b).unwrap();
    assert_eq!(sum.critical, i64::MAX - 2);
    assert_eq!(sum.high, -1);
    assert_eq!(sum.medium, 5);
    assert_eq!(sum.unknown, 9);
}
