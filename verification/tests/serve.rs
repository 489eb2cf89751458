use grype_verify::db::{
    count, insert, CheckRecord, CheckTable, QueryError, SeverityCounts, TrendPoint,
};
use grype_verify::request::{parse_request, qparam, Request};
use grype_verify::serve::{
    answer_points, answer_records, banner, handle_checks, handle_connection, handle_health,
    handle_latest, handle_trend, http_err, http_ok, int_param, listen_address, send_list,
    send_results, wants_raw, Endpoint, Routed, ServeArgs,
};

// Build a minimal HTTP/1.1 request string the same way curl does.
fn make_request(method: &str, path: &str) -> String {
    format!("{method} {path} HTTP/1.1\r\nHost: localhost\r\n\r\n")
}

// Parse the first line of a request.
fn parse(raw: &str) -> Option<Request> {
    parse_request(raw.split_inclusive('\n').next().unwrap_or(""))
}

fn pair(key: &str, value: &str) -> (String, String) {
    (key.to_string(), value.to_string())
}

fn text(value: &str) -> serde_json::Value {
    serde_json::Value::String(value.to_string())
}

fn optional(value: &Option<String>) -> serde_json::Value {
    match value {
        Some(s) => text(s),
        None => serde_json::Value::Null,
    }
}

fn severity_json(s: &SeverityCounts) -> serde_json::Value {
    let mut map = serde_json::Map::new();
    map.insert("critical".to_string(), s.critical.into());
    map.insert("high".to_string(), s.high.into());
    map.insert("medium".to_string(), s.medium.into());
    map.insert("low".to_string(), s.low.into());
    map.insert("negligible".to_string(), s.negligible.into());
    map.insert("unknown".to_string(), s.unknown.into());
    serde_json::Value::Object(map)
}

fn records_json(records: &[CheckRecord]) -> String {
    let list: Vec<serde_json::Value> = records
        .iter()
        .map(|r| {
            let mut map = serde_json::Map::new();
            map.insert("id".to_string(), r.id.into());
            map.insert("timestamp".to_string(), r.timestamp.into());
            map.insert("timestamp_iso".to_string(), optional(&r.timestamp_iso));
            map.insert("sbom_path".to_string(), text(&r.sbom_path));
            map.insert("result".to_string(), text(&r.result));
            map.insert("severity".to_string(), severity_json(&r.severity));
            map.insert("total_vulns".to_string(), r.total_vulns.into());
            map.insert("sarif_path".to_string(), optional(&r.sarif_path));
            map.insert("raw_output".to_string(), optional(&r.raw_output));
            serde_json::Value::Object(map)
        })
        .collect();
    serde_json::Value::Array(list).to_string()
}

fn points_json(points: &[TrendPoint]) -> String {
    let list: Vec<serde_json::Value> = points
        .iter()
        .map(|p| {
            let mut map = serde_json::Map::new();
            map.insert("day".to_string(), text(&p.day));
            map.insert("scans".to_string(), p.scans.into());
            map.insert("severity".to_string(), severity_json(&p.severity));
            map.insert("total_vulns".to_string(), p.total_vulns.into());
            serde_json::Value::Object(map)
        })
        .collect();
    serde_json::Value::Array(list).to_string()
}

fn send_records(answer: Result<Vec<CheckRecord>, String>) -> String {
    match answer {
        Ok(records) => send_list(&records, Ok(records_json(&records))),
        Err(response) => response,
    }
}

fn send_points(answer: Result<Vec<TrendPoint>, String>) -> String {
    match answer {
        Ok(points) => send_list(&points, Ok(points_json(&points))),
        Err(response) => response,
    }
}

fn sample_record(timestamp: i64, exit_code: i32) -> CheckRecord {
    CheckRecord {
        id: 0,
        timestamp,
        timestamp_iso: None,
        sbom_path: "test.spdx.json".to_string(),
        mode: "online".to_string(),
        db_updated: true,
        exit_code,
        result: "clean".to_string(),
        fail_on: "critical".to_string(),
        output_fmt: "table".to_string(),
        duration_ms: 100,
        severity: SeverityCounts::default(),
        total_vulns: 0,
        sarif_path: None,
        raw_output: None,
    }
}

#[test]
fn test_parse_simple_get() {
    let req = parse(&make_request("GET", "/api/v1/health")).unwrap();
    assert_eq!(req.method, "GET");
    assert_eq!(req.path, "/api/v1/health");
    assert!(req.query.is_empty());
}

#[test]
fn test_parse_path_with_query() {
    let req = parse(&make_request("GET", "/api/v1/checks?since=1000&limit=50")).unwrap();
    assert_eq!(req.path, "/api/v1/checks");
    assert_eq!(qparam(&req.query, "since"), Some("1000"));
    assert_eq!(qparam(&req.query, "limit"), Some("50"));
}

#[test]
fn test_parse_raw_flag() {
    let req = parse(&make_request("GET", "/api/v1/checks?raw=1")).unwrap();
    assert_eq!(qparam(&req.query, "raw"), Some("1"));
}

#[test]
fn test_qparam_missing_key() {
    let query = vec![("since".to_string(), "100".to_string())];
    assert_eq!(qparam(&query, "limit"), None);
}

#[test]
fn test_http_ok_has_correct_content_length() {
    let body = r#"{"status":"ok"}"#.to_string();
    let response = http_ok(body.clone());
    let expected = format!("Content-Length: {}", body.len());
    assert!(response.contains(&expected));
    assert!(response.ends_with(&body));
}

#[test]
fn test_http_ok_content_type() {
    let response = http_ok("{}".to_string());
    assert!(response.contains("Content-Type: application/json"));
}

#[test]
fn test_http_err_contains_message() {
    let response = http_err("404 Not Found", "unknown endpoint");
    assert!(response.contains("404 Not Found"));
    assert!(response.contains("unknown endpoint"));
}

#[test]
fn test_handle_health_with_empty_db() {
    let table = CheckTable::new();
    let resp = handle_health(Ok(count(&table)));
    assert!(resp.contains("\"status\":\"ok\""));
    assert!(resp.contains("\"checks_count\":0"));
}

#[test]
fn test_handle_checks_empty() {
    let resp = send_records(handle_checks(Ok(CheckTable::new()), &[]));
    assert!(resp.contains("\"total\":0"));
    assert!(resp.contains("\"results\":[]"));
}

#[test]
fn test_handle_latest_with_data() {
    let mut table = CheckTable::new();
    let mut rec = sample_record(9999, 0);
    rec.severity = SeverityCounts {
        critical: 1,
        high: 2,
        ..Default::default()
    };
    rec.total_vulns = 3;
    insert(&mut table, &rec).unwrap();
    let resp = send_records(handle_latest(Ok(table), &[]));
    assert!(resp.contains("\"total\":1"));
    assert!(resp.contains("test.spdx.json"));
}

#[test]
fn test_handle_latest_includes_severity_breakdown() {
    let mut table = CheckTable::new();
    let mut rec = sample_record(9999, 2);
    rec.result = "vulnerable".to_string();
    rec.severity = SeverityCounts {
        critical: 4,
        high: 7,
        ..Default::default()
    };
    rec.total_vulns = 11;
    rec.sarif_path = Some("/tmp/x.sarif".to_string());
    insert(&mut table, &rec).unwrap();
    let resp = send_records(handle_latest(Ok(table), &[]));
    assert!(resp.contains("\"critical\":4"), "resp: {resp}");
    assert!(resp.contains("\"high\":7"));
    assert!(resp.contains("\"total_vulns\":11"));
    assert!(resp.contains("/tmp/x.sarif"));
}

#[test]
fn test_handle_trend_aggregates_by_day() {
    let mut table = CheckTable::new();
    for (ts, crit) in [(86_400, 1), (86_500, 2), (200_000, 5)] {
        let mut rec = sample_record(ts, 0);
        rec.sbom_path = "a.spdx.json".to_string();
        rec.duration_ms = 10;
        rec.severity.critical = crit;
        rec.total_vulns = rec.severity.total();
        insert(&mut table, &rec).unwrap();
    }
    let resp = send_points(handle_trend(Ok(table), &[]));
    // Two distinct days: 1970-01-02 (1+2 critical) and 1970-01-03 (5 critical)
    assert!(resp.contains("\"total\":2"), "resp: {resp}");
    assert!(resp.contains("1970-01-02"));
    assert!(resp.contains("1970-01-03"));
}

#[test]
fn responses_are_framed_exactly() {
    assert_eq!(
        http_ok("{\"n\":\"\u{e9}\"}".to_string()),
        "HTTP/1.1 200 OK\r\nContent-Type: application/json\r\nContent-Length: 10\r\n\
         Connection: close\r\n\r\n{\"n\":\"\u{e9}\"}"
    );
    assert_eq!(
        http_err("404 Not Found", "unknown endpoint"),
        "HTTP/1.1 404 Not Found\r\nContent-Type: application/json\r\nContent-Length: 28\r\n\
         Connection: close\r\n\r\n{\"error\":\"unknown endpoint\"}"
    );
}

#[test]
fn error_bodies_are_json() {
    for msg in [
        "bad \"x\"",
        "C:\\db\\a.db",
        "two\nlines\ttab\r\u{0}\u{1f}\u{8}",
        "\u{e9}\u{1f600}\u{7f}/",
        "",
    ] {
        let response = http_err("500 Internal Server Error", msg);
        let (head, body) = response.split_once("\r\n\r\n").unwrap();
        assert!(head.contains(&format!("Content-Length: {}\r\n", body.len())));
        let value: serde_json::Value = serde_json::from_str(body).unwrap();
        assert_eq!(value.get("error").and_then(|e| e.as_str()), Some(msg));
    }
    assert!(http_err("x", "bad \"x\"\n").ends_with("{\"error\":\"bad \\\"x\\\"\\u000a\"}"));
}

#[test]
fn request_lines_are_split_at_white_space() {
    assert!(parse_request("").is_none());
    assert!(parse_request(" \t\r\n").is_none());
    assert!(parse_request("GET").is_none());
    assert!(parse_request("GET \r\n").is_none());
    let req = parse_request("  GET\u{3000}/x\u{a0}HTTP/1.1").unwrap();
    assert_eq!(req.method, "GET");
    assert_eq!(req.path, "/x");
    // A zero width space is not white space.
    let req = parse_request("A\u{200b}B /y").unwrap();
    assert_eq!(req.method, "A\u{200b}B");
}

#[test]
fn queries_are_pairs_with_an_equals_sign() {
    let req = parse_request("GET /p?a=1&b&=2&c==3?&a=4&d= HTTP/1.1\r\n").unwrap();
    assert_eq!(req.path, "/p");
    assert_eq!(
        req.query,
        vec![
            pair("a", "1"),
            pair("", "2"),
            pair("c", "=3?"),
            pair("a", "4"),
            pair("d", "")
        ]
    );
    assert_eq!(qparam(&req.query, "a"), Some("1"));
    assert_eq!(qparam(&req.query, ""), Some("2"));
    assert_eq!(qparam(&req.query, "b"), None);
    assert_eq!(qparam(&req.query, "d"), Some(""));
    assert!(parse_request("GET /p? x").unwrap().query.is_empty());
    assert!(parse_request("GET ?k=v x").unwrap().path.is_empty());
}

#[test]
fn requests_are_routed_or_refused() {
    let routed = |line: &str| handle_connection(&parse_request(line));
    let endpoint = |line: &str| match routed(line) {
        Routed::Ask(e) => Some(e),
        Routed::Reply(_) => None,
    };
    let reply = |line: &str| match routed(line) {
        Routed::Ask(_) => None,
        Routed::Reply(text) => Some(text),
    };
    assert_eq!(endpoint("GET /api/v1/health x"), Some(Endpoint::Health));
    assert_eq!(endpoint("GET /api/v1/checks?since=1 x"), Some(Endpoint::Checks));
    assert_eq!(endpoint("GET /api/v1/checks/latest x"), Some(Endpoint::Latest));
    assert_eq!(endpoint("GET /api/v1/trend x"), Some(Endpoint::Trend));
    assert_eq!(
        reply("GET"),
        Some(http_err("400 Bad Request", "malformed request"))
    );
    assert_eq!(
        reply("POST /api/v1/checks x"),
        Some(http_err("405 Method Not Allowed", "only GET supported"))
    );
    assert_eq!(
        reply("get /api/v1/checks x"),
        Some(http_err("405 Method Not Allowed", "only GET supported"))
    );
    assert_eq!(
        reply("GET /api/v1/checks/ x"),
        Some(http_err("404 Not Found", "unknown endpoint"))
    );
}

#[test]
fn numbers_in_queries_are_optional() {
    let query = vec![
        pair("since", "+12"),
        pair("limit", "-9223372036854775808"),
        pair("days", "9223372036854775808"),
        pair("x", " 1"),
        pair("y", ""),
        pair("z", "-"),
    ];
    assert_eq!(int_param(&query, "since"), Some(12));
    assert_eq!(int_param(&query, "limit"), Some(i64::MIN));
    assert_eq!(int_param(&query, "days"), None);
    assert_eq!(int_param(&query, "x"), None);
    assert_eq!(int_param(&query, "y"), None);
    assert_eq!(int_param(&query, "z"), None);
    assert_eq!(int_param(&query, "none"), None);
}

#[test]
fn raw_output_is_sent_only_on_request() {
    assert!(wants_raw(&[pair("raw", "1")]));
    assert!(!wants_raw(&[pair("raw", "true")]));
    assert!(!wants_raw(&[pair("raw", "01")]));
    assert!(!wants_raw(&[pair("raw", "0"), pair("raw", "1")]));
    assert!(!wants_raw(&[]));
    let table = || {
        let mut table = CheckTable::new();
        let mut rec = sample_record(5, 0);
        rec.raw_output = Some("NAME INSTALLED".to_string());
        insert(&mut table, &rec).unwrap();
        table
    };
    let raw = [pair("raw", "1")];
    let with = handle_checks(Ok(table()), &raw).unwrap();
    assert_eq!(with[0].raw_output.as_deref(), Some("NAME INSTALLED"));
    let without = handle_checks(Ok(table()), &[]).unwrap();
    assert_eq!(without[0].raw_output, None);
    assert_eq!(without[0].sbom_path, "test.spdx.json");
    assert_eq!(
        handle_latest(Ok(table()), &raw).unwrap()[0]
            .raw_output
            .as_deref(),
        Some("NAME INSTALLED")
    );
    assert_eq!(handle_latest(Ok(table()), &[]).unwrap()[0].raw_output, None);
}

#[test]
fn since_and_limit_select_checks() {
    let table = || {
        let mut table = CheckTable::new();
        for ts in [10, 20, 30, 40] {
            insert(&mut table, &sample_record(ts, 0)).unwrap();
        }
        table
    };
    let stamps = |query: &[(String, String)]| -> Vec<i64> {
        handle_checks(Ok(table()), query)
            .unwrap()
            .iter()
            .map(|r| r.timestamp)
            .collect()
    };
    assert_eq!(stamps(&[]), vec![40, 30, 20, 10]);
    assert_eq!(stamps(&[pair("since", "20")]), vec![40, 30]);
    assert_eq!(stamps(&[pair("since", "10"), pair("limit", "2")]), vec![40, 30]);
    assert_eq!(stamps(&[pair("limit", "many")]), vec![40, 30, 20, 10]);
}

#[test]
fn failures_are_server_errors() {
    let down = || Err("cannot open x.db".to_string());
    let expected = http_err("500 Internal Server Error", "cannot open x.db");
    assert_eq!(handle_health(Err("cannot open x.db".to_string())), expected);
    assert_eq!(handle_checks(down(), &[]).unwrap_err(), expected);
    assert_eq!(handle_latest(down(), &[]).unwrap_err(), expected);
    assert_eq!(handle_trend(down(), &[]).unwrap_err(), expected);
    assert_eq!(send_results(3, Err("cannot open x.db".to_string())), expected);
    assert_eq!(
        answer_records(Err(QueryError::Undated), &[], "failed to query checks").unwrap_err(),
        http_err("500 Internal Server Error", "failed to query checks")
    );
    assert_eq!(
        answer_points(Err(QueryError::Overflow)).unwrap_err(),
        http_err("500 Internal Server Error", "failed to query severity trend")
    );
}

#[test]
fn a_trend_without_an_answer_is_a_server_error() {
    let mut table = CheckTable::new();
    insert(&mut table, &sample_record(i64::MAX, 0)).unwrap();
    assert_eq!(
        handle_trend(Ok(table), &[]).unwrap_err(),
        http_err("500 Internal Server Error", "failed to query severity trend")
    );
}

#[test]
fn health_and_results_bodies() {
    assert!(handle_health(Ok(12)).ends_with("\r\n\r\n{\"status\":\"ok\",\"checks_count\":12}"));
    assert!(send_results(2, Ok("[1,2]".to_string()))
        .ends_with("\r\n\r\n{\"total\":2,\"results\":[1,2]}"));
    assert_eq!(
        send_list(&vec![7, 8, 9], Ok("[7,8,9]".to_string())),
        http_ok("{\"total\":3,\"results\":[7,8,9]}".to_string())
    );
    assert_eq!(
        send_list(&Vec::<i64>::new(), Err("broken".to_string())),
        http_err("500 Internal Server Error", "broken")
    );
}

#[test]
fn the_server_shows_its_endpoints() {
    let args = ServeArgs {
        checks_db: "grype-checks.db".to_string(),
        port: 8080,
        bind: "127.0.0.1".to_string(),
    };
    let address = listen_address(&args);
    assert_eq!(address, "127.0.0.1:8080");
    assert_eq!(
        banner(&address),
        vec![
            "[grype-verify] API server listening on http://127.0.0.1:8080",
            "[grype-verify] Endpoints:",
            "  GET http://127.0.0.1:8080/api/v1/health",
            "  GET http://127.0.0.1:8080/api/v1/checks[?since=<unix_ts>&limit=<n>&raw=1]",
            "  GET http://127.0.0.1:8080/api/v1/checks/latest[?raw=1]",
            "  GET http://127.0.0.1:8080/api/v1/trend[?days=<n>]",
            "[grype-verify] Splunk: | rest url=\"http://127.0.0.1:8080/api/v1/checks\"",
        ]
    );
}
