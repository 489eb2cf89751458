//! The REST API: routing, answers and their framing as HTTP responses.
use crate::db::{
    all_timed, checks_after, is_timed, latest_checks, query_checks, query_latest_per_sbom, read_at,
    records_of, totals_fit, CheckRecord, CheckTable, QueryError, Record, Row,
};
use crate::request::{pairs, param_of, qparam, Request, RequestView};
use crate::text::{
    byte_count, byte_len, chars_of, decimal, digits, integer_value, law_decimal_reads_back,
    parse_integer, push_integer, push_natural, same_text, texts,
};
use crate::trend::{
    dates_follow_calendar, day_list, law_day_list_is_the_list, query_trend, reaches_undated,
    row_dates, trend_fits, trend_of, trends_of, TrendPoint,
};
use vstd::prelude::*;

verus! {

/// The options of the API server.
pub struct ServeArgs {
    /// Path of the checks database.
    pub checks_db: String,
    /// TCP port to listen on.
    pub port: u16,
    /// Address to bind.
    pub bind: String,
}

// ---------------------------------------------------------------------------
// Responses
// ---------------------------------------------------------------------------

/// An HTTP/1.1 response with a JSON body.
pub open spec fn response(status: Seq<char>, body: Seq<char>) -> Seq<char> {
    "HTTP/1.1 "@ + status + "\r\nContent-Type: application/json\r\nContent-Length: "@ + digits(
        byte_count(body),
    ) + "\r\nConnection: close\r\n\r\n"@ + body
}

/// The response to a request that succeeded.
pub open spec fn ok_response(body: Seq<char>) -> Seq<char> {
    response("200 OK"@, body)
}

/// The hexadecimal digit of a number below 16.
pub open spec fn hex_char(n: int) -> char {
    if n < 10 {
        (48 + n) as char
    } else {
        (87 + n) as char
    }
}

/// A character as it stands in a JSON string.
pub open spec fn escaped_char(c: char) -> Seq<char> {
    if c == '"' {
        seq!['\\', '"']
    } else if c == '\\' {
        seq!['\\', '\\']
    } else if c <= '\u{1f}' {
        seq!['\\', 'u', '0', '0', hex_char(c as int / 16), hex_char(c as int % 16)]
    } else {
        seq![c]
    }
}

/// A text as it stands in a JSON string: quotes, backslashes and control
/// characters are escaped.
pub open spec fn json_escaped(s: Seq<char>) -> Seq<char>
    decreases s.len(),
{
    if s.len() == 0 {
        Seq::empty()
    } else {
        escaped_char(s[0]) + json_escaped(s.drop_first())
    }
}

/// The response to a request that failed.
pub open spec fn error_response(status: Seq<char>, msg: Seq<char>) -> Seq<char> {
    response(status, "{\"error\":\""@ + json_escaped(msg) + "\"}"@)
}

proof fn lemma_char_is_a_number(c: char)
    ensures
        0 <= c as int,
{
}

fn hex_digit(n: u8) -> (c: char)
    requires
        n < 16,
    ensures
        c == hex_char(n as int),
{
    if n < 10 {
        (48 + n) as char
    } else {
        (87 + n) as char
    }
}

/// Appends a text as it stands in a JSON string.
fn push_escaped(out: &mut String, text: &str)
    ensures
        final(out)@ == old(out)@ + json_escaped(text@),
{
    let chars = chars_of(text);
    let ghost before = out@;
    let mut i: usize = 0;
    proof {
        assert(text@.skip(0) =~= text@);
    }
    while i < chars.len()
        invariant
            i <= chars@.len(),
            chars@ == text@,
            before + json_escaped(text@) == out@ + json_escaped(text@.skip(i as int)),
        decreases chars@.len() - i,
    {
        let c: char = chars[i];
        let ghost so_far = out@;
        proof {
            assert(text@.skip(i as int)[0] == c);
            assert(text@.skip(i as int).drop_first() =~= text@.skip(i + 1));
        }
        if c == '"' || c == '\\' {
            out.push('\\');
            out.push(c);
        } else if c <= '\u{1f}' {
            proof {
                lemma_char_is_a_number(c);
            }
            let n: u8 = c as u8;
            out.push('\\');
            out.push('u');
            out.push('0');
            out.push('0');
            out.push(hex_digit(n / 16));
            out.push(hex_digit(n % 16));
        } else {
            out.push(c);
        }
        proof {
            assert(out@ =~= so_far + escaped_char(c));
            assert(so_far + json_escaped(text@.skip(i as int)) =~= out@ + json_escaped(
                text@.skip(i + 1),
            ));
        }
        i += 1;
    }
    proof {
        assert(text@.skip(i as int).len() == 0);
        assert(out@ + json_escaped(text@.skip(i as int)) =~= out@);
    }
}

fn frame(status: &str, body: &str) -> (text: String)
    ensures
        text@ == response(status@, body@),
{
    let mut text = "HTTP/1.1 ".to_string();
    text.append(status);
    text.append("\r\nContent-Type: application/json\r\nContent-Length: ");
    push_natural(&mut text, byte_len(body) as u64);
    text.append("\r\nConnection: close\r\n\r\n");
    text.append(body);
    text
}

/// The response to a request that succeeded.
pub fn http_ok(body: String) -> (text: String)
    ensures
        text@ == ok_response(body@),
{
    frame("200 OK", &body)
}

/// The response to a request that failed; its body is the JSON object
/// `{"error":"<msg>"}`.
pub fn http_err(status: &str, msg: &str) -> (text: String)
    ensures
        text@ == error_response(status@, msg@),
{
    let mut body = "{\"error\":\"".to_string();
    push_escaped(&mut body, msg);
    body.append("\"}");
    frame(status, &body)
}

// ---------------------------------------------------------------------------
// Routing
// ---------------------------------------------------------------------------

/// What a client can ask for.
#[derive(Debug, Clone, Copy, PartialEq, Eq, Structural)]
pub enum Endpoint {
    Health,
    Checks,
    Latest,
    Trend,
}

/// What becomes of a request.
pub enum Routed {
    /// The response is known without the database.
    Reply(String),
    /// An endpoint has to answer.
    Ask(Endpoint),
}

/// The endpoint at a path.
pub open spec fn endpoint_at(path: Seq<char>) -> Option<Endpoint> {
    if path == "/api/v1/health"@ {
        Some(Endpoint::Health)
    } else if path == "/api/v1/checks/latest"@ {
        Some(Endpoint::Latest)
    } else if path == "/api/v1/checks"@ {
        Some(Endpoint::Checks)
    } else if path == "/api/v1/trend"@ {
        Some(Endpoint::Trend)
    } else {
        None
    }
}

/// The response to a request that no endpoint answers; `None` when one does.
pub open spec fn refusal(request: Option<RequestView>) -> Option<Seq<char>> {
    match request {
        None => Some(error_response("400 Bad Request"@, "malformed request"@)),
        Some(r) => if r.method != "GET"@ {
            Some(error_response("405 Method Not Allowed"@, "only GET supported"@))
        } else if endpoint_at(r.path) is None {
            Some(error_response("404 Not Found"@, "unknown endpoint"@))
        } else {
            None
        },
    }
}

/// A request that may be absent, as a value.
pub open spec fn request_view(request: Option<Request>) -> Option<RequestView> {
    match request {
        Some(r) => Some(r@),
        None => None,
    }
}

/// Decides what becomes of a request; `None` stands for one that could not be
/// read.
pub fn handle_connection(request: &Option<Request>) -> (routed: Routed)
    ensures
        match routed {
            Routed::Reply(text) => refusal(request_view(*request)) == Some(text@),
            Routed::Ask(endpoint) => refusal(request_view(*request)) is None && (
            request matches Some(r) && endpoint_at(r.path@) == Some(endpoint)),
        },
{
    let request = match request {
        Some(r) => r,
        None => return Routed::Reply(http_err("400 Bad Request", "malformed request")),
    };
    if !same_text(&request.method, "GET") {
        return Routed::Reply(http_err("405 Method Not Allowed", "only GET supported"));
    }
    if same_text(&request.path, "/api/v1/health") {
        Routed::Ask(Endpoint::Health)
    } else if same_text(&request.path, "/api/v1/checks/latest") {
        Routed::Ask(Endpoint::Latest)
    } else if same_text(&request.path, "/api/v1/checks") {
        Routed::Ask(Endpoint::Checks)
    } else if same_text(&request.path, "/api/v1/trend") {
        Routed::Ask(Endpoint::Trend)
    } else {
        Routed::Reply(http_err("404 Not Found", "unknown endpoint"))
    }
}

// ---------------------------------------------------------------------------
// Endpoints
// ---------------------------------------------------------------------------

/// A parameter that is a 64-bit integer; anything else is as if it were absent.
pub open spec fn number_param(
    query: Seq<(Seq<char>, Seq<char>)>,
    key: Seq<char>,
) -> Option<i64> {
    match param_of(query, key) {
        Some(value) => integer_value(value),
        None => None,
    }
}

/// Whether the raw output is asked for: `raw=1`.
pub open spec fn raw_wanted(query: Seq<(Seq<char>, Seq<char>)>) -> bool {
    param_of(query, "raw"@) == Some("1"@)
}

/// The records as a client sees them: without the raw output unless it is asked
/// for.
pub open spec fn shown(records: Seq<Record>, raw: bool) -> Seq<Record> {
    if raw {
        records
    } else {
        records.map_values(|r: Record| Record { raw_output: None, ..r })
    }
}

/// The response to a request that failed inside the server.
pub open spec fn server_error(msg: Seq<char>) -> Seq<char> {
    error_response("500 Internal Server Error"@, msg)
}

/// The body that holds a list of results.
pub open spec fn results_body(total: int, list: Seq<char>) -> Seq<char> {
    "{\"total\":"@ + decimal(total) + ",\"results\":"@ + list + "}"@
}

/// A parameter that is a 64-bit integer.
pub fn int_param(query: &[(String, String)], key: &str) -> (value: Option<i64>)
    ensures
        value == number_param(pairs(query@), key@),
{
    match qparam(query, key) {
        Some(text) => parse_integer(text),
        None => None,
    }
}

/// Whether the raw output is asked for.
pub fn wants_raw(query: &[(String, String)]) -> (raw: bool)
    ensures
        raw == raw_wanted(pairs(query@)),
{
    match qparam(query, "raw") {
        Some(text) => same_text(text, "1"),
        None => false,
    }
}

/// Leaves the raw output out of the records.
fn drop_raw(records: &mut Vec<CheckRecord>)
    ensures
        records_of(final(records)@) == shown(records_of(old(records)@), false),
{
    let ghost before = records@;
    let mut i: usize = 0;
    while i < records.len()
        invariant
            i <= records@.len() == before.len(),
            forall|j: int|
                0 <= j < i ==> (#[trigger] records@[j])@ == (Record {
                    raw_output: None,
                    ..before[j]@
                }),
            forall|j: int| i <= j < records@.len() ==> #[trigger] records@[j] == before[j],
        decreases records@.len() - i,
    {
        records[i].raw_output = None;
        i += 1;
    }
    proof {
        assert(records_of(records@) =~= shown(records_of(before), false));
    }
}

/// Answers `/api/v1/health`, given the number of checks or the reason why they
/// could not be counted.
pub fn handle_health(counted: Result<i64, String>) -> (text: String)
    ensures
        text@ == (match counted {
            Ok(n) => ok_response(
                "{\"status\":\"ok\",\"checks_count\":"@ + decimal(n as int) + "}"@,
            ),
            Err(msg) => server_error(msg@),
        }),
{
    match counted {
        Ok(n) => {
            let mut body = "{\"status\":\"ok\",\"checks_count\":".to_string();
            push_integer(&mut body, n);
            body.append("}");
            http_ok(body)
        },
        Err(msg) => http_err("500 Internal Server Error", &msg),
    }
}

/// The answer to a query for records, given what the query found and what a
/// failure is reported as: the records to send, or the response to a failure.
pub fn answer_records(
    found: Result<Vec<CheckRecord>, QueryError>,
    query: &[(String, String)],
    failure: &str,
) -> (answer: Result<Vec<CheckRecord>, String>)
    ensures
        match found {
            Ok(records) => answer matches Ok(sent) && records_of(sent@) == shown(
                records_of(records@),
                raw_wanted(pairs(query@)),
            ),
            Err(_) => answer matches Err(text) && text@ == server_error(failure@),
        },
{
    match found {
        Ok(mut records) => {
            if !wants_raw(query) {
                drop_raw(&mut records);
            }
            Ok(records)
        },
        Err(_) => Err(http_err("500 Internal Server Error", failure)),
    }
}

/// The answer to a query for a trend, given what the query found: the points to
/// send, or the response to a failure.
pub fn answer_points(found: Result<Vec<TrendPoint>, QueryError>) -> (answer: Result<
    Vec<TrendPoint>,
    String,
>)
    ensures
        match found {
            Ok(points) => answer == Ok::<Vec<TrendPoint>, String>(points),
            Err(_) => answer matches Err(text) && text@ == server_error(
                "failed to query severity trend"@,
            ),
        },
{
    match found {
        Ok(points) => Ok(points),
        Err(_) => Err(http_err("500 Internal Server Error", "failed to query severity trend")),
    }
}

proof fn lemma_shown_is_timed(records: Seq<Record>, raw: bool)
    requires
        all_timed(records),
    ensures
        all_timed(shown(records, raw)),
{
    assert forall|k: int| 0 <= k < shown(records, raw).len() implies is_timed(
        #[trigger] shown(records, raw)[k],
    ) by {
        assert(is_timed(records[k]));
    }
}

/// Answers `/api/v1/checks`, given the table or the reason why it could not be
/// loaded: the records to send, or the response to a failure.
pub fn handle_checks(loaded: Result<CheckTable, String>, query: &[(String, String)]) -> (answer:
    Result<Vec<CheckRecord>, String>)
    requires
        loaded matches Ok(table) ==> totals_fit(
            table@,
            checks_after(
                table@,
                number_param(pairs(query@), "since"@),
                number_param(pairs(query@), "limit"@),
            ),
        ),
    ensures
        match loaded {
            Ok(table) => {
                let list = pairs(query@);
                let picked = checks_after(
                    table@,
                    number_param(list, "since"@),
                    number_param(list, "limit"@),
                );
                match answer {
                    Ok(records) => records_of(records@) == shown(
                        read_at(table@, picked),
                        raw_wanted(list),
                    ) && all_timed(records_of(records@)),
                    Err(text) => picked.len() > 0 && text@ == server_error(
                        "failed to query checks"@,
                    ),
                }
            },
            Err(msg) => answer matches Err(text) && text@ == server_error(msg@),
        },
{
    let since = int_param(query, "since");
    let limit = int_param(query, "limit");
    let table = match loaded {
        Ok(table) => table,
        Err(msg) => return Err(http_err("500 Internal Server Error", &msg)),
    };
    let found = query_checks(&table, since, limit);
    proof {
        if let Ok(records) = &found {
            lemma_shown_is_timed(records_of(records@), raw_wanted(pairs(query@)));
        }
    }
    answer_records(found, query, "failed to query checks")
}

/// Answers `/api/v1/checks/latest`, given the table or the reason why it could
/// not be loaded: the records to send, or the response to a failure.
pub fn handle_latest(loaded: Result<CheckTable, String>, query: &[(String, String)]) -> (answer:
    Result<Vec<CheckRecord>, String>)
    requires
        loaded matches Ok(table) ==> totals_fit(table@, latest_checks(table@)),
    ensures
        match loaded {
            Ok(table) => match answer {
                Ok(records) => records_of(records@) == shown(
                    read_at(table@, latest_checks(table@)),
                    raw_wanted(pairs(query@)),
                ) && all_timed(records_of(records@)),
                Err(text) => table@.len() > 0 && text@ == server_error(
                    "failed to query latest checks"@,
                ),
            },
            Err(msg) => answer matches Err(text) && text@ == server_error(msg@),
        },
{
    let table = match loaded {
        Ok(table) => table,
        Err(msg) => return Err(http_err("500 Internal Server Error", &msg)),
    };
    let found = query_latest_per_sbom(&table);
    proof {
        if let Ok(records) = &found {
            lemma_shown_is_timed(records_of(records@), raw_wanted(pairs(query@)));
        }
    }
    answer_records(found, query, "failed to query latest checks")
}

/// A trend has an answer: no sum leaves 64 bits and every check has a date.
pub open spec fn trend_answers(rows: Seq<Row>, limit: Option<i64>) -> bool {
    trend_fits(rows, row_dates(rows), limit) && !reaches_undated(row_dates(rows), limit)
}

/// Answers `/api/v1/trend`, given the table or the reason why it could not be
/// loaded: the points to send, or the response to a failure.
pub fn handle_trend(loaded: Result<CheckTable, String>, query: &[(String, String)]) -> (answer:
    Result<Vec<TrendPoint>, String>)
    requires
        loaded matches Ok(table) ==> table.wf(),
    ensures
        match loaded {
            Ok(table) => {
                let days = number_param(pairs(query@), "days"@);
                match answer {
                    Ok(points) => trend_answers(table@, days) && dates_follow_calendar(
                        table@,
                        row_dates(table@),
                    ) && trends_of(points@) == trend_of(table@, row_dates(table@), days),
                    Err(text) => table@.len() > 0 && text@ == server_error(
                        "failed to query severity trend"@,
                    ),
                }
            },
            Err(msg) => answer matches Err(text) && text@ == server_error(msg@),
        },
{
    let days = int_param(query, "days");
    let table = match loaded {
        Ok(table) => table,
        Err(msg) => return Err(http_err("500 Internal Server Error", &msg)),
    };
    proof {
        lemma_empty_trend_answers(table@, days);
    }
    answer_points(query_trend(&table, days))
}

/// A table without rows has a trend.
proof fn lemma_empty_trend_answers(rows: Seq<Row>, limit: Option<i64>)
    ensures
        rows.len() == 0 ==> trend_answers(rows, limit),
{
    if rows.len() == 0 {
        let dates = row_dates(rows);
        law_day_list_is_the_list(dates);
        let list = day_list(dates);
        if list.len() > 0 {
            assert(dates.contains(Some(list[0])));
        }
    }
}

/// The response that sends a list, given its length and its JSON text or the
/// reason why it could not be written.
pub fn send_results(total: usize, encoded: Result<String, String>) -> (text: String)
    ensures
        text@ == (match encoded {
            Ok(list) => ok_response(results_body(total as int, list@)),
            Err(msg) => server_error(msg@),
        }),
{
    match encoded {
        Ok(list) => {
            let mut body = "{\"total\":".to_string();
            push_natural(&mut body, total as u64);
            body.append(",\"results\":");
            body.append(&list);
            body.append("}");
            http_ok(body)
        },
        Err(msg) => http_err("500 Internal Server Error", &msg),
    }
}

/// The response that sends a list, given its JSON text or the reason why it could
/// not be written. The total that it states is the length of the list.
pub fn send_list<T>(list: &Vec<T>, encoded: Result<String, String>) -> (text: String)
    ensures
        text@ == (match encoded {
            Ok(js) => ok_response(results_body(list@.len() as int, js@)),
            Err(msg) => server_error(msg@),
        }),
{
    send_results(list.len(), encoded)
}

// ---------------------------------------------------------------------------
// Start
// ---------------------------------------------------------------------------

/// The address that the server listens on: `bind:port`.
pub fn listen_address(args: &ServeArgs) -> (address: String)
    ensures
        address@ == args.bind@ + ":"@ + digits(args.port as nat),
{
    let mut address = args.bind.clone();
    address.append(":");
    push_natural(&mut address, args.port as u64);
    address
}

/// One endpoint in the list that the server shows when it starts.
pub open spec fn endpoint_line(address: Seq<char>, rest: Seq<char>) -> Seq<char> {
    "  GET http://"@ + address + rest
}

/// The lines that the server shows when it starts.
pub open spec fn banner_lines(address: Seq<char>) -> Seq<Seq<char>> {
    seq![
        "[grype-verify] API server listening on http://"@ + address,
        "[grype-verify] Endpoints:"@,
        endpoint_line(address, "/api/v1/health"@),
        endpoint_line(address, "/api/v1/checks[?since=<unix_ts>&limit=<n>&raw=1]"@),
        endpoint_line(address, "/api/v1/checks/latest[?raw=1]"@),
        endpoint_line(address, "/api/v1/trend[?days=<n>]"@),
        "[grype-verify] Splunk: | rest url=\"http://"@ + address + "/api/v1/checks\""@,
    ]
}

fn concat3(a: &str, b: &str, c: &str) -> (text: String)
    ensures
        text@ == a@ + b@ + c@,
{
    let mut text = a.to_string();
    text.append(b);
    text.append(c);
    text
}

/// The lines that the server shows when it starts.
pub fn banner(address: &str) -> (lines: Vec<String>)
    ensures
        texts(lines@) == banner_lines(address@),
{
    let mut lines: Vec<String> = Vec::new();
    let first = concat3("[grype-verify] API server listening on http://", address, "");
    proof {
        reveal_strlit("");
        assert(first@ =~= "[grype-verify] API server listening on http://"@ + address@);
    }
    lines.push(first);
    lines.push("[grype-verify] Endpoints:".to_string());
    lines.push(concat3("  GET http://", address, "/api/v1/health"));
    lines.push(
        concat3("  GET http://", address, "/api/v1/checks[?since=<unix_ts>&limit=<n>&raw=1]"),
    );
    lines.push(concat3("  GET http://", address, "/api/v1/checks/latest[?raw=1]"));
    lines.push(concat3("  GET http://", address, "/api/v1/trend[?days=<n>]"));
    lines.push(
        concat3("[grype-verify] Splunk: | rest url=\"http://", address, "/api/v1/checks\""),
    );
    proof {
        assert(texts(lines@) =~= banner_lines(address@));
    }
    lines
}

// ---------------------------------------------------------------------------
// Laws
// ---------------------------------------------------------------------------

/// Law: a response ends with its body, and the length that it announces reads
/// back as the number of bytes of the body.
pub proof fn law_content_length_is_the_body_length(status: Seq<char>, body: Seq<char>)
    requires
        byte_count(body) <= i64::MAX,
    ensures
        response(status, body).skip(response(status, body).len() - body.len()) == body,
        integer_value(digits(byte_count(body))) == Some(byte_count(body) as i64),
{
    assert(response(status, body).skip(response(status, body).len() - body.len()) =~= body);
    law_decimal_reads_back(byte_count(body) as i64);
}

/// Law: a request is answered by an endpoint exactly when it could be read, its
/// method is GET and its path is one of the four endpoints; otherwise it is
/// refused with an error response.
pub proof fn law_every_request_is_answered_or_refused(request: Option<RequestView>)
    ensures
        refusal(request) is None <==> (request matches Some(r) && r.method == "GET"@
            && endpoint_at(r.path) is Some),
{
}

/// Law: the raw output never leaves the server unless it is asked for with
/// `raw=1`, and nothing else of a record changes.
pub proof fn law_raw_output_only_on_request(
    records: Seq<Record>,
    query: Seq<(Seq<char>, Seq<char>)>,
    k: int,
)
    requires
        0 <= k < records.len(),
    ensures
        shown(records, raw_wanted(query)).len() == records.len(),
        !raw_wanted(query) ==> shown(records, raw_wanted(query))[k] == (Record {
            raw_output: None,
            ..records[k]
        }),
        raw_wanted(query) ==> shown(records, raw_wanted(query))[k] == records[k],
{
}

/// The character that a backslash and `c` stand for in a JSON string.
pub open spec fn short_escape(c: char) -> Option<char> {
    if c == '"' || c == '\\' || c == '/' {
        Some(c)
    } else if c == 'b' {
        Some('\u{8}')
    } else if c == 'f' {
        Some('\u{c}')
    } else if c == 'n' {
        Some('\n')
    } else if c == 'r' {
        Some('\r')
    } else if c == 't' {
        Some('\t')
    } else {
        None
    }
}

/// The number that a hexadecimal digit stands for.
pub open spec fn hex_value(c: char) -> Option<int> {
    if '0' <= c && c <= '9' {
        Some(c as int - 48)
    } else if 'a' <= c && c <= 'f' {
        Some(c as int - 87)
    } else if 'A' <= c && c <= 'F' {
        Some(c as int - 55)
    } else {
        None
    }
}

/// The character that `\u` and the four characters stand for in a JSON string;
/// `None` when they are no digits or half of a surrogate pair.
pub open spec fn unicode_escape(a: char, b: char, c: char, d: char) -> Option<char> {
    match (hex_value(a), hex_value(b), hex_value(c), hex_value(d)) {
        (Some(w), Some(x), Some(y), Some(z)) => {
            let n = 4096 * w + 256 * x + 16 * y + z;
            if 0xd800 <= n <= 0xdfff {
                None
            } else {
                Some(n as char)
            }
        },
        _ => None,
    }
}

/// The text that stands between the quotes of a JSON string, read by the rules
/// of JSON; `None` where these do not allow it. Surrogate pairs are not read.
pub open spec fn json_string_value(s: Seq<char>) -> Option<Seq<char>>
    decreases s.len(),
{
    if s.len() == 0 {
        Some(Seq::empty())
    } else {
        let (first, used) = if s[0] == '\\' {
            if s.len() >= 6 && s[1] == 'u' {
                (unicode_escape(s[2], s[3], s[4], s[5]), 6int)
            } else if s.len() >= 2 {
                (short_escape(s[1]), 2int)
            } else {
                (None, 1int)
            }
        } else if s[0] == '"' || s[0] <= '\u{1f}' {
            (None, 1int)
        } else {
            (Some(s[0]), 1int)
        };
        match (first, json_string_value(s.skip(used))) {
            (Some(c), Some(rest)) => Some(seq![c] + rest),
            _ => None,
        }
    }
}

/// Law: every text can be written in a JSON string, and reads back from it. So
/// the body of an error response is JSON whatever the message.
pub proof fn law_escaped_text_reads_back(msg: Seq<char>)
    ensures
        json_string_value(json_escaped(msg)) == Some(msg),
    decreases msg.len(),
{
    if msg.len() > 0 {
        let c = msg[0];
        let rest = msg.drop_first();
        let s = json_escaped(msg);
        let used = escaped_char(c).len() as int;
        law_escaped_text_reads_back(rest);
        assert(s.skip(used) =~= json_escaped(rest));
        assert(s.take(used) =~= escaped_char(c));
        assert(seq![c] + rest =~= msg);
        if c != '"' && c != '\\' && c <= '\u{1f}' {
            let n = c as int;
            lemma_char_is_a_number(c);
            assert(s[2] == '0' && s[3] == '0');
            assert(s[4] == hex_char(n / 16) && s[5] == hex_char(n % 16));
            assert(hex_value(s[4]) == Some(n / 16));
            assert(hex_value(s[5]) == Some(n % 16));
            assert(unicode_escape(s[2], s[3], s[4], s[5]) == Some(c));
        }
    }
}

} // verus!
