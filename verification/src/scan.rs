//! One scan: how grype is called, what its outcome means and what is recorded.
use crate::db::{
    law_stored_record_reads_back, record_of, result_label, result_of, stored, CheckRecord, Record,
    MAX_OUTPUT_BYTES,
};
use crate::json::json_parsed;
use crate::request::pairs;
use crate::severity::{law_tally_total_fits, matches_of, severities_of, SeverityCounts};
use crate::text::{clipped, copied, decimal, digits, optional, push_integer, push_natural, texts};
use vstd::prelude::*;

verus! {

/// The options of a scan.
pub struct ScanArgs {
    /// Path of the SPDX JSON SBOM to scan.
    pub sbom_file: String,
    /// Cache directory of the vulnerability database.
    pub db_cache_dir: Option<String>,
    /// Output format: table, json or sarif.
    pub output: String,
    /// The lowest severity that fails the scan.
    pub fail_on: String,
    /// Where a SARIF report is written besides the output.
    pub sarif_file: Option<String>,
    /// Only report vulnerabilities with a known fix.
    pub only_fixed: bool,
    /// Fail when the vulnerability database cannot be updated.
    pub require_update: bool,
    /// How long an update may take, in seconds.
    pub update_timeout: u64,
    /// Path of the checks database; empty when nothing is to be recorded.
    pub checks_db: String,
}

// ---------------------------------------------------------------------------
// Calls of grype
// ---------------------------------------------------------------------------

/// One call of grype: its arguments, and the environment variables that are set
/// for it.
pub struct GrypeCall {
    pub args: Vec<String>,
    pub env: Vec<(String, String)>,
}

/// The environment of every call: the cache directory, where one is given.
pub open spec fn base_env(db_cache_dir: Option<Seq<char>>) -> Seq<(Seq<char>, Seq<char>)> {
    match db_cache_dir {
        Some(dir) => seq![("GRYPE_DB_CACHE_DIR"@, dir)],
        None => Seq::empty(),
    }
}

/// The environment of an update.
pub open spec fn update_env(args: ScanArgs) -> Seq<(Seq<char>, Seq<char>)> {
    base_env(optional(args.db_cache_dir)).push(
        ("GRYPE_DB_UPDATE_TIMEOUT"@, digits(args.update_timeout as nat) + "s"@),
    )
}

/// The environment of a scan: with `skip_auto_update`, grype neither updates its
/// database by itself nor refuses an old one.
pub open spec fn scan_env(args: ScanArgs, skip_auto_update: bool) -> Seq<(Seq<char>, Seq<char>)> {
    let base = base_env(optional(args.db_cache_dir));
    if skip_auto_update {
        base.push(("GRYPE_DB_AUTO_UPDATE"@, "false"@)).push(("GRYPE_DB_VALIDATE_AGE"@, "false"@))
    } else {
        base
    }
}

/// The arguments that ask for a SARIF report.
pub open spec fn sarif_words(sarif_file: Option<Seq<char>>) -> Seq<Seq<char>> {
    match sarif_file {
        Some(path) => seq!["--output"@, "sarif="@ + path],
        None => Seq::empty(),
    }
}

/// The arguments of a scan: the chosen format goes to standard output, a JSON
/// report to the file `report`.
pub open spec fn scan_words(args: ScanArgs, report: Seq<char>) -> Seq<Seq<char>> {
    let head = seq![
        "--output"@,
        args.output@,
        "--fail-on"@,
        args.fail_on@,
        "--output"@,
        "json="@ + report,
    ] + sarif_words(optional(args.sarif_file));
    let options = if args.only_fixed {
        head.push("--only-fixed"@)
    } else {
        head
    };
    options.push("sbom:"@ + args.sbom_file@)
}

fn joined(a: &str, b: &str) -> (text: String)
    ensures
        text@ == a@ + b@,
{
    let mut text = a.to_string();
    text.append(b);
    text
}

/// The environment of every call.
pub fn grype_env(db_cache_dir: &Option<String>) -> (env: Vec<(String, String)>)
    ensures
        pairs(env@) == base_env(optional(*db_cache_dir)),
{
    let mut env: Vec<(String, String)> = Vec::new();
    if let Some(dir) = db_cache_dir {
        env.push(("GRYPE_DB_CACHE_DIR".to_string(), dir.clone()));
    }
    proof {
        assert(pairs(env@) =~= base_env(optional(*db_cache_dir)));
    }
    env
}

/// The call that updates the vulnerability database.
pub fn try_db_update(args: &ScanArgs) -> (call: GrypeCall)
    ensures
        texts(call.args@) == seq!["db"@, "update"@],
        pairs(call.env@) == update_env(*args),
{
    let mut list: Vec<String> = Vec::new();
    list.push("db".to_string());
    list.push("update".to_string());
    let mut env = grype_env(&args.db_cache_dir);
    let ghost base = pairs(env@);
    let mut timeout = String::new();
    push_natural(&mut timeout, args.update_timeout);
    timeout.append("s");
    env.push(("GRYPE_DB_UPDATE_TIMEOUT".to_string(), timeout));
    proof {
        assert(timeout@ =~= digits(args.update_timeout as nat) + "s"@);
        assert(pairs(env@) =~= base.push(("GRYPE_DB_UPDATE_TIMEOUT"@, timeout@)));
        assert(texts(list@) =~= seq!["db"@, "update"@]);
    }
    GrypeCall { args: list, env }
}

/// The call that scans the SBOM and writes a JSON report to the file `report`.
pub fn run_grype_scan(args: &ScanArgs, report: &str, skip_auto_update: bool) -> (call: GrypeCall)
    ensures
        texts(call.args@) == scan_words(*args, report@),
        pairs(call.env@) == scan_env(*args, skip_auto_update),
{
    let mut list: Vec<String> = Vec::new();
    list.push("--output".to_string());
    list.push(args.output.clone());
    list.push("--fail-on".to_string());
    list.push(args.fail_on.clone());
    list.push("--output".to_string());
    list.push(joined("json=", report));
    if let Some(path) = &args.sarif_file {
        list.push("--output".to_string());
        list.push(joined("sarif=", path));
    }
    if args.only_fixed {
        list.push("--only-fixed".to_string());
    }
    list.push(joined("sbom:", &args.sbom_file));
    let mut env = grype_env(&args.db_cache_dir);
    let ghost base = pairs(env@);
    if skip_auto_update {
        env.push(("GRYPE_DB_AUTO_UPDATE".to_string(), "false".to_string()));
        env.push(("GRYPE_DB_VALIDATE_AGE".to_string(), "false".to_string()));
        proof {
            assert(pairs(env@) =~= base.push(("GRYPE_DB_AUTO_UPDATE"@, "false"@)).push(
                ("GRYPE_DB_VALIDATE_AGE"@, "false"@),
            ));
        }
    }
    proof {
        assert(texts(list@) =~= scan_words(*args, report@));
    }
    GrypeCall { args: list, env }
}

// ---------------------------------------------------------------------------
// After the update
// ---------------------------------------------------------------------------

/// The mode of a scan: `online` with a database that was just updated, `offline`
/// with the cached one.
pub open spec fn mode_after(updated: bool) -> Seq<char> {
    if updated {
        "online"@
    } else {
        "offline"@
    }
}

/// What the user is told after the update.
pub open spec fn update_notice(updated: bool) -> Seq<char> {
    if updated {
        "[grype-verify] Database updated successfully (online mode)."@
    } else {
        "[grype-verify] WARNING: DB update failed \u{2014} using cached database. Results may reflect stale vulnerability data."@
    }
}

/// Why a scan does not start.
pub open spec fn update_refusal() -> Seq<char> {
    "DB update failed and --require-update is set. Ensure network connectivity to grype.anchore.io."@
}

/// A scan that is to run.
pub struct ScanPlan {
    /// `online` or `offline`.
    pub mode: String,
    /// What the user is told before the scan.
    pub notice: String,
    pub call: GrypeCall,
}

/// Decides how to go on after the update: the scan to run, or why none runs.
/// A failed update stops the scan only when an update is required.
pub fn after_update(args: &ScanArgs, updated: bool, report: &str) -> (plan: Result<ScanPlan, String>)
    ensures
        match plan {
            Ok(p) => {
                &&& updated || !args.require_update
                &&& p.mode@ == mode_after(updated)
                &&& p.notice@ == update_notice(updated)
                &&& texts(p.call.args@) == scan_words(*args, report@)
                &&& pairs(p.call.env@) == scan_env(*args, true)
            },
            Err(msg) => !updated && args.require_update && msg@ == update_refusal(),
        },
{
    if updated {
        Ok(
            ScanPlan {
                mode: "online".to_string(),
                notice: "[grype-verify] Database updated successfully (online mode).".to_string(),
                call: run_grype_scan(args, report, true),
            },
        )
    } else if args.require_update {
        Err(
            "DB update failed and --require-update is set. Ensure network connectivity to grype.anchore.io.".to_string(),
        )
    } else {
        Ok(
            ScanPlan {
                mode: "offline".to_string(),
                notice: "[grype-verify] WARNING: DB update failed \u{2014} using cached database. Results may reflect stale vulnerability data.".to_string(),
                call: run_grype_scan(args, report, true),
            },
        )
    }
}

// ---------------------------------------------------------------------------
// After the scan
// ---------------------------------------------------------------------------

/// The exit code of a scan; 2 when grype ended without one.
pub open spec fn code_of(status: Option<i32>) -> i32 {
    match status {
        Some(code) => code,
        None => 2,
    }
}

/// The severities that a JSON report lists, or why it has no breakdown.
pub open spec fn report_outcome(report: Option<Seq<char>>) -> Result<Seq<Seq<char>>, Seq<char>> {
    match report {
        None => Err("grype wrote no JSON report"@),
        Some(text) => match json_parsed(text) {
            None => Err("grype JSON report is not valid JSON"@),
            Some(json) => match matches_of(json) {
                None => Err("grype JSON report has no `matches` array"@),
                Some(entries) => if entries.len() <= i64::MAX {
                    Ok(severities_of(entries))
                } else {
                    Err("grype JSON report has too many matches to count"@)
                },
            },
        },
    }
}

/// The line that shows a severity breakdown.
pub open spec fn breakdown_text(counts: SeverityCounts) -> Seq<char> {
    "[grype-verify] Severity breakdown: critical="@ + decimal(counts.critical as int) + " high="@
        + decimal(counts.high as int) + " medium="@ + decimal(counts.medium as int) + " low="@
        + decimal(counts.low as int) + " negligible="@ + decimal(counts.negligible as int)
        + " unknown="@ + decimal(counts.unknown as int) + " (total="@ + decimal(counts.sum()) + ")"@
}

/// The line that says why there is no severity breakdown.
pub open spec fn no_breakdown_text(reason: Seq<char>) -> Seq<char> {
    "[grype-verify] WARNING: no severity breakdown: "@ + reason
}

/// Tallies the JSON report of a scan; `None` stands for a report that does not
/// exist.
pub fn tally_report(report: &Option<String>) -> (tally: Result<SeverityCounts, String>)
    ensures
        match report_outcome(optional(*report)) {
            Ok(severities) => tally matches Ok(counts) && counts.tallies(severities)
                && counts.sum_fits(),
            Err(reason) => tally matches Err(msg) && msg@ == reason,
        },
{
    match report {
        None => Err("grype wrote no JSON report".to_string()),
        Some(text) => match SeverityCounts::from_grype_json(text) {
            Ok(counts) => {
                proof {
                    let entries = matches_of(json_parsed(text@)->0)->0;
                    law_tally_total_fits(counts, severities_of(entries));
                }
                Ok(counts)
            },
            Err(e) => Err(e.message()),
        },
    }
}

/// The line that shows a severity breakdown.
pub fn breakdown_line(counts: &SeverityCounts) -> (line: String)
    requires
        counts.sum_fits(),
    ensures
        line@ == breakdown_text(*counts),
{
    let mut line = "[grype-verify] Severity breakdown: critical=".to_string();
    push_integer(&mut line, counts.critical);
    line.append(" high=");
    push_integer(&mut line, counts.high);
    line.append(" medium=");
    push_integer(&mut line, counts.medium);
    line.append(" low=");
    push_integer(&mut line, counts.low);
    line.append(" negligible=");
    push_integer(&mut line, counts.negligible);
    line.append(" unknown=");
    push_integer(&mut line, counts.unknown);
    line.append(" (total=");
    push_integer(&mut line, counts.total());
    line.append(")");
    line
}

/// What is known of a scan when grype has ended.
pub struct Finished {
    /// When it was recorded, in seconds since the start of 1970.
    pub timestamp: i64,
    /// Whether the vulnerability database was updated for it.
    pub db_updated: bool,
    /// The exit code of grype, if it ended with one.
    pub status: Option<i32>,
    pub duration_ms: i64,
    /// The standard output of grype.
    pub raw_output: String,
}

/// What becomes of a scan.
pub struct Outcome {
    /// The exit code to end with.
    pub exit_code: i32,
    /// What the user is told of the severities.
    pub notice: String,
    /// The record to store, if any.
    pub record: Option<CheckRecord>,
}

/// The record of a scan. The id is given when it is stored.
pub open spec fn scan_record(args: ScanArgs, scan: Finished, counts: SeverityCounts) -> Record {
    Record {
        id: 0,
        timestamp: scan.timestamp,
        timestamp_iso: None,
        sbom_path: args.sbom_file@,
        mode: mode_after(scan.db_updated),
        db_updated: scan.db_updated,
        exit_code: code_of(scan.status),
        result: result_of(code_of(scan.status)),
        fail_on: args.fail_on@,
        output_fmt: args.output@,
        duration_ms: scan.duration_ms,
        severity: counts,
        total_vulns: counts.sum() as i64,
        sarif_path: optional(args.sarif_file),
        raw_output: Some(scan.raw_output@),
    }
}

/// The severity counts that are recorded for a tally: none where there is none.
pub open spec fn counts_recorded(tally: Result<SeverityCounts, Seq<char>>) -> SeverityCounts {
    match tally {
        Ok(counts) => counts,
        Err(_) => SeverityCounts::zero(),
    }
}

/// What the user is told of a tally.
pub open spec fn tally_notice(tally: Result<SeverityCounts, Seq<char>>) -> Seq<char> {
    match tally {
        Ok(counts) => breakdown_text(counts),
        Err(reason) => no_breakdown_text(reason),
    }
}

/// A tally as a value.
pub open spec fn tally_view(tally: Result<SeverityCounts, String>) -> Result<
    SeverityCounts,
    Seq<char>,
> {
    match tally {
        Ok(counts) => Ok(counts),
        Err(msg) => Err(msg@),
    }
}

/// The outcome of a scan, given the tally of its report.
pub open spec fn is_outcome(
    args: ScanArgs,
    scan: Finished,
    tally: Result<SeverityCounts, Seq<char>>,
    outcome: Outcome,
) -> bool {
    &&& outcome.exit_code == code_of(scan.status)
    &&& outcome.notice@ == tally_notice(tally)
    &&& match outcome.record {
        Some(rec) => args.checks_db@.len() > 0 && rec@ == scan_record(
            args,
            scan,
            counts_recorded(tally),
        ),
        None => args.checks_db@.len() == 0,
    }
}

/// The outcome of a scan, given the tally of its report. The scan is recorded
/// unless the path of the checks database is empty.
pub fn conclude(args: &ScanArgs, scan: Finished, tally: Result<SeverityCounts, String>) -> (outcome:
    Outcome)
    requires
        tally matches Ok(counts) ==> counts.sum_fits(),
    ensures
        is_outcome(*args, scan, tally_view(tally), outcome),
{
    let exit_code: i32 = match scan.status {
        Some(code) => code,
        None => 2,
    };
    let (severity, notice) = match tally {
        Ok(counts) => (counts, breakdown_line(&counts)),
        Err(reason) => (
            SeverityCounts::default(),
            joined("[grype-verify] WARNING: no severity breakdown: ", &reason),
        ),
    };
    if args.checks_db.as_str().unicode_len() == 0 {
        return Outcome { exit_code, notice, record: None };
    }
    let mode = if scan.db_updated {
        "online".to_string()
    } else {
        "offline".to_string()
    };
    let rec = CheckRecord {
        id: 0,
        timestamp: scan.timestamp,
        timestamp_iso: None,
        sbom_path: args.sbom_file.clone(),
        mode,
        db_updated: scan.db_updated,
        exit_code,
        result: result_label(exit_code).to_string(),
        fail_on: args.fail_on.clone(),
        output_fmt: args.output.clone(),
        duration_ms: scan.duration_ms,
        severity,
        total_vulns: severity.total(),
        sarif_path: copied(&args.sarif_file),
        raw_output: Some(scan.raw_output),
    };
    Outcome { exit_code, notice, record: Some(rec) }
}

/// The outcome of a scan, given its JSON report; `None` stands for a report that
/// does not exist.
pub fn after_scan(args: &ScanArgs, scan: Finished, report: &Option<String>) -> (outcome: Outcome)
    ensures
        match report_outcome(optional(*report)) {
            Ok(severities) => exists|counts: SeverityCounts| #[trigger]
                counts.tallies(severities) && is_outcome(*args, scan, Ok(counts), outcome),
            Err(reason) => is_outcome(*args, scan, Err(reason), outcome),
        },
{
    let tally = tally_report(report);
    conclude(args, scan, tally)
}

/// The line that says where a scan was recorded.
pub fn recorded_line(id: i64, checks_db: &str) -> (line: String)
    ensures
        line@ == "[grype-verify] Result recorded (check id="@ + decimal(id as int) + ", db="@
            + checks_db@ + ")."@,
{
    let mut line = "[grype-verify] Result recorded (check id=".to_string();
    push_integer(&mut line, id);
    line.append(", db=");
    line.append(checks_db);
    line.append(").");
    line
}

// ---------------------------------------------------------------------------
// Laws
// ---------------------------------------------------------------------------

/// Law: whatever format goes to standard output, a scan asks for a JSON report;
/// it asks for a SARIF report exactly when a file for one is given.
pub proof fn law_reports_do_not_depend_on_the_format(args: ScanArgs, report: Seq<char>)
    ensures
        scan_words(args, report).subrange(0, 6) == seq![
            "--output"@,
            args.output@,
            "--fail-on"@,
            args.fail_on@,
            "--output"@,
            "json="@ + report,
        ],
        args.sarif_file matches Some(path) ==> scan_words(args, report).subrange(6, 8) == seq![
            "--output"@,
            "sarif="@ + path@,
        ],
        scan_words(args, report).len() == 7 + (if args.sarif_file is Some {
            2int
        } else {
            0
        }) + (if args.only_fixed {
            1int
        } else {
            0
        }),
        scan_words(args, report).last() == "sbom:"@ + args.sbom_file@,
{
    assert(scan_words(args, report).subrange(0, 6) =~= seq![
        "--output"@,
        args.output@,
        "--fail-on"@,
        args.fail_on@,
        "--output"@,
        "json="@ + report,
    ]);
    if let Some(path) = args.sarif_file {
        assert(scan_words(args, report).subrange(6, 8) =~= seq!["--output"@, "sarif="@ + path@]);
    }
}

/// Law: a scan never updates the database by itself and never refuses an old
/// one: that was settled by the update before it.
pub proof fn law_scan_uses_the_database_at_hand(args: ScanArgs)
    ensures
        scan_env(args, true).contains(("GRYPE_DB_AUTO_UPDATE"@, "false"@)),
        scan_env(args, true).contains(("GRYPE_DB_VALIDATE_AGE"@, "false"@)),
{
    let env = scan_env(args, true);
    assert(env[env.len() - 2] == ("GRYPE_DB_AUTO_UPDATE"@, "false"@));
    assert(env[env.len() - 1] == ("GRYPE_DB_VALIDATE_AGE"@, "false"@));
}

/// Law: the exit code of grype is passed on as it is, and it decides the recorded
/// result: 0 is clean, 2 is vulnerable, everything else is an error.
pub proof fn law_exit_code_is_passed_on(
    args: ScanArgs,
    scan: Finished,
    tally: Result<SeverityCounts, Seq<char>>,
    outcome: Outcome,
    code: i32,
)
    requires
        scan.status == Some(code),
        is_outcome(args, scan, tally, outcome),
    ensures
        outcome.exit_code == code,
        outcome.record matches Some(rec) ==> rec.exit_code == code && rec.result@ == result_of(
            code,
        ),
{
}

/// Law: a recorded scan is `online` exactly when the database was updated for it,
/// and its counts are those that the user is told.
pub proof fn law_record_matches_the_scan(
    args: ScanArgs,
    scan: Finished,
    tally: Result<SeverityCounts, Seq<char>>,
    outcome: Outcome,
)
    requires
        is_outcome(args, scan, tally, outcome),
    ensures
        outcome.record is Some <==> args.checks_db@.len() > 0,
        outcome.record matches Some(rec) ==> {
            &&& rec.db_updated == scan.db_updated
            &&& rec.mode@ == "online"@ <==> scan.db_updated
            &&& tally matches Ok(counts) ==> rec.severity == counts
            &&& tally is Err ==> rec.severity == SeverityCounts::zero()
            &&& tally matches Ok(counts) ==> outcome.notice@ == breakdown_text(rec.severity)
        },
{
    reveal_strlit("online");
    reveal_strlit("offline");
    assert("online"@.len() != "offline"@.len());
}

/// Law: a recorded scan reads back as it was recorded, with the id that it was
/// given, the text of its timestamp, and its output clipped to the limit.
pub proof fn law_recorded_scan_reads_back(
    args: ScanArgs,
    scan: Finished,
    counts: SeverityCounts,
    id: i64,
    timestamp_iso: Option<Seq<char>>,
)
    ensures
        record_of(stored(scan_record(args, scan, counts), id), timestamp_iso) == (Record {
            id: id,
            timestamp_iso: timestamp_iso,
            raw_output: Some(clipped(scan.raw_output@, MAX_OUTPUT_BYTES as nat)),
            ..scan_record(args, scan, counts)
        }),
{
    law_stored_record_reads_back(scan_record(args, scan, counts), id, timestamp_iso);
}

} // verus!
