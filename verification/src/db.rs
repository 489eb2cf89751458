//! The checks table: what is stored of a scan, and the queries on it.
use crate::calendar::{is_second_text, sqlite_datetime, utc_datetime, LAST_SECOND};
use crate::order::{
    capped, is_newest_first, law_newest_first_is_the_order, newer, newest_first,
    order_newest_first, row_numbers,
};
pub use crate::severity::SeverityCounts;
use crate::text::{
    byte_count, clip, clipped, copied, law_clipped_is_the_clip, law_short_text_is_not_clipped,
    optional,
};
pub use crate::trend::{query_trend, TrendPoint};
use vstd::prelude::*;

verus! {

/// The most bytes of grype output that are kept of one scan.
pub const MAX_OUTPUT_BYTES: usize = 512 * 1024;

/// One recorded scan, as queries hand it out.
#[derive(Debug)]
pub struct CheckRecord {
    pub id: i64,
    /// Seconds since the start of 1970, UTC.
    pub timestamp: i64,
    /// The timestamp as `YYYY-MM-DD HH:MM:SS`; set by queries only.
    pub timestamp_iso: Option<String>,
    pub sbom_path: String,
    /// `online` or `offline`.
    pub mode: String,
    pub db_updated: bool,
    pub exit_code: i32,
    /// `clean`, `vulnerable` or `error`.
    pub result: String,
    pub fail_on: String,
    pub output_fmt: String,
    pub duration_ms: i64,
    pub severity: SeverityCounts,
    /// The sum of all severity counts.
    pub total_vulns: i64,
    /// Where the SARIF report of the scan was written.
    pub sarif_path: Option<String>,
    pub raw_output: Option<String>,
}

/// What a [`CheckRecord`] holds.
pub struct Record {
    pub id: i64,
    pub timestamp: i64,
    pub timestamp_iso: Option<Seq<char>>,
    pub sbom_path: Seq<char>,
    pub mode: Seq<char>,
    pub db_updated: bool,
    pub exit_code: i32,
    pub result: Seq<char>,
    pub fail_on: Seq<char>,
    pub output_fmt: Seq<char>,
    pub duration_ms: i64,
    pub severity: SeverityCounts,
    pub total_vulns: i64,
    pub sarif_path: Option<Seq<char>>,
    pub raw_output: Option<Seq<char>>,
}

impl View for CheckRecord {
    type V = Record;

    open spec fn view(&self) -> Record {
        Record {
            id: self.id,
            timestamp: self.timestamp,
            timestamp_iso: optional(self.timestamp_iso),
            sbom_path: self.sbom_path@,
            mode: self.mode@,
            db_updated: self.db_updated,
            exit_code: self.exit_code,
            result: self.result@,
            fail_on: self.fail_on@,
            output_fmt: self.output_fmt@,
            duration_ms: self.duration_ms,
            severity: self.severity,
            total_vulns: self.total_vulns,
            sarif_path: optional(self.sarif_path),
            raw_output: optional(self.raw_output),
        }
    }
}

/// What a list of records holds.
pub open spec fn records_of(list: Seq<CheckRecord>) -> Seq<Record> {
    list.map_values(|r: CheckRecord| r@)
}

/// One row of the checks table.
#[derive(Debug)]
pub struct CheckRow {
    pub id: i64,
    pub timestamp: i64,
    pub sbom_path: String,
    pub mode: String,
    /// Not zero when the vulnerability database was refreshed for the scan.
    pub db_updated: i32,
    pub exit_code: i32,
    pub fail_on: String,
    pub output_fmt: String,
    pub duration_ms: i64,
    pub severity: SeverityCounts,
    pub sarif_path: Option<String>,
    pub raw_output: Option<String>,
}

/// What a [`CheckRow`] holds.
pub struct Row {
    pub id: i64,
    pub timestamp: i64,
    pub sbom_path: Seq<char>,
    pub mode: Seq<char>,
    pub db_updated: i32,
    pub exit_code: i32,
    pub fail_on: Seq<char>,
    pub output_fmt: Seq<char>,
    pub duration_ms: i64,
    pub severity: SeverityCounts,
    pub sarif_path: Option<Seq<char>>,
    pub raw_output: Option<Seq<char>>,
}

impl View for CheckRow {
    type V = Row;

    open spec fn view(&self) -> Row {
        Row {
            id: self.id,
            timestamp: self.timestamp,
            sbom_path: self.sbom_path@,
            mode: self.mode@,
            db_updated: self.db_updated,
            exit_code: self.exit_code,
            fail_on: self.fail_on@,
            output_fmt: self.output_fmt@,
            duration_ms: self.duration_ms,
            severity: self.severity,
            sarif_path: optional(self.sarif_path),
            raw_output: optional(self.raw_output),
        }
    }
}

/// What a list of rows holds.
pub open spec fn rows_of(list: Seq<CheckRow>) -> Seq<Row> {
    list.map_values(|r: CheckRow| r@)
}

// ---------------------------------------------------------------------------
// Time and results
// ---------------------------------------------------------------------------

/// Reads the system clock with `SystemTime::elapsed` of the start of 1970: the
/// whole seconds since then, or `None` when the clock is set before it. Nothing
/// is promised of the reading.
#[verifier::external_body]
fn clock_seconds() -> (elapsed: Option<u64>) {
    match std::time::UNIX_EPOCH.elapsed() {
        Ok(elapsed) => Some(elapsed.as_secs()),
        Err(_) => None,
    }
}

/// The timestamp of a clock reading: its seconds as a signed 64-bit number
/// (which wraps), and 0 for a clock set before 1970.
pub open spec fn timestamp_of(elapsed: Option<u64>) -> int {
    match elapsed {
        Some(seconds) => if seconds <= i64::MAX {
            seconds as int
        } else {
            seconds - 0x1_0000_0000_0000_0000
        },
        None => 0,
    }
}

/// The timestamp of a clock reading.
pub fn unix_timestamp(elapsed: Option<u64>) -> (timestamp: i64)
    ensures
        timestamp == timestamp_of(elapsed),
{
    match elapsed {
        Some(seconds) => if seconds <= i64::MAX as u64 {
            seconds as i64
        } else {
            (seconds as i128 - 0x1_0000_0000_0000_0000) as i64
        },
        None => 0,
    }
}

/// The current time in seconds since the start of 1970, UTC; 0 when the clock
/// is set before that. What the clock shows rests on the machine.
pub fn now_unix() -> (timestamp: i64)
    ensures
        exists|elapsed: Option<u64>| timestamp == #[trigger] timestamp_of(elapsed),
{
    let elapsed = clock_seconds();
    unix_timestamp(elapsed)
}

/// What a grype exit code says of a scan: 0 is clean, 2 is vulnerabilities at or
/// above the threshold, anything else is an error.
pub open spec fn result_of(exit_code: i32) -> Seq<char> {
    if exit_code == 0 {
        "clean"@
    } else if exit_code == 2 {
        "vulnerable"@
    } else {
        "error"@
    }
}

/// What a grype exit code says of a scan.
pub fn result_label(exit_code: i32) -> (label: &'static str)
    ensures
        label@ == result_of(exit_code),
{
    match exit_code {
        0 => "clean",
        2 => "vulnerable",
        _ => "error",
    }
}

// ---------------------------------------------------------------------------
// Rows and records
// ---------------------------------------------------------------------------

/// The row that is stored for a record: its own columns, the output clipped to
/// [`MAX_OUTPUT_BYTES`]. The result and the total are not stored.
pub open spec fn stored(record: Record, id: i64) -> Row {
    Row {
        id: id,
        timestamp: record.timestamp,
        sbom_path: record.sbom_path,
        mode: record.mode,
        db_updated: if record.db_updated {
            1
        } else {
            0
        },
        exit_code: record.exit_code,
        fail_on: record.fail_on,
        output_fmt: record.output_fmt,
        duration_ms: record.duration_ms,
        severity: record.severity,
        sarif_path: record.sarif_path,
        raw_output: match record.raw_output {
            Some(output) => Some(clipped(output, MAX_OUTPUT_BYTES as nat)),
            None => None,
        },
    }
}

/// The record that a row is read as.
pub open spec fn record_of(row: Row, timestamp_iso: Option<Seq<char>>) -> Record {
    Record {
        id: row.id,
        timestamp: row.timestamp,
        timestamp_iso: timestamp_iso,
        sbom_path: row.sbom_path,
        mode: row.mode,
        db_updated: row.db_updated != 0,
        exit_code: row.exit_code,
        result: result_of(row.exit_code),
        fail_on: row.fail_on,
        output_fmt: row.output_fmt,
        duration_ms: row.duration_ms,
        severity: row.severity,
        total_vulns: row.severity.sum() as i64,
        sarif_path: row.sarif_path,
        raw_output: row.raw_output,
    }
}

/// The row that is stored for a record under `id`.
pub fn row_from_record(rec: &CheckRecord, id: i64) -> (row: CheckRow)
    ensures
        row@ == stored(rec@, id),
{
    let raw_output = match &rec.raw_output {
        Some(output) => Some(clip(output, MAX_OUTPUT_BYTES)),
        None => None,
    };
    CheckRow {
        id,
        timestamp: rec.timestamp,
        sbom_path: rec.sbom_path.clone(),
        mode: rec.mode.clone(),
        db_updated: if rec.db_updated {
            1
        } else {
            0
        },
        exit_code: rec.exit_code,
        fail_on: rec.fail_on.clone(),
        output_fmt: rec.output_fmt.clone(),
        duration_ms: rec.duration_ms,
        severity: rec.severity,
        sarif_path: copied(&rec.sarif_path),
        raw_output,
    }
}

/// The record that a row is read as, given the text of its timestamp.
pub fn row_to_record(row: &CheckRow, timestamp_iso: Option<String>) -> (rec: CheckRecord)
    requires
        row.severity.sum_fits(),
    ensures
        rec@ == record_of(row@, optional(timestamp_iso)),
{
    CheckRecord {
        id: row.id,
        timestamp: row.timestamp,
        timestamp_iso,
        sbom_path: row.sbom_path.clone(),
        mode: row.mode.clone(),
        db_updated: row.db_updated != 0,
        exit_code: row.exit_code,
        result: result_label(row.exit_code).to_string(),
        fail_on: row.fail_on.clone(),
        output_fmt: row.output_fmt.clone(),
        duration_ms: row.duration_ms,
        severity: row.severity,
        total_vulns: row.severity.total(),
        sarif_path: copied(&row.sarif_path),
        raw_output: copied(&row.raw_output),
    }
}

// ---------------------------------------------------------------------------
// The table
// ---------------------------------------------------------------------------

/// Why a row could not be stored.
#[derive(Debug, Clone, Copy, PartialEq, Eq, Structural)]
pub enum InsertError {
    /// There is no id left that was never used.
    Full,
}

/// Why a query has no answer.
#[derive(Debug)]
pub enum QueryError {
    /// SQLite did not answer when asked for a date.
    Dates(rusqlite::Error),
    /// A timestamp has no date.
    Undated,
    /// A sum of counts leaves 64 bits.
    Overflow,
}

/// The rows of the checks table, in the order of their ids.
pub struct CheckTable {
    rows: Vec<CheckRow>,
    last_id: i64,
}

impl View for CheckTable {
    type V = Seq<Row>;

    closed spec fn view(&self) -> Seq<Row> {
        rows_of(self.rows@)
    }
}

impl CheckTable {
    /// The highest id that was ever given to a row; 0 before the first row.
    pub closed spec fn last_id(self) -> i64 {
        self.last_id
    }

    /// The ids grow from row to row and none is above the last id given.
    pub open spec fn wf(self) -> bool {
        &&& 0 <= self.last_id()
        &&& self@.len() <= i64::MAX
        &&& forall|i: int, j: int| 0 <= i < j < self@.len() ==> self@[i].id < self@[j].id
        &&& forall|i: int| 0 <= i < self@.len() ==> (#[trigger] self@[i]).id <= self.last_id()
    }

    /// No further row can be stored.
    pub open spec fn full(self) -> bool {
        self.last_id() == i64::MAX || self@.len() == i64::MAX
    }

    /// A table without rows.
    pub fn new() -> (table: CheckTable)
        ensures
            table.wf(),
            table@ == Seq::<Row>::empty(),
            table.last_id() == 0,
    {
        let table = CheckTable { rows: Vec::new(), last_id: 0 };
        proof {
            assert(table@ =~= Seq::<Row>::empty());
        }
        table
    }

    /// A table with rows that were stored before; `None` when their ids do not
    /// grow from row to row up to `last_id`.
    pub fn from_rows(rows: Vec<CheckRow>, last_id: i64) -> (loaded: Option<CheckTable>)
        ensures
            loaded is Some <==> {
                let held = rows_of(rows@);
                &&& 0 <= last_id
                &&& held.len() <= i64::MAX
                &&& forall|i: int, j: int| 0 <= i < j < held.len() ==> held[i].id < held[j].id
                &&& forall|i: int| 0 <= i < held.len() ==> (#[trigger] held[i]).id <= last_id
            },
            loaded matches Some(table) ==> table.wf() && table@ == rows_of(rows@)
                && table.last_id() == last_id,
    {
        let ghost held = rows_of(rows@);
        if last_id < 0 || rows.len() as u64 > i64::MAX as u64 {
            return None;
        }
        let mut i: usize = 0;
        while i < rows.len()
            invariant
                i <= rows@.len() <= i64::MAX,
                held == rows_of(rows@),
                forall|j: int, k: int| 0 <= j < k < i ==> held[j].id < held[k].id,
                forall|j: int| 0 <= j < i ==> (#[trigger] held[j]).id <= last_id,
            decreases rows@.len() - i,
        {
            assert(held[i as int].id == rows@[i as int].id);
            if rows[i].id > last_id {
                return None;
            }
            if i > 0 {
                assert(held[i - 1].id == rows@[i - 1].id);
                if rows[i - 1].id >= rows[i].id {
                    return None;
                }
            }
            i += 1;
        }
        Some(CheckTable { rows, last_id })
    }

    /// The rows.
    pub fn rows(&self) -> (rows: &Vec<CheckRow>)
        ensures
            rows_of(rows@) == self@,
    {
        &self.rows
    }
}

/// Stores a record under the next id and returns the id.
pub fn insert(table: &mut CheckTable, rec: &CheckRecord) -> (stored_id: Result<i64, InsertError>)
    requires
        old(table).wf(),
    ensures
        final(table).wf(),
        match stored_id {
            Ok(id) => {
                &&& !old(table).full()
                &&& id == old(table).last_id() + 1
                &&& final(table).last_id() == id
                &&& final(table)@ == old(table)@.push(stored(rec@, id))
            },
            Err(InsertError::Full) => old(table).full() && *final(table) == *old(table),
        },
        stored_id is Ok <==> old(table).last_id() < i64::MAX && old(table)@.len() < i64::MAX,
{
    if table.last_id == i64::MAX || table.rows.len() as u64 == i64::MAX as u64 {
        return Err(InsertError::Full);
    }
    let id: i64 = table.last_id + 1;
    let row = row_from_record(rec, id);
    table.rows.push(row);
    table.last_id = id;
    proof {
        assert(table@ =~= old(table)@.push(stored(rec@, id)));
    }
    Ok(id)
}

/// The number of rows.
pub fn count(table: &CheckTable) -> (n: i64)
    requires
        table.wf(),
    ensures
        n == table@.len(),
{
    proof {
        assert(table@.len() == table.rows@.len());
    }
    table.rows.len() as i64
}

// ---------------------------------------------------------------------------
// Queries
// ---------------------------------------------------------------------------

/// The timestamps of the rows.
pub open spec fn stamps(rows: Seq<Row>) -> Seq<i64> {
    rows.map_values(|row: Row| row.timestamp)
}

/// A timestamp is after `since`; every timestamp is where none is given.
pub open spec fn is_after(timestamp: i64, since: Option<i64>) -> bool {
    since matches Some(start) ==> timestamp > start
}

/// Marks the rows with a timestamp after `since`; all rows where none is given.
pub open spec fn after(rows: Seq<Row>, since: Option<i64>) -> Seq<bool> {
    Seq::new(rows.len(), |i: int| is_after(rows[i].timestamp, since))
}

/// The row is newer than all other rows of the same SBOM.
pub open spec fn is_latest(rows: Seq<Row>, i: int) -> bool {
    forall|j: int|
        0 <= j < rows.len() && j != i && (#[trigger] rows[j]).sbom_path == rows[i].sbom_path
            ==> newer(stamps(rows), i, j)
}

/// Marks the latest row of every SBOM.
pub open spec fn latest(rows: Seq<Row>) -> Seq<bool> {
    Seq::new(rows.len(), |i: int| is_latest(rows, i))
}

/// `n` moved into the range from `low` to `high`.
pub open spec fn clamped(n: int, low: int, high: int) -> int {
    if n < low {
        low
    } else if n > high {
        high
    } else {
        n
    }
}

/// The most records that a query returns: 100 unless a limit is given, never
/// less than 1 or more than 10 000.
pub open spec fn record_cap(limit: Option<i64>) -> int {
    match limit {
        Some(n) => clamped(n as int, 1, 10_000),
        None => 100,
    }
}

/// The total of every row at one of the places fits in 64 bits.
pub open spec fn totals_fit(rows: Seq<Row>, picked: Seq<int>) -> bool {
    forall|k: int| 0 <= k < picked.len() ==> rows[#[trigger] picked[k]].severity.sum_fits()
}

/// The rows that [`query_checks`] returns, by their place in the table.
pub open spec fn checks_after(rows: Seq<Row>, since: Option<i64>, limit: Option<i64>) -> Seq<int> {
    capped(newest_first(stamps(rows), after(rows, since)), record_cap(limit))
}

/// The rows that [`query_latest_per_sbom`] returns, by their place in the table.
pub open spec fn latest_checks(rows: Seq<Row>) -> Seq<int> {
    newest_first(stamps(rows), latest(rows))
}

/// The records that rows are read as.
pub open spec fn read_at(rows: Seq<Row>, picked: Seq<int>) -> Seq<Record> {
    picked.map_values(|i: int| record_of(rows[i], sqlite_datetime(rows[i].timestamp)))
}

/// From 1970 to 9999, the text of the timestamp is its UTC date and time.
pub open spec fn is_timed(record: Record) -> bool {
    0 <= record.timestamp <= LAST_SECOND ==> record.timestamp_iso is Some && is_second_text(
        record.timestamp_iso->0,
        record.timestamp as int,
    )
}

/// The texts of all timestamps from 1970 to 9999 are UTC dates and times.
pub open spec fn all_timed(records: Seq<Record>) -> bool {
    forall|k: int| 0 <= k < records.len() ==> is_timed(#[trigger] records[k])
}

/// `n` moved into the range from `low` to `high`.
pub fn clamp(n: i64, low: i64, high: i64) -> (m: i64)
    requires
        low <= high,
    ensures
        m == clamped(n as int, low as int, high as int),
{
    if n < low {
        low
    } else if n > high {
        high
    } else {
        n
    }
}

impl CheckTable {
    fn timestamps(&self) -> (list: Vec<i64>)
        ensures
            list@ == stamps(self@),
    {
        let mut list: Vec<i64> = Vec::new();
        let mut i: usize = 0;
        while i < self.rows.len()
            invariant
                i <= self.rows@.len(),
                list@.len() == i,
                forall|j: int| 0 <= j < i ==> #[trigger] list@[j] == self.rows@[j].timestamp,
            decreases self.rows@.len() - i,
        {
            list.push(self.rows[i].timestamp);
            i += 1;
        }
        proof {
            assert(list@ =~= stamps(self@));
        }
        list
    }

    /// Whether the total of every row at one of the places fits in 64 bits.
    pub fn has_fitting_totals(&self, picked: &Vec<usize>) -> (fit: bool)
        requires
            forall|k: int| 0 <= k < picked@.len() ==> (#[trigger] picked@[k]) < self@.len(),
        ensures
            fit == totals_fit(self@, row_numbers(picked@)),
    {
        let mut k: usize = 0;
        while k < picked.len()
            invariant
                k <= picked@.len(),
                forall|l: int| 0 <= l < picked@.len() ==> (#[trigger] picked@[l]) < self@.len(),
                forall|l: int|
                    0 <= l < k ==> self@[#[trigger] row_numbers(picked@)[l]].severity.sum_fits(),
            decreases picked@.len() - k,
        {
            let i: usize = picked[k];
            assert(row_numbers(picked@)[k as int] == i);
            assert(self@[i as int].severity == self.rows@[i as int].severity);
            if self.rows[i].severity.checked_total().is_none() {
                return false;
            }
            k += 1;
        }
        true
    }

    /// The places of the rows after `since` (all rows unless given), newest first,
    /// at most `limit` of them.
    pub fn select_checks(&self, since: Option<i64>, limit: Option<i64>) -> (picked: Vec<usize>)
        ensures
            row_numbers(picked@) == checks_after(self@, since, limit),
            forall|k: int| 0 <= k < picked@.len() ==> (#[trigger] picked@[k]) < self@.len(),
    {
        let cap: i64 = clamp(limit.unwrap_or(100), 1, 10_000);
        let mut keep: Vec<bool> = Vec::new();
        let mut i: usize = 0;
        while i < self.rows.len()
            invariant
                i <= self.rows@.len(),
                keep@.len() == i,
                forall|j: int|
                    0 <= j < i ==> #[trigger] keep@[j] == is_after(self.rows@[j].timestamp, since),
            decreases self.rows@.len() - i,
        {
            keep.push(
                match since {
                    Some(start) => self.rows[i].timestamp > start,
                    None => true,
                },
            );
            i += 1;
        }
        proof {
            assert(keep@ =~= after(self@, since));
        }
        let mut picked = order_newest_first(&self.timestamps(), &keep);
        let ghost order = row_numbers(picked@);
        if picked.len() as u64 > cap as u64 {
            picked.truncate(cap as usize);
            proof {
                assert(row_numbers(picked@) =~= order.take(cap as int));
            }
        }
        proof {
            assert(row_numbers(picked@) =~= checks_after(self@, since, limit));
            lemma_checks_after_in_table(self@, since, limit);
            lemma_places_in_table(self@, picked@);
        }
        picked
    }
}

/// One of the peaks is of the same SBOM as row `j`.
spec fn has_peak(rows: Seq<Row>, peaks: Seq<int>, j: int) -> bool {
    exists|k: int|
        0 <= k < peaks.len() && rows[#[trigger] peaks[k]].sbom_path == rows[j].sbom_path
}

/// Of the first `n` rows, `peaks` holds the latest row of every SBOM.
spec fn are_peaks(rows: Seq<Row>, peaks: Seq<int>, n: int) -> bool {
    &&& forall|k: int| 0 <= k < peaks.len() ==> 0 <= #[trigger] peaks[k] < n
    &&& forall|k: int, l: int|
        0 <= k < l < peaks.len() ==> rows[#[trigger] peaks[k]].sbom_path
            != rows[#[trigger] peaks[l]].sbom_path
    &&& forall|k: int, j: int|
        #![trigger peaks[k], rows[j]]
        0 <= k < peaks.len() && 0 <= j < n && j != peaks[k] && rows[j].sbom_path
            == rows[peaks[k]].sbom_path ==> newer(stamps(rows), peaks[k], j)
    &&& forall|j: int| 0 <= j < n ==> has_peak(rows, peaks, j)
}

proof fn lemma_peak_kept(rows: Seq<Row>, peaks: Seq<int>, n: int, k: int)
    requires
        0 <= n < rows.len(),
        are_peaks(rows, peaks, n),
        0 <= k < peaks.len(),
        rows[peaks[k]].sbom_path == rows[n].sbom_path,
        rows[peaks[k]].timestamp > rows[n].timestamp,
    ensures
        are_peaks(rows, peaks, n + 1),
{
    assert forall|j: int| 0 <= j < n + 1 implies has_peak(rows, peaks, j) by {
        if j == n {
            assert(rows[peaks[k]].sbom_path == rows[j].sbom_path);
        }
    }
}

proof fn lemma_peak_replaced(rows: Seq<Row>, peaks: Seq<int>, n: int, k: int)
    requires
        0 <= n < rows.len(),
        are_peaks(rows, peaks, n),
        0 <= k < peaks.len(),
        rows[peaks[k]].sbom_path == rows[n].sbom_path,
        rows[peaks[k]].timestamp <= rows[n].timestamp,
    ensures
        are_peaks(rows, peaks.update(k, n), n + 1),
{
    let next = peaks.update(k, n);
    assert forall|a: int, b: int| 0 <= a < b < next.len() implies rows[#[trigger] next[a]].sbom_path
        != rows[#[trigger] next[b]].sbom_path by {
        assert(rows[next[a]].sbom_path == rows[peaks[a]].sbom_path);
        assert(rows[next[b]].sbom_path == rows[peaks[b]].sbom_path);
    }
    assert forall|a: int, j: int|
        #![trigger next[a], rows[j]]
        0 <= a < next.len() && 0 <= j < n + 1 && j != next[a] && rows[j].sbom_path
            == rows[next[a]].sbom_path implies newer(stamps(rows), next[a], j) by {
        assert(rows[next[a]].sbom_path == rows[peaks[a]].sbom_path);
        if a != k && j == n {
            if a < k {
                assert(rows[peaks[a]].sbom_path != rows[peaks[k]].sbom_path);
            } else {
                assert(rows[peaks[k]].sbom_path != rows[peaks[a]].sbom_path);
            }
        }
    }
    assert forall|j: int| 0 <= j < n + 1 implies has_peak(rows, next, j) by {
        if j == n {
            assert(next[k] == n);
        } else {
            assert(has_peak(rows, peaks, j));
            let a = choose|a: int|
                0 <= a < peaks.len() && rows[#[trigger] peaks[a]].sbom_path == rows[j].sbom_path;
            assert(rows[next[a]].sbom_path == rows[peaks[a]].sbom_path);
        }
    }
}

proof fn lemma_peak_added(rows: Seq<Row>, peaks: Seq<int>, n: int)
    requires
        0 <= n < rows.len(),
        are_peaks(rows, peaks, n),
        !has_peak(rows, peaks, n),
    ensures
        are_peaks(rows, peaks.push(n), n + 1),
{
    let next = peaks.push(n);
    assert forall|a: int, b: int| 0 <= a < b < next.len() implies rows[#[trigger] next[a]].sbom_path
        != rows[#[trigger] next[b]].sbom_path by {
        assert(next[a] == peaks[a]);
        if b < peaks.len() {
            assert(next[b] == peaks[b]);
        }
    }
    assert forall|a: int, j: int|
        #![trigger next[a], rows[j]]
        0 <= a < next.len() && 0 <= j < n + 1 && j != next[a] && rows[j].sbom_path
            == rows[next[a]].sbom_path implies newer(stamps(rows), next[a], j) by {
        if a < peaks.len() {
            assert(next[a] == peaks[a]);
        } else if j < n {
            assert(has_peak(rows, peaks, j));
            let b = choose|b: int|
                0 <= b < peaks.len() && rows[#[trigger] peaks[b]].sbom_path == rows[j].sbom_path;
            assert(has_peak(rows, peaks, n));
        }
    }
    assert forall|j: int| 0 <= j < n + 1 implies has_peak(rows, next, j) by {
        if j == n {
            assert(next[peaks.len() as int] == n);
        } else {
            assert(has_peak(rows, peaks, j));
            let a = choose|a: int|
                0 <= a < peaks.len() && rows[#[trigger] peaks[a]].sbom_path == rows[j].sbom_path;
            assert(next[a] == peaks[a]);
        }
    }
}

proof fn lemma_peaks_are_latest(rows: Seq<Row>, peaks: Seq<int>, i: int)
    requires
        are_peaks(rows, peaks, rows.len() as int),
        0 <= i < rows.len(),
    ensures
        peaks.contains(i) <==> is_latest(rows, i),
{
    assert(has_peak(rows, peaks, i));
    let k = choose|k: int|
        0 <= k < peaks.len() && rows[#[trigger] peaks[k]].sbom_path == rows[i].sbom_path;
    let top = peaks[k];
    if peaks.contains(i) {
        let l = choose|l: int| 0 <= l < peaks.len() && peaks[l] == i;
        assert forall|j: int|
            0 <= j < rows.len() && j != i && (#[trigger] rows[j]).sbom_path
                == rows[i].sbom_path implies newer(stamps(rows), i, j) by {
            assert(newer(stamps(rows), peaks[l], j));
        }
    } else {
        assert(newer(stamps(rows), peaks[k], i));
        if is_latest(rows, i) {
            assert(rows[top].sbom_path == rows[i].sbom_path);
            assert(newer(stamps(rows), i, top));
        }
    }
}

impl CheckTable {
    /// For every SBOM, the place of its latest row.
    fn peaks(&self) -> (peaks: Vec<usize>)
        ensures
            are_peaks(self@, row_numbers(peaks@), self@.len() as int),
    {
        let ghost rows = self@;
        let mut peaks: Vec<usize> = Vec::new();
        let mut i: usize = 0;
        while i < self.rows.len()
            invariant
                i <= self.rows@.len(),
                rows == self@,
                are_peaks(rows, row_numbers(peaks@), i as int),
            decreases self.rows@.len() - i,
        {
            let ghost before = row_numbers(peaks@);
            proof {
                assert forall|l: int| 0 <= l < peaks@.len() implies (#[trigger] peaks@[l]) < i by {
                    assert(before[l] == peaks@[l]);
                }
            }
            let mut k: usize = 0;
            while k < peaks.len() && self.rows[peaks[k]].sbom_path != self.rows[i].sbom_path
                invariant
                    i < self.rows@.len(),
                    rows == self@,
                    k <= peaks@.len(),
                    before == row_numbers(peaks@),
                    are_peaks(rows, before, i as int),
                    forall|l: int| 0 <= l < peaks@.len() ==> (#[trigger] peaks@[l]) < i,
                    forall|l: int|
                        0 <= l < k ==> rows[#[trigger] before[l]].sbom_path
                            != rows[i as int].sbom_path,
                decreases peaks@.len() - k,
            {
                assert(before[k as int] == peaks@[k as int]);
                k += 1;
            }
            if k < peaks.len() {
                let p: usize = peaks[k];
                assert(before[k as int] == p);
                if self.rows[p].timestamp <= self.rows[i].timestamp {
                    proof {
                        lemma_peak_replaced(rows, before, i as int, k as int);
                    }
                    peaks.set(k, i);
                    proof {
                        assert(row_numbers(peaks@) =~= before.update(k as int, i as int));
                    }
                } else {
                    proof {
                        lemma_peak_kept(rows, before, i as int, k as int);
                    }
                }
            } else {
                proof {
                    lemma_peak_added(rows, before, i as int);
                }
                peaks.push(i);
                proof {
                    assert(row_numbers(peaks@) =~= before.push(i as int));
                }
            }
            i += 1;
        }
        peaks
    }

    /// The places of the latest row of every SBOM, newest first.
    pub fn select_latest(&self) -> (picked: Vec<usize>)
        ensures
            row_numbers(picked@) == latest_checks(self@),
            forall|k: int| 0 <= k < picked@.len() ==> (#[trigger] picked@[k]) < self@.len(),
    {
        let ghost rows = self@;
        let peaks = self.peaks();
        let ghost tops = row_numbers(peaks@);
        let mut keep: Vec<bool> = Vec::new();
        while keep.len() < self.rows.len()
            invariant
                keep@.len() <= self.rows@.len(),
                forall|j: int| 0 <= j < keep@.len() ==> !(#[trigger] keep@[j]),
            decreases self.rows@.len() - keep@.len(),
        {
            keep.push(false);
        }
        let mut k: usize = 0;
        while k < peaks.len()
            invariant
                k <= peaks@.len(),
                rows == self@,
                tops == row_numbers(peaks@),
                are_peaks(rows, tops, rows.len() as int),
                keep@.len() == rows.len(),
                forall|j: int|
                    0 <= j < rows.len() ==> #[trigger] keep@[j] == tops.take(k as int).contains(j),
            decreases peaks@.len() - k,
        {
            let top: usize = peaks[k];
            let ghost before = keep@;
            proof {
                assert(tops[k as int] == top);
                assert(tops.take(k + 1) =~= tops.take(k as int).push(top as int));
            }
            keep.set(top, true);
            proof {
                assert forall|j: int| 0 <= j < rows.len() implies #[trigger] keep@[j] == tops.take(
                    k + 1,
                ).contains(j) by {
                    assert(keep@[j] == (j == top || before[j]));
                    let longer = tops.take(k as int).push(top as int);
                    if tops.take(k as int).contains(j) {
                        let l = choose|l: int|
                            0 <= l < k && tops.take(k as int)[l] == j;
                        assert(longer[l] == j);
                    }
                    assert(longer[k as int] == top);
                }
            }
            k += 1;
        }
        proof {
            assert(tops.take(k as int) =~= tops);
            assert forall|j: int| 0 <= j < rows.len() implies #[trigger] keep@[j] == is_latest(
                rows,
                j,
            ) by {
                lemma_peaks_are_latest(rows, tops, j);
            }
        }
        proof {
            assert(keep@ =~= latest(rows));
        }
        let picked = order_newest_first(&self.timestamps(), &keep);
        proof {
            law_newest_first_is_the_order(stamps(rows), latest(rows));
            lemma_places_in_table(rows, picked@);
        }
        picked
    }

    /// Reads the rows at some places.
    fn read_rows(&self, picked: &Vec<usize>) -> (read: Result<Vec<CheckRecord>, QueryError>)
        requires
            totals_fit(self@, row_numbers(picked@)),
            forall|k: int| 0 <= k < picked@.len() ==> (#[trigger] picked@[k]) < self@.len(),
        ensures
            match read {
                Ok(records) => {
                    &&& records_of(records@) == read_at(self@, row_numbers(picked@))
                    &&& all_timed(records_of(records@))
                },
                Err(QueryError::Dates(_)) => picked@.len() > 0,
                Err(_) => false,
            },
    {
        let ghost rows = self@;
        let mut records: Vec<CheckRecord> = Vec::new();
        let mut k: usize = 0;
        while k < picked.len()
            invariant
                k <= picked@.len(),
                rows == self@,
                totals_fit(rows, row_numbers(picked@)),
                forall|l: int| 0 <= l < picked@.len() ==> (#[trigger] picked@[l]) < rows.len(),
                records@.len() == k,
                forall|l: int|
                    0 <= l < k ==> (#[trigger] records@[l])@ == record_of(
                        rows[picked@[l] as int],
                        sqlite_datetime(rows[picked@[l] as int].timestamp),
                    ),
                forall|l: int| 0 <= l < k ==> is_timed(#[trigger] records@[l]@),
            decreases picked@.len() - k,
        {
            let i: usize = picked[k];
            assert(row_numbers(picked@)[k as int] == i);
            assert(rows[i as int] == self.rows@[i as int]@);
            let timestamp_iso = match utc_datetime(self.rows[i].timestamp) {
                Ok(text) => text,
                Err(e) => return Err(QueryError::Dates(e)),
            };
            records.push(row_to_record(&self.rows[i], timestamp_iso));
            k += 1;
        }
        proof {
            assert(records_of(records@) =~= read_at(rows, row_numbers(picked@)));
        }
        Ok(records)
    }
}

/// The checks with a timestamp after `since` (all of them unless given), newest
/// first, at most `limit` of them (100 unless given; from 1 to 10 000).
pub fn query_checks(table: &CheckTable, since: Option<i64>, limit: Option<i64>) -> (found: Result<
    Vec<CheckRecord>,
    QueryError,
>)
    requires
        totals_fit(table@, checks_after(table@, since, limit)),
    ensures
        match found {
            Ok(records) => {
                &&& records_of(records@) == read_at(table@, checks_after(table@, since, limit))
                &&& all_timed(records_of(records@))
            },
            Err(QueryError::Dates(_)) => checks_after(table@, since, limit).len() > 0,
            Err(_) => false,
        },
{
    let picked = table.select_checks(since, limit);
    table.read_rows(&picked)
}

/// The latest check of every SBOM, newest first.
pub fn query_latest_per_sbom(table: &CheckTable) -> (found: Result<Vec<CheckRecord>, QueryError>)
    requires
        totals_fit(table@, latest_checks(table@)),
    ensures
        match found {
            Ok(records) => {
                &&& records_of(records@) == read_at(table@, latest_checks(table@))
                &&& all_timed(records_of(records@))
            },
            Err(QueryError::Dates(_)) => table@.len() > 0,
            Err(_) => false,
        },
{
    let picked = table.select_latest();
    assert(picked@.len() > 0 ==> picked@[0] < table@.len());
    table.read_rows(&picked)
}

proof fn lemma_places_in_table(rows: Seq<Row>, picked: Seq<usize>)
    requires
        forall|k: int|
            0 <= k < row_numbers(picked).len() ==> 0 <= #[trigger] row_numbers(picked)[k]
                < rows.len(),
    ensures
        forall|k: int| 0 <= k < picked.len() ==> (#[trigger] picked[k]) < rows.len(),
{
    assert forall|k: int| 0 <= k < picked.len() implies (#[trigger] picked[k]) < rows.len() by {
        assert(row_numbers(picked)[k] == picked[k]);
    }
}

proof fn lemma_checks_after_in_table(rows: Seq<Row>, since: Option<i64>, limit: Option<i64>)
    ensures
        forall|k: int|
            0 <= k < checks_after(rows, since, limit).len() ==> 0 <= #[trigger] checks_after(
                rows,
                since,
                limit,
            )[k] < rows.len(),
{
    let order = newest_first(stamps(rows), after(rows, since));
    law_newest_first_is_the_order(stamps(rows), after(rows, since));
    assert forall|k: int| 0 <= k < checks_after(rows, since, limit).len() implies 0
        <= #[trigger] checks_after(rows, since, limit)[k] < rows.len() by {
        assert(checks_after(rows, since, limit)[k] == order[k]);
    }
}

// ---------------------------------------------------------------------------
// Laws
// ---------------------------------------------------------------------------

/// Law: what is read of a stored record is the record, with the id that it was
/// given, the text of its timestamp, the result that its exit code stands for,
/// the total of its counts, and its output clipped to the limit.
pub proof fn law_stored_record_reads_back(rec: Record, id: i64, timestamp_iso: Option<Seq<char>>)
    ensures
        record_of(stored(rec, id), timestamp_iso) == (Record {
            id: id,
            timestamp_iso: timestamp_iso,
            result: result_of(rec.exit_code),
            total_vulns: rec.severity.sum() as i64,
            raw_output: match rec.raw_output {
                Some(output) => Some(clipped(output, MAX_OUTPUT_BYTES as nat)),
                None => None,
            },
            ..rec
        }),
        rec.raw_output matches Some(output) ==> (byte_count(output) <= MAX_OUTPUT_BYTES
            ==> record_of(stored(rec, id), timestamp_iso).raw_output == Some(output)),
{
    if let Some(output) = rec.raw_output {
        if byte_count(output) <= MAX_OUTPUT_BYTES {
            law_short_text_is_not_clipped(output, MAX_OUTPUT_BYTES as nat);
        }
    }
}

/// Law: no stored output takes more than [`MAX_OUTPUT_BYTES`] bytes, and it is a
/// leading part of the output of the scan.
pub proof fn law_stored_output_is_capped(rec: Record, id: i64)
    ensures
        stored(rec, id).raw_output is Some <==> rec.raw_output is Some,
        rec.raw_output is Some ==> {
            let kept = stored(rec, id).raw_output->0;
            byte_count(kept) <= MAX_OUTPUT_BYTES && kept.is_prefix_of(rec.raw_output->0)
        },
{
    if let Some(output) = rec.raw_output {
        let kept = clipped(output, MAX_OUTPUT_BYTES as nat);
        law_clipped_is_the_clip(output, MAX_OUTPUT_BYTES as nat);
        let k = choose|k: int|
            #![trigger output.take(k)]
            0 <= k <= output.len() && kept == output.take(k);
        assert(kept =~= output.subrange(0, kept.len() as int));
    }
}

/// Law: the id that a table gives next is above all ids that it holds, so no two
/// rows ever share an id.
pub proof fn law_next_id_is_new(table: CheckTable)
    requires
        table.wf(),
    ensures
        forall|i: int| 0 <= i < table@.len() ==> (#[trigger] table@[i]).id < table.last_id() + 1,
        forall|i: int, j: int|
            0 <= i < j < table@.len() ==> (#[trigger] table@[i]).id != (#[trigger] table@[j]).id,
{
}

/// Law: a query returns distinct checks that are all after its start, newest
/// first, and no more than its cap.
pub proof fn law_query_is_newest_first(rows: Seq<Row>, since: Option<i64>, limit: Option<i64>)
    ensures
        checks_after(rows, since, limit).len() <= record_cap(limit),
        forall|k: int|
            0 <= k < checks_after(rows, since, limit).len() ==> {
                let i = #[trigger] checks_after(rows, since, limit)[k];
                0 <= i < rows.len() && is_after(rows[i].timestamp, since)
            },
        forall|j: int, k: int|
            0 <= j < k < checks_after(rows, since, limit).len() ==> {
                let a = #[trigger] checks_after(rows, since, limit)[j];
                let b = #[trigger] checks_after(rows, since, limit)[k];
                a != b && rows[a].timestamp >= rows[b].timestamp
            },
{
    let marks = after(rows, since);
    let order = newest_first(stamps(rows), marks);
    let picked = checks_after(rows, since, limit);
    law_newest_first_is_the_order(stamps(rows), marks);
    lemma_checks_after_in_table(rows, since, limit);
    assert forall|k: int| 0 <= k < picked.len() implies {
        let i = #[trigger] picked[k];
        0 <= i < rows.len() && is_after(rows[i].timestamp, since)
    } by {
        assert(picked[k] == order[k]);
        assert(marks[order[k]]);
    }
    assert forall|j: int, k: int| 0 <= j < k < picked.len() implies {
        let a = #[trigger] picked[j];
        let b = #[trigger] picked[k];
        a != b && rows[a].timestamp >= rows[b].timestamp
    } by {
        assert(picked[j] == order[j] && picked[k] == order[k]);
        assert(newer(stamps(rows), order[j], order[k]));
        assert(stamps(rows)[order[j]] == rows[order[j]].timestamp);
        assert(stamps(rows)[order[k]] == rows[order[k]].timestamp);
    }
}

/// Law: a query leaves a check after its start out only when it is full, and
/// then every check that it returns is at least as new.
pub proof fn law_query_is_complete(
    rows: Seq<Row>,
    since: Option<i64>,
    limit: Option<i64>,
    i: int,
)
    requires
        0 <= i < rows.len(),
        is_after(rows[i].timestamp, since),
        !checks_after(rows, since, limit).contains(i),
    ensures
        checks_after(rows, since, limit).len() == record_cap(limit),
        forall|k: int|
            0 <= k < checks_after(rows, since, limit).len() ==> rows[#[trigger] checks_after(
                rows,
                since,
                limit,
            )[k]].timestamp >= rows[i].timestamp,
{
    let marks = after(rows, since);
    let order = newest_first(stamps(rows), marks);
    let picked = checks_after(rows, since, limit);
    law_newest_first_is_the_order(stamps(rows), marks);
    assert(marks[i]);
    let place = choose|k: int| 0 <= k < order.len() && order[k] == i;
    assert(order.contains(i));
    assert(picked != order);
    assert(picked == order.take(record_cap(limit)));
    assert(place >= picked.len()) by {
        if place < picked.len() {
            assert(picked[place] == i);
        }
    }
    assert forall|k: int| 0 <= k < picked.len() implies rows[#[trigger] picked[k]].timestamp
        >= rows[i].timestamp by {
        assert(picked[k] == order[k]);
        assert(newer(stamps(rows), order[k], order[place]));
        assert(marks[order[k]]);
        assert(stamps(rows)[order[k]] == rows[order[k]].timestamp);
        assert(stamps(rows)[i] == rows[i].timestamp);
    }
}

/// Law: pulling again from the newest timestamp that was pulled never returns a
/// check a second time, whatever was stored in between.
pub proof fn law_incremental_pull_repeats_nothing(
    rows: Seq<Row>,
    more: Seq<Row>,
    since: Option<i64>,
    limit: Option<i64>,
    next_limit: Option<i64>,
    k: int,
)
    requires
        checks_after(rows, since, limit).len() > 0,
        ({
            let last = rows[checks_after(rows, since, limit)[0]].timestamp;
            0 <= k < checks_after(rows + more, Some(last), next_limit).len()
        }),
    ensures
        ({
            let last = rows[checks_after(rows, since, limit)[0]].timestamp;
            !checks_after(rows, since, limit).contains(
                checks_after(rows + more, Some(last), next_limit)[k],
            )
        }),
{
    let old_pull = checks_after(rows, since, limit);
    let last = rows[old_pull[0]].timestamp;
    let pull = checks_after(rows + more, Some(last), next_limit);
    law_query_is_newest_first(rows, since, limit);
    law_query_is_newest_first(rows + more, Some(last), next_limit);
    let i = pull[k];
    assert((rows + more)[i].timestamp > last);
    if old_pull.contains(i) {
        let j = choose|j: int| 0 <= j < old_pull.len() && old_pull[j] == i;
        assert((rows + more)[i] == rows[i]);
        if j > 0 {
            assert(rows[old_pull[0]].timestamp >= rows[old_pull[j]].timestamp);
        }
    }
}

/// Law: a query returns a check that was just stored after its start, unless the
/// query is full of checks that are at least as new; the newest check comes
/// first, with the contents that were stored.
pub proof fn law_inserted_record_is_found(
    rows: Seq<Row>,
    rec: Record,
    id: i64,
    since: Option<i64>,
    limit: Option<i64>,
)
    requires
        is_after(rec.timestamp, since),
    ensures
        ({
            let held = rows.push(stored(rec, id));
            let picked = checks_after(held, since, limit);
            &&& picked.contains(rows.len() as int) || picked.len() == record_cap(limit)
            &&& (forall|i: int|
                0 <= i < rows.len() ==> (#[trigger] rows[i]).timestamp <= rec.timestamp)
                ==> picked.len() > 0 && read_at(held, picked)[0] == record_of(
                stored(rec, id),
                sqlite_datetime(rec.timestamp),
            )
        }),
{
    let held = rows.push(stored(rec, id));
    let n = rows.len() as int;
    let marks = after(held, since);
    let order = newest_first(stamps(held), marks);
    let picked = checks_after(held, since, limit);
    assert(held[n] == stored(rec, id));
    if !picked.contains(n) {
        law_query_is_complete(held, since, limit, n);
    }
    if forall|i: int| 0 <= i < rows.len() ==> (#[trigger] rows[i]).timestamp <= rec.timestamp {
        law_newest_first_is_the_order(stamps(held), marks);
        assert(marks[n]);
        assert(order.contains(n));
        let place = choose|k: int| 0 <= k < order.len() && order[k] == n;
        if place > 0 {
            assert(newer(stamps(held), order[0], order[place]));
            assert(marks[order[0]]);
            assert(stamps(held)[order[0]] == held[order[0]].timestamp);
            assert(stamps(held)[n] == held[n].timestamp);
            if order[0] < n {
                assert(held[order[0]] == rows[order[0]]);
            }
            assert(false);
        }
        assert(picked[0] == order[0]);
    }
}

/// Law: every SBOM is among the latest checks, with a check that is at least as
/// new as all its checks.
pub proof fn law_latest_covers_every_sbom(rows: Seq<Row>, i: int)
    requires
        0 <= i < rows.len(),
    ensures
        exists|k: int|
            0 <= k < latest_checks(rows).len() && {
                let j = #[trigger] latest_checks(rows)[k];
                &&& 0 <= j < rows.len()
                &&& rows[j].sbom_path == rows[i].sbom_path
                &&& rows[j].timestamp >= rows[i].timestamp
                &&& is_latest(rows, j)
            },
{
    law_newest_first_is_the_order(stamps(rows), latest(rows));
    let j = lemma_sbom_has_a_latest(rows, i, rows.len() as int);
    assert(is_latest(rows, j));
    if j != i {
        assert(newer(stamps(rows), j, i));
        assert(stamps(rows)[j] == rows[j].timestamp);
        assert(stamps(rows)[i] == rows[i].timestamp);
    }
    assert(latest(rows)[j]);
    assert(latest_checks(rows).contains(j));
    let k = choose|k: int| 0 <= k < latest_checks(rows).len() && latest_checks(rows)[k] == j;
    assert(latest_checks(rows)[k] == j);
}

/// Among the first `n` rows and row `i`, one of the same SBOM is the newest.
proof fn lemma_sbom_has_a_latest(rows: Seq<Row>, i: int, n: int) -> (j: int)
    requires
        0 <= i < rows.len(),
        0 <= n <= rows.len(),
    ensures
        0 <= j < rows.len(),
        rows[j].sbom_path == rows[i].sbom_path,
        forall|l: int|
            (0 <= l < n || l == i) && l != j && (#[trigger] rows[l]).sbom_path == rows[i].sbom_path
                ==> newer(stamps(rows), j, l),
    decreases n,
{
    if n == 0 {
        i
    } else {
        let j = lemma_sbom_has_a_latest(rows, i, n - 1);
        if rows[n - 1].sbom_path == rows[i].sbom_path && newer(stamps(rows), n - 1, j) {
            n - 1
        } else {
            j
        }
    }
}

/// Law: no SBOM occurs twice among the latest checks, which are newest first.
/// Each is the latest of its SBOM.
pub proof fn law_latest_is_one_per_sbom(rows: Seq<Row>, j: int, k: int)
    requires
        0 <= j < k < latest_checks(rows).len(),
    ensures
        ({
            let a = latest_checks(rows)[j];
            let b = latest_checks(rows)[k];
            &&& 0 <= a < rows.len()
            &&& 0 <= b < rows.len()
            &&& rows[a].sbom_path != rows[b].sbom_path
            &&& is_latest(rows, a)
            &&& is_latest(rows, b)
            &&& rows[a].timestamp >= rows[b].timestamp
        }),
{
    let order = latest_checks(rows);
    law_newest_first_is_the_order(stamps(rows), latest(rows));
    assert(is_newest_first(stamps(rows), latest(rows), order));
    let (a, b) = (order[j], order[k]);
    assert(latest(rows)[a] && latest(rows)[b]);
    assert(newer(stamps(rows), a, b));
    assert(stamps(rows)[a] == rows[a].timestamp);
    assert(stamps(rows)[b] == rows[b].timestamp);
    if rows[a].sbom_path == rows[b].sbom_path {
        assert(newer(stamps(rows), b, a));
    }
}

/// Law: after a check is stored that is at least as new as all others of its
/// SBOM, it is the latest check of that SBOM, and the only one.
pub proof fn law_newer_check_becomes_the_latest(rows: Seq<Row>, rec: Record, id: i64)
    requires
        forall|i: int|
            0 <= i < rows.len() && (#[trigger] rows[i]).sbom_path == rec.sbom_path
                ==> rows[i].timestamp <= rec.timestamp,
    ensures
        ({
            let held = rows.push(stored(rec, id));
            let picked = latest_checks(held);
            &&& picked.contains(rows.len() as int)
            &&& forall|k: int|
                0 <= k < picked.len() && held[#[trigger] picked[k]].sbom_path == rec.sbom_path
                    ==> picked[k] == rows.len()
        }),
{
    let held = rows.push(stored(rec, id));
    let n = rows.len() as int;
    let picked = latest_checks(held);
    law_newest_first_is_the_order(stamps(held), latest(held));
    assert forall|j: int|
        0 <= j < held.len() && j != n && (#[trigger] held[j]).sbom_path
            == held[n].sbom_path implies newer(stamps(held), n, j) by {
        assert(held[j] == rows[j]);
    }
    assert(is_latest(held, n));
    assert(latest(held)[n]);
    assert forall|k: int|
        0 <= k < picked.len() && held[#[trigger] picked[k]].sbom_path
            == rec.sbom_path implies picked[k] == n by {
        let i = picked[k];
        assert(latest(held)[i]);
        if i != n {
            assert(newer(stamps(held), i, n));
            assert(newer(stamps(held), n, i));
        }
    }
}

/// Law: a record that is stored in a table of fewer than 100 checks is among all
/// checks exactly once, under its id and with the contents that were stored,
/// whatever its timestamp.
pub proof fn law_insert_round_trip(rows: Seq<Row>, rec: Record, id: i64)
    requires
        rows.len() < 100,
        forall|i: int| 0 <= i < rows.len() ==> (#[trigger] rows[i]).id != id,
        rec.severity.sum_fits(),
        rec.raw_output matches Some(output) ==> byte_count(output) <= MAX_OUTPUT_BYTES,
    ensures
        ({
            let held = rows.push(stored(rec, id));
            let read = read_at(held, checks_after(held, None, None));
            exists|k: int|
                {
                    &&& 0 <= k < read.len()
                    &&& #[trigger] read[k] == (Record {
                        id: id,
                        timestamp_iso: sqlite_datetime(rec.timestamp),
                        result: result_of(rec.exit_code),
                        total_vulns: rec.severity.sum() as i64,
                        ..rec
                    })
                    &&& forall|j: int| 0 <= j < read.len() && (#[trigger] read[j]).id == id ==> j == k
                }
        }),
{
    let held = rows.push(stored(rec, id));
    let n = rows.len() as int;
    let picked = checks_after(held, None, None);
    let read = read_at(held, picked);
    law_query_is_newest_first(held, None, None);
    lemma_distinct_places_are_few(picked, held.len() as int);
    if !picked.contains(n) {
        law_query_is_complete(held, None, None, n);
        assert(picked.len() == 100 && held.len() == 100);
        lemma_full_places_hold_all(picked, held.len() as int, n);
    }
    let k = choose|k: int| 0 <= k < picked.len() && picked[k] == n;
    law_stored_record_reads_back(rec, id, sqlite_datetime(rec.timestamp));
    assert(held[n] == stored(rec, id));
    assert(read[k] == record_of(stored(rec, id), sqlite_datetime(rec.timestamp)));
    assert forall|j: int| 0 <= j < read.len() && (#[trigger] read[j]).id == id implies j == k by {
        let place = picked[j];
        assert(0 <= place < held.len());
        assert(read[j].id == held[place].id);
        if place < n {
            assert(held[place] == rows[place]);
        }
        if j < k {
            assert(picked[j] != picked[k]);
        } else if k < j {
            assert(picked[k] != picked[j]);
        }
    }
}

/// Distinct places below `n` are at most `n`.
proof fn lemma_distinct_places_are_few(places: Seq<int>, n: int)
    requires
        0 <= n,
        forall|k: int| 0 <= k < places.len() ==> 0 <= #[trigger] places[k] < n,
        forall|j: int, k: int|
            0 <= j < k < places.len() ==> #[trigger] places[j] != #[trigger] places[k],
    ensures
        places.len() <= n,
{
    assert(places.no_duplicates());
    places.unique_seq_to_set();
    let all = vstd::set_lib::set_int_range(0, n);
    vstd::set_lib::lemma_int_range(0, n);
    assert(places.to_set().subset_of(all));
    vstd::set_lib::lemma_len_subset(places.to_set(), all);
}

/// As many distinct places below `n` as there are include each of them.
proof fn lemma_full_places_hold_all(places: Seq<int>, n: int, x: int)
    requires
        0 <= x < n,
        places.len() == n,
        forall|k: int| 0 <= k < places.len() ==> 0 <= #[trigger] places[k] < n,
        forall|j: int, k: int|
            0 <= j < k < places.len() ==> #[trigger] places[j] != #[trigger] places[k],
    ensures
        places.contains(x),
{
    if !places.contains(x) {
        let more = places.push(x);
        assert forall|j: int, k: int| 0 <= j < k < more.len() implies #[trigger] more[j]
            != #[trigger] more[k] by {
            if k == places.len() {
                assert(places.contains(places[j]));
            }
        }
        lemma_distinct_places_are_few(more, n);
    }
}

} // verus!
