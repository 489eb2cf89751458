//! The status summary over the latest check of every SBOM.
use crate::db::{read_at, records_of, result_of, CheckRecord, Record, Row};
use crate::request::{lemma_span, pieces, span};
use crate::severity::{SeverityCounts, Sums};
use crate::text::{chars_of, decimal, optional, push_integer, same_text, text_of};
use vstd::prelude::*;

verus! {

/// The options of the status summary.
pub struct StatusArgs {
    /// Path of the checks database.
    pub checks_db: String,
    /// Show everything as JSON instead of one line.
    pub json: bool,
}

// ---------------------------------------------------------------------------
// Names of SBOMs
// ---------------------------------------------------------------------------

/// The last part of a path that names a file: empty parts and `.` are passed
/// over, and `..` names none.
pub open spec fn last_name(parts: Seq<Seq<char>>) -> Option<Seq<char>>
    decreases parts.len(),
{
    if parts.len() == 0 {
        None
    } else if parts.last() == ""@ || parts.last() == "."@ {
        last_name(parts.drop_last())
    } else if parts.last() == ".."@ {
        None
    } else {
        Some(parts.last())
    }
}

/// The name that a path is shown by: its file name, or all of it where it has
/// none.
pub open spec fn shown_name(path: Seq<char>) -> Seq<char> {
    match last_name(pieces(path, '/')) {
        Some(name) => name,
        None => path,
    }
}

/// A text without the separator is a single piece.
pub proof fn lemma_single_piece(s: Seq<char>, c: char)
    requires
        !s.contains(c),
    ensures
        pieces(s, c) == seq![s],
{
    lemma_span(s, c);
    if span(s, c) < s.len() {
        assert(s.contains(s[span(s, c)]));
    }
}

/// The last piece is what follows the last separator.
pub proof fn lemma_last_piece(a: Seq<char>, c: char, b: Seq<char>)
    requires
        !b.contains(c),
    ensures
        pieces(a + seq![c] + b, c) == pieces(a, c).push(b),
    decreases a.len(),
{
    let s = a + seq![c] + b;
    lemma_span(a, c);
    lemma_span(s, c);
    let n = span(a, c);
    if n < a.len() {
        assert(s[n] == c);
        assert(span(s, c) == n) by {
            if span(s, c) < n {
                assert(a[span(s, c)] == c);
            } else if n < span(s, c) {
                assert(s[n] != c);
            }
        }
        assert(s.take(n) =~= a.take(n));
        assert(s.skip(n + 1) =~= a.skip(n + 1) + seq![c] + b);
        lemma_last_piece(a.skip(n + 1), c, b);
        assert(pieces(s, c) =~= pieces(a, c).push(b));
    } else {
        assert(s[a.len() as int] == c);
        assert(span(s, c) == a.len()) by {
            if span(s, c) < a.len() {
                assert(a[span(s, c)] == c);
            } else if a.len() < span(s, c) {
                assert(s[a.len() as int] != c);
            }
        }
        assert(s.take(a.len() as int) =~= a);
        assert(s.skip(a.len() as int + 1) =~= b);
        lemma_single_piece(b, c);
        assert(pieces(s, c) =~= pieces(a, c).push(b));
    }
}

/// The name that a path is shown by.
pub fn sbom_name(path: &str) -> (name: String)
    ensures
        name@ == shown_name(path@),
{
    let chars = chars_of(path);
    let mut end: usize = chars.len();
    proof {
        assert(chars@.take(end as int) =~= chars@);
    }
    loop
        invariant
            end <= chars@.len(),
            chars@ == path@,
            last_name(pieces(path@, '/')) == last_name(pieces(chars@.take(end as int), '/')),
        decreases end,
    {
        let ghost s = chars@.take(end as int);
        let mut start: usize = end;
        while start > 0 && chars[start - 1] != '/'
            invariant
                start <= end <= chars@.len(),
                forall|i: int| start <= i < end ==> #[trigger] chars@[i] != '/',
            decreases start,
        {
            start -= 1;
        }
        let part = text_of(&chars, start, end);
        proof {
            assert(!part@.contains('/')) by {
                if part@.contains('/') {
                    let k = choose|k: int| 0 <= k < part@.len() && part@[k] == '/';
                    assert(chars@[start + k] == '/');
                }
            }
            if start > 0 {
                let before = chars@.take(start - 1);
                assert(s =~= before + seq!['/'] + part@);
                lemma_last_piece(before, '/', part@);
                assert(pieces(s, '/').last() == part@);
                assert(pieces(s, '/').drop_last() =~= pieces(before, '/'));
            } else {
                assert(s =~= part@);
                lemma_single_piece(s, '/');
                assert(pieces(s, '/').last() == part@);
                assert(pieces(s, '/').drop_last() =~= Seq::<Seq<char>>::empty());
                assert(last_name(pieces(s, '/').drop_last()) is None);
            }
        }
        if same_text(&part, "..") {
            proof {
                reveal_strlit("..");
                reveal_strlit(".");
                reveal_strlit("");
                assert(".."@.len() == 2 && "."@.len() == 1 && ""@.len() == 0);
            }
            return path.to_string();
        }
        if !same_text(&part, "") && !same_text(&part, ".") {
            return part;
        }
        if start == 0 {
            return path.to_string();
        }
        end = start - 1;
    }
}

// ---------------------------------------------------------------------------
// Aggregates
// ---------------------------------------------------------------------------

/// Some record has the result.
pub open spec fn any_result(records: Seq<Record>, result: Seq<char>) -> bool {
    exists|i: int| 0 <= i < records.len() && (#[trigger] records[i]).result == result
}

/// Some record has the mode.
pub open spec fn any_mode(records: Seq<Record>, mode: Seq<char>) -> bool {
    exists|i: int| 0 <= i < records.len() && (#[trigger] records[i]).mode == mode
}

/// The overall state: an error anywhere outweighs vulnerabilities, and these
/// outweigh clean scans.
pub open spec fn flag_of(records: Seq<Record>) -> Seq<char> {
    if any_result(records, "error"@) {
        "ERROR"@
    } else if any_result(records, "vulnerable"@) {
        "VULNERABLE"@
    } else {
        "CLEAN"@
    }
}

/// `offline` when any of the scans ran offline.
pub open spec fn mode_of(records: Seq<Record>) -> Seq<char> {
    if any_mode(records, "offline"@) {
        "offline"@
    } else {
        "online"@
    }
}

/// The severity counts of the first `n` records, added up.
pub open spec fn record_sums(records: Seq<Record>, n: int) -> Sums
    decreases n,
{
    if n <= 0 {
        Sums::none()
    } else {
        record_sums(records, n - 1).plus(records[n - 1].severity)
    }
}

/// Adding up the counts, record by record, and then the counts themselves, stays
/// within 64 bits.
pub open spec fn sums_fit(records: Seq<Record>) -> bool {
    &&& forall|n: int| 0 <= n <= records.len() ==> (#[trigger] record_sums(records, n)).in_range()
    &&& record_sums(records, records.len() as int).counts().sum_fits()
}

/// The severity counts of all records, added up.
pub open spec fn totals_of(records: Seq<Record>) -> SeverityCounts {
    record_sums(records, records.len() as int).counts()
}

fn has_result(records: &Vec<CheckRecord>, result: &str) -> (found: bool)
    ensures
        found == any_result(records_of(records@), result@),
{
    let mut i: usize = 0;
    while i < records.len()
        invariant
            i <= records@.len(),
            forall|j: int| 0 <= j < i ==> (#[trigger] records_of(records@)[j]).result != result@,
        decreases records@.len() - i,
    {
        assert(records_of(records@)[i as int] == records@[i as int]@);
        if same_text(&records[i].result, result) {
            return true;
        }
        i += 1;
    }
    false
}

fn has_mode(records: &Vec<CheckRecord>, mode: &str) -> (found: bool)
    ensures
        found == any_mode(records_of(records@), mode@),
{
    let mut i: usize = 0;
    while i < records.len()
        invariant
            i <= records@.len(),
            forall|j: int| 0 <= j < i ==> (#[trigger] records_of(records@)[j]).mode != mode@,
        decreases records@.len() - i,
    {
        assert(records_of(records@)[i as int] == records@[i as int]@);
        if same_text(&records[i].mode, mode) {
            return true;
        }
        i += 1;
    }
    false
}

/// The overall state of the records.
pub fn status_flag(records: &Vec<CheckRecord>) -> (flag: &'static str)
    ensures
        flag@ == flag_of(records_of(records@)),
{
    if has_result(records, "error") {
        "ERROR"
    } else if has_result(records, "vulnerable") {
        "VULNERABLE"
    } else {
        "CLEAN"
    }
}

/// Whether any of the scans ran offline, as a word.
pub fn status_mode(records: &Vec<CheckRecord>) -> (mode: &'static str)
    ensures
        mode@ == mode_of(records_of(records@)),
{
    if has_mode(records, "offline") {
        "offline"
    } else {
        "online"
    }
}

/// The severity counts of all records added up, or `None` when a sum leaves 64
/// bits.
pub fn severity_totals(records: &Vec<CheckRecord>) -> (totals: Option<SeverityCounts>)
    ensures
        totals == (if sums_fit(records_of(records@)) {
            Some(totals_of(records_of(records@)))
        } else {
            None
        }),
{
    let ghost all = records_of(records@);
    let mut totals = SeverityCounts::default();
    let mut i: usize = 0;
    while i < records.len()
        invariant
            i <= records@.len(),
            all == records_of(records@),
            forall|n: int| 0 <= n <= i ==> (#[trigger] record_sums(all, n)).in_range(),
            record_sums(all, i as int).counts() == totals,
        decreases records@.len() - i,
    {
        assert(all[i as int].severity == records@[i as int].severity);
        match totals.checked_plus(&records[i].severity) {
            Some(sum) => {
                totals = sum;
            },
            None => {
                assert(!record_sums(all, i + 1).in_range());
                return None;
            },
        }
        assert(record_sums(all, i + 1).in_range());
        i += 1;
    }
    match totals.checked_total() {
        Some(_) => Some(totals),
        None => None,
    }
}

// ---------------------------------------------------------------------------
// The line
// ---------------------------------------------------------------------------

/// A timestamp down to the minute, `YYYY-MM-DD HH:MM`: its text without the
/// seconds; `?` where there is none. Years before 0 have one character more.
pub open spec fn minute_of(timestamp_iso: Option<Seq<char>>) -> Seq<char> {
    match timestamp_iso {
        Some(text) => if text.len() > 16 {
            text.take(text.len() - 3)
        } else {
            text
        },
        None => "?"@,
    }
}

/// One SBOM in the summary.
pub open spec fn entry_text(record: Record) -> Seq<char> {
    shown_name(record.sbom_path) + ":"@ + record.result + "[C"@ + decimal(
        record.severity.critical as int,
    ) + " H"@ + decimal(record.severity.high as int) + " M"@ + decimal(
        record.severity.medium as int,
    ) + "]("@ + minute_of(record.timestamp_iso) + ")"@
}

/// The SBOMs in the summary, separated by commas.
pub open spec fn entries_text(records: Seq<Record>) -> Seq<char>
    decreases records.len(),
{
    if records.len() == 0 {
        Seq::empty()
    } else if records.len() == 1 {
        entry_text(records[0])
    } else {
        entries_text(records.drop_last()) + ", "@ + entry_text(records.last())
    }
}

/// The counts in the summary.
pub open spec fn counts_text(counts: SeverityCounts) -> Seq<char> {
    decimal(counts.sum()) + " (C"@ + decimal(counts.critical as int) + " H"@ + decimal(
        counts.high as int,
    ) + " M"@ + decimal(counts.medium as int) + " L"@ + decimal(counts.low as int) + " N"@
        + decimal(counts.negligible as int) + " U"@ + decimal(counts.unknown as int) + ")"@
}

/// The summary line.
pub open spec fn summary_text(total: int, records: Seq<Record>, db: Seq<char>) -> Seq<char> {
    if total == 0 {
        "grype-verify: no checks recorded yet (db="@ + db + ")"@
    } else {
        "grype-verify: "@ + flag_of(records) + " | checks="@ + decimal(total) + " | db="@ + db
            + " | "@ + mode_of(records) + " | vulns="@ + counts_text(totals_of(records)) + " | "@
            + entries_text(records)
    }
}

/// A timestamp down to the minute.
pub fn minute_text(timestamp_iso: &Option<String>) -> (minute: String)
    ensures
        minute@ == minute_of(optional(*timestamp_iso)),
{
    match timestamp_iso {
        Some(text) => {
            let chars = chars_of(text);
            if chars.len() > 16 {
                let minute = text_of(&chars, 0, chars.len() - 3);
                proof {
                    assert(minute@ =~= text@.take(text@.len() - 3));
                }
                minute
            } else {
                text.clone()
            }
        },
        None => "?".to_string(),
    }
}

/// One SBOM in the summary.
pub fn sbom_entry(rec: &CheckRecord) -> (entry: String)
    ensures
        entry@ == entry_text(rec@),
{
    let mut entry = sbom_name(&rec.sbom_path);
    entry.append(":");
    entry.append(&rec.result);
    entry.append("[C");
    push_integer(&mut entry, rec.severity.critical);
    entry.append(" H");
    push_integer(&mut entry, rec.severity.high);
    entry.append(" M");
    push_integer(&mut entry, rec.severity.medium);
    entry.append("](");
    entry.append(&minute_text(&rec.timestamp_iso));
    entry.append(")");
    entry
}

fn push_entries(out: &mut String, records: &Vec<CheckRecord>)
    ensures
        final(out)@ == old(out)@ + entries_text(records_of(records@)),
{
    let ghost all = records_of(records@);
    let ghost before = out@;
    let mut i: usize = 0;
    proof {
        assert(all.take(0) =~= Seq::<Record>::empty());
        assert(before + entries_text(all.take(0)) =~= before);
    }
    while i < records.len()
        invariant
            i <= records@.len(),
            all == records_of(records@),
            out@ == before + entries_text(all.take(i as int)),
        decreases records@.len() - i,
    {
        let ghost so_far = all.take(i + 1);
        proof {
            assert(so_far.drop_last() =~= all.take(i as int));
            assert(so_far.last() == records@[i as int]@);
        }
        if i > 0 {
            out.append(", ");
        }
        out.append(&sbom_entry(&records[i]));
        proof {
            assert(out@ =~= before + entries_text(so_far));
        }
        i += 1;
    }
    proof {
        assert(all.take(i as int) =~= all);
    }
}

fn push_counts(out: &mut String, counts: &SeverityCounts)
    requires
        counts.sum_fits(),
    ensures
        final(out)@ == old(out)@ + counts_text(*counts),
{
    push_integer(out, counts.total());
    out.append(" (C");
    push_integer(out, counts.critical);
    out.append(" H");
    push_integer(out, counts.high);
    out.append(" M");
    push_integer(out, counts.medium);
    out.append(" L");
    push_integer(out, counts.low);
    out.append(" N");
    push_integer(out, counts.negligible);
    out.append(" U");
    push_integer(out, counts.unknown);
    out.append(")");
    proof {
        assert(out@ =~= old(out)@ + counts_text(*counts));
    }
}

/// The summary line of `total` checks, given the latest of every SBOM; `None`
/// when there are checks and their counts do not add up within 64 bits.
pub fn summarize(total: i64, latest: &Vec<CheckRecord>, db: &str) -> (line: Option<String>)
    ensures
        match line {
            Some(text) => (total == 0 || sums_fit(records_of(latest@))) && text@ == summary_text(
                total as int,
                records_of(latest@),
                db@,
            ),
            None => total != 0 && !sums_fit(records_of(latest@)),
        },
{
    if total == 0 {
        let mut line = "grype-verify: no checks recorded yet (db=".to_string();
        line.append(db);
        line.append(")");
        return Some(line);
    }
    let totals = match severity_totals(latest) {
        Some(totals) => totals,
        None => return None,
    };
    let mut line = "grype-verify: ".to_string();
    line.append(status_flag(latest));
    line.append(" | checks=");
    push_integer(&mut line, total);
    line.append(" | db=");
    line.append(db);
    line.append(" | ");
    line.append(status_mode(latest));
    line.append(" | vulns=");
    push_counts(&mut line, &totals);
    line.append(" | ");
    push_entries(&mut line, latest);
    Some(line)
}

// ---------------------------------------------------------------------------
// Laws
// ---------------------------------------------------------------------------

/// Every result is the one that the exit code stands for, as in all records that
/// queries return.
pub open spec fn results_match(records: Seq<Record>) -> bool {
    forall|i: int|
        0 <= i < records.len() ==> (#[trigger] records[i]).result == result_of(records[i].exit_code)
}

/// Law: the overall state follows the exit codes. It is `ERROR` exactly when a
/// scan neither was clean nor found vulnerabilities, else `VULNERABLE` exactly
/// when a scan found some, and `CLEAN` exactly when all scans were clean.
pub proof fn law_flag_follows_exit_codes(records: Seq<Record>)
    requires
        results_match(records),
    ensures
        flag_of(records) == "ERROR"@ <==> exists|i: int|
            0 <= i < records.len() && (#[trigger] records[i]).exit_code != 0
                && records[i].exit_code != 2,
        flag_of(records) == "VULNERABLE"@ <==> (exists|i: int|
            0 <= i < records.len() && (#[trigger] records[i]).exit_code == 2) && forall|i: int|
            0 <= i < records.len() ==> (#[trigger] records[i]).exit_code == 0
                || records[i].exit_code == 2,
        flag_of(records) == "CLEAN"@ <==> forall|i: int|
            0 <= i < records.len() ==> (#[trigger] records[i]).exit_code == 0,
{
    reveal_strlit("ERROR");
    reveal_strlit("VULNERABLE");
    reveal_strlit("CLEAN");
    reveal_strlit("error");
    reveal_strlit("vulnerable");
    reveal_strlit("clean");
    assert("ERROR"@[0] != "CLEAN"@[0]);
    assert("ERROR"@[0] != "VULNERABLE"@[0]);
    assert("CLEAN"@[0] != "VULNERABLE"@[0]);
    assert("error"@[0] != "clean"@[0]);
    assert("error"@[0] != "vulnerable"@[0]);
    assert("clean"@[0] != "vulnerable"@[0]);
    if exists|i: int|
        0 <= i < records.len() && (#[trigger] records[i]).exit_code != 0 && records[i].exit_code
            != 2 {
        let i = choose|i: int|
            0 <= i < records.len() && (#[trigger] records[i]).exit_code != 0
                && records[i].exit_code != 2;
        assert(records[i].result == "error"@);
    }
    if exists|i: int| 0 <= i < records.len() && (#[trigger] records[i]).exit_code == 2 {
        let i = choose|i: int| 0 <= i < records.len() && (#[trigger] records[i]).exit_code == 2;
        assert(records[i].result == "vulnerable"@);
    }
}

/// Law: the total that the summary shows is the sum of the totals of the
/// records.
pub proof fn law_totals_add_up(records: Seq<Record>, n: int)
    requires
        0 <= n <= records.len(),
    ensures
        ({
            let sums = record_sums(records, n);
            sums.critical + sums.high + sums.medium + sums.low + sums.negligible + sums.unknown
        }) == total_sum(records, n),
        record_sums(records, n).scans == n,
    decreases n,
{
    if n > 0 {
        law_totals_add_up(records, n - 1);
    }
}

/// The totals of the first `n` records, added up.
pub open spec fn total_sum(records: Seq<Record>, n: int) -> int
    decreases n,
{
    if n <= 0 {
        0
    } else {
        total_sum(records, n - 1) + records[n - 1].severity.sum()
    }
}

/// Law: the records that queries return carry the results of their exit codes.
pub proof fn law_query_results_match(rows: Seq<Row>, picked: Seq<int>)
    ensures
        results_match(read_at(rows, picked)),
{
}

} // verus!
