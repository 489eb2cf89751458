//! What the operations promise, stated of their inputs and results in plain terms:
//! comparisons, sums and the texts themselves.
use crate::calendar::{
    day_number, days_before_month, is_date, month_days, sqlite_date, sqlite_datetime,
};
use crate::db::{
    after, checks_after, clamped, is_latest, latest, latest_checks, law_latest_covers_every_sbom,
    law_latest_is_one_per_sbom, read_at, record_of, records_of, result_of, rows_of, stamps, stored,
    timestamp_of, totals_fit, CheckRecord, CheckRow, CheckTable, Record, Row,
};
use crate::json::{json_parsed, Json};
use crate::order::{law_newest_first_is_the_order, newer, newest_first, row_numbers};
use crate::request::{
    is_space, lemma_pair_reads_back, lemma_span, lemma_split_at, lemma_word_len_is, pair_of,
    pair_text, pairs, pairs_of, param_of, pieces, request_of, rest_after, span, words, Request,
    RequestView,
};
use crate::scan::{
    breakdown_text, is_outcome, mode_after, report_outcome, scan_env, scan_words, tally_view,
    update_env, update_notice, update_refusal, Finished, Outcome, ScanArgs,
};
use crate::schema::{
    added_columns, adds, law_migration_adds_each_column_once, law_migration_keeps_columns,
    lemma_missing, migrated, missing_columns, names_of, AddColumn,
};
use crate::serve::{
    banner_lines, endpoint_at, error_response, json_escaped, number_param, ok_response, raw_wanted,
    refusal, request_view, response, results_body, server_error, shown, trend_answers, Endpoint,
};
use crate::severity::{
    level_count, matches_of, severities_of, severity_level, severity_of_match, Level,
    ReportError, SeverityCounts, Sums,
};
use crate::status::{
    counts_text, entries_text, entry_text, flag_of, last_name, lemma_last_piece, lemma_single_piece,
    minute_of, mode_of, record_sums, shown_name, summary_text, sums_fit, totals_of,
};
use crate::text::{
    ascii_lower, byte_count, clipped, decimal, digits, digits_value, integer_value, is_clip,
    is_digit, law_clipped_is_the_clip, lowered, text_less, texts, unsigned_part,
};
use crate::trend::{
    dates_of, day_fits, day_list, day_sums, law_day_list_is_the_list, point_of, reaches_undated,
    row_dates, trend_days, trend_fits, trend_of, trends_of, Trend, TrendPoint,
};
use vstd::prelude::*;
use vstd::utf8::encode_utf8;

verus! {

// ---------------------------------------------------------------------------
// Numbers
// ---------------------------------------------------------------------------

/// Law: a number is written digit by digit, the last digit being its remainder by
/// ten, without leading zeros; a negative one has a `-` in front.
pub proof fn law_decimal_is_written_by_digits(n: int)
    ensures
        0 <= n < 10 ==> decimal(n).len() == 1 && decimal(n)[0] as int == 48 + n,
        10 <= n ==> decimal(n) == decimal(n / 10).push((48 + n % 10) as char),
        n < 0 ==> decimal(n) == seq!['-'] + decimal(-n),
        0 <= n ==> digits(n as nat) == decimal(n),
{
}

/// Law: a text without digits, or with anything but digits after its first
/// character, is no integer.
pub proof fn law_only_digits_make_an_integer(s: Seq<char>, i: int)
    requires
        s.len() == 0 || (s.len() == 1 && !('0' <= s[0] && s[0] <= '9')) || (1 <= i < s.len() && !(
        '0' <= s[i] && s[i] <= '9')) || (s.len() > 0 && !('0' <= s[0] && s[0] <= '9') && s[0] != '-'
            && s[0] != '+'),
    ensures
        integer_value(s) is None,
{
    let body = unsigned_part(s);
    if s.len() > 0 && !(s.len() == 1 && !('0' <= s[0] && s[0] <= '9')) {
        if 1 <= i < s.len() && !('0' <= s[i] && s[i] <= '9') {
            if body.len() == s.len() {
                assert(!is_digit(body[i]));
            } else {
                assert(body[i - 1] == s[i]);
                assert(!is_digit(body[i - 1]));
            }
        } else {
            assert(body == s);
            assert(!is_digit(body[0]));
        }
    } else if s.len() == 1 {
        if body.len() == 1 {
            assert(!is_digit(body[0]));
        }
    }
}

/// Law: a single digit is its number.
pub proof fn law_a_digit_is_its_number(c: char)
    requires
        '0' <= c && c <= '9',
    ensures
        integer_value(seq![c]) == Some((c as int - 48) as i64),
{
    reveal_with_fuel(digits_value, 2);
    let s = seq![c];
    assert(s.drop_last() =~= Seq::<char>::empty());
    assert(unsigned_part(s) == s);
}

/// Law: a `+` before an integer without a sign leaves it as it is, and a `-` makes
/// it negative.
pub proof fn law_signs_of_integers(s: Seq<char>)
    requires
        s.len() > 0,
        '0' <= s[0] && s[0] <= '9',
    ensures
        integer_value(seq!['+'] + s) == integer_value(s),
        integer_value(s) matches Some(v) ==> integer_value(seq!['-'] + s) == Some((-v) as i64),
{
    assert((seq!['+'] + s).drop_first() =~= s);
    assert((seq!['-'] + s).drop_first() =~= s);
    if integer_value(s) is Some {
        assert forall|i: int| 0 <= i < s.len() implies is_digit(#[trigger] s[i]) by {}
        lemma_digits_value_grows(s);
    }
}

proof fn lemma_digits_value_grows(s: Seq<char>)
    requires
        forall|i: int| 0 <= i < s.len() ==> is_digit(#[trigger] s[i]),
    ensures
        digits_value(s) >= 0,
    decreases s.len(),
{
    if s.len() > 0 {
        assert forall|i: int| 0 <= i < s.drop_last().len() implies is_digit(
            #[trigger] s.drop_last()[i],
        ) by {
            assert(s.drop_last()[i] == s[i]);
        }
        lemma_digits_value_grows(s.drop_last());
        assert(is_digit(s[s.len() - 1]));
    }
}

/// Law: one more digit at the end makes an integer ten times as large plus the
/// digit, away from zero, as long as that fits in 64 bits. A longer text that is
/// no integer does not become one.
pub proof fn law_integers_grow_by_digits(s: Seq<char>, c: char)
    requires
        '0' <= c && c <= '9',
    ensures
        integer_value(s) matches Some(v) ==> ({
            let w = if s[0] == '-' {
                10 * v - (c as int - 48)
            } else {
                10 * v + (c as int - 48)
            };
            integer_value(s.push(c)) == (if i64::MIN <= w <= i64::MAX {
                Some(w as i64)
            } else {
                None
            })
        }),
        integer_value(s) is None && s.len() >= 2 ==> integer_value(s.push(c)) is None,
{
    let t = s.push(c);
    let body = unsigned_part(s);
    let longer = unsigned_part(t);
    if s.len() > 0 {
        assert(t[0] == s[0]);
        assert(longer =~= body.push(c));
        assert(longer.drop_last() =~= body);
        assert(longer.last() == c);
        assert forall|i: int| 0 <= i < body.len() implies is_digit(#[trigger] body[i]) == is_digit(
            longer[i],
        ) by {}
        assert(is_digit(longer[body.len() as int]));
        if forall|i: int| 0 <= i < body.len() ==> is_digit(#[trigger] body[i]) {
            lemma_digits_value_grows(body);
            assert forall|i: int| 0 <= i < longer.len() implies is_digit(#[trigger] longer[i]) by {
                if i < body.len() {
                    assert(is_digit(body[i]));
                }
            }
        } else {
            let i = choose|i: int| 0 <= i < body.len() && !is_digit(#[trigger] body[i]);
            assert(!is_digit(longer[i]));
        }
    }
}

// ---------------------------------------------------------------------------
// Texts
// ---------------------------------------------------------------------------

/// Law: a clipped text is the longest leading part of the text whose UTF-8 takes
/// at most `max` bytes.
pub proof fn law_clipped_is_the_longest_part(s: Seq<char>, max: nat)
    ensures
        ({
            let kept = clipped(s, max);
            &&& kept.len() <= s.len()
            &&& kept == s.take(kept.len() as int)
            &&& encode_utf8(kept).len() <= max
            &&& forall|k: int|
                kept.len() < k <= s.len() ==> encode_utf8(#[trigger] s.take(k)).len() > max
        }),
{
    law_clipped_is_the_clip(s, max);
    let kept = clipped(s, max);
    let n = choose|k: int|
        #![trigger s.take(k)]
        {
            &&& 0 <= k <= s.len()
            &&& kept == s.take(k)
            &&& byte_count(s.take(k)) <= max
            &&& k < s.len() ==> byte_count(s.take(k + 1)) > max
        };
    assert(is_clip(s, max, kept));
    assert(kept.len() == n);
    assert forall|k: int| kept.len() < k <= s.len() implies encode_utf8(
        #[trigger] s.take(k),
    ).len() > max by {
        crate::text::lemma_byte_count_monotone(s, n + 1, k);
    }
}

/// Law: lowering touches the letters `A` to `Z` alone, each of which becomes its
/// small letter.
pub proof fn law_lowering_touches_capitals_alone(s: Seq<char>, i: int)
    requires
        0 <= i < s.len(),
    ensures
        lowered(s).len() == s.len(),
        'A' <= s[i] && s[i] <= 'Z' ==> lowered(s)[i] as int == s[i] as int + 32,
        !('A' <= s[i] && s[i] <= 'Z') ==> lowered(s)[i] == s[i],
{
    assert(lowered(s)[i] == ascii_lower(s[i]));
}

/// Law: of two texts, the one with the smaller character at the first difference
/// comes first; a text comes before those that it starts.
pub proof fn law_first_difference_decides(a: Seq<char>, b: Seq<char>, k: int)
    requires
        0 <= k <= a.len(),
        k < b.len(),
        forall|i: int| 0 <= i < k ==> a[i] == b[i],
        k < a.len() ==> a[k] != b[k],
    ensures
        text_less(a, b) == (k == a.len() || a[k] < b[k]),
        !text_less(a, a),
        text_less(b, a) == !text_less(a, b),
    decreases k,
{
    crate::text::lemma_text_order_is_total(a, a);
    if k > 0 {
        assert(a[0] == b[0]);
        assert forall|i: int| 0 <= i < k - 1 implies a.drop_first()[i] == b.drop_first()[i] by {
            assert(a[i + 1] == b[i + 1]);
        }
        law_first_difference_decides(a.drop_first(), b.drop_first(), k - 1);
    }
}

// ---------------------------------------------------------------------------
// Tallies
// ---------------------------------------------------------------------------

/// The number of the indices below `n` with the property.
pub open spec fn count_if(n: int, p: spec_fn(int) -> bool) -> int
    decreases n,
{
    if n <= 0 {
        0
    } else if p(n - 1) {
        count_if(n - 1, p) + 1
    } else {
        count_if(n - 1, p)
    }
}

/// The sum of a quantity over the indices below `n` with the property.
pub open spec fn sum_if(n: int, p: spec_fn(int) -> bool, f: spec_fn(int) -> int) -> int
    decreases n,
{
    if n <= 0 {
        0
    } else if p(n - 1) {
        sum_if(n - 1, p, f) + f(n - 1)
    } else {
        sum_if(n - 1, p, f)
    }
}

/// `s` is `name`, but for letters of `s` that are capitals.
pub open spec fn spells(s: Seq<char>, name: Seq<char>) -> bool {
    &&& s.len() == name.len()
    &&& forall|i: int|
        0 <= i < s.len() ==> (#[trigger] s[i] as int) + (if 'A' <= s[i] && s[i] <= 'Z' {
            32int
        } else {
            0int
        }) == name[i] as int
}

/// None of the five names of levels.
pub open spec fn spells_no_level(s: Seq<char>) -> bool {
    !spells(s, "critical"@) && !spells(s, "high"@) && !spells(s, "medium"@) && !spells(s, "low"@)
        && !spells(s, "negligible"@)
}

proof fn lemma_spells(s: Seq<char>, name: Seq<char>)
    ensures
        spells(s, name) <==> lowered(s) == name,
{
    if spells(s, name) {
        assert forall|i: int| 0 <= i < s.len() implies lowered(s)[i] == name[i] by {
            law_lowering_touches_capitals_alone(s, i);
            assert((s[i] as int) + (if 'A' <= s[i] && s[i] <= 'Z' {
                32int
            } else {
                0int
            }) == name[i] as int);
        }
        assert(lowered(s) =~= name);
    }
    if lowered(s) == name {
        assert forall|i: int| 0 <= i < s.len() implies (#[trigger] s[i] as int) + (if 'A' <= s[i]
            && s[i] <= 'Z' {
            32int
        } else {
            0int
        }) == name[i] as int by {
            law_lowering_touches_capitals_alone(s, i);
        }
    }
}

/// Law: a severity names a level exactly when it spells the name of the level, in
/// capitals or small letters, and is unknown when it spells none.
pub proof fn law_levels_are_spelled(s: Seq<char>)
    ensures
        severity_level(s) == Level::Critical <==> spells(s, "critical"@),
        severity_level(s) == Level::High <==> spells(s, "high"@),
        severity_level(s) == Level::Medium <==> spells(s, "medium"@),
        severity_level(s) == Level::Low <==> spells(s, "low"@),
        severity_level(s) == Level::Negligible <==> spells(s, "negligible"@),
        severity_level(s) == Level::Unknown <==> spells_no_level(s),
{
    reveal_strlit("critical");
    reveal_strlit("high");
    reveal_strlit("medium");
    reveal_strlit("low");
    reveal_strlit("negligible");
    assert("critical"@.len() == 8);
    assert("high"@.len() == 4);
    assert("medium"@.len() == 6);
    assert("low"@.len() == 3);
    assert("negligible"@.len() == 10);
    lemma_spells(s, "critical"@);
    lemma_spells(s, "high"@);
    lemma_spells(s, "medium"@);
    lemma_spells(s, "low"@);
    lemma_spells(s, "negligible"@);
}

proof fn lemma_count_levels(
    severities: Seq<Seq<char>>,
    level: Level,
    p: spec_fn(int) -> bool,
    n: int,
)
    requires
        0 <= n <= severities.len(),
        forall|i: int|
            0 <= i < severities.len() ==> (p(i) <==> severity_level(#[trigger] severities[i])
                == level),
    ensures
        level_count(severities.take(n), level) == count_if(n, p),
    decreases n,
{
    if n > 0 {
        lemma_count_levels(severities, level, p, n - 1);
        assert(severities.take(n).drop_last() =~= severities.take(n - 1));
        assert(severities.take(n).last() == severities[n - 1]);
        assert(p(n - 1) <==> severity_level(severities[n - 1]) == level);
    }
}

/// Law: every count of a tally is the number of severities that spell its level,
/// and the count of the unknown is the number of those that spell none.
pub proof fn law_tally_counts_spellings(counts: SeverityCounts, severities: Seq<Seq<char>>)
    requires
        counts.tallies(severities),
    ensures
        ({
            let n = severities.len() as int;
            &&& counts.critical == count_if(n, |i: int| spells(severities[i], "critical"@))
            &&& counts.high == count_if(n, |i: int| spells(severities[i], "high"@))
            &&& counts.medium == count_if(n, |i: int| spells(severities[i], "medium"@))
            &&& counts.low == count_if(n, |i: int| spells(severities[i], "low"@))
            &&& counts.negligible == count_if(n, |i: int| spells(severities[i], "negligible"@))
            &&& counts.unknown == count_if(n, |i: int| spells_no_level(severities[i]))
        }),
{
    let n = severities.len() as int;
    assert(severities.take(n) =~= severities);
    assert forall|i: int| 0 <= i < n implies {
        let s = #[trigger] severities[i];
        &&& severity_level(s) == Level::Critical <==> spells(s, "critical"@)
        &&& severity_level(s) == Level::High <==> spells(s, "high"@)
        &&& severity_level(s) == Level::Medium <==> spells(s, "medium"@)
        &&& severity_level(s) == Level::Low <==> spells(s, "low"@)
        &&& severity_level(s) == Level::Negligible <==> spells(s, "negligible"@)
        &&& severity_level(s) == Level::Unknown <==> spells_no_level(s)
    } by {
        law_levels_are_spelled(severities[i]);
    }
    lemma_count_levels(
        severities,
        Level::Critical,
        |i: int| spells(severities[i], "critical"@),
        n,
    );
    lemma_count_levels(severities, Level::High, |i: int| spells(severities[i], "high"@), n);
    lemma_count_levels(severities, Level::Medium, |i: int| spells(severities[i], "medium"@), n);
    lemma_count_levels(severities, Level::Low, |i: int| spells(severities[i], "low"@), n);
    lemma_count_levels(
        severities,
        Level::Negligible,
        |i: int| spells(severities[i], "negligible"@),
        n,
    );
    lemma_count_levels(severities, Level::Unknown, |i: int| spells_no_level(severities[i]), n);
}

/// Law: a match whose `vulnerability` is an object with a text as its `severity`
/// states that text, whatever else the two objects hold.
pub proof fn law_a_match_states_its_severity(
    entry: Map<Seq<char>, Json>,
    vulnerability: Map<Seq<char>, Json>,
    severity: Seq<char>,
)
    requires
        entry.contains_key("vulnerability"@),
        entry["vulnerability"@] == Json::Object(vulnerability),
        vulnerability.contains_key("severity"@),
        vulnerability["severity"@] == Json::Text(severity),
    ensures
        severity_of_match(Json::Object(entry)) == severity,
        forall|key: Seq<char>, value: Json|
            key != "vulnerability"@ ==> #[trigger] severity_of_match(
                Json::Object(entry.insert(key, value)),
            ) == severity,
        forall|key: Seq<char>, value: Json|
            key != "severity"@ ==> #[trigger] severity_of_match(
                Json::Object(
                    entry.insert(
                        "vulnerability"@,
                        Json::Object(vulnerability.insert(key, value)),
                    ),
                ),
            ) == severity,
{
}

/// Law: a match states `Unknown` where it is no object, or has no `vulnerability`,
/// or this is no object, or has no `severity`, or this is no text.
pub proof fn law_a_match_without_severity_is_unknown(entry: Json)
    requires
        match entry {
            Json::Object(members) => members.contains_key("vulnerability"@) ==> match
                members["vulnerability"@] {
                Json::Object(inner) => inner.contains_key("severity"@) ==> !(
                inner["severity"@] is Text),
                _ => true,
            },
            _ => true,
        },
    ensures
        severity_of_match(entry) == "Unknown"@,
{
}

/// Law: the matches of a report are the list under `matches` of an object; any
/// other report has none.
pub proof fn law_matches_are_a_list(report: Json)
    ensures
        match matches_of(report) {
            Some(entries) => report matches Json::Object(members) && members.contains_key(
                "matches"@,
            ) && members["matches"@] == Json::List(entries),
            None => report matches Json::Object(members) ==> members.contains_key("matches"@)
                ==> !(members["matches"@] is List),
        },
{
}

/// Law: the severities of a report are those that its matches state, in order.
pub proof fn law_severities_come_from_matches(entries: Seq<Json>, i: int)
    requires
        0 <= i < entries.len(),
    ensures
        severities_of(entries).len() == entries.len(),
        severities_of(entries)[i] == severity_of_match(entries[i]),
{
}

/// Law: the sum of the counts is that of all six levels, and it fits when every
/// sum from `critical` on does.
pub proof fn law_sums_take_all_levels(c: SeverityCounts)
    ensures
        c.sum() == c.critical + c.high + c.medium + c.low + c.negligible + c.unknown,
        c.sum_fits() <==> {
            let two = c.critical + c.high;
            let three = two + c.medium;
            let four = three + c.low;
            let five = four + c.negligible;
            let six = five + c.unknown;
            &&& i64::MIN <= two <= i64::MAX
            &&& i64::MIN <= three <= i64::MAX
            &&& i64::MIN <= four <= i64::MAX
            &&& i64::MIN <= five <= i64::MAX
            &&& i64::MIN <= six <= i64::MAX
        },
        SeverityCounts::zero().critical == 0 && SeverityCounts::zero().high == 0
            && SeverityCounts::zero().medium == 0 && SeverityCounts::zero().low == 0
            && SeverityCounts::zero().negligible == 0 && SeverityCounts::zero().unknown == 0,
{
}

/// Law: counts are added level by level.
pub proof fn law_counts_are_added_by_level(a: SeverityCounts, b: SeverityCounts)
    ensures
        ({
            let sums = Sums::of(a).plus(b);
            &&& sums.critical == a.critical + b.critical
            &&& sums.high == a.high + b.high
            &&& sums.medium == a.medium + b.medium
            &&& sums.low == a.low + b.low
            &&& sums.negligible == a.negligible + b.negligible
            &&& sums.unknown == a.unknown + b.unknown
            &&& sums.in_range() <==> {
                &&& i64::MIN <= a.critical + b.critical <= i64::MAX
                &&& i64::MIN <= a.high + b.high <= i64::MAX
                &&& i64::MIN <= a.medium + b.medium <= i64::MAX
                &&& i64::MIN <= a.low + b.low <= i64::MAX
                &&& i64::MIN <= a.negligible + b.negligible <= i64::MAX
                &&& i64::MIN <= a.unknown + b.unknown <= i64::MAX
            }
            &&& sums.in_range() ==> {
                let c = sums.counts();
                &&& c.critical == a.critical + b.critical
                &&& c.high == a.high + b.high
                &&& c.medium == a.medium + b.medium
                &&& c.low == a.low + b.low
                &&& c.negligible == a.negligible + b.negligible
                &&& c.unknown == a.unknown + b.unknown
            }
        }),
{
}

// ---------------------------------------------------------------------------
// The checks table
// ---------------------------------------------------------------------------

/// Law: what a record is seen as holds its fields, one for one.
pub proof fn law_records_are_seen_as_they_are(r: CheckRecord)
    ensures
        r@.id == r.id,
        r@.timestamp == r.timestamp,
        r@.timestamp_iso == (match r.timestamp_iso {
            Some(t) => Some(t@),
            None => None,
        }),
        r@.sbom_path == r.sbom_path@,
        r@.mode == r.mode@,
        r@.db_updated == r.db_updated,
        r@.exit_code == r.exit_code,
        r@.result == r.result@,
        r@.fail_on == r.fail_on@,
        r@.output_fmt == r.output_fmt@,
        r@.duration_ms == r.duration_ms,
        r@.severity == r.severity,
        r@.total_vulns == r.total_vulns,
        r@.sarif_path == (match r.sarif_path {
            Some(t) => Some(t@),
            None => None,
        }),
        r@.raw_output == (match r.raw_output {
            Some(t) => Some(t@),
            None => None,
        }),
{
}

/// Law: what a row is seen as holds its columns, one for one.
pub proof fn law_rows_are_seen_as_they_are(r: CheckRow)
    ensures
        r@.id == r.id,
        r@.timestamp == r.timestamp,
        r@.sbom_path == r.sbom_path@,
        r@.mode == r.mode@,
        r@.db_updated == r.db_updated,
        r@.exit_code == r.exit_code,
        r@.fail_on == r.fail_on@,
        r@.output_fmt == r.output_fmt@,
        r@.duration_ms == r.duration_ms,
        r@.severity == r.severity,
        r@.sarif_path == (match r.sarif_path {
            Some(t) => Some(t@),
            None => None,
        }),
        r@.raw_output == (match r.raw_output {
            Some(t) => Some(t@),
            None => None,
        }),
{
}

/// Law: lists are seen element by element, in order.
pub proof fn law_lists_are_seen_by_element(
    records: Seq<CheckRecord>,
    rows: Seq<CheckRow>,
    points: Seq<TrendPoint>,
    strings: Seq<String>,
    query: Seq<(String, String)>,
    places: Seq<usize>,
    k: int,
)
    ensures
        records_of(records).len() == records.len(),
        0 <= k < records.len() ==> records_of(records)[k] == records[k]@,
        rows_of(rows).len() == rows.len(),
        0 <= k < rows.len() ==> rows_of(rows)[k] == rows[k]@,
        trends_of(points).len() == points.len(),
        0 <= k < points.len() ==> {
            let seen = trends_of(points)[k];
            let point = points[k];
            seen.day == point.day@ && seen.scans == point.scans && seen.severity == point.severity
                && seen.total_vulns == point.total_vulns
        },
        texts(strings).len() == strings.len(),
        0 <= k < strings.len() ==> texts(strings)[k] == strings[k]@,
        pairs(query).len() == query.len(),
        0 <= k < query.len() ==> pairs(query)[k].0 == query[k].0@ && pairs(query)[k].1
            == query[k].1@,
        row_numbers(places).len() == places.len(),
        0 <= k < places.len() ==> row_numbers(places)[k] == places[k],
{
}

/// Law: exit code 0 is `clean`, 2 is `vulnerable`, and every other is `error`.
pub proof fn law_results_of_exit_codes(code: i32)
    ensures
        code == 0 ==> result_of(code) == "clean"@,
        code == 2 ==> result_of(code) == "vulnerable"@,
        code != 0 && code != 2 ==> result_of(code) == "error"@,
{
}

/// Law: a clock reading is the timestamp where it fits, and else differs from it
/// by 2^64; a clock before 1970 gives 0.
pub proof fn law_clock_readings_are_timestamps(seconds: u64)
    ensures
        timestamp_of(None) == 0,
        i64::MIN <= timestamp_of(Some(seconds)) <= i64::MAX,
        seconds < 0x8000_0000_0000_0000 ==> timestamp_of(Some(seconds)) == seconds,
        seconds >= 0x8000_0000_0000_0000 ==> timestamp_of(Some(seconds)) + 0x1_0000_0000_0000_0000
            == seconds,
{
}

/// Law: a stored row has the id that it was given and the values of the record,
/// column by column; of the output it keeps the longest leading part of at most
/// 524288 bytes.
pub proof fn law_stored_rows_keep_the_record(rec: Record, id: i64)
    ensures
        ({
            let row = stored(rec, id);
            &&& row.id == id
            &&& row.timestamp == rec.timestamp
            &&& row.sbom_path == rec.sbom_path
            &&& row.mode == rec.mode
            &&& row.db_updated == (if rec.db_updated {
                1int
            } else {
                0int
            })
            &&& row.exit_code == rec.exit_code
            &&& row.fail_on == rec.fail_on
            &&& row.output_fmt == rec.output_fmt
            &&& row.duration_ms == rec.duration_ms
            &&& row.severity == rec.severity
            &&& row.sarif_path == rec.sarif_path
            &&& row.raw_output is Some <==> rec.raw_output is Some
            &&& rec.raw_output is Some ==> {
                let whole = rec.raw_output->0;
                let kept = row.raw_output->0;
                &&& kept.len() <= whole.len()
                &&& kept == whole.take(kept.len() as int)
                &&& encode_utf8(kept).len() <= 524288
                &&& forall|k: int|
                    kept.len() < k <= whole.len() ==> encode_utf8(#[trigger] whole.take(k)).len()
                        > 524288
            }
        }),
{
    if rec.raw_output is Some {
        law_clipped_is_the_longest_part(rec.raw_output->0, 524288);
    }
}

/// Law: a row is read as it is, with the text of its timestamp; the result is that
/// of its exit code, and the total that of its six counts.
pub proof fn law_rows_are_read_as_they_are(row: Row, timestamp_iso: Option<Seq<char>>)
    requires
        row.severity.sum_fits(),
    ensures
        ({
            let rec = record_of(row, timestamp_iso);
            let c = row.severity;
            &&& rec.id == row.id
            &&& rec.timestamp == row.timestamp
            &&& rec.timestamp_iso == timestamp_iso
            &&& rec.sbom_path == row.sbom_path
            &&& rec.mode == row.mode
            &&& rec.db_updated == (row.db_updated != 0)
            &&& rec.exit_code == row.exit_code
            &&& row.exit_code == 0 ==> rec.result == "clean"@
            &&& row.exit_code == 2 ==> rec.result == "vulnerable"@
            &&& row.exit_code != 0 && row.exit_code != 2 ==> rec.result == "error"@
            &&& rec.fail_on == row.fail_on
            &&& rec.output_fmt == row.output_fmt
            &&& rec.duration_ms == row.duration_ms
            &&& rec.severity == row.severity
            &&& rec.total_vulns == c.critical + c.high + c.medium + c.low + c.negligible + c.unknown
            &&& rec.sarif_path == row.sarif_path
            &&& rec.raw_output == row.raw_output
        }),
{
}

/// Law: reading rows gives one record for each place, in order: that of the row at
/// the place, with SQLite's text of its timestamp.
pub proof fn law_each_place_is_read(rows: Seq<Row>, picked: Seq<int>, k: int)
    requires
        0 <= k < picked.len(),
    ensures
        read_at(rows, picked).len() == picked.len(),
        read_at(rows, picked)[k] == record_of(
            rows[picked[k]],
            sqlite_datetime(rows[picked[k]].timestamp),
        ),
{
}

/// Law: a table takes a row as long as an id and a number of rows are left.
pub proof fn law_only_full_tables_refuse(table: CheckTable)
    requires
        table.wf(),
    ensures
        table.full() <==> table.last_id() == i64::MAX || table@.len() == i64::MAX,
        forall|i: int, j: int|
            0 <= i < j < table@.len() ==> (#[trigger] table@[i]).id < (#[trigger] table@[j]).id
                <= table.last_id(),
{
}

/// The cap that a limit asks for: `usual` where none is given, and otherwise the
/// limit, moved into the range from 1 to `most`.
pub open spec fn cap_for(limit: Option<i64>, usual: int, most: int) -> int {
    match limit {
        None => usual,
        Some(n) => if n < 1 {
            1
        } else if n > most {
            most
        } else {
            n as int
        },
    }
}

/// Law: moving a number into a range gives the number of the range that is nearest
/// to it.
pub proof fn law_clamping_takes_the_nearest(n: int, low: int, high: int, m: int)
    requires
        low <= m <= high,
    ensures
        low <= clamped(n, low, high) <= high,
        low <= n <= high ==> clamped(n, low, high) == n,
        n < low ==> clamped(n, low, high) <= m,
        n > high ==> clamped(n, low, high) >= m,
{
}

/// Row `a` comes before row `b` where the newest come first.
pub open spec fn goes_before(rows: Seq<Row>, a: int, b: int) -> bool {
    rows[a].timestamp > rows[b].timestamp || (rows[a].timestamp == rows[b].timestamp && a > b)
}

proof fn lemma_newer_goes_before(rows: Seq<Row>, a: int, b: int)
    requires
        0 <= a < rows.len(),
        0 <= b < rows.len(),
    ensures
        newer(stamps(rows), a, b) == goes_before(rows, a, b),
{
    assert(stamps(rows)[a] == rows[a].timestamp);
    assert(stamps(rows)[b] == rows[b].timestamp);
}

/// Law: a query returns only rows with a timestamp above `since`, newest first,
/// and at most as many as its cap: 100, or the limit from 1 to 10000.
pub proof fn law_checks_returned_are_after_since(
    rows: Seq<Row>,
    since: Option<i64>,
    limit: Option<i64>,
)
    ensures
        ({
            let picked = checks_after(rows, since, limit);
            &&& picked.len() <= cap_for(limit, 100, 10_000)
            &&& forall|k: int|
                0 <= k < picked.len() ==> 0 <= #[trigger] picked[k] < rows.len() && (
                since matches Some(start) ==> rows[picked[k]].timestamp > start)
            &&& forall|j: int, k: int|
                0 <= j < k < picked.len() ==> goes_before(
                    rows,
                    #[trigger] picked[j],
                    #[trigger] picked[k],
                )
        }),
{
    let marks = after(rows, since);
    let order = newest_first(stamps(rows), marks);
    let picked = checks_after(rows, since, limit);
    law_newest_first_is_the_order(stamps(rows), marks);
    assert forall|k: int| 0 <= k < picked.len() implies 0 <= #[trigger] picked[k] < rows.len() && (
    since matches Some(start) ==> rows[picked[k]].timestamp > start) by {
        assert(picked[k] == order[k]);
        assert(marks[order[k]]);
    }
    assert forall|j: int, k: int| 0 <= j < k < picked.len() implies goes_before(
        rows,
        #[trigger] picked[j],
        #[trigger] picked[k],
    ) by {
        assert(picked[j] == order[j] && picked[k] == order[k]);
        assert(newer(stamps(rows), order[j], order[k]));
        lemma_newer_goes_before(rows, order[j], order[k]);
    }
}

/// Law: a query returns every row with a timestamp above `since`, and every row
/// where none is given, unless it is full; and then each row that it returns comes
/// before the one left out.
pub proof fn law_checks_after_since_are_returned(
    rows: Seq<Row>,
    since: Option<i64>,
    limit: Option<i64>,
    i: int,
)
    requires
        0 <= i < rows.len(),
        since matches Some(start) ==> rows[i].timestamp > start,
    ensures
        ({
            let picked = checks_after(rows, since, limit);
            picked.contains(i) || (picked.len() == cap_for(limit, 100, 10_000) && forall|k: int|
                0 <= k < picked.len() ==> goes_before(rows, #[trigger] picked[k], i))
        }),
{
    let marks = after(rows, since);
    let order = newest_first(stamps(rows), marks);
    let picked = checks_after(rows, since, limit);
    law_newest_first_is_the_order(stamps(rows), marks);
    assert(marks[i]);
    assert(order.contains(i));
    if !picked.contains(i) {
        let place = choose|k: int| 0 <= k < order.len() && order[k] == i;
        assert(picked == order.take(cap_for(limit, 100, 10_000)));
        assert(place >= picked.len()) by {
            if place < picked.len() {
                assert(picked[place] == i);
            }
        }
        assert forall|k: int| 0 <= k < picked.len() implies goes_before(
            rows,
            #[trigger] picked[k],
            i,
        ) by {
            assert(picked[k] == order[k]);
            assert(marks[order[k]]);
            assert(newer(stamps(rows), order[k], order[place]));
            lemma_newer_goes_before(rows, order[k], i);
        }
    }
}

/// Law: the latest checks are one row for each SBOM that occurs, namely the one
/// that comes before all others of the SBOM, and they are newest first.
pub proof fn law_latest_checks_are_the_newest_of_each_sbom(rows: Seq<Row>)
    ensures
        ({
            let picked = latest_checks(rows);
            &&& forall|k: int| 0 <= k < picked.len() ==> 0 <= #[trigger] picked[k] < rows.len()
            &&& forall|k: int, i: int|
                0 <= k < picked.len() && 0 <= i < rows.len() && i != picked[k] && (
                #[trigger] rows[i]).sbom_path == rows[#[trigger] picked[k]].sbom_path
                    ==> goes_before(rows, picked[k], i)
            &&& forall|j: int, k: int|
                0 <= j < k < picked.len() ==> rows[#[trigger] picked[j]].sbom_path
                    != rows[#[trigger] picked[k]].sbom_path && goes_before(
                    rows,
                    picked[j],
                    picked[k],
                )
            &&& forall|i: int|
                0 <= i < rows.len() ==> exists|k: int|
                    0 <= k < picked.len() && rows[#[trigger] picked[k]].sbom_path == (
                    #[trigger] rows[i]).sbom_path
        }),
{
    let picked = latest_checks(rows);
    let marks = latest(rows);
    law_newest_first_is_the_order(stamps(rows), marks);
    assert forall|k: int, i: int|
        0 <= k < picked.len() && 0 <= i < rows.len() && i != picked[k] && (
        #[trigger] rows[i]).sbom_path
            == rows[#[trigger] picked[k]].sbom_path implies goes_before(rows, picked[k], i) by {
        assert(marks[picked[k]]);
        assert(is_latest(rows, picked[k]));
        lemma_newer_goes_before(rows, picked[k], i);
    }
    assert forall|j: int, k: int|
        0 <= j < k < picked.len() implies rows[#[trigger] picked[j]].sbom_path
        != rows[#[trigger] picked[k]].sbom_path && goes_before(rows, picked[j], picked[k]) by {
        assert(newer(stamps(rows), picked[j], picked[k]));
        lemma_newer_goes_before(rows, picked[j], picked[k]);
        law_latest_is_one_per_sbom(rows, j, k);
    }
    assert forall|i: int| 0 <= i < rows.len() implies exists|k: int|
        0 <= k < picked.len() && rows[#[trigger] picked[k]].sbom_path == (
        #[trigger] rows[i]).sbom_path by {
        law_latest_covers_every_sbom(rows, i);
    }
}

/// Law: the marked rows are listed each once, by falling timestamp and, among
/// equal ones, from the last to the first.
pub proof fn law_marked_rows_are_listed_newest_first(stamps: Seq<i64>, keep: Seq<bool>)
    ensures
        ({
            let order = newest_first(stamps, keep);
            &&& forall|k: int|
                0 <= k < order.len() ==> 0 <= #[trigger] order[k] < keep.len() && keep[order[k]]
            &&& forall|i: int| 0 <= i < keep.len() && #[trigger] keep[i] ==> order.contains(i)
            &&& forall|j: int, k: int|
                0 <= j < k < order.len() ==> stamps[#[trigger] order[j]] > stamps[
                    #[trigger] order[k]]
                    || (stamps[order[j]] == stamps[order[k]] && order[j] > order[k])
        }),
{
    let order = newest_first(stamps, keep);
    law_newest_first_is_the_order(stamps, keep);
    assert forall|j: int, k: int|
        0 <= j < k < order.len() implies stamps[#[trigger] order[j]] > stamps[#[trigger] order[k]]
        || (stamps[order[j]] == stamps[order[k]] && order[j] > order[k]) by {
        assert(newer(stamps, order[j], order[k]));
    }
}

/// Law: the totals of the rows at some places fit exactly when the counts of each
/// can be added up.
pub proof fn law_totals_fit_row_by_row(rows: Seq<Row>, picked: Seq<int>)
    ensures
        totals_fit(rows, picked) <==> forall|k: int|
            0 <= k < picked.len() ==> rows[#[trigger] picked[k]].severity.sum_fits(),
{
}

// ---------------------------------------------------------------------------
// The trend
// ---------------------------------------------------------------------------

proof fn lemma_day_sums_are_sums(
    rows: Seq<Row>,
    dates: Seq<Option<Seq<char>>>,
    day: Seq<char>,
    p: spec_fn(int) -> bool,
    n: int,
)
    requires
        0 <= n <= rows.len(),
        forall|i: int| 0 <= i < rows.len() ==> (#[trigger] p(i) <==> dates[i] == Some(day)),
    ensures
        ({
            let sums = day_sums(rows, dates, day, n);
            &&& sums.scans == count_if(n, p)
            &&& sums.critical == sum_if(n, p, |i: int| rows[i].severity.critical as int)
            &&& sums.high == sum_if(n, p, |i: int| rows[i].severity.high as int)
            &&& sums.medium == sum_if(n, p, |i: int| rows[i].severity.medium as int)
            &&& sums.low == sum_if(n, p, |i: int| rows[i].severity.low as int)
            &&& sums.negligible == sum_if(n, p, |i: int| rows[i].severity.negligible as int)
            &&& sums.unknown == sum_if(n, p, |i: int| rows[i].severity.unknown as int)
        }),
    decreases n,
{
    if n > 0 {
        lemma_day_sums_are_sums(rows, dates, day, p, n - 1);
        assert(p(n - 1) <==> dates[n - 1] == Some(day));
    }
}

proof fn lemma_count_is_bounded(n: int, p: spec_fn(int) -> bool)
    requires
        0 <= n,
    ensures
        0 <= count_if(n, p) <= n,
    decreases n,
{
    if n > 0 {
        lemma_count_is_bounded(n - 1, p);
    }
}

/// Law: a point of a trend counts the checks of its day. Its scans are their
/// number, each of its counts is the sum of theirs, and its total is the sum of its
/// own six counts.
pub proof fn law_points_sum_the_checks_of_their_day(
    rows: Seq<Row>,
    dates: Seq<Option<Seq<char>>>,
    limit: Option<i64>,
    k: int,
)
    requires
        dates.len() == rows.len() <= i64::MAX,
        trend_fits(rows, dates, limit),
        0 <= k < trend_of(rows, dates, limit).len(),
    ensures
        ({
            let n = rows.len() as int;
            let p = trend_of(rows, dates, limit)[k];
            let of_day = |i: int| dates[i] == Some(p.day);
            let c = p.severity;
            &&& p.scans == count_if(n, of_day)
            &&& c.critical == sum_if(n, of_day, |i: int| rows[i].severity.critical as int)
            &&& c.high == sum_if(n, of_day, |i: int| rows[i].severity.high as int)
            &&& c.medium == sum_if(n, of_day, |i: int| rows[i].severity.medium as int)
            &&& c.low == sum_if(n, of_day, |i: int| rows[i].severity.low as int)
            &&& c.negligible == sum_if(n, of_day, |i: int| rows[i].severity.negligible as int)
            &&& c.unknown == sum_if(n, of_day, |i: int| rows[i].severity.unknown as int)
            &&& p.total_vulns == c.critical + c.high + c.medium + c.low + c.negligible + c.unknown
        }),
{
    let n = rows.len() as int;
    let p = trend_of(rows, dates, limit)[k];
    let day = trend_days(dates, limit)[k];
    let of_day = |i: int| dates[i] == Some(p.day);
    assert(p == point_of(rows, dates, day));
    assert(day_fits(rows, dates, day));
    assert(day_sums(rows, dates, day, n).in_range());
    lemma_day_sums_are_sums(rows, dates, day, of_day, n);
    lemma_count_is_bounded(n, of_day);
}

/// One of the points is of the day.
pub open spec fn has_point(points: Seq<Trend>, day: Seq<char>) -> bool {
    exists|k: int| 0 <= k < points.len() && (#[trigger] points[k]).day == day
}

/// All points are of later days.
pub open spec fn all_later(points: Seq<Trend>, day: Seq<char>) -> bool {
    forall|k: int| 0 <= k < points.len() ==> text_less(day, (#[trigger] points[k]).day)
}

/// Law: a trend has at most as many points as its cap, 30 or the limit from 1 to
/// 3650. Their days all occur, each is later than the next, and a day that occurs
/// is left out only when the trend is full of later ones.
pub proof fn law_a_trend_has_the_latest_days(
    rows: Seq<Row>,
    dates: Seq<Option<Seq<char>>>,
    limit: Option<i64>,
)
    ensures
        trend_of(rows, dates, limit).len() <= cap_for(limit, 30, 3650),
        forall|k: int|
            0 <= k < trend_of(rows, dates, limit).len() ==> dates.contains(
                Some((#[trigger] trend_of(rows, dates, limit)[k]).day),
            ),
        forall|j: int, k: int|
            0 <= j < k < trend_of(rows, dates, limit).len() ==> text_less(
                (#[trigger] trend_of(rows, dates, limit)[k]).day,
                (#[trigger] trend_of(rows, dates, limit)[j]).day,
            ),
        forall|i: int|
            0 <= i < dates.len() && (#[trigger] dates[i]) is Some ==> has_point(
                trend_of(rows, dates, limit),
                dates[i]->0,
            ) || (trend_of(rows, dates, limit).len() == cap_for(limit, 30, 3650) && all_later(
                trend_of(rows, dates, limit),
                dates[i]->0,
            )),
{
    let list = day_list(dates);
    let days = trend_days(dates, limit);
    let points = trend_of(rows, dates, limit);
    law_day_list_is_the_list(dates);
    assert forall|k: int| 0 <= k < points.len() implies dates.contains(
        Some((#[trigger] points[k]).day),
    ) by {
        assert(points[k].day == list[k]);
    }
    assert forall|j: int, k: int| 0 <= j < k < points.len() implies text_less(
        (#[trigger] points[k]).day,
        (#[trigger] points[j]).day,
    ) by {
        assert(points[k].day == list[k]);
        assert(points[j].day == list[j]);
    }
    assert forall|i: int| 0 <= i < dates.len() && (#[trigger] dates[i]) is Some implies has_point(
        points,
        dates[i]->0,
    ) || (points.len() == cap_for(limit, 30, 3650) && all_later(points, dates[i]->0)) by {
        let day = dates[i]->0;
        assert(list.contains(day));
        let place = choose|j: int| 0 <= j < list.len() && list[j] == day;
        if place < points.len() {
            assert(points[place].day == day);
        } else {
            assert(days == list.take(cap_for(limit, 30, 3650)));
            assert forall|k: int| 0 <= k < points.len() implies text_less(
                day,
                (#[trigger] points[k]).day,
            ) by {
                assert(points[k].day == list[k]);
                assert(text_less(list[place], list[k]));
            }
        }
    }
}

/// Law: a trend is refused for a check without a date exactly when there is one
/// and the days that occur leave room for it.
pub proof fn law_undated_checks_come_after_all_days(
    rows: Seq<Row>,
    dates: Seq<Option<Seq<char>>>,
    limit: Option<i64>,
)
    ensures
        reaches_undated(dates, limit) <==> trend_of(rows, dates, limit).len() < cap_for(
            limit,
            30,
            3650,
        ) && exists|i: int| 0 <= i < dates.len() && (#[trigger] dates[i]) is None,
{
}

/// The six counts of the first `n` rows, all added up.
pub open spec fn all_counts(rows: Seq<Row>, n: int) -> int
    decreases n,
{
    if n <= 0 {
        0
    } else {
        let c = rows[n - 1].severity;
        all_counts(rows, n - 1) + c.critical + c.high + c.medium + c.low + c.negligible + c.unknown
    }
}

/// No count of the row is negative.
pub open spec fn counts_things(c: SeverityCounts) -> bool {
    0 <= c.critical && 0 <= c.high && 0 <= c.medium && 0 <= c.low && 0 <= c.negligible && 0
        <= c.unknown
}

proof fn lemma_day_sums_are_small(
    rows: Seq<Row>,
    dates: Seq<Option<Seq<char>>>,
    day: Seq<char>,
    n: int,
    m: int,
)
    requires
        0 <= n <= m <= rows.len(),
        forall|i: int| 0 <= i < rows.len() ==> counts_things((#[trigger] rows[i]).severity),
    ensures
        ({
            let s = day_sums(rows, dates, day, n);
            &&& 0 <= s.critical && 0 <= s.high && 0 <= s.medium && 0 <= s.low && 0 <= s.negligible
            &&& 0 <= s.unknown
            &&& s.critical + s.high + s.medium + s.low + s.negligible + s.unknown <= all_counts(
                rows,
                m,
            )
        }),
    decreases m,
{
    if m > 0 {
        assert(counts_things(rows[m - 1].severity));
        if n < m {
            lemma_day_sums_are_small(rows, dates, day, n, m - 1);
        } else {
            lemma_day_sums_are_small(rows, dates, day, n - 1, m - 1);
        }
    }
}

/// Law: a trend never overflows where no count is negative and all counts together
/// fit in 64 bits.
pub proof fn law_ordinary_trends_fit(
    rows: Seq<Row>,
    dates: Seq<Option<Seq<char>>>,
    limit: Option<i64>,
)
    requires
        forall|i: int| 0 <= i < rows.len() ==> counts_things((#[trigger] rows[i]).severity),
        all_counts(rows, rows.len() as int) <= i64::MAX,
    ensures
        trend_fits(rows, dates, limit),
{
    let m = rows.len() as int;
    assert forall|k: int| 0 <= k < trend_days(dates, limit).len() implies day_fits(
        rows,
        dates,
        #[trigger] trend_days(dates, limit)[k],
    ) by {
        let day = trend_days(dates, limit)[k];
        assert forall|n: int| 0 <= n <= rows.len() implies (#[trigger] day_sums(
            rows,
            dates,
            day,
            n,
        )).in_range() by {
            lemma_day_sums_are_small(rows, dates, day, n, m);
        }
        lemma_day_sums_are_small(rows, dates, day, m, m);
    }
}

/// Law: the days of rows are SQLite's dates of their timestamps, and days that are
/// given are taken as they are.
pub proof fn law_dates_belong_to_rows(rows: Seq<Row>, given: Seq<Option<String>>, i: int)
    ensures
        row_dates(rows).len() == rows.len(),
        0 <= i < rows.len() ==> row_dates(rows)[i] == sqlite_date(rows[i].timestamp),
        dates_of(given).len() == given.len(),
        0 <= i < given.len() ==> dates_of(given)[i] == (match given[i] {
            Some(t) => Some(t@),
            None => None,
        }),
{
}

/// Law: days are numbered one by one from 1970-01-01, over the ends of months and
/// years.
pub proof fn law_days_are_numbered_one_by_one(y: int, m: int, d: int)
    requires
        is_date(y, m, d),
    ensures
        day_number(1970, 1, 1) == 0,
        d < month_days(y, m) ==> day_number(y, m, d + 1) == day_number(y, m, d) + 1,
        d == month_days(y, m) && m < 12 ==> day_number(y, m + 1, 1) == day_number(y, m, d) + 1,
        d == 31 && m == 12 ==> day_number(y + 1, 1, 1) == day_number(y, m, d) + 1,
{
    if m == 12 {
        reveal_with_fuel(days_before_month, 13);
    }
}

// ---------------------------------------------------------------------------
// Requests
// ---------------------------------------------------------------------------

/// The white space of Unicode, by code point.
pub open spec fn white(c: char) -> bool {
    let n = c as int;
    (9 <= n && n <= 13) || n == 0x20 || n == 0x85 || n == 0xa0 || n == 0x1680 || (0x2000 <= n && n
        <= 0x200a) || n == 0x2028 || n == 0x2029 || n == 0x202f || n == 0x205f || n == 0x3000
}

/// Nothing but white space.
pub open spec fn all_white(s: Seq<char>) -> bool {
    forall|i: int| 0 <= i < s.len() ==> white(#[trigger] s[i])
}

/// A word: some characters, none of them white space.
pub open spec fn a_word(s: Seq<char>) -> bool {
    s.len() > 0 && forall|i: int| 0 <= i < s.len() ==> !white(#[trigger] s[i])
}

/// The pairs of a query.
pub open spec fn read_pairs(text: Seq<char>) -> Seq<(Seq<char>, Seq<char>)> {
    pairs_of(pieces(text, '&'))
}

/// Law: what a request is seen as holds its method, its path and its pairs.
pub proof fn law_requests_are_seen_as_they_are(r: Request)
    ensures
        r@.method == r.method@,
        r@.path == r.path@,
        r@.query == pairs(r.query@),
        request_view(Some(r)) == Some(r@),
        request_view(None) is None,
{
}

/// Law: words are separated by the white space of Unicode.
pub proof fn law_white_space_is_unicode(c: char)
    ensures
        is_space(c) <==> white(c),
{
}

proof fn lemma_leading_white(lead: Seq<char>, s: Seq<char>)
    requires
        all_white(lead),
    ensures
        words(lead + s) == words(s),
    decreases lead.len(),
{
    if lead.len() == 0 {
        assert(lead + s =~= s);
    } else {
        let rest = lead.drop_first();
        assert(white(lead[0]));
        assert forall|i: int| 0 <= i < rest.len() implies white(#[trigger] rest[i]) by {
            assert(rest[i] == lead[i + 1]);
        }
        lemma_leading_white(rest, s);
        assert((lead + s)[0] == lead[0]);
        assert((lead + s).drop_first() =~= rest + s);
    }
}

proof fn lemma_word_then_tail(word: Seq<char>, tail: Seq<char>)
    requires
        a_word(word),
        tail.len() > 0 ==> white(tail[0]),
    ensures
        words(word + tail) == seq![word] + words(tail),
{
    let s = word + tail;
    let n = word.len() as int;
    assert forall|i: int| 0 <= i < n implies !is_space(#[trigger] s[i]) by {
        assert(s[i] == word[i]);
    }
    lemma_word_len_is(s, n);
    assert(s.take(n) =~= word);
    assert(s.skip(n) =~= tail);
    assert(!is_space(s[0]));
}

proof fn lemma_white_has_no_words(s: Seq<char>)
    requires
        all_white(s),
    ensures
        words(s) == Seq::<Seq<char>>::empty(),
{
    lemma_leading_white(s, Seq::empty());
    assert(s + Seq::<char>::empty() =~= s);
}

/// Law: a request line is read as its first two words, whatever white space stands
/// around them: the first is the method; the second is the path up to its first
/// `?`, and what follows that is the query.
pub proof fn law_request_lines_have_two_words(
    lead: Seq<char>,
    method: Seq<char>,
    gap: Seq<char>,
    path: Seq<char>,
    query: Option<Seq<char>>,
    tail: Seq<char>,
)
    requires
        all_white(lead),
        a_word(method),
        all_white(gap),
        gap.len() > 0,
        !path.contains('?'),
        a_word(
            match query {
                Some(q) => path + seq!['?'] + q,
                None => path,
            },
        ),
        tail.len() > 0 ==> white(tail[0]),
    ensures
        ({
            let target = match query {
                Some(q) => path + seq!['?'] + q,
                None => path,
            };
            request_of(lead + (method + (gap + (target + tail)))) == Some(
                RequestView {
                    method: method,
                    path: path,
                    query: match query {
                        Some(q) => read_pairs(q),
                        None => Seq::empty(),
                    },
                },
            )
        }),
{
    let target = match query {
        Some(q) => path + seq!['?'] + q,
        None => path,
    };
    let after_method = gap + (target + tail);
    let line = lead + (method + after_method);
    assert(white(gap[0]));
    assert(after_method[0] == gap[0]);
    lemma_leading_white(lead, method + after_method);
    lemma_word_then_tail(method, after_method);
    lemma_leading_white(gap, target + tail);
    lemma_word_then_tail(target, tail);
    assert(words(line)[0] == method);
    assert(words(line)[1] == target);
    match query {
        Some(q) => {
            lemma_split_at(path, '?', q);
        },
        None => {
            lemma_span(path, '?');
            if span(path, '?') < path.len() {
                assert(path.contains(path[span(path, '?')]));
            }
            assert(path.take(path.len() as int) =~= path);
            let nothing = Seq::<char>::empty();
            assert(rest_after(path, '?') == nothing);
            law_queries_are_read_piece_by_piece(nothing, nothing, nothing, nothing);
        },
    }
}

/// Law: a request line with fewer than two words is malformed.
pub proof fn law_shorter_request_lines_are_malformed(
    lead: Seq<char>,
    word: Seq<char>,
    tail: Seq<char>,
)
    requires
        all_white(lead),
        a_word(word),
        all_white(tail),
    ensures
        request_of(lead) is None,
        request_of(lead + (word + tail)) is None,
{
    lemma_white_has_no_words(lead);
    lemma_white_has_no_words(tail);
    assert(tail.len() > 0 ==> white(tail[0]));
    lemma_leading_white(lead, word + tail);
    lemma_word_then_tail(word, tail);
    assert(words(lead + (word + tail)).len() == 1);
}

proof fn lemma_pairs_join(a: Seq<Seq<char>>, b: Seq<Seq<char>>)
    ensures
        pairs_of(a + b) == pairs_of(a) + pairs_of(b),
    decreases a.len(),
{
    if a.len() == 0 {
        assert(a + b =~= b);
        assert(pairs_of(a) + pairs_of(b) =~= pairs_of(b));
    } else {
        lemma_pairs_join(a.drop_first(), b);
        assert((a + b).drop_first() =~= a.drop_first() + b);
        assert((a + b)[0] == a[0]);
        assert(pairs_of(a + b) =~= pairs_of(a) + pairs_of(b));
    }
}

proof fn lemma_one_piece(piece: Seq<char>)
    requires
        !piece.contains('&'),
    ensures
        pieces(piece, '&') == seq![piece],
        read_pairs(piece) == (if piece.contains('=') {
            seq![pair_of(piece)]
        } else {
            Seq::empty()
        }),
{
    lemma_span(piece, '&');
    if span(piece, '&') < piece.len() {
        assert(piece.contains(piece[span(piece, '&')]));
    }
    assert(pieces(piece, '&') =~= seq![piece]);
    reveal_with_fuel(pairs_of, 2);
    assert(seq![piece].drop_first() =~= Seq::<Seq<char>>::empty());
    assert(pairs_of(seq![piece]) =~= (if piece.contains('=') {
        seq![pair_of(piece)]
    } else {
        Seq::empty()
    }));
}

/// Law: a query is read piece by piece between the `&`, in order. A piece without
/// a `=` is passed over; any other is a key up to its first `=` and a value after
/// it.
pub proof fn law_queries_are_read_piece_by_piece(
    piece: Seq<char>,
    rest: Seq<char>,
    key: Seq<char>,
    value: Seq<char>,
)
    requires
        !piece.contains('&'),
        !key.contains('&'),
        !key.contains('='),
        !value.contains('&'),
    ensures
        read_pairs(piece + seq!['&'] + rest) == read_pairs(piece) + read_pairs(rest),
        !piece.contains('=') ==> read_pairs(piece) == Seq::<(Seq<char>, Seq<char>)>::empty(),
        read_pairs(key + seq!['='] + value) == seq![(key, value)],
{
    lemma_one_piece(piece);
    lemma_split_at(piece, '&', rest);
    let whole = piece + seq!['&'] + rest;
    assert(pieces(whole, '&') == seq![piece] + pieces(rest, '&'));
    lemma_pairs_join(seq![piece], pieces(rest, '&'));
    let pair = (key, value);
    lemma_pair_reads_back(pair);
    lemma_one_piece(pair_text(pair));
}

/// Law: a parameter is read from the first pair with its key: as a number where
/// the value is one, and `raw` as wanted where the value is `1`.
pub proof fn law_parameters_come_from_the_first_pair(
    before: Seq<(Seq<char>, Seq<char>)>,
    key: Seq<char>,
    value: Seq<char>,
    rest: Seq<(Seq<char>, Seq<char>)>,
)
    requires
        forall|i: int| 0 <= i < before.len() ==> (#[trigger] before[i]).0 != key,
    ensures
        param_of(before + seq![(key, value)] + rest, key) == Some(value),
        param_of(before, key) is None,
        number_param(before + seq![(key, value)] + rest, key) == integer_value(value),
        number_param(before, key) is None,
        key == "raw"@ ==> (raw_wanted(before + seq![(key, value)] + rest) <==> value == "1"@),
        key == "raw"@ ==> !raw_wanted(before),
    decreases before.len(),
{
    let list = before + seq![(key, value)] + rest;
    if before.len() == 0 {
        assert(list[0] == (key, value));
    } else {
        let tail = before.drop_first();
        assert(before[0].0 != key);
        assert forall|i: int| 0 <= i < tail.len() implies (#[trigger] tail[i]).0 != key by {
            assert(tail[i] == before[i + 1]);
        }
        law_parameters_come_from_the_first_pair(tail, key, value, rest);
        assert(list[0] == before[0]);
        assert(list.drop_first() =~= tail + seq![(key, value)] + rest);
    }
}

// ---------------------------------------------------------------------------
// Responses
// ---------------------------------------------------------------------------

/// Parts of a text with a separator between them.
pub open spec fn parts_with(parts: Seq<Seq<char>>, separator: Seq<char>) -> Seq<char>
    decreases parts.len(),
{
    if parts.len() == 0 {
        Seq::empty()
    } else if parts.len() == 1 {
        parts[0]
    } else {
        parts[0] + separator + parts_with(parts.drop_first(), separator)
    }
}

/// Law: a response is a status line and three headers, an empty line and the body.
/// The length is that of the body in UTF-8, and the type is JSON.
pub proof fn law_responses_are_http(status: Seq<char>, body: Seq<char>)
    ensures
        response(status, body) == parts_with(
            seq![
                "HTTP/1.1 "@ + status,
                "Content-Type: application/json"@,
                "Content-Length: "@ + decimal(encode_utf8(body).len() as int),
                "Connection: close"@,
                ""@,
                body,
            ],
            "\r\n"@,
        ),
        ok_response(body) == response("200 OK"@, body),
{
    let parts = seq![
        "HTTP/1.1 "@ + status,
        "Content-Type: application/json"@,
        "Content-Length: "@ + decimal(encode_utf8(body).len() as int),
        "Connection: close"@,
        ""@,
        body,
    ];
    reveal_strlit("");
    reveal_strlit("\r\n");
    reveal_strlit("HTTP/1.1 ");
    reveal_strlit("\r\nContent-Type: application/json\r\nContent-Length: ");
    reveal_strlit("\r\nConnection: close\r\n\r\n");
    reveal_strlit("Content-Type: application/json");
    reveal_strlit("Content-Length: ");
    reveal_strlit("Connection: close");
    assert(""@ =~= Seq::<char>::empty());
    lemma_six_parts(parts, "\r\n"@);
    assert("\r\nContent-Type: application/json\r\nContent-Length: "@ =~= "\r\n"@
        + "Content-Type: application/json"@ + "\r\n"@ + "Content-Length: "@);
    assert("\r\nConnection: close\r\n\r\n"@ =~= "\r\n"@ + "Connection: close"@ + "\r\n"@ + "\r\n"@);
    assert(response(status, body) =~= parts_with(parts, "\r\n"@));
}

proof fn lemma_six_parts(parts: Seq<Seq<char>>, s: Seq<char>)
    requires
        parts.len() == 6,
    ensures
        parts_with(parts, s) == parts[0] + s + (parts[1] + s + (parts[2] + s + (parts[3] + s + (
        parts[4] + s + parts[5])))),
{
    reveal_with_fuel(parts_with, 6);
    let p1 = parts.drop_first();
    let p2 = p1.drop_first();
    let p3 = p2.drop_first();
    let p4 = p3.drop_first();
    let p5 = p4.drop_first();
    assert(p5[0] == parts[5] && p4[0] == parts[4] && p3[0] == parts[3] && p2[0] == parts[2]
        && p1[0] == parts[1]);
    assert(parts_with(p5, s) == parts[5]);
    assert(parts_with(p4, s) == parts[4] + s + parts_with(p5, s));
    assert(parts_with(p3, s) == parts[3] + s + parts_with(p4, s));
    assert(parts_with(p2, s) == parts[2] + s + parts_with(p3, s));
    assert(parts_with(p1, s) == parts[1] + s + parts_with(p2, s));
}

/// Law: an error response is the object `{"error":"<msg>"}` under its status, and
/// a failure inside the server has status 500.
pub proof fn law_errors_are_objects(status: Seq<char>, msg: Seq<char>)
    ensures
        error_response(status, msg) == response(
            status,
            "{\"error\":\""@ + json_escaped(msg) + "\"}"@,
        ),
        server_error(msg) == error_response("500 Internal Server Error"@, msg),
{
}

/// Law: escaping goes character by character and leaves everything but quotes,
/// backslashes and control characters as it is.
pub proof fn law_escaping_leaves_plain_text(a: Seq<char>, b: Seq<char>)
    ensures
        json_escaped(a + b) == json_escaped(a) + json_escaped(b),
        (forall|i: int|
            0 <= i < a.len() ==> (#[trigger] a[i]) != '"' && a[i] != '\\' && a[i] as int >= 32)
            ==> json_escaped(a) == a,
    decreases a.len(),
{
    if a.len() == 0 {
        assert(a + b =~= b);
        assert(json_escaped(a) + json_escaped(b) =~= json_escaped(b));
        assert(json_escaped(a) =~= a);
    } else {
        let rest = a.drop_first();
        law_escaping_leaves_plain_text(rest, b);
        assert((a + b).drop_first() =~= rest + b);
        assert((a + b)[0] == a[0]);
        assert(json_escaped(a + b) =~= json_escaped(a) + json_escaped(b));
        if forall|i: int|
            0 <= i < a.len() ==> (#[trigger] a[i]) != '"' && a[i] != '\\' && a[i] as int >= 32 {
            assert(a[0] != '"' && a[0] != '\\' && a[0] as int >= 32);
            assert forall|i: int| 0 <= i < rest.len() implies (#[trigger] rest[i]) != '"' && rest[i]
                != '\\' && rest[i] as int >= 32 by {
                assert(rest[i] == a[i + 1]);
            }
            assert(json_escaped(a) =~= a);
        }
    }
}

/// Law: a list is sent as an object with its length and the list itself.
pub proof fn law_lists_are_sent_with_their_length(total: int, list: Seq<char>)
    ensures
        results_body(total, list) == "{\"total\":"@ + decimal(total) + ",\"results\":"@ + list
            + "}"@,
{
}

/// Law: every endpoint answers at its path and nowhere else.
pub proof fn law_endpoints_have_one_path(path: Seq<char>)
    ensures
        endpoint_at(path) == Some(Endpoint::Health) <==> path == "/api/v1/health"@,
        endpoint_at(path) == Some(Endpoint::Checks) <==> path == "/api/v1/checks"@,
        endpoint_at(path) == Some(Endpoint::Latest) <==> path == "/api/v1/checks/latest"@,
        endpoint_at(path) == Some(Endpoint::Trend) <==> path == "/api/v1/trend"@,
{
    reveal_strlit("/api/v1/health");
    reveal_strlit("/api/v1/checks");
    reveal_strlit("/api/v1/checks/latest");
    reveal_strlit("/api/v1/trend");
    assert("/api/v1/health"@.len() == 14 && "/api/v1/checks"@.len() == 14);
    assert("/api/v1/checks/latest"@.len() == 21 && "/api/v1/trend"@.len() == 13);
    assert("/api/v1/health"@[8] != "/api/v1/checks"@[8]);
}

/// Law: a request that could not be read is answered with status 400, any method
/// but GET with 405 and an unknown path with 404; everything else goes to the
/// endpoint at its path.
pub proof fn law_refusals_have_their_status(r: RequestView)
    ensures
        refusal(None) == Some(error_response("400 Bad Request"@, "malformed request"@)),
        r.method != "GET"@ ==> refusal(Some(r)) == Some(
            error_response("405 Method Not Allowed"@, "only GET supported"@),
        ),
        r.method == "GET"@ && r.path != "/api/v1/health"@ && r.path != "/api/v1/checks"@ && r.path
            != "/api/v1/checks/latest"@ && r.path != "/api/v1/trend"@ ==> refusal(Some(r)) == Some(
            error_response("404 Not Found"@, "unknown endpoint"@),
        ),
        r.method == "GET"@ && (r.path == "/api/v1/health"@ || r.path == "/api/v1/checks"@ || r.path
            == "/api/v1/checks/latest"@ || r.path == "/api/v1/trend"@) ==> refusal(Some(r)) is None,
{
    law_endpoints_have_one_path(r.path);
}

/// Law: what is shown of records is all of them, in order, each as it is but for
/// the output, which is left out unless it is asked for.
pub proof fn law_records_are_shown_in_full(records: Seq<Record>, raw: bool, k: int)
    requires
        0 <= k < records.len(),
    ensures
        shown(records, raw).len() == records.len(),
        ({
            let seen = shown(records, raw)[k];
            let r = records[k];
            &&& seen.id == r.id
            &&& seen.timestamp == r.timestamp
            &&& seen.timestamp_iso == r.timestamp_iso
            &&& seen.sbom_path == r.sbom_path
            &&& seen.mode == r.mode
            &&& seen.db_updated == r.db_updated
            &&& seen.exit_code == r.exit_code
            &&& seen.result == r.result
            &&& seen.fail_on == r.fail_on
            &&& seen.output_fmt == r.output_fmt
            &&& seen.duration_ms == r.duration_ms
            &&& seen.severity == r.severity
            &&& seen.total_vulns == r.total_vulns
            &&& seen.sarif_path == r.sarif_path
            &&& seen.raw_output == (if raw {
                r.raw_output
            } else {
                None
            })
        }),
{
}

/// Law: a trend is answered exactly when its sums fit and it does not reach a
/// check without a date.
pub proof fn law_trends_are_answered_when_they_can(rows: Seq<Row>, limit: Option<i64>)
    ensures
        trend_answers(rows, limit) <==> trend_fits(rows, row_dates(rows), limit)
            && !reaches_undated(row_dates(rows), limit),
{
}

/// Law: at its start the server shows its address and, each at that address, the
/// four endpoints.
pub proof fn law_the_banner_shows_every_endpoint(address: Seq<char>)
    ensures
        ({
            let lines = banner_lines(address);
            &&& lines.len() == 7
            &&& lines[0] == "[grype-verify] API server listening on http://"@ + address
            &&& lines[1] == "[grype-verify] Endpoints:"@
            &&& lines[2] == "  GET http://"@ + address + "/api/v1/health"@
            &&& lines[3] == "  GET http://"@ + address
                + "/api/v1/checks[?since=<unix_ts>&limit=<n>&raw=1]"@
            &&& lines[4] == "  GET http://"@ + address + "/api/v1/checks/latest[?raw=1]"@
            &&& lines[5] == "  GET http://"@ + address + "/api/v1/trend[?days=<n>]"@
            &&& lines[6] == "[grype-verify] Splunk: | rest url=\"http://"@ + address
                + "/api/v1/checks\""@
        }),
{
}

// ---------------------------------------------------------------------------
// The summary
// ---------------------------------------------------------------------------

/// `part` stands somewhere in `whole`.
pub open spec fn occurs(part: Seq<char>, whole: Seq<char>) -> bool {
    exists|before: Seq<char>, after: Seq<char>| #[trigger] (before + part + after) == whole
}

/// Law: the list of SBOMs holds the entries of all records, in order and with
/// commas between them.
pub proof fn law_every_sbom_has_its_entry(a: Seq<Record>, b: Seq<Record>, one: Record)
    ensures
        entries_text(Seq::<Record>::empty()) == Seq::<char>::empty(),
        entries_text(seq![one]) == entry_text(one),
        a.len() > 0 && b.len() > 0 ==> entries_text(a + b) == entries_text(a) + ", "@
            + entries_text(b),
    decreases b.len(),
{
    if a.len() > 0 && b.len() > 0 {
        let whole = a + b;
        assert(whole.drop_last() =~= a + b.drop_last());
        assert(whole.last() == b.last());
        if b.len() == 1 {
            assert(a + b.drop_last() =~= a);
        } else {
            law_every_sbom_has_its_entry(a, b.drop_last(), one);
        }
        assert(entries_text(whole) =~= entries_text(a) + ", "@ + entries_text(b));
    }
}

/// Law: the entry of each record occurs in the list of SBOMs.
pub proof fn law_each_entry_is_shown(records: Seq<Record>, k: int)
    requires
        0 <= k < records.len(),
    ensures
        occurs(entry_text(records[k]), entries_text(records)),
    decreases records.len(),
{
    let none = Seq::<char>::empty();
    let entry = entry_text(records[k]);
    if records.len() == 1 {
        assert(none + entry + none =~= entries_text(records));
    } else if k == records.len() - 1 {
        let before = entries_text(records.drop_last()) + ", "@;
        assert(before + entry + none =~= entries_text(records));
    } else {
        let shorter = records.drop_last();
        law_each_entry_is_shown(shorter, k);
        let (before, after) = choose|before: Seq<char>, after: Seq<char>| #[trigger]
            (before + entry + after) == entries_text(shorter);
        let longer = after + ", "@ + entry_text(records.last());
        assert(before + entry + longer =~= entries_text(records));
    }
}

/// Law: an entry is the name of the SBOM, its result, its three highest counts and
/// the minute of its check.
pub proof fn law_entries_show_the_check(r: Record)
    ensures
        entry_text(r) == shown_name(r.sbom_path) + ":"@ + r.result + "["@ + parts_with(
            seq![
                "C"@ + decimal(r.severity.critical as int),
                "H"@ + decimal(r.severity.high as int),
                "M"@ + decimal(r.severity.medium as int),
            ],
            " "@,
        ) + "]("@ + minute_of(r.timestamp_iso) + ")"@,
{
    let c = "C"@ + decimal(r.severity.critical as int);
    let h = "H"@ + decimal(r.severity.high as int);
    let m = "M"@ + decimal(r.severity.medium as int);
    let parts = seq![c, h, m];
    reveal_with_fuel(parts_with, 3);
    assert(parts.drop_first() =~= seq![h, m]);
    assert(seq![h, m].drop_first() =~= seq![m]);
    reveal_strlit("[C");
    reveal_strlit("[");
    reveal_strlit("C");
    reveal_strlit(" H");
    reveal_strlit("H");
    reveal_strlit(" M");
    reveal_strlit("M");
    reveal_strlit(" ");
    assert("[C"@ =~= "["@ + "C"@);
    assert(" H"@ =~= " "@ + "H"@);
    assert(" M"@ =~= " "@ + "M"@);
    assert(entry_text(r) =~= shown_name(r.sbom_path) + ":"@ + r.result + "["@ + parts_with(
        parts,
        " "@,
    ) + "]("@ + minute_of(r.timestamp_iso) + ")"@);
}

/// Law: the counts are shown as the sum of all six and then one by one.
pub proof fn law_the_counts_are_all_shown(c: SeverityCounts)
    ensures
        counts_text(c) == decimal(
            c.critical + c.high + c.medium + c.low + c.negligible + c.unknown,
        ) + " ("@ + parts_with(
            seq![
                "C"@ + decimal(c.critical as int),
                "H"@ + decimal(c.high as int),
                "M"@ + decimal(c.medium as int),
                "L"@ + decimal(c.low as int),
                "N"@ + decimal(c.negligible as int),
                "U"@ + decimal(c.unknown as int),
            ],
            " "@,
        ) + ")"@,
{
    let d = decimal(c.sum());
    let dc = decimal(c.critical as int);
    let dh = decimal(c.high as int);
    let dm = decimal(c.medium as int);
    let dl = decimal(c.low as int);
    let dn = decimal(c.negligible as int);
    let du = decimal(c.unknown as int);
    let parts = seq!["C"@ + dc, "H"@ + dh, "M"@ + dm, "L"@ + dl, "N"@ + dn, "U"@ + du];
    let x0 = d + " (C"@ + dc;
    let x1 = x0 + " H"@ + dh;
    let x2 = x1 + " M"@ + dm;
    let x3 = x2 + " L"@ + dl;
    let x4 = x3 + " N"@ + dn;
    let x5 = x4 + " U"@ + du;
    lemma_count_labels();
    lemma_merged(d, " ("@, "C"@, dc);
    lemma_merged(x0, " "@, "H"@, dh);
    lemma_merged(x1, " "@, "M"@, dm);
    lemma_merged(x2, " "@, "L"@, dl);
    lemma_merged(x3, " "@, "N"@, dn);
    lemma_merged(x4, " "@, "U"@, du);
    lemma_six_parts_from_the_left(d + " ("@, parts, " "@);
    assert(counts_text(c) == x5 + ")"@);
}

proof fn lemma_count_labels()
    ensures
        " (C"@ == " ("@ + "C"@,
        " H"@ == " "@ + "H"@,
        " M"@ == " "@ + "M"@,
        " L"@ == " "@ + "L"@,
        " N"@ == " "@ + "N"@,
        " U"@ == " "@ + "U"@,
{
    reveal_strlit(" (C");
    reveal_strlit(" (");
    reveal_strlit(" ");
    reveal_strlit("C");
    reveal_strlit(" H");
    reveal_strlit("H");
    reveal_strlit(" M");
    reveal_strlit("M");
    reveal_strlit(" L");
    reveal_strlit("L");
    reveal_strlit(" N");
    reveal_strlit("N");
    reveal_strlit(" U");
    reveal_strlit("U");
    assert(" (C"@ =~= " ("@ + "C"@);
    assert(" H"@ =~= " "@ + "H"@);
    assert(" M"@ =~= " "@ + "M"@);
    assert(" L"@ =~= " "@ + "L"@);
    assert(" N"@ =~= " "@ + "N"@);
    assert(" U"@ =~= " "@ + "U"@);
}

proof fn lemma_merged(x: Seq<char>, s: Seq<char>, label: Seq<char>, d: Seq<char>)
    ensures
        x + s + (label + d) == x + (s + label) + d,
{
    assert(x + s + (label + d) =~= x + (s + label) + d);
}

proof fn lemma_shifted(x: Seq<char>, p: Seq<char>, s: Seq<char>, rest: Seq<char>)
    ensures
        x + (p + s + rest) == x + p + s + rest,
{
    assert(x + (p + s + rest) =~= x + p + s + rest);
}

proof fn lemma_six_parts_from_the_left(pre: Seq<char>, p: Seq<Seq<char>>, s: Seq<char>)
    requires
        p.len() == 6,
    ensures
        pre + parts_with(p, s) == pre + p[0] + s + p[1] + s + p[2] + s + p[3] + s + p[4] + s + p[5],
{
    lemma_six_parts(p, s);
    let r4 = p[4] + s + p[5];
    let r3 = p[3] + s + r4;
    let r2 = p[2] + s + r3;
    let r1 = p[1] + s + r2;
    let x0 = pre + p[0] + s;
    let x1 = x0 + p[1] + s;
    let x2 = x1 + p[2] + s;
    let x3 = x2 + p[3] + s;
    lemma_shifted(pre, p[0], s, r1);
    lemma_shifted(x0, p[1], s, r2);
    lemma_shifted(x1, p[2], s, r3);
    lemma_shifted(x2, p[3], s, r4);
    lemma_shifted(x3, p[4], s, p[5]);
}

/// Law: the summary is six fields with bars between them: the state, the number of
/// checks, the database, the mode, the counts and the SBOMs. Without checks it says
/// so and names the database.
pub proof fn law_the_summary_has_six_fields(total: int, records: Seq<Record>, db: Seq<char>)
    ensures
        total == 0 ==> summary_text(total, records, db)
            == "grype-verify: no checks recorded yet (db="@ + db + ")"@,
        total != 0 ==> summary_text(total, records, db) == parts_with(
            seq![
                "grype-verify: "@ + flag_of(records),
                "checks="@ + decimal(total),
                "db="@ + db,
                mode_of(records),
                "vulns="@ + counts_text(totals_of(records)),
                entries_text(records),
            ],
            " | "@,
        ),
{
    let parts = seq![
        "grype-verify: "@ + flag_of(records),
        "checks="@ + decimal(total),
        "db="@ + db,
        mode_of(records),
        "vulns="@ + counts_text(totals_of(records)),
        entries_text(records),
    ];
    let none = Seq::<char>::empty();
    let x0 = "grype-verify: "@ + flag_of(records);
    let x1 = x0 + " | checks="@ + decimal(total);
    let x2 = x1 + " | db="@ + db;
    let x3 = x2 + " | "@ + mode_of(records);
    let x4 = x3 + " | vulns="@ + counts_text(totals_of(records));
    lemma_field_labels();
    lemma_merged(x0, " | "@, "checks="@, decimal(total));
    lemma_merged(x1, " | "@, "db="@, db);
    lemma_merged(x3, " | "@, "vulns="@, counts_text(totals_of(records)));
    lemma_six_parts_from_the_left(none, parts, " | "@);
    assert(none + x0 =~= x0);
    assert(none + parts_with(parts, " | "@) =~= parts_with(parts, " | "@));
}

proof fn lemma_field_labels()
    ensures
        " | checks="@ == " | "@ + "checks="@,
        " | db="@ == " | "@ + "db="@,
        " | vulns="@ == " | "@ + "vulns="@,
{
    reveal_strlit(" | checks=");
    reveal_strlit(" | db=");
    reveal_strlit(" | vulns=");
    reveal_strlit(" | ");
    reveal_strlit("checks=");
    reveal_strlit("db=");
    reveal_strlit("vulns=");
    assert(" | checks="@ =~= " | "@ + "checks="@);
    assert(" | db="@ =~= " | "@ + "db="@);
    assert(" | vulns="@ =~= " | "@ + "vulns="@);
}

/// Law: the state is `ERROR` when any result is `error`, else `VULNERABLE` when any
/// is `vulnerable`, else `CLEAN`; the mode is `offline` when any scan was, else
/// `online`.
pub proof fn law_one_record_decides_the_state(records: Seq<Record>, i: int)
    requires
        0 <= i < records.len(),
    ensures
        records[i].result == "error"@ ==> flag_of(records) == "ERROR"@,
        records[i].result == "vulnerable"@ ==> flag_of(records) == "VULNERABLE"@ || flag_of(records)
            == "ERROR"@,
        (forall|j: int| 0 <= j < records.len() ==> (#[trigger] records[j]).result != "error"@) ==> (
        flag_of(records) == (if exists|j: int|
            0 <= j < records.len() && (#[trigger] records[j]).result == "vulnerable"@ {
            "VULNERABLE"@
        } else {
            "CLEAN"@
        })),
        records[i].mode == "offline"@ ==> mode_of(records) == "offline"@,
        (forall|j: int| 0 <= j < records.len() ==> (#[trigger] records[j]).mode != "offline"@)
            ==> mode_of(records) == "online"@,
        flag_of(Seq::<Record>::empty()) == "CLEAN"@,
        mode_of(Seq::<Record>::empty()) == "online"@,
{
}

proof fn lemma_record_sums_are_sums(records: Seq<Record>, n: int)
    requires
        0 <= n <= records.len(),
    ensures
        ({
            let sums = record_sums(records, n);
            let any = |i: int| true;
            &&& sums.critical == sum_if(n, any, |i: int| records[i].severity.critical as int)
            &&& sums.high == sum_if(n, any, |i: int| records[i].severity.high as int)
            &&& sums.medium == sum_if(n, any, |i: int| records[i].severity.medium as int)
            &&& sums.low == sum_if(n, any, |i: int| records[i].severity.low as int)
            &&& sums.negligible == sum_if(n, any, |i: int| records[i].severity.negligible as int)
            &&& sums.unknown == sum_if(n, any, |i: int| records[i].severity.unknown as int)
        }),
    decreases n,
{
    if n > 0 {
        lemma_record_sums_are_sums(records, n - 1);
    }
}

/// Law: each count of the summary is the sum of that count over all records.
pub proof fn law_summary_counts_are_sums(records: Seq<Record>)
    requires
        sums_fit(records),
    ensures
        ({
            let n = records.len() as int;
            let any = |i: int| true;
            let c = totals_of(records);
            &&& c.critical == sum_if(n, any, |i: int| records[i].severity.critical as int)
            &&& c.high == sum_if(n, any, |i: int| records[i].severity.high as int)
            &&& c.medium == sum_if(n, any, |i: int| records[i].severity.medium as int)
            &&& c.low == sum_if(n, any, |i: int| records[i].severity.low as int)
            &&& c.negligible == sum_if(n, any, |i: int| records[i].severity.negligible as int)
            &&& c.unknown == sum_if(n, any, |i: int| records[i].severity.unknown as int)
        }),
{
    let n = records.len() as int;
    lemma_record_sums_are_sums(records, n);
    assert(record_sums(records, n).in_range());
}

/// The six counts of the first `n` records, all added up.
pub open spec fn all_record_counts(records: Seq<Record>, n: int) -> int
    decreases n,
{
    if n <= 0 {
        0
    } else {
        let c = records[n - 1].severity;
        all_record_counts(records, n - 1) + c.critical + c.high + c.medium + c.low + c.negligible
            + c.unknown
    }
}

proof fn lemma_record_sums_are_small(records: Seq<Record>, n: int, m: int)
    requires
        0 <= n <= m <= records.len(),
        forall|i: int| 0 <= i < records.len() ==> counts_things((#[trigger] records[i]).severity),
    ensures
        ({
            let s = record_sums(records, n);
            &&& 0 <= s.critical && 0 <= s.high && 0 <= s.medium && 0 <= s.low && 0 <= s.negligible
            &&& 0 <= s.unknown
            &&& s.critical + s.high + s.medium + s.low + s.negligible + s.unknown
                <= all_record_counts(records, m)
        }),
    decreases m,
{
    if m > 0 {
        assert(counts_things(records[m - 1].severity));
        if n < m {
            lemma_record_sums_are_small(records, n, m - 1);
        } else {
            lemma_record_sums_are_small(records, n - 1, m - 1);
        }
    }
}

/// Law: there is a summary where no count is negative and all counts together fit
/// in 64 bits.
pub proof fn law_ordinary_summaries_fit(records: Seq<Record>)
    requires
        forall|i: int| 0 <= i < records.len() ==> counts_things((#[trigger] records[i]).severity),
        all_record_counts(records, records.len() as int) <= i64::MAX,
    ensures
        sums_fit(records),
{
    let m = records.len() as int;
    assert forall|n: int| 0 <= n <= records.len() implies (#[trigger] record_sums(
        records,
        n,
    )).in_range() by {
        lemma_record_sums_are_small(records, n, m);
    }
    lemma_record_sums_are_small(records, m, m);
}

/// Law: of a timestamp the seconds are left out, and nothing else.
pub proof fn law_minutes_leave_out_the_seconds(minute: Seq<char>, seconds: Seq<char>)
    requires
        seconds.len() == 3,
        minute.len() >= 14,
    ensures
        minute_of(Some(minute + seconds)) == minute,
        minute_of(None) == "?"@,
{
    let whole = minute + seconds;
    assert(whole.take(whole.len() - 3) =~= minute);
}

/// The name of a file: neither empty nor `.` nor `..`, and without a `/`.
pub open spec fn a_file_name(s: Seq<char>) -> bool {
    s.len() > 0 && !s.contains('/') && s != seq!['.'] && s != seq!['.', '.']
}

/// Ends of a path that name nothing: `/` and `/.`, as often as there are steps.
pub open spec fn nameless_end(steps: Seq<bool>) -> Seq<char>
    decreases steps.len(),
{
    if steps.len() == 0 {
        Seq::empty()
    } else if steps.last() {
        nameless_end(steps.drop_last()) + seq!['/'] + seq!['.']
    } else {
        nameless_end(steps.drop_last()) + seq!['/'] + Seq::<char>::empty()
    }
}

proof fn lemma_dots()
    ensures
        ""@ == Seq::<char>::empty(),
        "."@ == seq!['.'],
        ".."@ == seq!['.', '.'],
{
    reveal_strlit("");
    reveal_strlit(".");
    reveal_strlit("..");
    assert(""@ =~= Seq::<char>::empty());
    assert("."@ =~= seq!['.']);
    assert(".."@ =~= seq!['.', '.']);
}

proof fn lemma_nameless_end(path: Seq<char>, steps: Seq<bool>)
    ensures
        last_name(pieces(path + nameless_end(steps), '/')) == last_name(pieces(path, '/')),
    decreases steps.len(),
{
    lemma_dots();
    if steps.len() == 0 {
        assert(path + nameless_end(steps) =~= path);
    } else {
        let shorter = path + nameless_end(steps.drop_last());
        let last = if steps.last() {
            seq!['.']
        } else {
            Seq::<char>::empty()
        };
        lemma_nameless_end(path, steps.drop_last());
        assert(path + nameless_end(steps) =~= shorter + seq!['/'] + last);
        assert(!last.contains('/'));
        lemma_last_piece(shorter, '/', last);
        let list = pieces(shorter, '/').push(last);
        assert(list.last() == last);
        assert(list.drop_last() =~= pieces(shorter, '/'));
    }
}

/// Law: a path is shown by its last part, whatever comes before it and whatever
/// slashes and dots after it.
pub proof fn law_paths_are_shown_by_their_last_part(
    dir: Seq<char>,
    name: Seq<char>,
    steps: Seq<bool>,
)
    requires
        a_file_name(name),
    ensures
        shown_name(name + nameless_end(steps)) == name,
        shown_name(dir + seq!['/'] + name + nameless_end(steps)) == name,
{
    lemma_dots();
    lemma_nameless_end(name, steps);
    lemma_single_piece(name, '/');
    assert(seq![name].last() == name);
    let whole = dir + seq!['/'] + name;
    lemma_nameless_end(whole, steps);
    lemma_last_piece(dir, '/', name);
    assert(pieces(dir, '/').push(name).last() == name);
}

/// Law: a path whose last part is `..`, and one of nothing but slashes and dots,
/// names no file and is shown as it is.
pub proof fn law_paths_without_a_name_are_shown_whole(dir: Seq<char>, steps: Seq<bool>)
    ensures
        ({
            let end = nameless_end(steps);
            let up = seq!['.', '.'];
            &&& shown_name(end) == end
            &&& shown_name(seq!['.'] + end) == seq!['.'] + end
            &&& shown_name(up + end) == up + end
            &&& shown_name(dir + seq!['/'] + up + end) == dir + seq!['/'] + up + end
        }),
{
    lemma_dots();
    let end = nameless_end(steps);
    let up = seq!['.', '.'];
    let none = Seq::<char>::empty();
    let dot = seq!['.'];
    reveal_with_fuel(last_name, 2);
    lemma_nameless_end(none, steps);
    lemma_single_piece(none, '/');
    assert(none + end =~= end);
    assert(seq![none].drop_last() =~= Seq::<Seq<char>>::empty());
    lemma_nameless_end(dot, steps);
    lemma_single_piece(dot, '/');
    assert(seq![dot].last() == dot);
    assert(seq![dot].drop_last() =~= Seq::<Seq<char>>::empty());
    assert(up[0] == '.' && up[1] == '.');
    assert(!up.contains('/'));
    assert(up.len() == 2 && dot.len() == 1);
    lemma_nameless_end(up, steps);
    lemma_single_piece(up, '/');
    assert(seq![up].last() == up);
    let whole = dir + seq!['/'] + up;
    lemma_nameless_end(whole, steps);
    lemma_last_piece(dir, '/', up);
    assert(pieces(dir, '/').push(up).last() == up);
}

// ---------------------------------------------------------------------------
// Scans
// ---------------------------------------------------------------------------

/// Some variable of the environment has the name.
pub open spec fn sets(env: Seq<(Seq<char>, Seq<char>)>, name: Seq<char>) -> bool {
    exists|i: int| 0 <= i < env.len() && (#[trigger] env[i]).0 == name
}

proof fn lemma_variables_differ()
    ensures
        "GRYPE_DB_CACHE_DIR"@ != "GRYPE_DB_AUTO_UPDATE"@,
        "GRYPE_DB_CACHE_DIR"@ != "GRYPE_DB_VALIDATE_AGE"@,
        "GRYPE_DB_CACHE_DIR"@ != "GRYPE_DB_UPDATE_TIMEOUT"@,
{
    reveal_strlit("GRYPE_DB_CACHE_DIR");
    reveal_strlit("GRYPE_DB_AUTO_UPDATE");
    reveal_strlit("GRYPE_DB_VALIDATE_AGE");
    reveal_strlit("GRYPE_DB_UPDATE_TIMEOUT");
    assert("GRYPE_DB_CACHE_DIR"@.len() == 18);
    assert("GRYPE_DB_AUTO_UPDATE"@.len() == 20);
    assert("GRYPE_DB_VALIDATE_AGE"@.len() == 21);
    assert("GRYPE_DB_UPDATE_TIMEOUT"@.len() == 23);
}

/// Law: the update and the scan both use the cache directory that is given, and
/// neither sets one where none is given.
pub proof fn law_the_cache_directory_reaches_every_call(args: ScanArgs, skip: bool)
    ensures
        args.db_cache_dir matches Some(dir) ==> scan_env(args, skip).contains(
            ("GRYPE_DB_CACHE_DIR"@, dir@),
        ) && update_env(args).contains(("GRYPE_DB_CACHE_DIR"@, dir@)),
        args.db_cache_dir is None ==> !sets(scan_env(args, skip), "GRYPE_DB_CACHE_DIR"@) && !sets(
            update_env(args),
            "GRYPE_DB_CACHE_DIR"@,
        ),
{
    lemma_variables_differ();
    if let Some(dir) = args.db_cache_dir {
        assert(scan_env(args, skip)[0] == ("GRYPE_DB_CACHE_DIR"@, dir@));
        assert(update_env(args)[0] == ("GRYPE_DB_CACHE_DIR"@, dir@));
    }
}

/// Law: besides the cache directory, an update sets its timeout in seconds, and a
/// scan that must not update sets that the database is neither updated nor refused
/// for its age. No call sets anything else.
pub proof fn law_calls_set_only_their_variables(args: ScanArgs)
    ensures
        ({
            let base: int = if args.db_cache_dir is Some {
                1
            } else {
                0
            };
            &&& update_env(args).len() == base + 1
            &&& update_env(args)[base].0 == "GRYPE_DB_UPDATE_TIMEOUT"@
            &&& update_env(args)[base].1 == decimal(args.update_timeout as int) + "s"@
            &&& scan_env(args, false).len() == base
            &&& scan_env(args, true).len() == base + 2
            &&& scan_env(args, true)[base] == ("GRYPE_DB_AUTO_UPDATE"@, "false"@)
            &&& scan_env(args, true)[base + 1] == ("GRYPE_DB_VALIDATE_AGE"@, "false"@)
        }),
{
}

/// Law: a scan is told to leave out vulnerabilities without a fix exactly when that
/// is asked for; the SBOM comes last.
pub proof fn law_scans_are_told_their_options(args: ScanArgs, report: Seq<char>)
    ensures
        ({
            let w = scan_words(args, report);
            let n = w.len() as int;
            let m: int = if args.sarif_file is Some {
                8
            } else {
                6
            };
            &&& w[0] == "--output"@ && w[1] == args.output@
            &&& w[2] == "--fail-on"@ && w[3] == args.fail_on@
            &&& w[4] == "--output"@ && w[5] == "json="@ + report
            &&& args.sarif_file matches Some(path) ==> w[6] == "--output"@ && w[7] == "sarif="@
                + path@
            &&& args.only_fixed ==> n == m + 2 && w[m] == "--only-fixed"@
            &&& !args.only_fixed ==> n == m + 1
            &&& w[n - 1] == "sbom:"@ + args.sbom_file@
        }),
{
}

/// Law: with an update a scan is `online` and without one `offline`, and the user
/// is told which.
pub proof fn law_updates_decide_the_mode()
    ensures
        mode_after(true) == "online"@,
        mode_after(false) == "offline"@,
        update_notice(true) == "[grype-verify] Database updated successfully (online mode)."@,
        update_notice(false)
            == "[grype-verify] WARNING: DB update failed \u{2014} using cached database. Results may reflect stale vulnerability data."@,
        update_refusal()
            == "DB update failed and --require-update is set. Ensure network connectivity to grype.anchore.io."@,
{
}

/// Law: a report has a breakdown exactly when it exists, is JSON and lists its
/// matches; the breakdown is of what the matches state, one by one.
pub proof fn law_reports_break_down_by_match(
    text: Seq<char>,
    members: Map<Seq<char>, Json>,
    entries: Seq<Json>,
)
    requires
        json_parsed(text) == Some(Json::Object(members)),
        members.contains_key("matches"@),
        members["matches"@] == Json::List(entries),
        entries.len() <= i64::MAX,
    ensures
        report_outcome(Some(text)) matches Ok(list) && list.len() == entries.len() && forall|i: int|
            0 <= i < entries.len() ==> #[trigger] list[i] == severity_of_match(entries[i]),
{
}

/// Law: a report that does not exist, is no JSON or lists no matches has no
/// breakdown, and the reason says which.
pub proof fn law_other_reports_have_no_breakdown(text: Seq<char>)
    ensures
        report_outcome(None) == Err::<Seq<Seq<char>>, Seq<char>>("grype wrote no JSON report"@),
        json_parsed(text) is None ==> report_outcome(Some(text)) == Err::<
            Seq<Seq<char>>,
            Seq<char>,
        >("grype JSON report is not valid JSON"@),
        (json_parsed(text) matches Some(json) && !(json matches Json::Object(members)
            && members.contains_key("matches"@) && members["matches"@] is List))
            ==> report_outcome(Some(text)) == Err::<Seq<Seq<char>>, Seq<char>>(
            "grype JSON report has no `matches` array"@,
        ),
{
}

/// Law: the breakdown shows every count under its name, and the sum of all six.
pub proof fn law_breakdowns_show_every_count(c: SeverityCounts)
    ensures
        breakdown_text(c) == "[grype-verify] Severity breakdown: "@ + parts_with(
            seq![
                "critical="@ + decimal(c.critical as int),
                "high="@ + decimal(c.high as int),
                "medium="@ + decimal(c.medium as int),
                "low="@ + decimal(c.low as int),
                "negligible="@ + decimal(c.negligible as int),
                "unknown="@ + decimal(c.unknown as int),
            ],
            " "@,
        ) + " (total="@ + decimal(
            c.critical + c.high + c.medium + c.low + c.negligible + c.unknown,
        ) + ")"@,
{
    let dc = decimal(c.critical as int);
    let dh = decimal(c.high as int);
    let dm = decimal(c.medium as int);
    let dl = decimal(c.low as int);
    let dn = decimal(c.negligible as int);
    let du = decimal(c.unknown as int);
    let parts = seq![
        "critical="@ + dc,
        "high="@ + dh,
        "medium="@ + dm,
        "low="@ + dl,
        "negligible="@ + dn,
        "unknown="@ + du,
    ];
    let none = Seq::<char>::empty();
    let head = "[grype-verify] Severity breakdown: "@;
    let x0 = "[grype-verify] Severity breakdown: critical="@ + dc;
    let x1 = x0 + " high="@ + dh;
    let x2 = x1 + " medium="@ + dm;
    let x3 = x2 + " low="@ + dl;
    let x4 = x3 + " negligible="@ + dn;
    let x5 = x4 + " unknown="@ + du;
    lemma_breakdown_labels();
    lemma_merged(none, head, "critical="@, dc);
    assert(none + head =~= head);
    assert(none + (head + "critical="@) =~= head + "critical="@);
    lemma_merged(x0, " "@, "high="@, dh);
    lemma_merged(x1, " "@, "medium="@, dm);
    lemma_merged(x2, " "@, "low="@, dl);
    lemma_merged(x3, " "@, "negligible="@, dn);
    lemma_merged(x4, " "@, "unknown="@, du);
    lemma_six_parts_from_the_left(head, parts, " "@);
    assert(breakdown_text(c) == x5 + " (total="@ + decimal(c.sum()) + ")"@);
}

proof fn lemma_breakdown_labels()
    ensures
        "[grype-verify] Severity breakdown: critical="@ == "[grype-verify] Severity breakdown: "@
            + "critical="@,
        " high="@ == " "@ + "high="@,
        " medium="@ == " "@ + "medium="@,
        " low="@ == " "@ + "low="@,
        " negligible="@ == " "@ + "negligible="@,
        " unknown="@ == " "@ + "unknown="@,
{
    reveal_strlit("[grype-verify] Severity breakdown: critical=");
    reveal_strlit("[grype-verify] Severity breakdown: ");
    reveal_strlit("critical=");
    reveal_strlit(" ");
    reveal_strlit(" high=");
    reveal_strlit("high=");
    reveal_strlit(" medium=");
    reveal_strlit("medium=");
    reveal_strlit(" low=");
    reveal_strlit("low=");
    reveal_strlit(" negligible=");
    reveal_strlit("negligible=");
    reveal_strlit(" unknown=");
    reveal_strlit("unknown=");
    assert("[grype-verify] Severity breakdown: critical="@
        =~= "[grype-verify] Severity breakdown: "@ + "critical="@);
    assert(" high="@ =~= " "@ + "high="@);
    assert(" medium="@ =~= " "@ + "medium="@);
    assert(" low="@ =~= " "@ + "low="@);
    assert(" negligible="@ =~= " "@ + "negligible="@);
    assert(" unknown="@ =~= " "@ + "unknown="@);
}

/// Law: a scan ends with grype's exit code, 2 where there is none, and is recorded
/// unless the path of the database is empty. The record holds what was scanned and
/// what came out, field by field.
pub proof fn law_outcomes_hold_the_scan(
    args: ScanArgs,
    scan: Finished,
    tally: Result<SeverityCounts, Seq<char>>,
    outcome: Outcome,
)
    requires
        is_outcome(args, scan, tally, outcome),
        tally matches Ok(counts) ==> counts.sum_fits(),
    ensures
        scan.status matches Some(code) ==> outcome.exit_code == code,
        scan.status is None ==> outcome.exit_code == 2,
        outcome.record is None <==> args.checks_db@.len() == 0,
        tally matches Ok(counts) ==> outcome.notice@ == breakdown_text(counts),
        tally matches Err(reason) ==> outcome.notice@
            == "[grype-verify] WARNING: no severity breakdown: "@ + reason,
        outcome.record matches Some(rec) ==> {
            let c = rec.severity;
            &&& rec.id == 0
            &&& rec.timestamp == scan.timestamp
            &&& rec.timestamp_iso is None
            &&& rec.sbom_path@ == args.sbom_file@
            &&& rec.mode@ == (if scan.db_updated {
                "online"@
            } else {
                "offline"@
            })
            &&& rec.db_updated == scan.db_updated
            &&& rec.exit_code == outcome.exit_code
            &&& rec.result@ == (if outcome.exit_code == 0 {
                "clean"@
            } else if outcome.exit_code == 2 {
                "vulnerable"@
            } else {
                "error"@
            })
            &&& rec.fail_on@ == args.fail_on@
            &&& rec.output_fmt@ == args.output@
            &&& rec.duration_ms == scan.duration_ms
            &&& tally matches Ok(counts) ==> c == counts
            &&& tally is Err ==> c.critical == 0 && c.high == 0 && c.medium == 0 && c.low == 0
                && c.negligible == 0 && c.unknown == 0
            &&& rec.total_vulns == c.critical + c.high + c.medium + c.low + c.negligible + c.unknown
            &&& rec.sarif_path is Some <==> args.sarif_file is Some
            &&& rec.sarif_path is Some ==> (rec.sarif_path->0)@ == (args.sarif_file->0)@
            &&& rec.raw_output is Some && (rec.raw_output->0)@ == scan.raw_output@
        },
{
    if let Some(rec) = outcome.record {
        law_records_are_seen_as_they_are(rec);
    }
}

/// Law: a tally is kept with its counts or its reason.
pub proof fn law_tallies_keep_counts_and_reasons(tally: Result<SeverityCounts, String>)
    ensures
        match tally {
            Ok(counts) => tally_view(tally) == Ok::<SeverityCounts, Seq<char>>(counts),
            Err(msg) => tally_view(tally) == Err::<SeverityCounts, Seq<char>>(msg@),
        },
{
}

/// Law: the message of a report error says what is wrong with the report.
pub proof fn law_report_errors_have_messages(e: ReportError)
    ensures
        e is NotJson ==> e.text() == "grype JSON report is not valid JSON"@,
        e is NoMatches ==> e.text() == "grype JSON report has no `matches` array"@,
        e is TooManyMatches ==> e.text() == "grype JSON report has too many matches to count"@,
{
}

// ---------------------------------------------------------------------------
// Migration
// ---------------------------------------------------------------------------

/// The columns that severities and SARIF reports brought, with their declarations.
pub open spec fn later_columns() -> Seq<(Seq<char>, Seq<char>)> {
    let count = "INTEGER NOT NULL DEFAULT 0"@;
    seq![
        ("sev_critical"@, count),
        ("sev_high"@, count),
        ("sev_medium"@, count),
        ("sev_low"@, count),
        ("sev_negligible"@, count),
        ("sev_unknown"@, count),
        ("sarif_path"@, "TEXT"@),
    ]
}

/// The step adds the column, by an `ALTER TABLE` of the checks table.
pub open spec fn adds_column(step: AddColumn, column: (Seq<char>, Seq<char>)) -> bool {
    step.name@ == column.0 && step.statement@ == "ALTER TABLE checks ADD COLUMN "@ + column.0
        + " "@ + column.1 + ";"@
}

/// Law: a migration has a step for each of the later columns that a table lacks and
/// no other step, and none that adds a column twice.
pub proof fn law_migrations_add_what_is_missing(steps: Seq<AddColumn>, existing: Seq<Seq<char>>)
    requires
        adds(steps, missing_columns(existing)),
        existing.no_duplicates(),
    ensures
        forall|c: int|
            0 <= c < later_columns().len() ==> existing.contains((#[trigger] later_columns()[c]).0)
                || exists|k: int|
                0 <= k < steps.len() && adds_column(#[trigger] steps[k], later_columns()[c]),
        forall|k: int|
            0 <= k < steps.len() ==> !existing.contains((#[trigger] steps[k]).name@) && exists|
                c: int,
            |
                0 <= c < later_columns().len() && adds_column(
                    steps[k],
                    #[trigger] later_columns()[c],
                ),
        forall|j: int, k: int|
            0 <= j < k < steps.len() ==> (#[trigger] steps[j]).name@ != (#[trigger] steps[k]).name@,
{
    let missing = missing_columns(existing);
    let names = names_of(missing);
    assert(later_columns() =~= added_columns());
    assert forall|c: int| 0 <= c < later_columns().len() implies existing.contains(
        (#[trigger] later_columns()[c]).0,
    ) || exists|k: int|
        0 <= k < steps.len() && adds_column(#[trigger] steps[k], later_columns()[c]) by {
        let column = later_columns()[c];
        if !existing.contains(column.0) {
            assert(added_columns().contains(column));
            lemma_missing(existing, column);
            let k = choose|k: int| 0 <= k < missing.len() && missing[k] == column;
            assert(adds_column(steps[k], column));
        }
    }
    law_migration_keeps_columns(existing);
    assert forall|k: int| 0 <= k < steps.len() implies !existing.contains(
        (#[trigger] steps[k]).name@,
    ) && exists|c: int|
        0 <= c < later_columns().len() && adds_column(steps[k], #[trigger] later_columns()[c]) by {
        assert(!existing.contains(missing[k].0));
        assert(missing.contains(missing[k]));
        lemma_missing(existing, missing[k]);
        let c = choose|c: int| 0 <= c < added_columns().len() && added_columns()[c] == missing[k];
        assert(adds_column(steps[k], later_columns()[c]));
    }
    law_migration_adds_each_column_once(existing);
    assert forall|j: int, k: int| 0 <= j < k < steps.len() implies (#[trigger] steps[j]).name@ != (
    #[trigger] steps[k]).name@ by {
        assert(migrated(existing)[existing.len() + j] == names[j]);
        assert(migrated(existing)[existing.len() + k] == names[k]);
    }
}

} // verus!
