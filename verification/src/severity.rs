//! Severity levels and the tally of a scan report.
use crate::json::{json_of, json_parsed, parse_json, value_as_array, value_as_str, value_get, Json};
use crate::text::{lowered, lowered_text, same_text, texts};
use vstd::prelude::*;

verus! {

/// The levels that grype reports.
#[derive(Debug, Clone, Copy, PartialEq, Eq, Structural)]
pub enum Level {
    Critical,
    High,
    Medium,
    Low,
    Negligible,
    Unknown,
}

/// The level that a severity names, whatever its ASCII case. Anything that is
/// not a known level is `Unknown`.
pub open spec fn severity_level(severity: Seq<char>) -> Level {
    let name = lowered(severity);
    if name == "critical"@ {
        Level::Critical
    } else if name == "high"@ {
        Level::High
    } else if name == "medium"@ {
        Level::Medium
    } else if name == "low"@ {
        Level::Low
    } else if name == "negligible"@ {
        Level::Negligible
    } else {
        Level::Unknown
    }
}

/// The level that a severity names.
pub fn level_of(severity: &str) -> (level: Level)
    ensures
        level == severity_level(severity@),
{
    let name = lowered_text(severity);
    if same_text(&name, "critical") {
        Level::Critical
    } else if same_text(&name, "high") {
        Level::High
    } else if same_text(&name, "medium") {
        Level::Medium
    } else if same_text(&name, "low") {
        Level::Low
    } else if same_text(&name, "negligible") {
        Level::Negligible
    } else {
        Level::Unknown
    }
}

/// How many of the severities name `level`.
pub open spec fn level_count(severities: Seq<Seq<char>>, level: Level) -> nat
    decreases severities.len(),
{
    if severities.len() == 0 {
        0
    } else {
        level_count(severities.drop_last(), level) + if severity_level(severities.last()) == level {
            1nat
        } else {
            0nat
        }
    }
}

/// Vulnerability counts of one scan, one per severity level.
#[derive(Debug, Clone, Copy, PartialEq, Eq, Structural)]
pub struct SeverityCounts {
    pub critical: i64,
    pub high: i64,
    pub medium: i64,
    pub low: i64,
    pub negligible: i64,
    pub unknown: i64,
}

impl Default for SeverityCounts {
    /// All counts are zero.
    fn default() -> (counts: Self)
        ensures
            counts == SeverityCounts::zero(),
    {
        SeverityCounts { critical: 0, high: 0, medium: 0, low: 0, negligible: 0, unknown: 0 }
    }
}

impl SeverityCounts {
    /// The counts that are all zero.
    pub open spec fn zero() -> SeverityCounts {
        SeverityCounts { critical: 0, high: 0, medium: 0, low: 0, negligible: 0, unknown: 0 }
    }

    /// The sum of all counts.
    pub open spec fn sum(self) -> int {
        self.critical + self.high + self.medium + self.low + self.negligible + self.unknown
    }

    /// Adding the counts up, from `critical` to `unknown`, stays within 64 bits.
    pub open spec fn sum_fits(self) -> bool {
        &&& i64::MIN <= self.critical + self.high <= i64::MAX
        &&& i64::MIN <= self.critical + self.high + self.medium <= i64::MAX
        &&& i64::MIN <= self.critical + self.high + self.medium + self.low <= i64::MAX
        &&& i64::MIN <= self.critical + self.high + self.medium + self.low + self.negligible
            <= i64::MAX
        &&& i64::MIN <= self.sum() <= i64::MAX
    }

    /// These counts are the tally of `severities`.
    pub open spec fn tallies(self, severities: Seq<Seq<char>>) -> bool {
        &&& self.critical == level_count(severities, Level::Critical)
        &&& self.high == level_count(severities, Level::High)
        &&& self.medium == level_count(severities, Level::Medium)
        &&& self.low == level_count(severities, Level::Low)
        &&& self.negligible == level_count(severities, Level::Negligible)
        &&& self.unknown == level_count(severities, Level::Unknown)
    }

    /// The sum of all counts.
    pub fn total(&self) -> (total: i64)
        requires
            self.sum_fits(),
        ensures
            total == self.sum(),
            total == self.critical + self.high + self.medium + self.low + self.negligible
                + self.unknown,
    {
        self.critical + self.high + self.medium + self.low + self.negligible + self.unknown
    }

    /// The sum of all counts, or `None` when adding them up leaves 64 bits.
    pub fn checked_total(&self) -> (total: Option<i64>)
        ensures
            total == (if self.sum_fits() {
                Some(self.sum() as i64)
            } else {
                None
            }),
    {
        let two: i64 = match self.critical.checked_add(self.high) {
            Some(n) => n,
            None => return None,
        };
        let three: i64 = match two.checked_add(self.medium) {
            Some(n) => n,
            None => return None,
        };
        let four: i64 = match three.checked_add(self.low) {
            Some(n) => n,
            None => return None,
        };
        let five: i64 = match four.checked_add(self.negligible) {
            Some(n) => n,
            None => return None,
        };
        five.checked_add(self.unknown)
    }

    /// Tallies severities.
    pub fn from_severities(severities: &Vec<String>) -> (counts: Self)
        requires
            severities@.len() <= i64::MAX,
        ensures
            counts.tallies(texts(severities@)),
    {
        let mut counts = SeverityCounts::default();
        let mut i: usize = 0;
        while i < severities.len()
            invariant
                i <= severities@.len() <= i64::MAX,
                counts.tallies(texts(severities@).take(i as int)),
                counts.sum() == i,
            decreases severities@.len() - i,
        {
            proof {
                let seen = texts(severities@).take(i + 1);
                assert(seen.drop_last() =~= texts(severities@).take(i as int));
                assert(seen.last() == severities@[i as int]@);
            }
            match level_of(&severities[i]) {
                Level::Critical => {
                    counts.critical = counts.critical + 1;
                },
                Level::High => {
                    counts.high = counts.high + 1;
                },
                Level::Medium => {
                    counts.medium = counts.medium + 1;
                },
                Level::Low => {
                    counts.low = counts.low + 1;
                },
                Level::Negligible => {
                    counts.negligible = counts.negligible + 1;
                },
                Level::Unknown => {
                    counts.unknown = counts.unknown + 1;
                },
            }
            i += 1;
        }
        proof {
            assert(texts(severities@).take(i as int) =~= texts(severities@));
        }
        counts
    }
}

/// A number of scans, and their severity counts added up.
pub struct Sums {
    pub scans: int,
    pub critical: int,
    pub high: int,
    pub medium: int,
    pub low: int,
    pub negligible: int,
    pub unknown: int,
}

impl Sums {
    /// No scan.
    pub open spec fn none() -> Sums {
        Sums { scans: 0, critical: 0, high: 0, medium: 0, low: 0, negligible: 0, unknown: 0 }
    }

    /// One scan.
    pub open spec fn of(counts: SeverityCounts) -> Sums {
        Sums::none().plus(counts)
    }

    /// One scan more.
    pub open spec fn plus(self, counts: SeverityCounts) -> Sums {
        Sums {
            scans: self.scans + 1,
            critical: self.critical + counts.critical,
            high: self.high + counts.high,
            medium: self.medium + counts.medium,
            low: self.low + counts.low,
            negligible: self.negligible + counts.negligible,
            unknown: self.unknown + counts.unknown,
        }
    }

    /// Every severity count fits in 64 bits.
    pub open spec fn in_range(self) -> bool {
        &&& i64::MIN <= self.critical <= i64::MAX
        &&& i64::MIN <= self.high <= i64::MAX
        &&& i64::MIN <= self.medium <= i64::MAX
        &&& i64::MIN <= self.low <= i64::MAX
        &&& i64::MIN <= self.negligible <= i64::MAX
        &&& i64::MIN <= self.unknown <= i64::MAX
    }

    /// The severity counts.
    pub open spec fn counts(self) -> SeverityCounts {
        SeverityCounts {
            critical: self.critical as i64,
            high: self.high as i64,
            medium: self.medium as i64,
            low: self.low as i64,
            negligible: self.negligible as i64,
            unknown: self.unknown as i64,
        }
    }
}

impl SeverityCounts {
    /// The counts added up level by level, or `None` when a sum leaves 64 bits.
    pub fn checked_plus(&self, other: &SeverityCounts) -> (sum: Option<SeverityCounts>)
        ensures
            sum == (if Sums::of(*self).plus(*other).in_range() {
                Some(Sums::of(*self).plus(*other).counts())
            } else {
                None
            }),
    {
        let critical: i64 = match self.critical.checked_add(other.critical) {
            Some(n) => n,
            None => return None,
        };
        let high: i64 = match self.high.checked_add(other.high) {
            Some(n) => n,
            None => return None,
        };
        let medium: i64 = match self.medium.checked_add(other.medium) {
            Some(n) => n,
            None => return None,
        };
        let low: i64 = match self.low.checked_add(other.low) {
            Some(n) => n,
            None => return None,
        };
        let negligible: i64 = match self.negligible.checked_add(other.negligible) {
            Some(n) => n,
            None => return None,
        };
        let unknown: i64 = match self.unknown.checked_add(other.unknown) {
            Some(n) => n,
            None => return None,
        };
        Some(SeverityCounts { critical, high, medium, low, negligible, unknown })
    }
}

/// The `matches` list of a report.
pub open spec fn matches_of(report: Json) -> Option<Seq<Json>> {
    match report.member("matches"@) {
        Some(Json::List(elements)) => Some(elements),
        _ => None,
    }
}

/// The severity that one match of a report states: its
/// `vulnerability.severity`, or `Unknown` when that is absent or no text.
pub open spec fn severity_of_match(entry: Json) -> Seq<char> {
    match entry.member("vulnerability"@) {
        Some(vulnerability) => match vulnerability.member("severity"@) {
            Some(Json::Text(severity)) => severity,
            _ => "Unknown"@,
        },
        None => "Unknown"@,
    }
}

/// The severities that a list of matches states, in order.
pub open spec fn severities_of(entries: Seq<Json>) -> Seq<Seq<char>> {
    entries.map_values(|entry: Json| severity_of_match(entry))
}

/// Why a report could not be tallied.
#[derive(Debug)]
pub enum ReportError {
    /// The report is not JSON.
    NotJson(serde_json::Error),
    /// The report has no `matches` list.
    NoMatches,
    /// The report lists more matches than a count can hold.
    TooManyMatches,
}

impl ReportError {
    /// What the error says of the report.
    pub open spec fn text(self) -> Seq<char> {
        match self {
            ReportError::NotJson(_) => "grype JSON report is not valid JSON"@,
            ReportError::NoMatches => "grype JSON report has no `matches` array"@,
            ReportError::TooManyMatches => "grype JSON report has too many matches to count"@,
        }
    }

    /// The error as a message.
    pub fn message(&self) -> (message: String)
        ensures
            message@ == self.text(),
    {
        match self {
            ReportError::NotJson(_) => "grype JSON report is not valid JSON".to_string(),
            ReportError::NoMatches => "grype JSON report has no `matches` array".to_string(),
            ReportError::TooManyMatches => {
                "grype JSON report has too many matches to count".to_string()
            },
        }
    }
}

/// The severity that one match of a report states.
pub fn match_severity(entry: &serde_json::Value) -> (severity: String)
    ensures
        severity@ == severity_of_match(json_of(*entry)),
{
    match value_get(entry, "vulnerability") {
        Some(vulnerability) => match value_get(vulnerability, "severity") {
            Some(severity) => match value_as_str(severity) {
                Some(text) => text.to_string(),
                None => "Unknown".to_string(),
            },
            None => "Unknown".to_string(),
        },
        None => "Unknown".to_string(),
    }
}

/// The severities of all matches of a report, in order; `None` when the report
/// has no `matches` list.
pub fn report_severities(report: &serde_json::Value) -> (severities: Option<Vec<String>>)
    ensures
        match severities {
            Some(list) => matches_of(json_of(*report)) matches Some(entries) && texts(list@)
                == severities_of(entries),
            None => matches_of(json_of(*report)) is None,
        },
{
    let entries = match value_get(report, "matches") {
        Some(value) => match value_as_array(value) {
            Some(entries) => entries,
            None => return None,
        },
        None => return None,
    };
    let ghost held = entries@.map_values(|e: serde_json::Value| json_of(e));
    let mut list: Vec<String> = Vec::new();
    let mut i: usize = 0;
    while i < entries.len()
        invariant
            i <= entries@.len(),
            held == entries@.map_values(|e: serde_json::Value| json_of(e)),
            list@.len() == i,
            forall|j: int| 0 <= j < i ==> (#[trigger] list@[j])@ == severity_of_match(held[j]),
        decreases entries@.len() - i,
    {
        list.push(match_severity(&entries[i]));
        i += 1;
    }
    proof {
        assert(texts(list@) =~= severities_of(held));
    }
    Some(list)
}

impl SeverityCounts {
    /// Tallies the `matches[].vulnerability.severity` of a parsed report.
    pub fn from_report(report: &serde_json::Value) -> (tally: Result<Self, ReportError>)
        ensures
            match tally {
                Ok(counts) => matches_of(json_of(*report)) matches Some(entries) && entries.len()
                    <= i64::MAX && counts.tallies(severities_of(entries)),
                Err(ReportError::NotJson(_)) => false,
                Err(ReportError::NoMatches) => matches_of(json_of(*report)) is None,
                Err(ReportError::TooManyMatches) => matches_of(json_of(*report)) matches Some(
                    entries,
                ) && entries.len() > i64::MAX,
            },
    {
        match report_severities(report) {
            Some(severities) => {
                proof {
                    let entries = matches_of(json_of(*report))->0;
                    assert(texts(severities@).len() == severities_of(entries).len());
                }
                if severities.len() as u64 <= i64::MAX as u64 {
                    Ok(SeverityCounts::from_severities(&severities))
                } else {
                    Err(ReportError::TooManyMatches)
                }
            },
            None => Err(ReportError::NoMatches),
        }
    }

    /// Tallies a grype JSON report. A severity that is absent or not recognised
    /// counts as unknown.
    pub fn from_grype_json(json: &str) -> (tally: Result<Self, ReportError>)
        ensures
            match tally {
                Ok(counts) => json_parsed(json@) matches Some(report) && matches_of(
                    report,
                ) matches Some(entries) && entries.len() <= i64::MAX && counts.tallies(
                    severities_of(entries),
                ),
                Err(ReportError::NotJson(_)) => json_parsed(json@) is None,
                Err(ReportError::NoMatches) => json_parsed(json@) matches Some(report)
                    && matches_of(report) is None,
                Err(ReportError::TooManyMatches) => json_parsed(json@) matches Some(report)
                    && matches_of(report) matches Some(entries) && entries.len() > i64::MAX,
            },
    {
        match parse_json(json) {
            Ok(report) => SeverityCounts::from_report(&report),
            Err(e) => Err(ReportError::NotJson(e)),
        }
    }
}

// ---------------------------------------------------------------------------
// Laws
// ---------------------------------------------------------------------------

/// Law: every severity is counted under exactly one level, so the counts of a
/// tally add up to the number of severities.
pub proof fn law_tally_counts_every_severity_once(
    counts: SeverityCounts,
    severities: Seq<Seq<char>>,
)
    requires
        counts.tallies(severities),
    ensures
        counts.sum() == severities.len(),
{
    lemma_level_counts_add_up(severities);
}

proof fn lemma_level_counts_add_up(severities: Seq<Seq<char>>)
    ensures
        level_count(severities, Level::Critical) + level_count(severities, Level::High)
            + level_count(severities, Level::Medium) + level_count(severities, Level::Low)
            + level_count(severities, Level::Negligible) + level_count(severities, Level::Unknown)
            == severities.len(),
    decreases severities.len(),
{
    if severities.len() > 0 {
        lemma_level_counts_add_up(severities.drop_last());
    }
}

/// Law: the tally of a report never makes the total overflow.
pub proof fn law_tally_total_fits(counts: SeverityCounts, severities: Seq<Seq<char>>)
    requires
        counts.tallies(severities),
        severities.len() <= i64::MAX,
    ensures
        counts.sum_fits(),
{
    lemma_level_counts_add_up(severities);
}

/// Law: severities that differ only in ASCII case name the same level.
pub proof fn law_levels_ignore_case(a: Seq<char>, b: Seq<char>)
    requires
        lowered(a) == lowered(b),
    ensures
        severity_level(a) == severity_level(b),
{
}

/// Law: the order of the matches in a report does not matter: two lists with
/// the same severities in another order have the same tally.
pub proof fn law_tally_ignores_order(
    a: Seq<Seq<char>>,
    b: Seq<Seq<char>>,
    left: SeverityCounts,
    right: SeverityCounts,
)
    requires
        a.to_multiset() == b.to_multiset(),
        left.tallies(a),
        right.tallies(b),
    ensures
        left == right,
{
    lemma_level_count_ignores_order(a, b, Level::Critical);
    lemma_level_count_ignores_order(a, b, Level::High);
    lemma_level_count_ignores_order(a, b, Level::Medium);
    lemma_level_count_ignores_order(a, b, Level::Low);
    lemma_level_count_ignores_order(a, b, Level::Negligible);
    lemma_level_count_ignores_order(a, b, Level::Unknown);
}

proof fn lemma_level_count_ignores_order(a: Seq<Seq<char>>, b: Seq<Seq<char>>, level: Level)
    requires
        a.to_multiset() == b.to_multiset(),
    ensures
        level_count(a, level) == level_count(b, level),
    decreases a.len(),
{
    broadcast use vstd::seq_lib::group_to_multiset_ensures;

    if a.len() == 0 {
        assert(b.to_multiset().len() == 0);
        assert(b.len() == 0);
    } else {
        let x = a.last();
        assert(a.contains(x));
        assert(b.to_multiset().count(x) > 0);
        assert(b.contains(x));
        let i = b.index_of(x);
        let shorter = b.remove(i);
        assert(a.drop_last() =~= a.remove(a.len() - 1));
        assert(a.drop_last().to_multiset() =~= shorter.to_multiset());
        lemma_level_count_ignores_order(a.drop_last(), shorter, level);
        lemma_level_count_remove(b, i, level);
    }
}

proof fn lemma_level_count_remove(s: Seq<Seq<char>>, i: int, level: Level)
    requires
        0 <= i < s.len(),
    ensures
        level_count(s, level) == level_count(s.remove(i), level) + if severity_level(s[i]) == level {
            1nat
        } else {
            0nat
        },
    decreases s.len(),
{
    if i == s.len() - 1 {
        assert(s.remove(i) =~= s.drop_last());
    } else {
        lemma_level_count_remove(s.drop_last(), i, level);
        assert(s.remove(i).drop_last() =~= s.drop_last().remove(i));
        assert(s.remove(i).last() == s.last());
    }
}

proof fn lemma_level_counts_join(a: Seq<Seq<char>>, b: Seq<Seq<char>>, level: Level)
    ensures
        level_count(a + b, level) == level_count(a, level) + level_count(b, level),
    decreases b.len(),
{
    if b.len() == 0 {
        assert(a + b =~= a);
    } else {
        lemma_level_counts_join(a, b.drop_last(), level);
        assert((a + b).drop_last() =~= a + b.drop_last());
        assert((a + b).last() == b.last());
    }
}

/// Law: the tally of a report with the matches of two others is the sum of their
/// tallies, level by level.
pub proof fn law_joined_reports_add_up(
    a: Seq<Json>,
    b: Seq<Json>,
    left: SeverityCounts,
    right: SeverityCounts,
    joined: SeverityCounts,
)
    requires
        left.tallies(severities_of(a)),
        right.tallies(severities_of(b)),
        joined.tallies(severities_of(a + b)),
    ensures
        joined.critical == left.critical + right.critical,
        joined.high == left.high + right.high,
        joined.medium == left.medium + right.medium,
        joined.low == left.low + right.low,
        joined.negligible == left.negligible + right.negligible,
        joined.unknown == left.unknown + right.unknown,
{
    let (x, y) = (severities_of(a), severities_of(b));
    assert(severities_of(a + b) =~= x + y);
    lemma_level_counts_join(x, y, Level::Critical);
    lemma_level_counts_join(x, y, Level::High);
    lemma_level_counts_join(x, y, Level::Medium);
    lemma_level_counts_join(x, y, Level::Low);
    lemma_level_counts_join(x, y, Level::Negligible);
    lemma_level_counts_join(x, y, Level::Unknown);
}

/// Law: the order of the matches in a report does not matter to its tally.
pub proof fn law_report_ignores_order(
    a: Seq<Json>,
    b: Seq<Json>,
    left: SeverityCounts,
    right: SeverityCounts,
)
    requires
        a.to_multiset() == b.to_multiset(),
        left.tallies(severities_of(a)),
        right.tallies(severities_of(b)),
    ensures
        left == right,
{
    lemma_severities_ignore_order(a, b);
    law_tally_ignores_order(severities_of(a), severities_of(b), left, right);
}

proof fn lemma_severities_ignore_order(a: Seq<Json>, b: Seq<Json>)
    requires
        a.to_multiset() == b.to_multiset(),
    ensures
        severities_of(a).to_multiset() == severities_of(b).to_multiset(),
    decreases a.len(),
{
    broadcast use vstd::seq_lib::group_to_multiset_ensures;

    if a.len() == 0 {
        assert(b.to_multiset().len() == 0);
        assert(b.len() == 0);
        assert(severities_of(a) =~= severities_of(b));
    } else {
        let x = a.last();
        assert(a.contains(x));
        assert(b.to_multiset().count(x) > 0);
        assert(b.contains(x));
        let i = b.index_of(x);
        let shorter = b.remove(i);
        assert(a.drop_last() =~= a.remove(a.len() - 1));
        assert(a.drop_last().to_multiset() =~= shorter.to_multiset());
        lemma_severities_ignore_order(a.drop_last(), shorter);
        let (p, q) = (severities_of(a), severities_of(b));
        assert(severities_of(a.drop_last()) =~= p.remove(p.len() - 1));
        assert(severities_of(shorter) =~= q.remove(i));
        assert(p[p.len() - 1] == q[i]);
        assert(p.to_multiset() =~= p.remove(p.len() - 1).to_multiset().insert(p[p.len() - 1]));
        assert(q.to_multiset() =~= q.remove(i).to_multiset().insert(q[i]));
    }
}

/// Law: only the `matches` of a report are tallied; any other member leaves them
/// as they are.
pub proof fn law_other_members_do_not_matter(
    members: Map<Seq<char>, Json>,
    key: Seq<char>,
    value: Json,
)
    requires
        key != "matches"@,
    ensures
        matches_of(Json::Object(members.insert(key, value))) == matches_of(Json::Object(members)),
{
}

} // verus!
