//! The SQL of the checks table, and the migration of tables that an older
//! version created.
use crate::text::texts;
use vstd::prelude::*;

verus! {

/// Creates the checks table and its indexes where they do not exist yet.
pub const SCHEMA: &'static str = "PRAGMA journal_mode=WAL;
CREATE TABLE IF NOT EXISTS checks (
    id             INTEGER PRIMARY KEY AUTOINCREMENT,
    timestamp      INTEGER NOT NULL,
    sbom_path      TEXT    NOT NULL,
    mode           TEXT    NOT NULL,
    db_updated     INTEGER NOT NULL,
    exit_code      INTEGER NOT NULL,
    fail_on        TEXT    NOT NULL,
    output_fmt     TEXT    NOT NULL,
    duration_ms    INTEGER NOT NULL,
    sev_critical   INTEGER NOT NULL DEFAULT 0,
    sev_high       INTEGER NOT NULL DEFAULT 0,
    sev_medium     INTEGER NOT NULL DEFAULT 0,
    sev_low        INTEGER NOT NULL DEFAULT 0,
    sev_negligible INTEGER NOT NULL DEFAULT 0,
    sev_unknown    INTEGER NOT NULL DEFAULT 0,
    sarif_path     TEXT,
    raw_output     TEXT
);
CREATE INDEX IF NOT EXISTS idx_ts   ON checks(timestamp);
CREATE INDEX IF NOT EXISTS idx_sbom ON checks(sbom_path);";

/// Lists the columns of the checks table; the name is the second value of a row.
pub const TABLE_INFO: &'static str = "PRAGMA table_info(checks)";

/// Stores one row; the parameters are its columns in the order of the schema.
pub const INSERT_ROW: &'static str = "INSERT INTO checks
    (id, timestamp, sbom_path, mode, db_updated, exit_code,
     fail_on, output_fmt, duration_ms,
     sev_critical, sev_high, sev_medium, sev_low, sev_negligible, sev_unknown,
     sarif_path, raw_output)
VALUES (?1,?2,?3,?4,?5,?6,?7,?8,?9,?10,?11,?12,?13,?14,?15,?16,?17)";

/// Reads all rows in the order of their ids; the columns are in the order of the
/// schema. The output is left out (`NULL`) unless the parameter is true.
pub const SELECT_ROWS: &'static str = "SELECT id, timestamp, sbom_path, mode, db_updated, exit_code,
     fail_on, output_fmt, duration_ms,
     sev_critical, sev_high, sev_medium, sev_low, sev_negligible, sev_unknown,
     sarif_path, CASE WHEN ?1 THEN raw_output END
FROM checks
ORDER BY id";

/// Counts the rows.
pub const COUNT_ROWS: &'static str = "SELECT COUNT(*) FROM checks";

/// Tells whether SQLite keeps the ids that it has given: it does once a table was
/// created with `AUTOINCREMENT`.
pub const HAS_SEQUENCE: &'static str = "SELECT EXISTS (
    SELECT 1 FROM sqlite_master WHERE type = 'table' AND name = 'sqlite_sequence')";

/// Reads the highest id of all rows; 0 where there is none.
pub const SELECT_MAX_ID: &'static str = "SELECT MAX(
    COALESCE((SELECT MAX(id) FROM checks), 0), 0)";

/// Reads the highest id that was ever given to a row; 0 before the first row.
/// Only where SQLite keeps the ids that it has given; see [`HAS_SEQUENCE`].
pub const SELECT_LAST_ID: &'static str = "SELECT MAX(
    COALESCE((SELECT seq FROM sqlite_sequence WHERE name = 'checks'), 0),
    COALESCE((SELECT MAX(id) FROM checks), 0))";

/// The columns, with their declarations, that tables of older versions lack.
pub open spec fn added_columns() -> Seq<(Seq<char>, Seq<char>)> {
    seq![
        ("sev_critical"@, "INTEGER NOT NULL DEFAULT 0"@),
        ("sev_high"@, "INTEGER NOT NULL DEFAULT 0"@),
        ("sev_medium"@, "INTEGER NOT NULL DEFAULT 0"@),
        ("sev_low"@, "INTEGER NOT NULL DEFAULT 0"@),
        ("sev_negligible"@, "INTEGER NOT NULL DEFAULT 0"@),
        ("sev_unknown"@, "INTEGER NOT NULL DEFAULT 0"@),
        ("sarif_path"@, "TEXT"@),
    ]
}

/// The statement that adds a column to the checks table.
pub open spec fn alter_statement(column: (Seq<char>, Seq<char>)) -> Seq<char> {
    "ALTER TABLE checks ADD COLUMN "@ + column.0 + " "@ + column.1 + ";"@
}

/// Whether a column is not among the existing ones.
pub open spec fn lacks(existing: Seq<Seq<char>>) -> spec_fn((Seq<char>, Seq<char>)) -> bool {
    |column: (Seq<char>, Seq<char>)| !existing.contains(column.0)
}

/// The added columns that are not among the existing ones, in order.
pub open spec fn missing_columns(existing: Seq<Seq<char>>) -> Seq<(Seq<char>, Seq<char>)> {
    added_columns().filter(lacks(existing))
}

/// The names of columns.
pub open spec fn names_of(columns: Seq<(Seq<char>, Seq<char>)>) -> Seq<Seq<char>> {
    columns.map_values(|c: (Seq<char>, Seq<char>)| c.0)
}

/// One step of a migration: the column that is added, and the statement.
pub struct AddColumn {
    pub name: String,
    pub statement: String,
}

/// The steps of a list are those that add `columns`, in order.
pub open spec fn adds(steps: Seq<AddColumn>, columns: Seq<(Seq<char>, Seq<char>)>) -> bool {
    &&& steps.len() == columns.len()
    &&& forall|i: int|
        0 <= i < steps.len() ==> (#[trigger] steps[i]).name@ == columns[i].0 && steps[i].statement@
            == alter_statement(columns[i])
}

fn contains_text(list: &Vec<String>, text: &str) -> (found: bool)
    ensures
        found == texts(list@).contains(text@),
{
    let wanted: String = text.to_owned();
    let mut i: usize = 0;
    while i < list.len()
        invariant
            i <= list@.len(),
            wanted@ == text@,
            forall|j: int| 0 <= j < i ==> (#[trigger] texts(list@)[j]) != text@,
        decreases list@.len() - i,
    {
        assert(texts(list@)[i as int] == list@[i as int]@);
        if list[i] == wanted {
            return true;
        }
        i += 1;
    }
    false
}

fn column_list() -> (columns: Vec<(&'static str, &'static str)>)
    ensures
        columns@.len() == added_columns().len(),
        forall|i: int|
            0 <= i < columns@.len() ==> (#[trigger] columns@[i]).0@ == added_columns()[i].0
                && columns@[i].1@ == added_columns()[i].1,
{
    let mut columns: Vec<(&'static str, &'static str)> = Vec::new();
    columns.push(("sev_critical", "INTEGER NOT NULL DEFAULT 0"));
    columns.push(("sev_high", "INTEGER NOT NULL DEFAULT 0"));
    columns.push(("sev_medium", "INTEGER NOT NULL DEFAULT 0"));
    columns.push(("sev_low", "INTEGER NOT NULL DEFAULT 0"));
    columns.push(("sev_negligible", "INTEGER NOT NULL DEFAULT 0"));
    columns.push(("sev_unknown", "INTEGER NOT NULL DEFAULT 0"));
    columns.push(("sarif_path", "TEXT"));
    columns
}

/// The steps that bring a checks table with the columns `existing` up to date:
/// one for every added column that it lacks.
pub fn migrate(existing: &Vec<String>) -> (steps: Vec<AddColumn>)
    ensures
        adds(steps@, missing_columns(texts(existing@))),
{
    let columns = column_list();
    let ghost all = added_columns();
    let ghost held = texts(existing@);
    let mut steps: Vec<AddColumn> = Vec::new();
    let mut i: usize = 0;
    proof {
        reveal_with_fuel(Seq::<_>::filter, 1);
        assert(all.take(0).filter(lacks(held)) =~= Seq::<(Seq<char>, Seq<char>)>::empty());
    }
    while i < columns.len()
        invariant
            i <= columns@.len() == all.len(),
            all == added_columns(),
            held == texts(existing@),
            forall|j: int|
                0 <= j < columns@.len() ==> (#[trigger] columns@[j]).0@ == all[j].0
                    && columns@[j].1@ == all[j].1,
            adds(steps@, all.take(i as int).filter(lacks(held))),
        decreases columns@.len() - i,
    {
        let (name, decl) = columns[i];
        proof {
            reveal_with_fuel(Seq::<_>::filter, 1);
            assert(all.take(i + 1).drop_last() =~= all.take(i as int));
            assert(all.take(i + 1).last() == all[i as int]);
            assert(all[i as int] == (name@, decl@));
        }
        if !contains_text(existing, name) {
            let mut statement = "ALTER TABLE checks ADD COLUMN ".to_string();
            statement.append(name);
            statement.append(" ");
            statement.append(decl);
            statement.append(";");
            steps.push(AddColumn { name: name.to_string(), statement });
        }
        i += 1;
    }
    proof {
        assert(all.take(i as int) =~= all);
    }
    steps
}

// ---------------------------------------------------------------------------
// Laws
// ---------------------------------------------------------------------------

/// The columns of a table after a migration.
pub open spec fn migrated(existing: Seq<Seq<char>>) -> Seq<Seq<char>> {
    existing + names_of(missing_columns(existing))
}

/// A column is missing when it is an added one that does not exist.
pub proof fn lemma_missing(existing: Seq<Seq<char>>, column: (Seq<char>, Seq<char>))
    ensures
        missing_columns(existing).contains(column) <==> added_columns().contains(column)
            && !existing.contains(column.0),
{
    let all = added_columns();
    let p = lacks(existing);
    let kept = all.filter(p);
    if kept.contains(column) {
        let i = choose|i: int| 0 <= i < kept.len() && kept[i] == column;
        all.lemma_filter_pred(p, i);
        all.lemma_filter_contains_rev(p, column);
    }
    if all.contains(column) && p(column) {
        let i = choose|i: int| 0 <= i < all.len() && all[i] == column;
        all.lemma_filter_contains(p, i);
    }
}

/// Law: a migration only adds columns. The existing ones stay as they are, and
/// none of them is added again.
pub proof fn law_migration_keeps_columns(existing: Seq<Seq<char>>)
    ensures
        migrated(existing).take(existing.len() as int) == existing,
        forall|i: int|
            0 <= i < missing_columns(existing).len() ==> !existing.contains(
                (#[trigger] missing_columns(existing)[i]).0,
            ),
{
    assert(migrated(existing).take(existing.len() as int) =~= existing);
    assert forall|i: int| 0 <= i < missing_columns(existing).len() implies !existing.contains(
        (#[trigger] missing_columns(existing)[i]).0,
    ) by {
        let column = missing_columns(existing)[i];
        assert(missing_columns(existing).contains(column));
        lemma_missing(existing, column);
    }
}

/// Law: after a migration every added column exists.
pub proof fn law_migration_is_complete(existing: Seq<Seq<char>>)
    ensures
        forall|i: int|
            0 <= i < added_columns().len() ==> migrated(existing).contains(
                (#[trigger] added_columns()[i]).0,
            ),
{
    assert forall|i: int| 0 <= i < added_columns().len() implies migrated(existing).contains(
        (#[trigger] added_columns()[i]).0,
    ) by {
        let column = added_columns()[i];
        assert(added_columns().contains(column));
        lemma_missing(existing, column);
        if existing.contains(column.0) {
            let k = choose|k: int| 0 <= k < existing.len() && existing[k] == column.0;
            assert(migrated(existing)[k] == column.0);
        } else {
            let missing = missing_columns(existing);
            let k = choose|k: int| 0 <= k < missing.len() && missing[k] == column;
            assert(names_of(missing)[k] == column.0);
            assert(migrated(existing)[existing.len() + k] == column.0);
        }
    }
}

/// Law: migrating twice is migrating once. A table that was migrated lacks
/// nothing.
pub proof fn law_migration_is_idempotent(existing: Seq<Seq<char>>)
    ensures
        missing_columns(migrated(existing)) == Seq::<(Seq<char>, Seq<char>)>::empty(),
        migrated(migrated(existing)) == migrated(existing),
{
    let missing = missing_columns(migrated(existing));
    if missing.len() > 0 {
        let column = missing[0];
        assert(missing.contains(column));
        lemma_missing(migrated(existing), column);
        law_migration_is_complete(existing);
        let i = choose|i: int| 0 <= i < added_columns().len() && added_columns()[i] == column;
        assert(migrated(existing).contains(added_columns()[i].0));
        assert(false);
    }
    assert(missing =~= Seq::<(Seq<char>, Seq<char>)>::empty());
    assert(migrated(migrated(existing)) =~= migrated(existing));
}

proof fn lemma_added_names_differ(i: int, j: int)
    requires
        0 <= i < j < added_columns().len(),
    ensures
        added_columns()[i].0 != added_columns()[j].0,
{
    reveal_strlit("sev_critical");
    reveal_strlit("sev_high");
    reveal_strlit("sev_medium");
    reveal_strlit("sev_low");
    reveal_strlit("sev_negligible");
    reveal_strlit("sev_unknown");
    reveal_strlit("sarif_path");
    assert("sev_critical"@.len() == 12);
    assert("sev_high"@.len() == 8);
    assert("sev_medium"@.len() == 10);
    assert("sev_low"@.len() == 7);
    assert("sev_negligible"@.len() == 14);
    assert("sev_unknown"@.len() == 11);
    assert("sarif_path"@.len() == 10);
    assert("sev_medium"@[1] != "sarif_path"@[1]);
}

/// A list whose names differ keeps that when it is filtered.
proof fn lemma_filtered_names_differ(
    list: Seq<(Seq<char>, Seq<char>)>,
    p: spec_fn((Seq<char>, Seq<char>)) -> bool,
)
    requires
        names_of(list).no_duplicates(),
    ensures
        names_of(list.filter(p)).no_duplicates(),
    decreases list.len(),
{
    reveal_with_fuel(Seq::<_>::filter, 1);
    if list.len() > 0 {
        let shorter = list.drop_last();
        let kept = shorter.filter(p);
        assert(names_of(shorter) =~= names_of(list).drop_last());
        lemma_filtered_names_differ(shorter, p);
        if p(list.last()) {
            assert(names_of(list.filter(p)) =~= names_of(kept).push(list.last().0));
            assert forall|k: int| 0 <= k < kept.len() implies (#[trigger] names_of(kept)[k])
                != list.last().0 by {
                assert(kept.contains(kept[k]));
                shorter.lemma_filter_contains_rev(p, kept[k]);
                let i = choose|i: int| 0 <= i < shorter.len() && shorter[i] == kept[k];
                assert(names_of(list)[i] == kept[k].0);
                assert(names_of(list)[list.len() - 1] == list.last().0);
            }
        }
    }
}

/// Law: after a migration every column occurs once, if none occurred twice
/// before.
pub proof fn law_migration_adds_each_column_once(existing: Seq<Seq<char>>)
    requires
        existing.no_duplicates(),
    ensures
        migrated(existing).no_duplicates(),
{
    let all = added_columns();
    let missing = missing_columns(existing);
    let added = names_of(missing);
    assert forall|i: int, j: int| 0 <= i < j < all.len() implies names_of(all)[i]
        != names_of(all)[j] by {
        lemma_added_names_differ(i, j);
    }
    assert(names_of(all).no_duplicates());
    lemma_filtered_names_differ(all, lacks(existing));
    law_migration_keeps_columns(existing);
    assert forall|k: int| 0 <= k < added.len() implies !existing.contains(#[trigger] added[k]) by {
        assert(!existing.contains(missing[k].0));
    }
    assert forall|i: int, j: int|
        0 <= i < migrated(existing).len() && 0 <= j < migrated(existing).len() && i
            != j implies migrated(existing)[i] != migrated(existing)[j] by {
        let n = existing.len();
        if i < n && j >= n {
            assert(existing.contains(existing[i]));
            assert(!existing.contains(added[j - n]));
        } else if j < n && i >= n {
            assert(existing.contains(existing[j]));
            assert(!existing.contains(added[i - n]));
        } else if i >= n && j >= n {
            assert(added[i - n] != added[j - n]);
        }
    }
}

// ---------------------------------------------------------------------------
// Rows across a migration
// ---------------------------------------------------------------------------

/// The value of a column in a row of the table.
pub enum Cell {
    Null,
    Number(int),
    Text(Seq<char>),
}

/// What rows that exist already hold in an added column: `NULL`, or the number
/// that its declaration gives as the default.
pub open spec fn default_cell(decl: Seq<char>) -> Cell {
    if decl == "TEXT"@ {
        Cell::Null
    } else {
        Cell::Number(0)
    }
}

/// A row after columns were added one by one, as SQL defines `ALTER TABLE ... ADD
/// COLUMN`: the row gets the default of the column and keeps the rest.
pub open spec fn row_with(
    row: Map<Seq<char>, Cell>,
    columns: Seq<(Seq<char>, Seq<char>)>,
) -> Map<Seq<char>, Cell>
    decreases columns.len(),
{
    if columns.len() == 0 {
        row
    } else {
        row_with(row, columns.drop_last()).insert(columns.last().0, default_cell(columns.last().1))
    }
}

proof fn lemma_row_with(
    row: Map<Seq<char>, Cell>,
    columns: Seq<(Seq<char>, Seq<char>)>,
    name: Seq<char>,
)
    ensures
        row_with(row, columns).contains_key(name) <==> row.contains_key(name) || names_of(
            columns,
        ).contains(name),
        !names_of(columns).contains(name) ==> row_with(row, columns)[name] == row[name],
    decreases columns.len(),
{
    if columns.len() == 0 {
        assert(names_of(columns).len() == 0);
    } else {
        let shorter = columns.drop_last();
        let names = names_of(columns);
        lemma_row_with(row, shorter, name);
        assert(names =~= names_of(shorter).push(columns.last().0));
        if names_of(shorter).contains(name) {
            let k = choose|k: int| 0 <= k < shorter.len() && names_of(shorter)[k] == name;
            assert(names[k] == name);
        }
        if columns.last().0 == name {
            assert(names[columns.len() - 1] == name);
        } else if names.contains(name) {
            let k = choose|k: int| 0 <= k < names.len() && names[k] == name;
            assert(names_of(shorter)[k] == name);
        }
    }
}

proof fn lemma_row_with_default(
    row: Map<Seq<char>, Cell>,
    columns: Seq<(Seq<char>, Seq<char>)>,
    k: int,
)
    requires
        names_of(columns).no_duplicates(),
        0 <= k < columns.len(),
    ensures
        row_with(row, columns)[columns[k].0] == default_cell(columns[k].1),
    decreases columns.len(),
{
    let shorter = columns.drop_last();
    let names = names_of(columns);
    if k < columns.len() - 1 {
        assert(names_of(shorter) =~= names.drop_last());
        lemma_row_with_default(row, shorter, k);
        assert(names[k] != names[columns.len() - 1]);
    }
}

/// Law: a migration keeps every row. Its values stay as they are, each added
/// count reads 0 and the added path reads `NULL`, and a second migration changes
/// nothing.
pub proof fn law_migration_keeps_rows(existing: Seq<Seq<char>>, row: Map<Seq<char>, Cell>)
    requires
        existing.no_duplicates(),
        forall|name: Seq<char>| row.contains_key(name) <==> existing.contains(name),
    ensures
        ({
            let after = row_with(row, missing_columns(existing));
            &&& forall|name: Seq<char>|
                after.contains_key(name) <==> migrated(existing).contains(name)
            &&& forall|name: Seq<char>| #[trigger]
                existing.contains(name) ==> after[name] == row[name]
            &&& forall|i: int|
                0 <= i < added_columns().len() && !existing.contains(
                    (#[trigger] added_columns()[i]).0,
                ) ==> after[added_columns()[i].0] == (if i < 6 {
                    Cell::Number(0)
                } else {
                    Cell::Null
                })
            &&& row_with(after, missing_columns(migrated(existing))) == after
        }),
{
    let missing = missing_columns(existing);
    let added = names_of(missing);
    let after = row_with(row, missing);
    law_migration_keeps_columns(existing);
    law_migration_is_idempotent(existing);
    law_migration_adds_each_column_once(existing);
    assert(added.no_duplicates()) by {
        assert forall|i: int, j: int|
            0 <= i < added.len() && 0 <= j < added.len() && i != j implies added[i]
            != added[j] by {
            assert(migrated(existing)[existing.len() + i] == added[i]);
            assert(migrated(existing)[existing.len() + j] == added[j]);
        }
    }
    assert forall|name: Seq<char>|
        after.contains_key(name) <==> migrated(existing).contains(name) by {
        lemma_row_with(row, missing, name);
        lemma_joined_contains(existing, added, name);
    }
    assert forall|name: Seq<char>| #[trigger] existing.contains(name) implies after[name]
        == row[name] by {
        lemma_row_with(row, missing, name);
        if added.contains(name) {
            let k = choose|k: int| 0 <= k < added.len() && added[k] == name;
            assert(!existing.contains(missing[k].0));
        }
    }
    assert forall|i: int|
        0 <= i < added_columns().len() && !existing.contains(
            (#[trigger] added_columns()[i]).0,
        ) implies after[added_columns()[i].0] == (if i < 6 {
        Cell::Number(0)
    } else {
        Cell::Null
    }) by {
        let column = added_columns()[i];
        assert(added_columns().contains(column));
        lemma_missing(existing, column);
        let k = choose|k: int| 0 <= k < missing.len() && missing[k] == column;
        lemma_row_with_default(row, missing, k);
        reveal_strlit("TEXT");
        reveal_strlit("INTEGER NOT NULL DEFAULT 0");
        assert("TEXT"@.len() != "INTEGER NOT NULL DEFAULT 0"@.len());
    }
}

proof fn lemma_joined_contains(a: Seq<Seq<char>>, b: Seq<Seq<char>>, x: Seq<char>)
    ensures
        (a + b).contains(x) <==> a.contains(x) || b.contains(x),
{
    if a.contains(x) {
        let i = choose|i: int| 0 <= i < a.len() && a[i] == x;
        assert((a + b)[i] == x);
    }
    if b.contains(x) {
        let i = choose|i: int| 0 <= i < b.len() && b[i] == x;
        assert((a + b)[a.len() + i] == x);
    }
}

} // verus!
