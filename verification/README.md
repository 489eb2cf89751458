# grype-verify

An offline-resilient SBOM vulnerability scanner around
[grype](https://github.com/anchore/grype): it updates the vulnerability database
when it can, scans with the cached one when it cannot, records every scan in an
SQLite table and serves the history over a small REST API.

The decisions are a library verified with [Verus](https://github.com/verus-lang/verus);
the program around it does the input and output.

## Layout

| Path | What it holds |
|------|---------------|
| `src/scan.rs` | how grype is called, what its outcome means, what is recorded |
| `src/severity.rs` | the tally of a JSON report by severity |
| `src/db.rs` | the checks table: storing a scan, queries newest first, latest per SBOM |
| `src/trend.rs` | severity counts summed up by UTC day |
| `src/schema.rs` | the SQL of the table and the migration of older tables |
| `src/request.rs`, `src/serve.rs` | request lines, routing, answers, HTTP framing |
| `src/status.rs` | the one-line summary |
| `src/text.rs`, `src/order.rs` | decimal numbers, clipping, text order; newest-first order |
| `src/calendar.rs`, `src/json.rs` | what is taken on trust from SQLite's date functions and from `serde_json` |
| `app/` | arguments, processes, files, sockets |
| `tests/` | tests of the library, with the outside crates linked |

Functions named `law_…` state what holds across several functions: that an
inserted record reads back, that ids are never given twice, that a query is
ordered and complete, that pulling from the last timestamp repeats nothing, that
a trend loses no scan, that a migration is complete and idempotent.

## What is not proved

The wrappers marked `external_body`, each with a comment that says what is taken
on trust: parsing and reading JSON (`serde_json`), SQLite's `date` and `datetime`
(`rusqlite`), and the system clock; besides these, that `String::push` appends a
character. SQLite keeps the rows; the queries on them are the library's.

Among checks with the same timestamp the one that was stored later counts as the
newer: it comes first, and it is the latest check of its SBOM.
