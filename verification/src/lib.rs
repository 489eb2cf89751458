//! Records of vulnerability scans, and what is answered from them.
//!
//! A scan of an SBOM with grype goes through [`scan`], which decides how grype is
//! called and what of its outcome is recorded; [`severity`] tallies its report.
//! [`db`] is the table of recorded checks with its queries, [`trend`] sums the
//! checks up by day, and [`schema`] is the SQL of the table. [`serve`] and
//! [`request`] are the REST API, [`status`] is the one-line summary. [`text`],
//! [`order`], [`calendar`] and [`json`] hold what these share. [`laws`] states what the
//! operations promise in plain terms.
pub mod calendar;
pub mod db;
pub mod json;
pub mod laws;
pub mod order;
pub mod request;
pub mod scan;
pub mod schema;
pub mod serve;
pub mod severity;
pub mod status;
pub mod text;
pub mod trend;
