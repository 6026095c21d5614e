//! Ingestion of comma-delimited city records (city, state, population,
//! latitude, longitude) into typed, column-oriented tables.
//!
//! - `coerce`: how one raw field becomes a typed value, with a fallback for
//!   every missing or unparsable field.
//! - `split`: line terminators and comma-separated fields.
//! - `row`: the three row strategies (schema-validated, manual split, raw-byte
//!   split).
//! - `table`: the columnar table that rows are appended to.
//! - `driver`: the run over a source, its header and its skipped lines.
//! - `laws`: what holds across strategies and runs.

pub mod coerce;
pub mod split;
pub mod row;
pub mod table;
pub mod driver;
pub mod laws;
