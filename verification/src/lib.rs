//! A verified record store for sailing-performance tuning records ("polars").
//!
//! Records live in one of two directories, active and archived, one file per
//! record, named after the record's primary key. The store itself is the
//! in-memory model of those two directories; a thin unverified shell performs
//! the actual file reads and writes that each operation dictates.

pub mod api;
pub mod config;
pub mod laws;
pub mod naming;
pub mod polar;
pub mod sort;
pub mod store;
