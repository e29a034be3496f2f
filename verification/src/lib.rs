//! Ingestion of a static transit schedule feed into typed, in-memory
//! records.
//!
//! A feed is an archive of eight tables of delimited text. This library
//! reads what the tables hold; fetching the archive and touching the disk is
//! left to the caller.
//!
//! - `time_format`, `date_format` and `decimal` read and write the three
//!   encodings that are more than plain numbers and text;
//! - `field` reads and writes a field of any kind, `record` a row;
//! - `raw` holds the records of the eight tables;
//! - `table` reads a table, leaving out or reporting the rows that are
//!   malformed;
//! - `data` reads the eight tables into one set of records;
//! - `archive` says where the entries of the archive are unpacked to.

pub mod archive;
pub mod data;
pub mod date_format;
pub mod decimal;
pub mod digits;
pub mod error;
pub mod field;
pub mod raw;
pub mod record;
pub mod scan;
pub mod table;
pub mod time_format;
