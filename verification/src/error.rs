//! The failures that ingestion reports.

use vstd::prelude::*;
use crate::field::FieldKind;

verus! {

/// The encoding that a field's text was expected to match and did not.
#[derive(Clone, Copy, Debug, PartialEq, Eq, Structural)]
pub enum FieldFormat {
    /// A non-negative whole number in decimal digits.
    Integer,
    /// A decimal number, with an optional sign and fraction.
    Decimal,
    /// A service-day clock time, `HH:MM:SS`.
    ClockTime,
    /// A calendar date of six digits, `YYMMDD`.
    Date,
}

/// One of the eight tables of a feed.
#[derive(Clone, Copy, Debug, PartialEq, Eq, Structural)]
pub enum TableName {
    Trips,
    Routes,
    RouteDirections,
    StopTimes,
    Stops,
    Transfers,
    Shapes,
    CalendarDates,
}

/// Why one row of a table gave no record.
#[derive(Clone, Copy, Debug, PartialEq, Eq, Structural)]
pub enum RowError {
    /// The table's reader could not deliver the row: its text is not valid
    /// UTF-8, or it has another number of fields than the first row.
    Unreadable,
    /// The header names no column for the schema field at this position.
    MissingColumn { field: usize },
    /// The text of the schema field at this position is not well-formed for
    /// the kind of its column.
    Malformed { field: usize, expected: FieldKind },
}

/// The stage of ingestion at which a file could not be read or written.
#[derive(Clone, Copy, Debug, PartialEq, Eq, Structural)]
pub enum Stage {
    /// Storing the fetched archive.
    Fetch,
    /// Unpacking the archive into the working directory.
    Extract,
    /// Opening the file of a table.
    Open(TableName),
}

/// A failure that ends an ingestion call.
#[derive(Clone, Copy, Debug, PartialEq, Eq, Structural)]
pub enum Error {
    /// A file could not be read or written at the given stage.
    Io(Stage),
    /// The archive could not be retrieved from its source.
    Network,
    /// A row gave no record while rows were not allowed to be skipped.
    /// `row` counts the data rows of the table from zero.
    FieldFormat { table: TableName, row: usize, cause: RowError },
}

} // verus!
