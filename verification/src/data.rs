//! A whole feed: its eight tables read into one set of records.
//!
//! The library reads bytes, not files. Its caller fetches the archive,
//! unpacks it and hands over what each table's file holds; `first_step` and
//! `next_step` say in which order that work is due and which failure ends
//! it, `load_gtfs_data` reads the tables.

use vstd::prelude::*;
use crate::error::{Error, Stage, TableName};
use crate::field::FieldValue;
use crate::raw::{CalendarDate, Route, RouteDirection, Shape, Stop, StopTime, Transfer, Trip};
use crate::record::Record;
use crate::table::{
    csv_rows, outcomes, parse_gtfs, records_values, table_outcome, Policy, Table,
};

verus! {

/// Where the archive of the feed is published.
pub const ARCHIVE_URL: &'static str = "https://developer.trimet.org/schedule/gtfs.zip";

/// The name of the archive within the working directory.
pub const ARCHIVE_FILE: &'static str = "gtfs.zip";

/// The name of the directory, within the working directory, that the archive
/// is unpacked into.
pub const EXTRACT_DIR: &'static str = "gtfs";

/// The records of a feed, table by table, each in the order of its rows.
#[derive(Clone, Debug, PartialEq, Eq)]
pub struct GTFSData {
    pub trips: Vec<Trip>,
    pub routes: Vec<Route>,
    pub route_directions: Vec<RouteDirection>,
    pub stop_times: Vec<StopTime>,
    pub stops: Vec<Stop>,
    pub transfers: Vec<Transfer>,
    pub shapes: Vec<Shape>,
    pub calendar_dates: Vec<CalendarDate>,
}

/// For each table, the number of rows that gave no record and were left out.
#[derive(Clone, Copy, Debug, PartialEq, Eq)]
pub struct SkippedRows {
    pub trips: usize,
    pub routes: usize,
    pub route_directions: usize,
    pub stop_times: usize,
    pub stops: usize,
    pub transfers: usize,
    pub shapes: usize,
    pub calendar_dates: usize,
}

/// What an ingestion gives: the records of the feed, and how many rows of
/// each table were left out on the way.
#[derive(Clone, Debug, PartialEq, Eq)]
pub struct TransitData {
    pub feed: GTFSData,
    pub skipped: SkippedRows,
}

/// What the files of the eight tables hold; `None` for a file that is
/// missing or could not be read.
#[derive(Clone, Debug, PartialEq, Eq)]
pub struct FeedFiles {
    pub trips: Option<Vec<u8>>,
    pub routes: Option<Vec<u8>>,
    pub route_directions: Option<Vec<u8>>,
    pub stop_times: Option<Vec<u8>>,
    pub stops: Option<Vec<u8>>,
    pub transfers: Option<Vec<u8>>,
    pub shapes: Option<Vec<u8>>,
    pub calendar_dates: Option<Vec<u8>>,
}

/// The records of a feed as the values of their fields.
pub struct FeedValues {
    pub trips: Seq<Seq<FieldValue>>,
    pub routes: Seq<Seq<FieldValue>>,
    pub route_directions: Seq<Seq<FieldValue>>,
    pub stop_times: Seq<Seq<FieldValue>>,
    pub stops: Seq<Seq<FieldValue>>,
    pub transfers: Seq<Seq<FieldValue>>,
    pub shapes: Seq<Seq<FieldValue>>,
    pub calendar_dates: Seq<Seq<FieldValue>>,
}

/// The numbers of rows left out, as plain numbers.
pub struct SkippedValues {
    pub trips: nat,
    pub routes: nat,
    pub route_directions: nat,
    pub stop_times: nat,
    pub stops: nat,
    pub transfers: nat,
    pub shapes: nat,
    pub calendar_dates: nat,
}

/// What an ingestion gives, as plain values.
pub struct TransitValues {
    pub feed: FeedValues,
    pub skipped: SkippedValues,
}

impl View for GTFSData {
    type V = FeedValues;

    open spec fn view(&self) -> FeedValues {
        FeedValues {
            trips: records_values(self.trips@),
            routes: records_values(self.routes@),
            route_directions: records_values(self.route_directions@),
            stop_times: records_values(self.stop_times@),
            stops: records_values(self.stops@),
            transfers: records_values(self.transfers@),
            shapes: records_values(self.shapes@),
            calendar_dates: records_values(self.calendar_dates@),
        }
    }
}

impl View for SkippedRows {
    type V = SkippedValues;

    open spec fn view(&self) -> SkippedValues {
        SkippedValues {
            trips: self.trips as nat,
            routes: self.routes as nat,
            route_directions: self.route_directions as nat,
            stop_times: self.stop_times as nat,
            stops: self.stops as nat,
            transfers: self.transfers as nat,
            shapes: self.shapes as nat,
            calendar_dates: self.calendar_dates as nat,
        }
    }
}

impl View for TransitData {
    type V = TransitValues;

    open spec fn view(&self) -> TransitValues {
        TransitValues { feed: self.feed@, skipped: self.skipped@ }
    }
}

impl Default for GTFSData {
    /// A feed without records.
    fn default() -> (r: GTFSData)
        ensures
            r.trips@.len() == 0,
            r.routes@.len() == 0,
            r.route_directions@.len() == 0,
            r.stop_times@.len() == 0,
            r.stops@.len() == 0,
            r.transfers@.len() == 0,
            r.shapes@.len() == 0,
            r.calendar_dates@.len() == 0,
    {
        GTFSData {
            trips: Vec::new(),
            routes: Vec::new(),
            route_directions: Vec::new(),
            stop_times: Vec::new(),
            stops: Vec::new(),
            transfers: Vec::new(),
            shapes: Vec::new(),
            calendar_dates: Vec::new(),
        }
    }
}

/// The name of a table's file within the directory of the unpacked archive.
pub open spec fn file_name_of(table: TableName) -> Seq<char> {
    match table {
        TableName::Trips => "trips.txt"@,
        TableName::Routes => "routes.txt"@,
        TableName::RouteDirections => "route_directions.txt"@,
        TableName::StopTimes => "stop_times.txt"@,
        TableName::Stops => "stops.txt"@,
        TableName::Transfers => "transfers.txt"@,
        TableName::Shapes => "shapes.txt"@,
        TableName::CalendarDates => "calendar_dates.txt"@,
    }
}

/// The name of a table's file within the directory of the unpacked archive.
pub fn file_name(table: TableName) -> (name: &'static str)
    ensures
        name@ == file_name_of(table),
{
    match table {
        TableName::Trips => "trips.txt",
        TableName::Routes => "routes.txt",
        TableName::RouteDirections => "route_directions.txt",
        TableName::StopTimes => "stop_times.txt",
        TableName::Stops => "stops.txt",
        TableName::Transfers => "transfers.txt",
        TableName::Shapes => "shapes.txt",
        TableName::CalendarDates => "calendar_dates.txt",
    }
}

/// The bytes of a file, if it could be read.
pub open spec fn bytes_of(file: Option<Vec<u8>>) -> Option<Seq<u8>> {
    match file {
        Some(data) => Some(data@),
        None => None,
    }
}

/// What reading the file of a table gives: the values of its records and the
/// number of rows left out, or the error that ends the ingestion. A file
/// that could not be read is an I/O error at the opening of that table.
pub open spec fn file_outcome<T: Record>(file: Option<Seq<u8>>, policy: Policy) -> Result<
    (Seq<Seq<FieldValue>>, nat),
    Error,
> {
    match file {
        None => Err(Error::Io(Stage::Open(T::table_name()))),
        Some(data) => table_outcome(T::table_name(), outcomes(T::schema(), csv_rows(data)), policy),
    }
}

/// What reading the eight tables gives. The tables are read in this order:
/// trips, routes, route directions, stop times, stops, transfers, shapes,
/// calendar dates. The first that fails ends the ingestion with its error.
pub open spec fn feed_outcome(files: FeedFiles, policy: Policy) -> Result<TransitValues, Error> {
    let trips = file_outcome::<Trip>(bytes_of(files.trips), policy);
    let routes = file_outcome::<Route>(bytes_of(files.routes), policy);
    let route_directions = file_outcome::<RouteDirection>(bytes_of(files.route_directions), policy);
    let stop_times = file_outcome::<StopTime>(bytes_of(files.stop_times), policy);
    let stops = file_outcome::<Stop>(bytes_of(files.stops), policy);
    let transfers = file_outcome::<Transfer>(bytes_of(files.transfers), policy);
    let shapes = file_outcome::<Shape>(bytes_of(files.shapes), policy);
    let calendar_dates = file_outcome::<CalendarDate>(bytes_of(files.calendar_dates), policy);
    if trips is Err {
        Err(trips->Err_0)
    } else if routes is Err {
        Err(routes->Err_0)
    } else if route_directions is Err {
        Err(route_directions->Err_0)
    } else if stop_times is Err {
        Err(stop_times->Err_0)
    } else if stops is Err {
        Err(stops->Err_0)
    } else if transfers is Err {
        Err(transfers->Err_0)
    } else if shapes is Err {
        Err(shapes->Err_0)
    } else if calendar_dates is Err {
        Err(calendar_dates->Err_0)
    } else {
        Ok(
            TransitValues {
                feed: FeedValues {
                    trips: trips->Ok_0.0,
                    routes: routes->Ok_0.0,
                    route_directions: route_directions->Ok_0.0,
                    stop_times: stop_times->Ok_0.0,
                    stops: stops->Ok_0.0,
                    transfers: transfers->Ok_0.0,
                    shapes: shapes->Ok_0.0,
                    calendar_dates: calendar_dates->Ok_0.0,
                },
                skipped: SkippedValues {
                    trips: trips->Ok_0.1,
                    routes: routes->Ok_0.1,
                    route_directions: route_directions->Ok_0.1,
                    stop_times: stop_times->Ok_0.1,
                    stops: stops->Ok_0.1,
                    transfers: transfers->Ok_0.1,
                    shapes: shapes->Ok_0.1,
                    calendar_dates: calendar_dates->Ok_0.1,
                },
            },
        )
    }
}

/// Whether all eight files could be read.
pub open spec fn all_files_read(files: FeedFiles) -> bool {
    &&& files.trips is Some
    &&& files.routes is Some
    &&& files.route_directions is Some
    &&& files.stop_times is Some
    &&& files.stops is Some
    &&& files.transfers is Some
    &&& files.shapes is Some
    &&& files.calendar_dates is Some
}

/// While rows are counted and left out, nothing that a table holds makes the
/// ingestion fail: it succeeds exactly when all eight files could be read,
/// and fails with an I/O error at the opening of a table otherwise.
pub proof fn lemma_counting_fails_only_on_missing_files(files: FeedFiles)
    ensures
        feed_outcome(files, Policy::SkipAndCount) is Ok <==> all_files_read(files),
        feed_outcome(files, Policy::SkipAndCount) matches Err(e) ==> e matches Error::Io(
            Stage::Open(_),
        ),
{
}

/// Whatever the policy, the ingestion fails if the file of a table could not
/// be read. If it is the file of the trips, which are read first, the error
/// is an I/O error at the opening of the trips.
pub proof fn lemma_missing_file_fails(files: FeedFiles, policy: Policy)
    requires
        !all_files_read(files),
    ensures
        feed_outcome(files, policy) is Err,
        files.trips is None ==> feed_outcome(files, policy) == Err::<TransitValues, Error>(
            Error::Io(Stage::Open(TableName::Trips)),
        ),
{
}

/// Reads the file of one table.
pub fn load_table<T: Record>(file: &Option<Vec<u8>>, policy: Policy) -> (r: Result<Table<T>, Error>)
    ensures
        match file_outcome::<T>(bytes_of(*file), policy) {
            Ok((values, skipped)) => r is Ok && records_values(r->Ok_0.records@) == values
                && r->Ok_0.skipped == skipped,
            Err(e) => r == Err::<Table<T>, Error>(e),
        },
{
    match file {
        Some(data) => parse_gtfs(data.as_slice(), policy),
        None => Err(Error::Io(Stage::Open(T::table()))),
    }
}

/// Reads the eight tables of a feed into one set of records.
///
/// The tables are read in a fixed order, trips first. A table whose file
/// could not be read ends the ingestion with an I/O error that names it, and
/// so does, while failing fast, a row that gives no record. While counting,
/// the ingestion succeeds whenever all eight files could be read.
pub fn load_gtfs_data(files: &FeedFiles, policy: Policy) -> (r: Result<TransitData, Error>)
    ensures
        match feed_outcome(*files, policy) {
            Ok(loaded) => r is Ok && r->Ok_0@ == loaded,
            Err(e) => r == Err::<TransitData, Error>(e),
        },
{
    let trips = match load_table::<Trip>(&files.trips, policy) {
        Ok(table) => table,
        Err(e) => {
            return Err(e);
        },
    };
    let routes = match load_table::<Route>(&files.routes, policy) {
        Ok(table) => table,
        Err(e) => {
            return Err(e);
        },
    };
    let route_directions = match load_table::<RouteDirection>(&files.route_directions, policy) {
        Ok(table) => table,
        Err(e) => {
            return Err(e);
        },
    };
    let stop_times = match load_table::<StopTime>(&files.stop_times, policy) {
        Ok(table) => table,
        Err(e) => {
            return Err(e);
        },
    };
    let stops = match load_table::<Stop>(&files.stops, policy) {
        Ok(table) => table,
        Err(e) => {
            return Err(e);
        },
    };
    let transfers = match load_table::<Transfer>(&files.transfers, policy) {
        Ok(table) => table,
        Err(e) => {
            return Err(e);
        },
    };
    let shapes = match load_table::<Shape>(&files.shapes, policy) {
        Ok(table) => table,
        Err(e) => {
            return Err(e);
        },
    };
    let calendar_dates = match load_table::<CalendarDate>(&files.calendar_dates, policy) {
        Ok(table) => table,
        Err(e) => {
            return Err(e);
        },
    };
    Ok(
        TransitData {
            skipped: SkippedRows {
                trips: trips.skipped,
                routes: routes.skipped,
                route_directions: route_directions.skipped,
                stop_times: stop_times.skipped,
                stops: stops.skipped,
                transfers: transfers.skipped,
                shapes: shapes.skipped,
                calendar_dates: calendar_dates.skipped,
            },
            feed: GTFSData {
                trips: trips.records,
                routes: routes.records,
                route_directions: route_directions.records,
                stop_times: stop_times.records,
                stops: stops.records,
                transfers: transfers.records,
                shapes: shapes.records,
                calendar_dates: calendar_dates.records,
            },
        },
    )
}

/// A piece of work that precedes the reading of the tables and that only the
/// caller can do.
#[derive(Clone, Copy, Debug, PartialEq, Eq, Structural)]
pub enum Step {
    /// Retrieve the archive and store it in the working directory.
    Fetch,
    /// Unpack the archive into the working directory.
    Extract,
}

/// How a step failed.
#[derive(Clone, Copy, Debug, PartialEq, Eq, Structural)]
pub enum StepFailure {
    /// The source could not be reached, or did not answer with success.
    Network,
    /// A file could not be read or written.
    Io,
}

/// The step that follows a step, if any, or the error that ends the
/// ingestion.
///
/// A failure while fetching is a network error if the source failed and an
/// I/O error of the fetching if the archive could not be stored; whatever
/// fails while unpacking is an I/O error of the unpacking.
pub open spec fn step_after(step: Step, result: Result<(), StepFailure>) -> Result<
    Option<Step>,
    Error,
> {
    match (step, result) {
        (Step::Fetch, Ok(_)) => Ok(Some(Step::Extract)),
        (Step::Fetch, Err(StepFailure::Network)) => Err(Error::Network),
        (Step::Fetch, Err(StepFailure::Io)) => Err(Error::Io(Stage::Fetch)),
        (Step::Extract, Ok(_)) => Ok(None),
        (Step::Extract, Err(_)) => Err(Error::Io(Stage::Extract)),
    }
}

/// The step to begin with: none if what the working directory holds is to be
/// used as it is, else the fetching of the archive.
pub fn first_step(use_cached: bool) -> (step: Option<Step>)
    ensures
        step == if use_cached {
            None::<Step>
        } else {
            Some(Step::Fetch)
        },
{
    if use_cached {
        None
    } else {
        Some(Step::Fetch)
    }
}

/// The step that follows `step`, given how `step` ended; `None` when the
/// tables are ready to be read.
pub fn next_step(step: Step, result: Result<(), StepFailure>) -> (next: Result<Option<Step>, Error>)
    ensures
        next == step_after(step, result),
{
    match (step, result) {
        (Step::Fetch, Ok(_)) => Ok(Some(Step::Extract)),
        (Step::Fetch, Err(StepFailure::Network)) => Err(Error::Network),
        (Step::Fetch, Err(StepFailure::Io)) => Err(Error::Io(Stage::Fetch)),
        (Step::Extract, Ok(_)) => Ok(None),
        (Step::Extract, Err(_)) => Err(Error::Io(Stage::Extract)),
    }
}

} // verus!
