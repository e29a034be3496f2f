use std::io::Cursor;
use std::io::Read;
use std::io::Write;
use transit_feed::archive::sanitize_entry_name;
use transit_feed::data::{
    file_name, first_step, load_gtfs_data, load_table, next_step, FeedFiles, GTFSData,
    SkippedRows, Step, StepFailure, TransitData, ARCHIVE_FILE, ARCHIVE_URL, EXTRACT_DIR,
};
use transit_feed::error::{Error, RowError, Stage, TableName};
use transit_feed::field::FieldKind;
use transit_feed::raw::{Route, Transfer};
use transit_feed::table::{Policy, Table};

const HEADERS: [(&str, &str); 8] = [
    ("trips.txt", "route_id,service_id,trip_id,direction_id,shape_id\n"),
    ("routes.txt", "route_id,route_short_name,route_long_name\n"),
    ("route_directions.txt", "route_id,direction_id,direction_name\n"),
    (
        "stop_times.txt",
        "trip_id,arrival_time,departure_time,stop_id,stop_sequence,shape_dist_traveled\n",
    ),
    ("stops.txt", "stop_id,stop_code,stop_name,stop_desc,stop_lat,stop_lon,direction,position\n"),
    ("transfers.txt", "from_stop_id,to_stop_id\n"),
    ("shapes.txt", "shape_id,shape_pt_lat,shape_pt_lon,shape_pt_sequence,shape_dist_traveled\n"),
    ("calendar_dates.txt", "service_id,date\n"),
];

fn header_only() -> FeedFiles {
    FeedFiles {
        trips: Some(HEADERS[0].1.as_bytes().to_vec()),
        routes: Some(HEADERS[1].1.as_bytes().to_vec()),
        route_directions: Some(HEADERS[2].1.as_bytes().to_vec()),
        stop_times: Some(HEADERS[3].1.as_bytes().to_vec()),
        stops: Some(HEADERS[4].1.as_bytes().to_vec()),
        transfers: Some(HEADERS[5].1.as_bytes().to_vec()),
        shapes: Some(HEADERS[6].1.as_bytes().to_vec()),
        calendar_dates: Some(HEADERS[7].1.as_bytes().to_vec()),
    }
}

fn no_rows_skipped() -> SkippedRows {
    SkippedRows {
        trips: 0,
        routes: 0,
        route_directions: 0,
        stop_times: 0,
        stops: 0,
        transfers: 0,
        shapes: 0,
        calendar_dates: 0,
    }
}

/// Unpacks an archive in memory, as a caller unpacks it on disk, and
/// collects what the files of the tables hold.
fn unpack(archive: Vec<u8>) -> FeedFiles {
    let mut archive = zip::ZipArchive::new(Cursor::new(archive)).unwrap();
    let mut unpacked: Vec<(Vec<String>, Vec<u8>)> = Vec::new();
    for i in 0..archive.len() {
        let mut entry = archive.by_index(i).unwrap();
        let mut content = Vec::new();
        entry.read_to_end(&mut content).unwrap();
        unpacked.push((sanitize_entry_name(entry.name()), content));
    }
    let find = |table: TableName| {
        unpacked
            .iter()
            .find(|(path, _)| path.len() == 1 && path[0] == file_name(table))
            .map(|(_, content)| content.clone())
    };
    FeedFiles {
        trips: find(TableName::Trips),
        routes: find(TableName::Routes),
        route_directions: find(TableName::RouteDirections),
        stop_times: find(TableName::StopTimes),
        stops: find(TableName::Stops),
        transfers: find(TableName::Transfers),
        shapes: find(TableName::Shapes),
        calendar_dates: find(TableName::CalendarDates),
    }
}

fn pack(files: &[(&str, String)]) -> Vec<u8> {
    let mut writer = zip::ZipWriter::new(Cursor::new(Vec::new()));
    for (name, content) in files {
        writer.start_file(*name, zip::write::FileOptions::default()).unwrap();
        writer.write_all(content.as_bytes()).unwrap();
    }
    writer.finish().unwrap().into_inner()
}

#[test]
fn archive_with_one_route() {
    let files: Vec<(&str, String)> = HEADERS
        .iter()
        .map(|(name, header)| {
            if *name == "routes.txt" {
                (*name, format!("{header}1,,Red Line\n"))
            } else {
                (*name, header.to_string())
            }
        })
        .collect();
    let loaded = load_gtfs_data(&unpack(pack(&files)), Policy::SkipAndCount).unwrap();
    assert_eq!(
        loaded.feed.routes,
        [Route { route_id: 1, route_short_name: None, route_long_name: "Red Line".to_string() }]
    );
    assert!(loaded.feed.trips.is_empty());
    assert!(loaded.feed.route_directions.is_empty());
    assert!(loaded.feed.stop_times.is_empty());
    assert!(loaded.feed.stops.is_empty());
    assert!(loaded.feed.transfers.is_empty());
    assert!(loaded.feed.shapes.is_empty());
    assert!(loaded.feed.calendar_dates.is_empty());
    assert_eq!(loaded.skipped, no_rows_skipped());
}

#[test]
fn archive_without_stops() {
    let files: Vec<(&str, String)> = HEADERS
        .iter()
        .filter(|(name, _)| *name != "stops.txt")
        .map(|(name, header)| (*name, header.to_string()))
        .collect();
    for policy in [Policy::SkipAndCount, Policy::FailFast] {
        assert_eq!(
            load_gtfs_data(&unpack(pack(&files)), policy),
            Err(Error::Io(Stage::Open(TableName::Stops)))
        );
    }
}

#[test]
fn archive_whose_entries_climb() {
    let files: Vec<(&str, String)> = HEADERS
        .iter()
        .map(|(name, header)| {
            if *name == "stops.txt" {
                ("../../stops.txt", header.to_string())
            } else if *name == "shapes.txt" {
                ("/shapes.txt", header.to_string())
            } else {
                (*name, header.to_string())
            }
        })
        .collect();
    let loaded = load_gtfs_data(&unpack(pack(&files)), Policy::FailFast).unwrap();
    assert_eq!(loaded.feed, GTFSData::default());
}

#[test]
fn header_only_feed() {
    let loaded = load_gtfs_data(&header_only(), Policy::FailFast).unwrap();
    assert_eq!(loaded, TransitData { feed: GTFSData::default(), skipped: no_rows_skipped() });
}

#[test]
fn first_missing_table_is_reported() {
    let mut files = header_only();
    files.shapes = None;
    files.route_directions = None;
    assert_eq!(
        load_gtfs_data(&files, Policy::SkipAndCount),
        Err(Error::Io(Stage::Open(TableName::RouteDirections)))
    );
    files.trips = None;
    assert_eq!(
        load_gtfs_data(&files, Policy::SkipAndCount),
        Err(Error::Io(Stage::Open(TableName::Trips)))
    );
    let mut files = header_only();
    files.calendar_dates = None;
    assert_eq!(
        load_gtfs_data(&files, Policy::FailFast),
        Err(Error::Io(Stage::Open(TableName::CalendarDates)))
    );
}

#[test]
fn skipped_rows_are_counted_table_by_table() {
    let mut files = header_only();
    files.transfers = Some(b"from_stop_id,to_stop_id\n1,2\nx,y\n3,4\n5\n".to_vec());
    files.routes = Some(b"route_id,route_short_name,route_long_name\n1,R,Red\n".to_vec());
    let loaded = load_gtfs_data(&files, Policy::SkipAndCount).unwrap();
    assert_eq!(
        loaded.feed.transfers,
        [Transfer { from_stop_id: 1, to_stop_id: 2 }, Transfer { from_stop_id: 3, to_stop_id: 4 }]
    );
    assert!(loaded.feed.routes.is_empty());
    assert_eq!(loaded.skipped, SkippedRows { transfers: 2, routes: 1, ..no_rows_skipped() });
}

#[test]
fn failing_fast_reports_the_first_table_in_order() {
    let mut files = header_only();
    files.transfers = Some(b"from_stop_id,to_stop_id\n1,2\nx,y\n".to_vec());
    files.routes = Some(b"route_id,route_short_name,route_long_name\n1,,Red\n2,R,Red\n".to_vec());
    assert_eq!(
        load_gtfs_data(&files, Policy::FailFast),
        Err(Error::FieldFormat {
            table: TableName::Routes,
            row: 1,
            cause: RowError::Malformed { field: 1, expected: FieldKind::OptionalInteger }
        })
    );
    files.stops = None;
    assert_eq!(
        load_gtfs_data(&files, Policy::FailFast),
        Err(Error::FieldFormat {
            table: TableName::Routes,
            row: 1,
            cause: RowError::Malformed { field: 1, expected: FieldKind::OptionalInteger }
        })
    );
    files.trips = None;
    assert_eq!(load_gtfs_data(&files, Policy::FailFast), Err(Error::Io(Stage::Open(TableName::Trips))));
}

#[test]
fn one_table_file() {
    let table: Table<Transfer> =
        load_table(&Some(b"from_stop_id,to_stop_id\n1,2\n".to_vec()), Policy::FailFast).unwrap();
    assert_eq!(table.records, [Transfer { from_stop_id: 1, to_stop_id: 2 }]);
    assert_eq!(
        load_table::<Transfer>(&None, Policy::SkipAndCount),
        Err(Error::Io(Stage::Open(TableName::Transfers)))
    );
}

#[test]
fn file_names() {
    let order = [
        TableName::Trips,
        TableName::Routes,
        TableName::RouteDirections,
        TableName::StopTimes,
        TableName::Stops,
        TableName::Transfers,
        TableName::Shapes,
        TableName::CalendarDates,
    ];
    let names: Vec<&str> = order.iter().map(|t| file_name(*t)).collect();
    let expected: Vec<&str> = HEADERS.iter().map(|(name, _)| *name).collect();
    assert_eq!(names, expected);
    assert_eq!(ARCHIVE_FILE, "gtfs.zip");
    assert_eq!(EXTRACT_DIR, "gtfs");
    assert!(ARCHIVE_URL.ends_with("/gtfs.zip"));
}

#[test]
fn steps_of_an_ingestion() {
    assert_eq!(first_step(true), None);
    assert_eq!(first_step(false), Some(Step::Fetch));
    assert_eq!(next_step(Step::Fetch, Ok(())), Ok(Some(Step::Extract)));
    assert_eq!(next_step(Step::Extract, Ok(())), Ok(None));
}

#[test]
fn failures_of_the_steps() {
    assert_eq!(next_step(Step::Fetch, Err(StepFailure::Network)), Err(Error::Network));
    assert_eq!(next_step(Step::Fetch, Err(StepFailure::Io)), Err(Error::Io(Stage::Fetch)));
    assert_eq!(next_step(Step::Extract, Err(StepFailure::Io)), Err(Error::Io(Stage::Extract)));
    assert_eq!(next_step(Step::Extract, Err(StepFailure::Network)), Err(Error::Io(Stage::Extract)));
}

#[test]
fn default_feed_is_empty() {
    let feed = GTFSData::default();
    assert!(feed.trips.is_empty() && feed.routes.is_empty() && feed.route_directions.is_empty());
    assert!(feed.stop_times.is_empty() && feed.stops.is_empty() && feed.transfers.is_empty());
    assert!(feed.shapes.is_empty() && feed.calendar_dates.is_empty());
}
