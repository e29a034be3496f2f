use transit_feed::date_format::Date;
use transit_feed::decimal::Decimal;
use transit_feed::error::{RowError, TableName};
use transit_feed::field::{FieldKind, Value};
use transit_feed::raw::{
    CalendarDate, Route, RouteDirection, Shape, Stop, StopTime, Transfer, Trip,
};
use transit_feed::record::{decode_fields, decode_row, encode_fields, encode_row, Column, Record};
use transit_feed::time_format::ServiceTime;

fn names<T: Record>() -> Vec<String> {
    T::columns().into_iter().map(|c| c.name).collect()
}

fn kinds<T: Record>() -> Vec<FieldKind> {
    T::columns().into_iter().map(|c| c.kind).collect()
}

#[test]
fn schema_of_every_table() {
    assert_eq!(names::<Trip>(), ["route_id", "service_id", "trip_id", "direction_id", "shape_id"]);
    assert_eq!(names::<Route>(), ["route_id", "route_short_name", "route_long_name"]);
    assert_eq!(names::<RouteDirection>(), ["route_id", "direction_id", "direction_name"]);
    assert_eq!(
        names::<StopTime>(),
        [
            "trip_id",
            "arrival_time",
            "departure_time",
            "stop_id",
            "stop_sequence",
            "shape_dist_traveled"
        ]
    );
    assert_eq!(
        names::<Stop>(),
        [
            "stop_id",
            "stop_code",
            "stop_name",
            "stop_desc",
            "stop_lat",
            "stop_lon",
            "direction",
            "position"
        ]
    );
    assert_eq!(names::<Transfer>(), ["from_stop_id", "to_stop_id"]);
    assert_eq!(
        names::<Shape>(),
        ["shape_id", "shape_pt_lat", "shape_pt_lon", "shape_pt_sequence", "shape_dist_traveled"]
    );
    assert_eq!(names::<CalendarDate>(), ["service_id", "date"]);
}

#[test]
fn kinds_of_the_columns() {
    assert_eq!(kinds::<Trip>(), [FieldKind::Integer, FieldKind::Text, FieldKind::Integer, FieldKind::Direction, FieldKind::Integer]);
    assert_eq!(kinds::<Route>(), [FieldKind::Integer, FieldKind::OptionalInteger, FieldKind::Text]);
    assert_eq!(kinds::<RouteDirection>(), [FieldKind::Integer, FieldKind::Direction, FieldKind::Text]);
    assert_eq!(kinds::<StopTime>(), [FieldKind::Integer, FieldKind::ClockTime, FieldKind::ClockTime, FieldKind::Integer, FieldKind::Integer, FieldKind::Decimal]);
    assert_eq!(kinds::<Stop>(), [FieldKind::Integer, FieldKind::Integer, FieldKind::Text, FieldKind::Text, FieldKind::Decimal, FieldKind::Decimal, FieldKind::Text, FieldKind::Text]);
    assert_eq!(kinds::<Transfer>(), [FieldKind::Integer, FieldKind::Integer]);
    assert_eq!(kinds::<Shape>(), [FieldKind::Integer, FieldKind::Decimal, FieldKind::Decimal, FieldKind::Integer, FieldKind::Integer]);
    assert_eq!(kinds::<CalendarDate>(), [FieldKind::Text, FieldKind::Date]);
}

#[test]
fn table_of_every_record() {
    assert_eq!(Trip::table(), TableName::Trips);
    assert_eq!(Route::table(), TableName::Routes);
    assert_eq!(RouteDirection::table(), TableName::RouteDirections);
    assert_eq!(StopTime::table(), TableName::StopTimes);
    assert_eq!(Stop::table(), TableName::Stops);
    assert_eq!(Transfer::table(), TableName::Transfers);
    assert_eq!(Shape::table(), TableName::Shapes);
    assert_eq!(CalendarDate::table(), TableName::CalendarDates);
}

#[test]
fn trip_row() {
    let trip: Trip = decode_row(&vec!["100", "W.600", "9561870", "1", "436915"]).unwrap();
    assert_eq!(
        trip,
        Trip {
            route_id: 100,
            service_id: "W.600".to_string(),
            trip_id: 9_561_870,
            direction_id: 1,
            shape_id: 436_915,
        }
    );
    assert_eq!(encode_row(&trip), ["100", "W.600", "9561870", "1", "436915"]);
}

#[test]
fn route_row_with_and_without_short_name() {
    let route: Route = decode_row(&vec!["1", "", "Red Line"]).unwrap();
    assert_eq!(
        route,
        Route { route_id: 1, route_short_name: None, route_long_name: "Red Line".to_string() }
    );
    assert_eq!(encode_row(&route), ["1", "", "Red Line"]);
    let route: Route = decode_row(&vec!["72", "72", "Killingsworth/82nd"]).unwrap();
    assert_eq!(route.route_short_name, Some(72));
    assert_eq!(encode_row(&route), ["72", "72", "Killingsworth/82nd"]);
}

#[test]
fn route_direction_row() {
    let row = vec!["90", "0", "To Gresham"];
    let direction: RouteDirection = decode_row(&row).unwrap();
    assert_eq!(
        direction,
        RouteDirection { route_id: 90, direction_id: 0, direction_name: "To Gresham".to_string() }
    );
    assert_eq!(encode_row(&direction), row);
}

#[test]
fn stop_time_row_past_midnight() {
    let row = vec!["9561870", "24:58:30", "25:10:00", "8334", "12", "10457.3"];
    let call: StopTime = decode_row(&row).unwrap();
    assert_eq!(
        call,
        StopTime {
            trip_id: 9_561_870,
            arrival_time: ServiceTime::from_seconds(24 * 3600 + 58 * 60 + 30).unwrap(),
            departure_time: ServiceTime::from_seconds(25 * 3600 + 10 * 60).unwrap(),
            stop_id: 8334,
            stop_sequence: 12,
            shape_dist_traveled: Decimal::new(false, 104_573, 1).unwrap(),
        }
    );
    assert_eq!(encode_row(&call), row);
}

#[test]
fn stop_row() {
    let row = vec![
        "8334",
        "8334",
        "Pioneer Square South MAX Station",
        "Eastbound stop in Portland",
        "45.518496",
        "-122.679318",
        "East",
        "Nearside",
    ];
    let stop: Stop = decode_row(&row).unwrap();
    assert_eq!(stop.stop_id, 8334);
    assert_eq!(stop.stop_code, 8334);
    assert_eq!(stop.stop_name, "Pioneer Square South MAX Station");
    assert_eq!(stop.stop_desc, "Eastbound stop in Portland");
    assert_eq!(stop.stop_lat, Decimal::new(false, 45_518_496, 6).unwrap());
    assert_eq!(stop.stop_lon, Decimal::new(true, 122_679_318, 6).unwrap());
    assert_eq!(stop.direction, "East");
    assert_eq!(stop.position, "Nearside");
    assert_eq!(encode_row(&stop), row);
}

#[test]
fn transfer_row() {
    let transfer: Transfer = decode_row(&vec!["8334", "8335"]).unwrap();
    assert_eq!(transfer, Transfer { from_stop_id: 8334, to_stop_id: 8335 });
    assert_eq!(encode_row(&transfer), ["8334", "8335"]);
}

#[test]
fn shape_row() {
    let row = vec!["436915", "45.5", "-122.6", "3", "120"];
    let point: Shape = decode_row(&row).unwrap();
    assert_eq!(
        point,
        Shape {
            shape_id: 436_915,
            shape_pt_lat: Decimal::new(false, 455, 1).unwrap(),
            shape_pt_lon: Decimal::new(true, 1226, 1).unwrap(),
            shape_pt_sequence: 3,
            shape_dist_traveled: 120,
        }
    );
    assert_eq!(encode_row(&point), row);
}

#[test]
fn calendar_date_row() {
    let row = vec!["W.600", "230615"];
    let day: CalendarDate = decode_row(&row).unwrap();
    assert_eq!(
        day,
        CalendarDate { service_id: "W.600".to_string(), date: Date::from_ymd(2023, 6, 15).unwrap() }
    );
    assert_eq!(encode_row(&day), row);
}

#[test]
fn record_round_trip() {
    let call = StopTime {
        trip_id: u32::MAX,
        arrival_time: ServiceTime::from_seconds(0).unwrap(),
        departure_time: ServiceTime::from_seconds(359_999).unwrap(),
        stop_id: 0,
        stop_sequence: 1,
        shape_dist_traveled: Decimal::new(false, 0, 0).unwrap(),
    };
    let row = encode_row(&call);
    assert_eq!(row, ["4294967295", "00:00:00", "99:59:59", "0", "1", "0"]);
    let texts: Vec<&str> = row.iter().map(|t| t.as_str()).collect();
    assert_eq!(decode_row::<StopTime>(&texts), Ok(call));
}

#[test]
fn row_with_too_few_fields() {
    assert_eq!(decode_row::<Transfer>(&vec![]), Err(RowError::MissingColumn { field: 0 }));
    assert_eq!(decode_row::<Transfer>(&vec!["1"]), Err(RowError::MissingColumn { field: 1 }));
    assert_eq!(
        decode_row::<Trip>(&vec!["x", "y", "z"]),
        Err(RowError::MissingColumn { field: 3 })
    );
}

#[test]
fn row_with_fields_to_spare() {
    let transfer: Transfer = decode_row(&vec!["1", "2", "not read", ""]).unwrap();
    assert_eq!(transfer, Transfer { from_stop_id: 1, to_stop_id: 2 });
}

#[test]
fn first_malformed_field_is_reported() {
    assert_eq!(
        decode_row::<Trip>(&vec!["100", "W", "x", "7", "y"]),
        Err(RowError::Malformed { field: 2, expected: FieldKind::Integer })
    );
    assert_eq!(
        decode_row::<Trip>(&vec!["100", "W", "1", "2", "y"]),
        Err(RowError::Malformed { field: 3, expected: FieldKind::Direction })
    );
    assert_eq!(
        decode_row::<Route>(&vec!["1", "MAX", "Red Line"]),
        Err(RowError::Malformed { field: 1, expected: FieldKind::OptionalInteger })
    );
    assert_eq!(
        decode_row::<StopTime>(&vec!["1", "08:00:00", "8:05:00", "2", "3", "4"]),
        Err(RowError::Malformed { field: 2, expected: FieldKind::ClockTime })
    );
    assert_eq!(
        decode_row::<Stop>(&vec!["1", "1", "a", "b", "45.5", "west", "c", "d"]),
        Err(RowError::Malformed { field: 5, expected: FieldKind::Decimal })
    );
    assert_eq!(
        decode_row::<CalendarDate>(&vec!["W", "2023-06-15"]),
        Err(RowError::Malformed { field: 1, expected: FieldKind::Date })
    );
}

#[test]
fn fields_against_a_schema_of_ones_own() {
    let schema: Vec<Column> = vec![
        Column::new("when", FieldKind::ClockTime),
        Column::new("count", FieldKind::OptionalInteger),
    ];
    assert_eq!(schema[0].name, "when");
    assert_eq!(schema[1].kind, FieldKind::OptionalInteger);
    let values = decode_fields(&schema, &vec!["01:02:03", ""]).unwrap();
    assert_eq!(
        values,
        [
            Value::ClockTime(ServiceTime::from_seconds(3723).unwrap()),
            Value::OptionalInteger(None)
        ]
    );
    assert_eq!(encode_fields(&values), ["01:02:03", ""]);
    assert_eq!(decode_fields(&schema, &vec!["01:02:03", "-"]), Err(1));
    assert_eq!(decode_fields(&schema, &vec!["", "-"]), Err(0));
}

#[test]
fn values_of_a_record() {
    let route = Route { route_id: 4, route_short_name: Some(4), route_long_name: "Division".into() };
    let values = route.to_values();
    assert_eq!(
        values,
        [
            Value::Integer(4),
            Value::OptionalInteger(Some(4)),
            Value::Text("Division".to_string())
        ]
    );
    assert_eq!(Route::from_values(&values), route);
}
