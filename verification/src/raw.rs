//! The records of the eight tables of a feed, each with the columns of its
//! table.
//!
//! Every `*_id` is a key that joins tables within one feed. Whether the row
//! that a key points to exists is not checked here.

use vstd::prelude::*;
use crate::date_format::Date;
use crate::decimal::Decimal;
use crate::error::TableName;
use crate::field::{FieldKind, FieldValue, Value};
use crate::record::{
    clock_time_at, columns_view, date_at, decimal_at, integer_at, optional_integer_at,
    direction_at, text_at, values_view, Column, ColumnSpec, Record,
};
use crate::time_format::ServiceTime;

verus! {

/// A run of a vehicle along a route on the days of a service.
#[derive(Clone, Debug, PartialEq, Eq)]
pub struct Trip {
    /// The route that the trip serves.
    pub route_id: u32,
    /// The service whose days the trip runs on.
    pub service_id: String,
    /// The trip's own key.
    pub trip_id: u32,
    /// The direction of travel, 0 or 1.
    pub direction_id: u8,
    /// The shape that the vehicle follows.
    pub shape_id: u32,
}

impl Record for Trip {
    open spec fn table_name() -> TableName {
        TableName::Trips
    }

    open spec fn schema() -> Seq<ColumnSpec> {
        seq![
            ColumnSpec { name: "route_id"@, kind: FieldKind::Integer },
            ColumnSpec { name: "service_id"@, kind: FieldKind::Text },
            ColumnSpec { name: "trip_id"@, kind: FieldKind::Integer },
            ColumnSpec { name: "direction_id"@, kind: FieldKind::Direction },
            ColumnSpec { name: "shape_id"@, kind: FieldKind::Integer },
        ]
    }

    open spec fn values(&self) -> Seq<FieldValue> {
        seq![
            FieldValue::Integer(self.route_id as nat),
            FieldValue::Text(self.service_id@),
            FieldValue::Integer(self.trip_id as nat),
            FieldValue::Direction(self.direction_id as nat),
            FieldValue::Integer(self.shape_id as nat),
        ]
    }

    proof fn lemma_well_typed(&self) {
    }

    fn table() -> (t: TableName) {
        TableName::Trips
    }

    fn columns() -> (r: Vec<Column>) {
        let r = vec![
            Column::new("route_id", FieldKind::Integer),
            Column::new("service_id", FieldKind::Text),
            Column::new("trip_id", FieldKind::Integer),
            Column::new("direction_id", FieldKind::Direction),
            Column::new("shape_id", FieldKind::Integer),
        ];
        assert(columns_view(r@) =~= Self::schema());
        r
    }

    fn from_values(values: &Vec<Value>) -> (r: Self) {
        let r = Trip {
            route_id: integer_at(values, 0),
            service_id: text_at(values, 1),
            trip_id: integer_at(values, 2),
            direction_id: direction_at(values, 3),
            shape_id: integer_at(values, 4),
        };
        assert(r.values() =~= values_view(values@));
        r
    }

    fn to_values(&self) -> (r: Vec<Value>) {
        let r = vec![
            Value::Integer(self.route_id),
            Value::Text(self.service_id.clone()),
            Value::Integer(self.trip_id),
            Value::Direction(self.direction_id),
            Value::Integer(self.shape_id),
        ];
        assert(values_view(r@) =~= self.values());
        r
    }
}

/// A line that vehicles run on.
#[derive(Clone, Debug, PartialEq, Eq)]
pub struct Route {
    /// The route's own key.
    pub route_id: u32,
    /// The number that riders know the route by, if it has one.
    pub route_short_name: Option<u32>,
    /// The full name of the route.
    pub route_long_name: String,
}

impl Record for Route {
    open spec fn table_name() -> TableName {
        TableName::Routes
    }

    open spec fn schema() -> Seq<ColumnSpec> {
        seq![
            ColumnSpec { name: "route_id"@, kind: FieldKind::Integer },
            ColumnSpec { name: "route_short_name"@, kind: FieldKind::OptionalInteger },
            ColumnSpec { name: "route_long_name"@, kind: FieldKind::Text },
        ]
    }

    open spec fn values(&self) -> Seq<FieldValue> {
        seq![
            FieldValue::Integer(self.route_id as nat),
            Value::OptionalInteger(self.route_short_name)@,
            FieldValue::Text(self.route_long_name@),
        ]
    }

    proof fn lemma_well_typed(&self) {
    }

    fn table() -> (t: TableName) {
        TableName::Routes
    }

    fn columns() -> (r: Vec<Column>) {
        let r = vec![
            Column::new("route_id", FieldKind::Integer),
            Column::new("route_short_name", FieldKind::OptionalInteger),
            Column::new("route_long_name", FieldKind::Text),
        ];
        assert(columns_view(r@) =~= Self::schema());
        r
    }

    fn from_values(values: &Vec<Value>) -> (r: Self) {
        let r = Route {
            route_id: integer_at(values, 0),
            route_short_name: optional_integer_at(values, 1),
            route_long_name: text_at(values, 2),
        };
        assert(r.values() =~= values_view(values@));
        r
    }

    fn to_values(&self) -> (r: Vec<Value>) {
        let r = vec![
            Value::Integer(self.route_id),
            Value::OptionalInteger(self.route_short_name),
            Value::Text(self.route_long_name.clone()),
        ];
        assert(values_view(r@) =~= self.values());
        r
    }
}

/// The name of one direction of a route.
#[derive(Clone, Debug, PartialEq, Eq)]
pub struct RouteDirection {
    /// The route.
    pub route_id: u32,
    /// The direction of travel, 0 or 1.
    pub direction_id: u8,
    /// What riders call this direction.
    pub direction_name: String,
}

impl Record for RouteDirection {
    open spec fn table_name() -> TableName {
        TableName::RouteDirections
    }

    open spec fn schema() -> Seq<ColumnSpec> {
        seq![
            ColumnSpec { name: "route_id"@, kind: FieldKind::Integer },
            ColumnSpec { name: "direction_id"@, kind: FieldKind::Direction },
            ColumnSpec { name: "direction_name"@, kind: FieldKind::Text },
        ]
    }

    open spec fn values(&self) -> Seq<FieldValue> {
        seq![
            FieldValue::Integer(self.route_id as nat),
            FieldValue::Direction(self.direction_id as nat),
            FieldValue::Text(self.direction_name@),
        ]
    }

    proof fn lemma_well_typed(&self) {
    }

    fn table() -> (t: TableName) {
        TableName::RouteDirections
    }

    fn columns() -> (r: Vec<Column>) {
        let r = vec![
            Column::new("route_id", FieldKind::Integer),
            Column::new("direction_id", FieldKind::Direction),
            Column::new("direction_name", FieldKind::Text),
        ];
        assert(columns_view(r@) =~= Self::schema());
        r
    }

    fn from_values(values: &Vec<Value>) -> (r: Self) {
        let r = RouteDirection {
            route_id: integer_at(values, 0),
            direction_id: direction_at(values, 1),
            direction_name: text_at(values, 2),
        };
        assert(r.values() =~= values_view(values@));
        r
    }

    fn to_values(&self) -> (r: Vec<Value>) {
        let r = vec![
            Value::Integer(self.route_id),
            Value::Direction(self.direction_id),
            Value::Text(self.direction_name.clone()),
        ];
        assert(values_view(r@) =~= self.values());
        r
    }
}

/// A call of a trip at a stop.
#[derive(Clone, Debug, PartialEq, Eq)]
pub struct StopTime {
    /// The trip.
    pub trip_id: u32,
    /// When the vehicle arrives, from the start of the service day.
    pub arrival_time: ServiceTime,
    /// When the vehicle leaves, from the start of the service day.
    pub departure_time: ServiceTime,
    /// The stop.
    pub stop_id: u32,
    /// The place of this call among the calls of the trip.
    pub stop_sequence: u32,
    /// The distance along the shape from its start to the stop.
    pub shape_dist_traveled: Decimal,
}

impl Record for StopTime {
    open spec fn table_name() -> TableName {
        TableName::StopTimes
    }

    open spec fn schema() -> Seq<ColumnSpec> {
        seq![
            ColumnSpec { name: "trip_id"@, kind: FieldKind::Integer },
            ColumnSpec { name: "arrival_time"@, kind: FieldKind::ClockTime },
            ColumnSpec { name: "departure_time"@, kind: FieldKind::ClockTime },
            ColumnSpec { name: "stop_id"@, kind: FieldKind::Integer },
            ColumnSpec { name: "stop_sequence"@, kind: FieldKind::Integer },
            ColumnSpec { name: "shape_dist_traveled"@, kind: FieldKind::Decimal },
        ]
    }

    open spec fn values(&self) -> Seq<FieldValue> {
        seq![
            FieldValue::Integer(self.trip_id as nat),
            FieldValue::ClockTime(self.arrival_time@),
            FieldValue::ClockTime(self.departure_time@),
            FieldValue::Integer(self.stop_id as nat),
            FieldValue::Integer(self.stop_sequence as nat),
            FieldValue::Decimal(self.shape_dist_traveled@),
        ]
    }

    proof fn lemma_well_typed(&self) {
    }

    fn table() -> (t: TableName) {
        TableName::StopTimes
    }

    fn columns() -> (r: Vec<Column>) {
        let r = vec![
            Column::new("trip_id", FieldKind::Integer),
            Column::new("arrival_time", FieldKind::ClockTime),
            Column::new("departure_time", FieldKind::ClockTime),
            Column::new("stop_id", FieldKind::Integer),
            Column::new("stop_sequence", FieldKind::Integer),
            Column::new("shape_dist_traveled", FieldKind::Decimal),
        ];
        assert(columns_view(r@) =~= Self::schema());
        r
    }

    fn from_values(values: &Vec<Value>) -> (r: Self) {
        let r = StopTime {
            trip_id: integer_at(values, 0),
            arrival_time: clock_time_at(values, 1),
            departure_time: clock_time_at(values, 2),
            stop_id: integer_at(values, 3),
            stop_sequence: integer_at(values, 4),
            shape_dist_traveled: decimal_at(values, 5),
        };
        assert(r.values() =~= values_view(values@));
        r
    }

    fn to_values(&self) -> (r: Vec<Value>) {
        let r = vec![
            Value::Integer(self.trip_id),
            Value::ClockTime(self.arrival_time),
            Value::ClockTime(self.departure_time),
            Value::Integer(self.stop_id),
            Value::Integer(self.stop_sequence),
            Value::Decimal(self.shape_dist_traveled),
        ];
        assert(values_view(r@) =~= self.values());
        r
    }
}

/// A place where vehicles take up and set down riders.
#[derive(Clone, Debug, PartialEq, Eq)]
pub struct Stop {
    /// The stop's own key.
    pub stop_id: u32,
    /// The number posted at the stop.
    pub stop_code: u32,
    /// The name of the stop.
    pub stop_name: String,
    /// A description of where the stop is.
    pub stop_desc: String,
    /// The latitude in degrees, WGS 84.
    pub stop_lat: Decimal,
    /// The longitude in degrees, WGS 84.
    pub stop_lon: Decimal,
    /// The direction in which vehicles leave the stop.
    pub direction: String,
    /// Where the stop stands relative to its crossing.
    pub position: String,
}

impl Record for Stop {
    open spec fn table_name() -> TableName {
        TableName::Stops
    }

    open spec fn schema() -> Seq<ColumnSpec> {
        seq![
            ColumnSpec { name: "stop_id"@, kind: FieldKind::Integer },
            ColumnSpec { name: "stop_code"@, kind: FieldKind::Integer },
            ColumnSpec { name: "stop_name"@, kind: FieldKind::Text },
            ColumnSpec { name: "stop_desc"@, kind: FieldKind::Text },
            ColumnSpec { name: "stop_lat"@, kind: FieldKind::Decimal },
            ColumnSpec { name: "stop_lon"@, kind: FieldKind::Decimal },
            ColumnSpec { name: "direction"@, kind: FieldKind::Text },
            ColumnSpec { name: "position"@, kind: FieldKind::Text },
        ]
    }

    open spec fn values(&self) -> Seq<FieldValue> {
        seq![
            FieldValue::Integer(self.stop_id as nat),
            FieldValue::Integer(self.stop_code as nat),
            FieldValue::Text(self.stop_name@),
            FieldValue::Text(self.stop_desc@),
            FieldValue::Decimal(self.stop_lat@),
            FieldValue::Decimal(self.stop_lon@),
            FieldValue::Text(self.direction@),
            FieldValue::Text(self.position@),
        ]
    }

    proof fn lemma_well_typed(&self) {
    }

    fn table() -> (t: TableName) {
        TableName::Stops
    }

    fn columns() -> (r: Vec<Column>) {
        let r = vec![
            Column::new("stop_id", FieldKind::Integer),
            Column::new("stop_code", FieldKind::Integer),
            Column::new("stop_name", FieldKind::Text),
            Column::new("stop_desc", FieldKind::Text),
            Column::new("stop_lat", FieldKind::Decimal),
            Column::new("stop_lon", FieldKind::Decimal),
            Column::new("direction", FieldKind::Text),
            Column::new("position", FieldKind::Text),
        ];
        assert(columns_view(r@) =~= Self::schema());
        r
    }

    fn from_values(values: &Vec<Value>) -> (r: Self) {
        let r = Stop {
            stop_id: integer_at(values, 0),
            stop_code: integer_at(values, 1),
            stop_name: text_at(values, 2),
            stop_desc: text_at(values, 3),
            stop_lat: decimal_at(values, 4),
            stop_lon: decimal_at(values, 5),
            direction: text_at(values, 6),
            position: text_at(values, 7),
        };
        assert(r.values() =~= values_view(values@));
        r
    }

    fn to_values(&self) -> (r: Vec<Value>) {
        let r = vec![
            Value::Integer(self.stop_id),
            Value::Integer(self.stop_code),
            Value::Text(self.stop_name.clone()),
            Value::Text(self.stop_desc.clone()),
            Value::Decimal(self.stop_lat),
            Value::Decimal(self.stop_lon),
            Value::Text(self.direction.clone()),
            Value::Text(self.position.clone()),
        ];
        assert(values_view(r@) =~= self.values());
        r
    }
}

/// A way for riders to change from one stop to another.
#[derive(Clone, Debug, PartialEq, Eq)]
pub struct Transfer {
    /// The stop that riders come from.
    pub from_stop_id: u32,
    /// The stop that riders go to.
    pub to_stop_id: u32,
}

impl Record for Transfer {
    open spec fn table_name() -> TableName {
        TableName::Transfers
    }

    open spec fn schema() -> Seq<ColumnSpec> {
        seq![
            ColumnSpec { name: "from_stop_id"@, kind: FieldKind::Integer },
            ColumnSpec { name: "to_stop_id"@, kind: FieldKind::Integer },
        ]
    }

    open spec fn values(&self) -> Seq<FieldValue> {
        seq![
            FieldValue::Integer(self.from_stop_id as nat),
            FieldValue::Integer(self.to_stop_id as nat),
        ]
    }

    proof fn lemma_well_typed(&self) {
    }

    fn table() -> (t: TableName) {
        TableName::Transfers
    }

    fn columns() -> (r: Vec<Column>) {
        let r = vec![
            Column::new("from_stop_id", FieldKind::Integer),
            Column::new("to_stop_id", FieldKind::Integer),
        ];
        assert(columns_view(r@) =~= Self::schema());
        r
    }

    fn from_values(values: &Vec<Value>) -> (r: Self) {
        let r = Transfer {
            from_stop_id: integer_at(values, 0),
            to_stop_id: integer_at(values, 1),
        };
        assert(r.values() =~= values_view(values@));
        r
    }

    fn to_values(&self) -> (r: Vec<Value>) {
        let r = vec![
            Value::Integer(self.from_stop_id),
            Value::Integer(self.to_stop_id),
        ];
        assert(values_view(r@) =~= self.values());
        r
    }
}

/// One point of the path that a vehicle follows.
#[derive(Clone, Debug, PartialEq, Eq)]
pub struct Shape {
    /// The shape that the point belongs to.
    pub shape_id: u32,
    /// The latitude in degrees, WGS 84.
    pub shape_pt_lat: Decimal,
    /// The longitude in degrees, WGS 84.
    pub shape_pt_lon: Decimal,
    /// The place of the point among the points of the shape.
    pub shape_pt_sequence: u32,
    /// The distance along the shape from its start to the point.
    pub shape_dist_traveled: u32,
}

impl Record for Shape {
    open spec fn table_name() -> TableName {
        TableName::Shapes
    }

    open spec fn schema() -> Seq<ColumnSpec> {
        seq![
            ColumnSpec { name: "shape_id"@, kind: FieldKind::Integer },
            ColumnSpec { name: "shape_pt_lat"@, kind: FieldKind::Decimal },
            ColumnSpec { name: "shape_pt_lon"@, kind: FieldKind::Decimal },
            ColumnSpec { name: "shape_pt_sequence"@, kind: FieldKind::Integer },
            ColumnSpec { name: "shape_dist_traveled"@, kind: FieldKind::Integer },
        ]
    }

    open spec fn values(&self) -> Seq<FieldValue> {
        seq![
            FieldValue::Integer(self.shape_id as nat),
            FieldValue::Decimal(self.shape_pt_lat@),
            FieldValue::Decimal(self.shape_pt_lon@),
            FieldValue::Integer(self.shape_pt_sequence as nat),
            FieldValue::Integer(self.shape_dist_traveled as nat),
        ]
    }

    proof fn lemma_well_typed(&self) {
    }

    fn table() -> (t: TableName) {
        TableName::Shapes
    }

    fn columns() -> (r: Vec<Column>) {
        let r = vec![
            Column::new("shape_id", FieldKind::Integer),
            Column::new("shape_pt_lat", FieldKind::Decimal),
            Column::new("shape_pt_lon", FieldKind::Decimal),
            Column::new("shape_pt_sequence", FieldKind::Integer),
            Column::new("shape_dist_traveled", FieldKind::Integer),
        ];
        assert(columns_view(r@) =~= Self::schema());
        r
    }

    fn from_values(values: &Vec<Value>) -> (r: Self) {
        let r = Shape {
            shape_id: integer_at(values, 0),
            shape_pt_lat: decimal_at(values, 1),
            shape_pt_lon: decimal_at(values, 2),
            shape_pt_sequence: integer_at(values, 3),
            shape_dist_traveled: integer_at(values, 4),
        };
        assert(r.values() =~= values_view(values@));
        r
    }

    fn to_values(&self) -> (r: Vec<Value>) {
        let r = vec![
            Value::Integer(self.shape_id),
            Value::Decimal(self.shape_pt_lat),
            Value::Decimal(self.shape_pt_lon),
            Value::Integer(self.shape_pt_sequence),
            Value::Integer(self.shape_dist_traveled),
        ];
        assert(values_view(r@) =~= self.values());
        r
    }
}

/// A day on which a service runs or is excepted.
#[derive(Clone, Debug, PartialEq, Eq)]
pub struct CalendarDate {
    /// The service.
    pub service_id: String,
    /// The day.
    pub date: Date,
}

impl Record for CalendarDate {
    open spec fn table_name() -> TableName {
        TableName::CalendarDates
    }

    open spec fn schema() -> Seq<ColumnSpec> {
        seq![
            ColumnSpec { name: "service_id"@, kind: FieldKind::Text },
            ColumnSpec { name: "date"@, kind: FieldKind::Date },
        ]
    }

    open spec fn values(&self) -> Seq<FieldValue> {
        seq![
            FieldValue::Text(self.service_id@),
            FieldValue::Date(self.date@),
        ]
    }

    proof fn lemma_well_typed(&self) {
    }

    fn table() -> (t: TableName) {
        TableName::CalendarDates
    }

    fn columns() -> (r: Vec<Column>) {
        let r = vec![
            Column::new("service_id", FieldKind::Text),
            Column::new("date", FieldKind::Date),
        ];
        assert(columns_view(r@) =~= Self::schema());
        r
    }

    fn from_values(values: &Vec<Value>) -> (r: Self) {
        let r = CalendarDate {
            service_id: text_at(values, 0),
            date: date_at(values, 1),
        };
        assert(r.values() =~= values_view(values@));
        r
    }

    fn to_values(&self) -> (r: Vec<Value>) {
        let r = vec![
            Value::Text(self.service_id.clone()),
            Value::Date(self.date),
        ];
        assert(values_view(r@) =~= self.values());
        r
    }
}

} // verus!
