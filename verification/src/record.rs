//! Rows and records: what a table's schema is, how the fields of a row are
//! read into the values of a record, and how a record is written back.

use vstd::prelude::*;
use vstd::string::*;
use crate::date_format::Date;
use crate::decimal::Decimal;
use crate::error::{RowError, TableName};
use crate::field::{
    accepts, in_range, is_plain, kind_of, lemma_field_text_round_trip,
    lemma_field_value_in_range, lemma_field_value_round_trip, read_field, text_of, value_of,
    write_field, FieldKind, FieldValue, Value,
};
use crate::time_format::ServiceTime;

verus! {

/// A column of a table: its name in the header and the kind of its fields.
#[derive(Clone, Debug, PartialEq, Eq)]
pub struct Column {
    pub name: String,
    pub kind: FieldKind,
}

/// What a column is, with its name as plain characters.
pub struct ColumnSpec {
    pub name: Seq<char>,
    pub kind: FieldKind,
}

impl View for Column {
    type V = ColumnSpec;

    open spec fn view(&self) -> ColumnSpec {
        ColumnSpec { name: self.name@, kind: self.kind }
    }
}

/// The columns of a schema as plain values.
pub open spec fn columns_view(columns: Seq<Column>) -> Seq<ColumnSpec> {
    columns.map_values(|c: Column| c@)
}

/// The values of a row as plain values.
pub open spec fn values_view(values: Seq<Value>) -> Seq<FieldValue> {
    values.map_values(|v: Value| v@)
}

/// The texts of a row as plain characters.
pub open spec fn texts_view(texts: Seq<&str>) -> Seq<Seq<char>> {
    texts.map_values(|t: &str| t@)
}

/// The texts of a row that was written, as plain characters.
pub open spec fn strings_view(texts: Seq<String>) -> Seq<Seq<char>> {
    texts.map_values(|t: String| t@)
}

/// Whether there is one value for each column, of the column's kind.
pub open spec fn well_typed(values: Seq<FieldValue>, schema: Seq<ColumnSpec>) -> bool {
    &&& values.len() == schema.len()
    &&& forall|k: int| 0 <= k < schema.len() ==> kind_of(#[trigger] values[k]) == schema[k].kind
}

/// Whether every value is one that a record can hold.
pub open spec fn all_in_range(values: Seq<FieldValue>) -> bool {
    forall|k: int| 0 <= k < values.len() ==> in_range(#[trigger] values[k])
}

/// The position of the first field from `k` on whose text is malformed for
/// its column, or the number of columns if there is none.
pub open spec fn fault_from(schema: Seq<ColumnSpec>, texts: Seq<Seq<char>>, k: int) -> int
    decreases schema.len() - k,
{
    if k < 0 || k >= schema.len() {
        schema.len() as int
    } else if !accepts(schema[k].kind, texts[k]) {
        k
    } else {
        fault_from(schema, texts, k + 1)
    }
}

/// Whether a row has a well-formed field for every column.
pub open spec fn is_well_formed(schema: Seq<ColumnSpec>, texts: Seq<Seq<char>>) -> bool {
    &&& texts.len() >= schema.len()
    &&& forall|k: int| 0 <= k < schema.len() ==> accepts(schema[k].kind, #[trigger] texts[k])
}

/// Whether every field of a row is written the way this library writes it.
pub open spec fn is_plain_row(schema: Seq<ColumnSpec>, texts: Seq<Seq<char>>) -> bool {
    forall|k: int| 0 <= k < schema.len() ==> is_plain(schema[k].kind, #[trigger] texts[k])
}

/// The values that the fields of a row spell, column by column.
pub open spec fn decoded(schema: Seq<ColumnSpec>, texts: Seq<Seq<char>>) -> Seq<FieldValue>
    recommends
        is_well_formed(schema, texts),
{
    Seq::new(schema.len(), |k: int| value_of(schema[k].kind, texts[k]))
}

/// The texts of the values of a record.
pub open spec fn encoded(values: Seq<FieldValue>) -> Seq<Seq<char>> {
    Seq::new(values.len(), |k: int| text_of(values[k]))
}

/// What reading a row gives: the values of its fields, or the reason why the
/// row gives no record.
///
/// A row with fewer fields than columns lacks the first column that has no
/// field. Fields beyond the last column are ignored. Of several malformed
/// fields the first is reported.
pub open spec fn row_outcome(schema: Seq<ColumnSpec>, texts: Seq<Seq<char>>) -> Result<
    Seq<FieldValue>,
    RowError,
> {
    if texts.len() < schema.len() {
        Err(RowError::MissingColumn { field: texts.len() as usize })
    } else if fault_from(schema, texts, 0) < schema.len() {
        let k = fault_from(schema, texts, 0);
        Err(RowError::Malformed { field: k as usize, expected: schema[k].kind })
    } else {
        Ok(decoded(schema, texts))
    }
}

/// What `fault_from` finds: a position from `k` on, with every field between
/// `k` and it well-formed, and a malformed field at it unless it is the end.
pub proof fn lemma_fault_from(schema: Seq<ColumnSpec>, texts: Seq<Seq<char>>, k: int)
    requires
        0 <= k <= schema.len(),
    ensures
        k <= fault_from(schema, texts, k) <= schema.len(),
        forall|j: int|
            k <= j < fault_from(schema, texts, k) ==> accepts(schema[j].kind, #[trigger] texts[j]),
        fault_from(schema, texts, k) < schema.len() ==> !accepts(
            schema[fault_from(schema, texts, k)].kind,
            texts[fault_from(schema, texts, k)],
        ),
    decreases schema.len() - k,
{
    if k < schema.len() && accepts(schema[k].kind, texts[k]) {
        lemma_fault_from(schema, texts, k + 1);
    }
}

/// A row is read into a record exactly when it is well-formed.
pub proof fn lemma_well_formed_outcome(schema: Seq<ColumnSpec>, texts: Seq<Seq<char>>)
    ensures
        is_well_formed(schema, texts) <==> row_outcome(schema, texts) is Ok,
        is_well_formed(schema, texts) ==> row_outcome(schema, texts) == Ok::<
            Seq<FieldValue>,
            RowError,
        >(decoded(schema, texts)),
{
    lemma_fault_from(schema, texts, 0);
}

/// The values read from a well-formed row are of the kinds of the columns,
/// and a record can hold them.
pub proof fn lemma_decoded_well_typed(schema: Seq<ColumnSpec>, texts: Seq<Seq<char>>)
    requires
        is_well_formed(schema, texts),
    ensures
        well_typed(decoded(schema, texts), schema),
        all_in_range(decoded(schema, texts)),
{
    let values = decoded(schema, texts);
    assert forall|k: int| 0 <= k < schema.len() implies kind_of(#[trigger] values[k])
        == schema[k].kind && in_range(values[k]) by {
        assert(accepts(schema[k].kind, texts[k]));
        lemma_field_value_in_range(schema[k].kind, texts[k]);
    }
}

/// Decode, then encode: a well-formed row with one field for each column,
/// each written plainly, is read into values whose texts are the fields of
/// the row, character for character.
pub proof fn lemma_row_round_trip(schema: Seq<ColumnSpec>, texts: Seq<Seq<char>>)
    requires
        texts.len() == schema.len(),
        is_well_formed(schema, texts),
        is_plain_row(schema, texts),
    ensures
        row_outcome(schema, texts) == Ok::<Seq<FieldValue>, RowError>(decoded(schema, texts)),
        encoded(decoded(schema, texts)) == texts,
{
    lemma_well_formed_outcome(schema, texts);
    let back = encoded(decoded(schema, texts));
    assert forall|k: int| 0 <= k < texts.len() implies back[k] == texts[k] by {
        assert(accepts(schema[k].kind, texts[k]));
        assert(is_plain(schema[k].kind, texts[k]));
        lemma_field_text_round_trip(schema[k].kind, texts[k]);
    }
    assert(back =~= texts);
}

/// Encode, then decode: the texts of the values of a record are a
/// well-formed, plainly written row that is read into the same values.
pub proof fn lemma_values_round_trip(schema: Seq<ColumnSpec>, values: Seq<FieldValue>)
    requires
        well_typed(values, schema),
        all_in_range(values),
    ensures
        is_well_formed(schema, encoded(values)),
        is_plain_row(schema, encoded(values)),
        row_outcome(schema, encoded(values)) == Ok::<Seq<FieldValue>, RowError>(values),
{
    let texts = encoded(values);
    assert forall|k: int| 0 <= k < schema.len() implies accepts(schema[k].kind, #[trigger] texts[k])
        && is_plain(schema[k].kind, texts[k]) && value_of(schema[k].kind, texts[k])
        == values[k] by {
        assert(kind_of(values[k]) == schema[k].kind);
        assert(in_range(values[k]));
        lemma_field_value_round_trip(values[k]);
    }
    lemma_well_formed_outcome(schema, texts);
    assert(decoded(schema, texts) =~= values);
}

/// A record of one of the tables of a feed.
pub trait Record: Sized {
    /// The table that holds such records.
    spec fn table_name() -> TableName;

    /// The columns of the table, in the order of the record's fields.
    spec fn schema() -> Seq<ColumnSpec>;

    /// The record as the values of its fields, in the order of the schema.
    spec fn values(&self) -> Seq<FieldValue>;

    /// A record has one value for each column, of the column's kind.
    proof fn lemma_well_typed(&self)
        ensures
            well_typed(self.values(), Self::schema()),
    ;

    /// The table that holds such records.
    fn table() -> (t: TableName)
        ensures
            t == Self::table_name(),
    ;

    /// The columns of the table.
    fn columns() -> (r: Vec<Column>)
        ensures
            columns_view(r@) == Self::schema(),
    ;

    /// The record with the given values.
    fn from_values(values: &Vec<Value>) -> (r: Self)
        requires
            well_typed(values_view(values@), Self::schema()),
        ensures
            r.values() == values_view(values@),
    ;

    /// The values of the record's fields.
    fn to_values(&self) -> (r: Vec<Value>)
        ensures
            values_view(r@) == self.values(),
    ;
}

/// The whole number at position `k` of a row's values.
pub fn integer_at(values: &Vec<Value>, k: usize) -> (n: u32)
    requires
        k < values.len(),
        kind_of(values_view(values@)[k as int]) == FieldKind::Integer,
    ensures
        values_view(values@)[k as int] == FieldValue::Integer(n as nat),
{
    match &values[k] {
        Value::Integer(n) => *n,
        _ => vstd::pervasive::unreached(),
    }
}

/// The direction of travel at position `k` of a row's values.
pub fn direction_at(values: &Vec<Value>, k: usize) -> (n: u8)
    requires
        k < values.len(),
        kind_of(values_view(values@)[k as int]) == FieldKind::Direction,
    ensures
        values_view(values@)[k as int] == FieldValue::Direction(n as nat),
{
    match &values[k] {
        Value::Direction(n) => *n,
        _ => vstd::pervasive::unreached(),
    }
}

/// The whole number, if any, at position `k` of a row's values.
pub fn optional_integer_at(values: &Vec<Value>, k: usize) -> (n: Option<u32>)
    requires
        k < values.len(),
        kind_of(values_view(values@)[k as int]) == FieldKind::OptionalInteger,
    ensures
        values_view(values@)[k as int] == (Value::OptionalInteger(n))@,
{
    match &values[k] {
        Value::OptionalInteger(n) => *n,
        _ => vstd::pervasive::unreached(),
    }
}

/// The text at position `k` of a row's values.
pub fn text_at(values: &Vec<Value>, k: usize) -> (t: String)
    requires
        k < values.len(),
        kind_of(values_view(values@)[k as int]) == FieldKind::Text,
    ensures
        values_view(values@)[k as int] == FieldValue::Text(t@),
{
    match &values[k] {
        Value::Text(t) => t.clone(),
        _ => vstd::pervasive::unreached(),
    }
}

/// The clock time at position `k` of a row's values.
pub fn clock_time_at(values: &Vec<Value>, k: usize) -> (t: ServiceTime)
    requires
        k < values.len(),
        kind_of(values_view(values@)[k as int]) == FieldKind::ClockTime,
    ensures
        values_view(values@)[k as int] == FieldValue::ClockTime(t@),
{
    match &values[k] {
        Value::ClockTime(t) => *t,
        _ => vstd::pervasive::unreached(),
    }
}

/// The date at position `k` of a row's values.
pub fn date_at(values: &Vec<Value>, k: usize) -> (d: Date)
    requires
        k < values.len(),
        kind_of(values_view(values@)[k as int]) == FieldKind::Date,
    ensures
        values_view(values@)[k as int] == FieldValue::Date(d@),
{
    match &values[k] {
        Value::Date(d) => *d,
        _ => vstd::pervasive::unreached(),
    }
}

/// The decimal number at position `k` of a row's values.
pub fn decimal_at(values: &Vec<Value>, k: usize) -> (d: Decimal)
    requires
        k < values.len(),
        kind_of(values_view(values@)[k as int]) == FieldKind::Decimal,
    ensures
        values_view(values@)[k as int] == FieldValue::Decimal(d@),
{
    match &values[k] {
        Value::Decimal(d) => *d,
        _ => vstd::pervasive::unreached(),
    }
}

/// Encode, then decode, for the records of any table: the row that a record
/// is written as is well-formed and plainly written, and it is read into a
/// record with the same values.
pub proof fn lemma_record_round_trip<T: Record>(record: T)
    requires
        all_in_range(record.values()),
    ensures
        is_well_formed(T::schema(), encoded(record.values())),
        is_plain_row(T::schema(), encoded(record.values())),
        row_outcome(T::schema(), encoded(record.values())) == Ok::<Seq<FieldValue>, RowError>(
            record.values(),
        ),
{
    record.lemma_well_typed();
    lemma_values_round_trip(T::schema(), record.values());
}

impl Column {
    /// A column with the given name and kind.
    pub fn new(name: &str, kind: FieldKind) -> (r: Column)
        ensures
            r@ == (ColumnSpec { name: name@, kind }),
    {
        Column { name: name.to_owned(), kind }
    }
}

/// Reads the fields of a row, which holds at least one for each column,
/// into values; or finds the first field that is malformed.
pub fn decode_fields(schema: &Vec<Column>, texts: &Vec<&str>) -> (r: Result<Vec<Value>, usize>)
    requires
        texts.len() >= schema.len(),
    ensures
        match r {
            Ok(values) => row_outcome(columns_view(schema@), texts_view(texts@)) == Ok::<
                Seq<FieldValue>,
                RowError,
            >(values_view(values@)),
            Err(k) => k < schema.len() && row_outcome(columns_view(schema@), texts_view(texts@))
                == Err::<Seq<FieldValue>, RowError>(
                RowError::Malformed { field: k, expected: schema[k as int].kind },
            ),
        },
{
    let ghost sv = columns_view(schema@);
    let ghost tv = texts_view(texts@);
    let mut values: Vec<Value> = Vec::new();
    let mut k: usize = 0;
    while k < schema.len()
        invariant
            k <= schema.len() <= texts.len(),
            sv == columns_view(schema@),
            tv == texts_view(texts@),
            values.len() == k,
            fault_from(sv, tv, 0) == fault_from(sv, tv, k as int),
            forall|j: int| 0 <= j < k ==> (#[trigger] values[j])@ == value_of(sv[j].kind, tv[j]),
        decreases schema.len() - k,
    {
        assert(sv[k as int].kind == schema[k as int].kind);
        assert(tv[k as int] == texts[k as int]@);
        match read_field(schema[k].kind, texts[k]) {
            Some(v) => {
                values.push(v);
            },
            None => {
                return Err(k);
            },
        }
        k = k + 1;
    }
    assert(values_view(values@) =~= decoded(sv, tv));
    Ok(values)
}

/// Writes the values of a record as the fields of a row.
pub fn encode_fields(values: &Vec<Value>) -> (r: Vec<String>)
    ensures
        strings_view(r@) == encoded(values_view(values@)),
{
    let mut texts: Vec<String> = Vec::new();
    let mut k: usize = 0;
    while k < values.len()
        invariant
            k <= values.len(),
            texts.len() == k,
            forall|j: int| 0 <= j < k ==> (#[trigger] texts[j])@ == text_of(values[j]@),
        decreases values.len() - k,
    {
        texts.push(write_field(&values[k]));
        k = k + 1;
    }
    assert(strings_view(texts@) =~= encoded(values_view(values@)));
    texts
}

/// Reads a row whose fields stand in the order of the schema into a record.
///
/// Gives the record that the fields spell if the row is well-formed, and
/// otherwise the reason that `row_outcome` names.
pub fn decode_row<T: Record>(texts: &Vec<&str>) -> (r: Result<T, RowError>)
    ensures
        match row_outcome(T::schema(), texts_view(texts@)) {
            Ok(values) => r is Ok && r->Ok_0.values() == values,
            Err(e) => r == Err::<T, RowError>(e),
        },
{
    let schema = T::columns();
    if texts.len() < schema.len() {
        return Err(RowError::MissingColumn { field: texts.len() });
    }
    match decode_fields(&schema, texts) {
        Ok(values) => {
            proof {
                lemma_well_formed_outcome(T::schema(), texts_view(texts@));
                lemma_decoded_well_typed(T::schema(), texts_view(texts@));
            }
            Ok(T::from_values(&values))
        },
        Err(k) => {
            assert(columns_view(schema@)[k as int].kind == schema[k as int].kind);
            Err(RowError::Malformed { field: k, expected: schema[k].kind })
        },
    }
}

/// Writes a record as the fields of a row, in the order of the schema.
pub fn encode_row<T: Record>(record: &T) -> (r: Vec<String>)
    ensures
        strings_view(r@) == encoded(record.values()),
{
    let values = record.to_values();
    encode_fields(&values)
}

} // verus!
