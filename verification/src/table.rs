//! Reading one table of a feed: the header names the columns, every further
//! row gives a record or is malformed.
//!
//! A malformed row never spoils its neighbours. What becomes of it is the
//! caller's choice: it is left out and counted, or it ends the reading of the
//! table with an error that names it.

use vstd::prelude::*;
use vstd::string::*;
use crate::error::{Error, RowError, TableName};
use crate::field::FieldValue;
use crate::record::{
    columns_view, decode_fields, lemma_decoded_well_typed, lemma_well_formed_outcome,
    row_outcome, texts_view, Column, ColumnSpec, Record,
};
use crate::scan::{first_index_of, lemma_first_index_is, lemma_first_index_of};

verus! {

/// What to do with a row that gives no record.
#[derive(Clone, Copy, Debug, PartialEq, Eq, Structural)]
pub enum Policy {
    /// Leave the row out and count it.
    SkipAndCount,
    /// Stop, and report the row.
    FailFast,
}

/// The records of a table, in the order of its rows, and the number of rows
/// that were left out.
#[derive(Clone, Debug, PartialEq, Eq)]
pub struct Table<T> {
    pub records: Vec<T>,
    pub skipped: usize,
}

/// The rows of a table as its reader delivers them: the fields of each row,
/// or nothing for a row that it could not deliver.
pub type Rows = Seq<Option<Seq<Seq<char>>>>;

/// What each data row of a table gives.
pub type Outcomes = Seq<Result<Seq<FieldValue>, RowError>>;

/// What the CSV reader makes of the bytes of a table: its rows in order,
/// the header among them, each with its fields as text, or nothing for a row
/// that the reader reports as unreadable.
pub uninterp spec fn csv_rows(data: Seq<u8>) -> Seq<Option<Seq<Seq<char>>>>;

/// Calls `csv::Reader::records` on a reader over `data` that was built with
/// `has_headers(false)`, so that the header comes as the first row.
///
/// Trusted: the rows that come back are those that the reader delivers for
/// these bytes, with `None` in place of each row for which it returns an
/// error.
#[verifier::external_body]
fn read_csv(data: &[u8]) -> (rows: Vec<Option<Vec<String>>>)
    ensures
        rows.deep_view() == csv_rows(data@),
{
    let mut reader = csv::ReaderBuilder::new().has_headers(false).from_reader(data);
    reader.records().map(
        |row| row.ok().map(|fields| fields.iter().map(String::from).collect()),
    ).collect()
}

/// The header of a table: its first row, or no columns at all if the table
/// is empty or its first row is unreadable.
pub open spec fn header_of(rows: Rows) -> Seq<Seq<char>> {
    if rows.len() > 0 && rows[0] is Some {
        rows[0]->Some_0
    } else {
        Seq::empty()
    }
}

/// The position of the first schema field from `k` on for which a row of
/// `width` fields holds nothing, because the header does not name its column
/// or the row is too short; the number of columns if there is none.
///
/// Where the header names a column more than once, the first counts.
pub open spec fn missing_from(
    schema: Seq<ColumnSpec>,
    header: Seq<Seq<char>>,
    width: int,
    k: int,
) -> int
    decreases schema.len() - k,
{
    if k < 0 || k >= schema.len() {
        schema.len() as int
    } else if first_index_of(header, schema[k].name) >= header.len() || first_index_of(
        header,
        schema[k].name,
    ) >= width {
        k
    } else {
        missing_from(schema, header, width, k + 1)
    }
}

/// The fields of a row in the order of the schema.
pub open spec fn selected(
    schema: Seq<ColumnSpec>,
    header: Seq<Seq<char>>,
    cells: Seq<Seq<char>>,
) -> Seq<Seq<char>> {
    Seq::new(schema.len(), |k: int| cells[first_index_of(header, schema[k].name)])
}

/// What a row of a table gives under the table's header: the values of a
/// record, or the reason why it gives none.
pub open spec fn table_row_outcome(
    schema: Seq<ColumnSpec>,
    header: Seq<Seq<char>>,
    row: Option<Seq<Seq<char>>>,
) -> Result<Seq<FieldValue>, RowError> {
    match row {
        None => Err(RowError::Unreadable),
        Some(cells) => {
            let missing = missing_from(schema, header, cells.len() as int, 0);
            if missing < schema.len() {
                Err(RowError::MissingColumn { field: missing as usize })
            } else {
                row_outcome(schema, selected(schema, header, cells))
            }
        },
    }
}

/// What the data rows of a table give, one outcome for each row after the
/// header.
pub open spec fn outcomes(schema: Seq<ColumnSpec>, rows: Rows) -> Outcomes {
    Seq::new(
        if rows.len() > 0 {
            (rows.len() - 1) as nat
        } else {
            0
        },
        |i: int| table_row_outcome(schema, header_of(rows), rows[i + 1]),
    )
}

/// The records among the outcomes, in their order.
pub open spec fn successes(outs: Outcomes) -> Seq<Seq<FieldValue>>
    decreases outs.len(),
{
    if outs.len() == 0 {
        Seq::empty()
    } else {
        match outs.last() {
            Ok(values) => successes(outs.drop_last()).push(values),
            Err(_) => successes(outs.drop_last()),
        }
    }
}

/// The number of rows that gave no record.
pub open spec fn failures(outs: Outcomes) -> nat
    decreases outs.len(),
{
    if outs.len() == 0 {
        0
    } else {
        match outs.last() {
            Ok(_) => failures(outs.drop_last()),
            Err(_) => failures(outs.drop_last()) + 1,
        }
    }
}

/// The position of the first row from `k` on that gave no record, or the
/// number of rows if there is none.
pub open spec fn failure_from(outs: Outcomes, k: int) -> int
    decreases outs.len() - k,
{
    if k < 0 || k >= outs.len() {
        outs.len() as int
    } else if outs[k] is Err {
        k
    } else {
        failure_from(outs, k + 1)
    }
}

/// What reading a table gives under a policy: the values of its records and
/// the number of rows left out, or the error that ends the reading.
///
/// Counting never fails. Failing fast gives the first row without a record
/// as the error, and every record with nothing left out if there is no such
/// row.
pub open spec fn table_outcome(table: TableName, outs: Outcomes, policy: Policy) -> Result<
    (Seq<Seq<FieldValue>>, nat),
    Error,
> {
    let first = failure_from(outs, 0);
    if policy == Policy::FailFast && first < outs.len() {
        Err(Error::FieldFormat { table, row: first as usize, cause: outs[first]->Err_0 })
    } else {
        Ok((successes(outs), failures(outs)))
    }
}

/// The records of a table as the values of their fields.
pub open spec fn records_values<T: Record>(records: Seq<T>) -> Seq<Seq<FieldValue>> {
    records.map_values(|r: T| r.values())
}

/// Every row gives a record or is counted as a failure, never both.
pub proof fn lemma_rows_accounted(outs: Outcomes)
    ensures
        successes(outs).len() + failures(outs) == outs.len(),
    decreases outs.len(),
{
    if outs.len() > 0 {
        lemma_rows_accounted(outs.drop_last());
    }
}

/// What `failure_from` finds: a position from `k` on, with a record for
/// every row between `k` and it, and no record at it unless it is the end.
pub proof fn lemma_failure_from(outs: Outcomes, k: int)
    requires
        0 <= k <= outs.len(),
    ensures
        k <= failure_from(outs, k) <= outs.len(),
        forall|j: int| k <= j < failure_from(outs, k) ==> (#[trigger] outs[j]) is Ok,
        failure_from(outs, k) < outs.len() ==> outs[failure_from(outs, k)] is Err,
    decreases outs.len() - k,
{
    if k < outs.len() && outs[k] is Ok {
        lemma_failure_from(outs, k + 1);
    }
}

/// Where every row gives a record, the records are the outcomes of the rows,
/// one for one, and nothing is counted as left out.
pub proof fn lemma_all_rows_well_formed(outs: Outcomes)
    requires
        forall|i: int| 0 <= i < outs.len() ==> (#[trigger] outs[i]) is Ok,
    ensures
        failures(outs) == 0,
        successes(outs).len() == outs.len(),
        forall|i: int| 0 <= i < outs.len() ==> successes(outs)[i] == (#[trigger] outs[i])->Ok_0,
    decreases outs.len(),
{
    if outs.len() > 0 {
        let front = outs.drop_last();
        assert forall|i: int| 0 <= i < front.len() implies (#[trigger] front[i]) is Ok by {
            assert(front[i] == outs[i]);
        }
        lemma_all_rows_well_formed(front);
        assert(outs.last() == outs[outs.len() - 1]);
        assert forall|i: int| 0 <= i < outs.len() implies successes(outs)[i] == (
        #[trigger] outs[i])->Ok_0 by {
            if i < front.len() {
                assert(front[i] == outs[i]);
            }
        }
    }
}

/// One malformed row among well-formed ones: reading the table while
/// counting gives a record for every other row, in the order of the rows,
/// and a count of one; the reading does not fail.
pub proof fn lemma_one_malformed_row(table: TableName, outs: Outcomes, bad: int)
    requires
        0 <= bad < outs.len(),
        outs[bad] is Err,
        forall|i: int| 0 <= i < outs.len() && i != bad ==> (#[trigger] outs[i]) is Ok,
    ensures
        table_outcome(table, outs, Policy::SkipAndCount) == Ok::<
            (Seq<Seq<FieldValue>>, nat),
            Error,
        >((successes(outs), 1)),
        successes(outs).len() == outs.len() - 1,
        forall|i: int| 0 <= i < bad ==> successes(outs)[i] == (#[trigger] outs[i])->Ok_0,
        forall|i: int|
            bad < i < outs.len() ==> successes(outs)[i - 1] == (#[trigger] outs[i])->Ok_0,
    decreases outs.len(),
{
    let front = outs.drop_last();
    let last = outs.len() - 1;
    assert(outs.last() == outs[last]);
    if bad == last {
        assert forall|i: int| 0 <= i < front.len() implies (#[trigger] front[i]) is Ok by {
            assert(front[i] == outs[i]);
        }
        lemma_all_rows_well_formed(front);
        assert forall|i: int| 0 <= i < bad implies successes(outs)[i] == (
        #[trigger] outs[i])->Ok_0 by {
            assert(front[i] == outs[i]);
        }
    } else {
        assert(front[bad] == outs[bad]);
        assert forall|i: int| 0 <= i < front.len() && i != bad implies (
        #[trigger] front[i]) is Ok by {
            assert(front[i] == outs[i]);
        }
        lemma_one_malformed_row(table, front, bad);
        assert(outs[last] is Ok);
        assert forall|i: int| 0 <= i < bad implies successes(outs)[i] == (
        #[trigger] outs[i])->Ok_0 by {
            assert(front[i] == outs[i]);
        }
        assert forall|i: int| bad < i < outs.len() implies successes(outs)[i - 1] == (
        #[trigger] outs[i])->Ok_0 by {
            if i < last {
                assert(front[i] == outs[i]);
            }
        }
    }
}

/// Where the header names `name` first, or the number of columns of the
/// header if it does not name it.
fn position_of(header: &Vec<String>, name: &String) -> (p: usize)
    ensures
        p as int == first_index_of(header.deep_view(), name@),
{
    let ghost names = header.deep_view();
    let mut i: usize = 0;
    while i < header.len()
        invariant
            i <= header.len(),
            names == header.deep_view(),
            forall|j: int| 0 <= j < i ==> names[j] != name@,
        decreases header.len() - i,
    {
        assert(names[i as int] == header[i as int]@);
        if header[i] == *name {
            proof {
                lemma_first_index_is(names, name@, i as int);
            }
            return i;
        }
        i = i + 1;
    }
    proof {
        lemma_first_index_is(names, name@, i as int);
    }
    i
}

/// For each column of the schema, where the header names it first.
fn resolve_columns(schema: &Vec<Column>, header: &Vec<String>) -> (positions: Vec<usize>)
    ensures
        positions.len() == schema.len(),
        forall|k: int|
            0 <= k < schema.len() ==> (#[trigger] positions[k]) as int == first_index_of(
                header.deep_view(),
                schema[k].name@,
            ),
{
    let mut positions: Vec<usize> = Vec::new();
    let mut k: usize = 0;
    while k < schema.len()
        invariant
            k <= schema.len(),
            positions.len() == k,
            forall|j: int|
                0 <= j < k ==> (#[trigger] positions[j]) as int == first_index_of(
                    header.deep_view(),
                    schema[j].name@,
                ),
        decreases schema.len() - k,
    {
        positions.push(position_of(header, &schema[k].name));
        k = k + 1;
    }
    positions
}

/// Reads one row of a table under the table's header.
fn read_row<T: Record>(
    schema: &Vec<Column>,
    positions: &Vec<usize>,
    width: usize,
    row: &Option<Vec<String>>,
    Ghost(header): Ghost<Seq<Seq<char>>>,
) -> (r: Result<T, RowError>)
    requires
        columns_view(schema@) == T::schema(),
        width == header.len(),
        positions.len() == schema.len(),
        forall|k: int|
            0 <= k < schema.len() ==> (#[trigger] positions[k]) as int == first_index_of(
                header,
                schema[k].name@,
            ),
    ensures
        match table_row_outcome(T::schema(), header, row.deep_view()) {
            Ok(values) => r is Ok && r->Ok_0.values() == values,
            Err(e) => r == Err::<T, RowError>(e),
        },
{
    let cells = match row {
        Some(cells) => cells,
        None => {
            return Err(RowError::Unreadable);
        },
    };
    let ghost sv = T::schema();
    let ghost cv = cells.deep_view();
    let mut texts: Vec<&str> = Vec::new();
    let mut k: usize = 0;
    while k < schema.len()
        invariant
            k <= schema.len(),
            sv == T::schema(),
            sv == columns_view(schema@),
            sv.len() == schema.len(),
            cv == cells.deep_view(),
            cv.len() == cells.len(),
            row.deep_view() == Some(cv),
            width == header.len(),
            positions.len() == schema.len(),
            forall|j: int|
                0 <= j < schema.len() ==> (#[trigger] positions[j]) as int == first_index_of(
                    header,
                    schema[j].name@,
                ),
            texts.len() == k,
            missing_from(sv, header, cv.len() as int, 0) == missing_from(
                sv,
                header,
                cv.len() as int,
                k as int,
            ),
            forall|j: int|
                0 <= j < k ==> (#[trigger] texts[j])@ == cv[first_index_of(header, sv[j].name)],
        decreases schema.len() - k,
    {
        let p = positions[k];
        proof {
            assert(sv[k as int].name == schema[k as int].name@);
            lemma_first_index_of(header, sv[k as int].name);
        }
        if p >= width || p >= cells.len() {
            return Err(RowError::MissingColumn { field: k });
        }
        assert(cv[p as int] == cells[p as int]@);
        texts.push(cells[p].as_str());
        k = k + 1;
    }
    assert(texts_view(texts@) =~= selected(sv, header, cv));
    match decode_fields(schema, &texts) {
        Ok(values) => {
            proof {
                lemma_well_formed_outcome(sv, texts_view(texts@));
                lemma_decoded_well_typed(sv, texts_view(texts@));
            }
            Ok(T::from_values(&values))
        },
        Err(k) => {
            assert(sv[k as int].kind == schema[k as int].kind);
            Err(RowError::Malformed { field: k, expected: schema[k].kind })
        },
    }
}

/// Reads the rows of a table, the header first, into records.
///
/// Each row after the header is read under the header. While counting, the
/// rows that give no record are left out and counted, and the reading
/// succeeds whatever the rows hold. While failing fast, the first such row
/// ends the reading with an error that names the table, the row and the
/// reason.
pub fn parse_rows<T: Record>(rows: &Vec<Option<Vec<String>>>, policy: Policy) -> (r: Result<
    Table<T>,
    Error,
>)
    ensures
        match table_outcome(T::table_name(), outcomes(T::schema(), rows.deep_view()), policy) {
            Ok((values, skipped)) => r is Ok && records_values(r->Ok_0.records@) == values
                && r->Ok_0.skipped == skipped,
            Err(e) => r == Err::<Table<T>, Error>(e),
        },
{
    let schema = T::columns();
    let no_columns: Vec<String> = Vec::new();
    let header: &Vec<String> = if rows.len() > 0 {
        match &rows[0] {
            Some(header) => header,
            None => &no_columns,
        }
    } else {
        &no_columns
    };
    let ghost rv = rows.deep_view();
    let ghost hv = header.deep_view();
    let ghost outs = outcomes(T::schema(), rv);
    proof {
        if rows.len() > 0 {
            assert(rv[0] == rows[0].deep_view());
        }
        assert(hv =~= header_of(rv));
    }
    let positions = resolve_columns(&schema, header);
    let mut records: Vec<T> = Vec::new();
    let mut skipped: usize = 0;
    let mut i: usize = 1;
    while i < rows.len()
        invariant
            1 <= i,
            i - 1 <= outs.len(),
            rows.len() > 0 ==> outs.len() == rows.len() - 1,
            rows.len() == 0 ==> outs.len() == 0,
            rv == rows.deep_view(),
            hv == header_of(rv),
            hv.len() == header.len(),
            outs == outcomes(T::schema(), rv),
            columns_view(schema@) == T::schema(),
            positions.len() == schema.len(),
            forall|k: int|
                0 <= k < schema.len() ==> (#[trigger] positions[k]) as int == first_index_of(
                    hv,
                    schema[k].name@,
                ),
            records_values(records@) == successes(outs.take(i - 1)),
            skipped as nat == failures(outs.take(i - 1)),
            policy == Policy::FailFast ==> failure_from(outs, 0) == failure_from(outs, i - 1),
        decreases rows.len() - i,
    {
        let ghost done = outs.take(i - 1);
        let ghost next = outs.take(i as int);
        proof {
            assert(rv[i as int] == rows[i as int].deep_view());
            assert(outs[i - 1] == table_row_outcome(T::schema(), hv, rv[i as int]));
            assert(next.drop_last() =~= done);
            assert(next.last() == outs[i - 1]);
            lemma_rows_accounted(next);
        }
        match read_row::<T>(&schema, &positions, header.len(), &rows[i], Ghost(hv)) {
            Ok(record) => {
                records.push(record);
                assert(records_values(records@) =~= successes(next));
            },
            Err(cause) => {
                match policy {
                    Policy::FailFast => {
                        return Err(Error::FieldFormat { table: T::table(), row: i - 1, cause });
                    },
                    Policy::SkipAndCount => {
                        skipped = skipped + 1;
                    },
                }
            },
        }
        i = i + 1;
    }
    proof {
        assert(outs.take(i - 1) =~= outs);
        if policy == Policy::FailFast {
            lemma_failure_from(outs, outs.len() as int);
        }
    }
    Ok(Table { records, skipped })
}

/// Reads the bytes of a table into records.
///
/// The bytes are split into rows and fields by the CSV reader; the rows are
/// then read as `parse_rows` reads them.
pub fn parse_gtfs<T: Record>(data: &[u8], policy: Policy) -> (r: Result<Table<T>, Error>)
    ensures
        match table_outcome(T::table_name(), outcomes(T::schema(), csv_rows(data@)), policy) {
            Ok((values, skipped)) => r is Ok && records_values(r->Ok_0.records@) == values
                && r->Ok_0.skipped == skipped,
            Err(e) => r == Err::<Table<T>, Error>(e),
        },
{
    let rows = read_csv(data);
    parse_rows(&rows, policy)
}

} // verus!
