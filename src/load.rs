//! Loading records from CSV text: the text is split into rows by the `csv`
//! crate, and each row is assembled into a record.

use vstd::prelude::*;
use crate::record::{make_record, record_of, Record, RecordView, RowError};

verus! {

#[verifier::external_type_specification]
#[verifier::external_body]
pub struct ExCsvError(csv::Error);

/// The data rows of CSV text, each as its cells, when the text reads as CSV.
pub uninterp spec fn csv_rows_of(text: Seq<u8>) -> Option<Seq<Seq<Seq<char>>>>;

/// Relies on `csv::ReaderBuilder` (comma-delimited, first row a header, rows
/// of any width), `Reader::records` and `StringRecord::iter`: the cells of each
/// data row of `text`, or the error that stopped the reading.
#[verifier::external_body]
fn read_csv_rows(text: &[u8]) -> (r: Result<Vec<Vec<String>>, csv::Error>)
    ensures
        match r {
            Ok(rows) => csv_rows_of(text@) == Some(rows.deep_view()),
            Err(_) => csv_rows_of(text@) is None,
        },
{
    let mut reader = csv::ReaderBuilder::new().flexible(true).from_reader(text);
    let mut rows = Vec::new();
    for record in reader.records() {
        rows.push(record?.iter().map(|cell| cell.to_string()).collect());
    }
    Ok(rows)
}

/// Why a load was abandoned.
#[derive(Debug)]
pub enum LoadError {
    /// The text could not be read as CSV.
    Csv(csv::Error),
    /// The data row at this index has fewer than twelve cells.
    RowShape(usize),
}

/// A data row that could not become a record, and why.
#[derive(Clone, Copy, Debug, PartialEq, Eq, Structural)]
pub struct RowFailure {
    pub row: usize,
    pub error: RowError,
}

/// The records of a load, and the rows left out because a measurement cell was malformed.
pub struct LoadReport {
    pub records: Vec<Record>,
    pub failures: Vec<RowFailure>,
}

/// The records that the rows give, in order.
pub open spec fn loaded_records(rows: Seq<Seq<Seq<char>>>) -> Seq<RecordView>
    decreases rows.len(),
{
    if rows.len() == 0 {
        Seq::empty()
    } else {
        let prev = loaded_records(rows.drop_last());
        match record_of(rows.last()) {
            Ok(v) => prev.push(v),
            Err(_) => prev,
        }
    }
}

/// The rows that give no record, with their index and the reason, in order.
pub open spec fn failed_rows(rows: Seq<Seq<Seq<char>>>) -> Seq<(int, RowError)>
    decreases rows.len(),
{
    if rows.len() == 0 {
        Seq::empty()
    } else {
        let prev = failed_rows(rows.drop_last());
        match record_of(rows.last()) {
            Ok(_) => prev,
            Err(e) => prev.push((rows.len() - 1, e)),
        }
    }
}

/// Every row has all twelve cells.
pub open spec fn all_full_width(rows: Seq<Seq<Seq<char>>>) -> bool {
    forall|i: int| 0 <= i < rows.len() ==> (#[trigger] rows[i]).len() >= 12
}

/// `i` is the first row with fewer than twelve cells.
pub open spec fn is_first_short_row(rows: Seq<Seq<Seq<char>>>, i: int) -> bool {
    &&& 0 <= i < rows.len()
    &&& rows[i].len() < 12
    &&& forall|j: int| 0 <= j < i ==> (#[trigger] rows[j]).len() >= 12
}

/// What a successful load holds, given the rows it read.
pub open spec fn report_matches(rep: &LoadReport, rows: Seq<Seq<Seq<char>>>) -> bool {
    &&& rep.records@.len() == loaded_records(rows).len()
    &&& forall|j: int|
        0 <= j < rep.records@.len() ==> (#[trigger] rep.records@[j])@ == loaded_records(rows)[j]
    &&& rep.failures@.len() == failed_rows(rows).len()
    &&& forall|j: int|
        0 <= j < rep.failures@.len() ==> ((#[trigger] rep.failures@[j]).row as int, rep.failures@[j].error)
            == failed_rows(rows)[j]
}

/// Assembles a record from every row. A row with fewer than twelve cells
/// abandons the load; a row with a malformed measurement is set aside in the
/// report's failures.
pub fn records_from_rows(rows: &Vec<Vec<String>>) -> (r: Result<LoadReport, LoadError>)
    ensures
        match r {
            Ok(rep) => all_full_width(rows.deep_view()) && report_matches(&rep, rows.deep_view()),
            Err(e) => match e {
                LoadError::RowShape(i) => is_first_short_row(rows.deep_view(), i as int),
                LoadError::Csv(_) => false,
            },
        },
{
    let ghost all = rows.deep_view();
    let mut records: Vec<Record> = Vec::new();
    let mut failures: Vec<RowFailure> = Vec::new();
    let mut i: usize = 0;
    while i < rows.len()
        invariant
            i <= rows@.len() == all.len(),
            all == rows.deep_view(),
            forall|j: int| 0 <= j < i ==> (#[trigger] all[j]).len() >= 12,
            records@.len() == loaded_records(all.take(i as int)).len(),
            forall|j: int|
                0 <= j < records@.len() ==> (#[trigger] records@[j])@ == loaded_records(
                    all.take(i as int),
                )[j],
            failures@.len() == failed_rows(all.take(i as int)).len(),
            forall|j: int|
                0 <= j < failures@.len() ==> ((#[trigger] failures@[j]).row as int, failures@[j].error)
                    == failed_rows(all.take(i as int))[j],
        decreases rows@.len() - i,
    {
        let ghost next = all.take(i + 1);
        assert(next.drop_last() =~= all.take(i as int));
        assert(next.last() == rows@[i as int].deep_view());
        assert(next.len() - 1 == i);
        match make_record(&rows[i]) {
            Ok(rec) => {
                records.push(rec);
            },
            Err(RowError::Shape) => {
                return Err(LoadError::RowShape(i));
            },
            Err(e) => {
                failures.push(RowFailure { row: i, error: e });
            },
        }
        i = i + 1;
    }
    assert(all.take(all.len() as int) =~= all);
    Ok(LoadReport { records, failures })
}

/// Reads CSV text whose first row is a header and assembles a record from
/// every data row, as `records_from_rows` does; text that does not read as CSV
/// abandons the load.
pub fn load_records(text: &[u8]) -> (r: Result<LoadReport, LoadError>)
    ensures
        match r {
            Ok(rep) => csv_rows_of(text@) is Some && all_full_width(csv_rows_of(text@)->0)
                && report_matches(&rep, csv_rows_of(text@)->0),
            Err(LoadError::Csv(_)) => csv_rows_of(text@) is None,
            Err(LoadError::RowShape(i)) => csv_rows_of(text@) is Some && is_first_short_row(
                csv_rows_of(text@)->0,
                i as int,
            ),
        },
{
    match read_csv_rows(text) {
        Ok(rows) => records_from_rows(&rows),
        Err(e) => Err(LoadError::Csv(e)),
    }
}

} // verus!
