//! Importing a diary from CSV: reading the header and the records with the
//! `csv` crate, and turning a record into a day (its date, read by `chrono`,
//! first, then the cells of the columns whose kind was chosen).
use vstd::prelude::*;
use crate::charts::texts;
use crate::dates::{iso_date_text, parse_iso_date, parsed_date};
use crate::diary::ImportColumn;
use crate::model::{CobDate, valid_date};
use crate::model::PracticeDataType;
use crate::release_channel::{trim, trim_text};

verus! {

/// The fields of the header that `csv` reads from `data` (comma separated,
/// first record as header), or `None` when it reports an error.
pub uninterp spec fn csv_header_fields(data: Seq<char>) -> Option<Seq<Seq<char>>>;

/// The records (after the header) that `csv` reads from `data`, each as its
/// fields or `None` when `csv` reports an error for it.
pub uninterp spec fn csv_record_fields(data: Seq<char>) -> Seq<Option<Seq<Seq<char>>>>;

/// The header of `data`, by a `csv::Reader` with `,` as delimiter and the
/// first record as header (`Reader::headers`).
#[verifier::external_body]
fn read_csv_header(data: &str) -> (r: Option<Vec<String>>)
    ensures
        match r {
            Some(v) => csv_header_fields(data@) == Some(texts(v@)),
            None => csv_header_fields(data@) is None,
        },
{
    let mut rdr = csv::ReaderBuilder::new().delimiter(b',').has_headers(true).from_reader(data.as_bytes());
    rdr.headers().ok().map(|h| h.iter().map(|f| f.to_owned()).collect())
}

/// The records of `data` after its header, by the same `csv::Reader`
/// (`Reader::records`).
#[verifier::external_body]
fn read_csv_records(data: &str) -> (r: Vec<Option<Vec<String>>>)
    ensures
        r@.len() == csv_record_fields(data@).len(),
        forall|k: int| 0 <= k < r@.len() ==> match #[trigger] r@[k] {
            Some(v) => csv_record_fields(data@)[k] == Some(texts(v@)),
            None => csv_record_fields(data@)[k] is None,
        },
{
    let mut rdr = csv::ReaderBuilder::new().delimiter(b',').has_headers(true).from_reader(data.as_bytes());
    rdr.records().map(|rec| rec.ok().map(|fields| fields.iter().map(|f| f.to_owned()).collect())).collect()
}

/// The column headers of an import file; none when the header cannot be read.
pub fn import_headers(data: &str) -> (r: Vec<String>)
    ensures
        texts(r@) == match csv_header_fields(data@) {
            Some(h) => h,
            None => Seq::empty(),
        },
{
    match read_csv_header(data) {
        Some(h) => h,
        None => Vec::new(),
    }
}

/// The records of an import file, each as its fields or `None` when it
/// cannot be read.
pub fn import_records(data: &str) -> (r: Vec<Option<Vec<String>>>)
    ensures
        r@.len() == csv_record_fields(data@).len(),
        forall|k: int| 0 <= k < r@.len() ==> match #[trigger] r@[k] {
            Some(v) => csv_record_fields(data@)[k] == Some(texts(v@)),
            None => csv_record_fields(data@)[k] is None,
        },
{
    read_csv_records(data)
}

/// A value of an imported day: the practice (the column's header), its kind,
/// and the field's text, or `None` when the field is blank.
pub struct ImportCell {
    pub practice: String,
    pub data_type: PracticeDataType,
    pub text: Option<String>,
}

/// An imported day: its date and its values.
pub struct ImportRow {
    pub cob: CobDate,
    pub cells: Vec<ImportCell>,
}

/// Why a record is no day: it has no fields (or there are no columns), or
/// its first field is no date in the form `YYYY-MM-DD`.
#[derive(Clone, Copy, Debug, PartialEq, Eq, Structural)]
pub enum ImportRowError {
    NoFields,
    BadDate,
}

/// The cell of a field, given its column.
pub open spec fn cell_of(column: ImportColumn, field: Seq<char>) -> Option<(Seq<char>, PracticeDataType, Option<Seq<char>>)> {
    match column.data_type {
        Some(t) => Some((column.header@, t, if trim(field).len() == 0 { None } else { Some(field) })),
        None => None,
    }
}

/// The cells of the fields `1..n` (the date being field 0), paired with
/// their columns: only columns whose kind was chosen give a cell.
pub open spec fn row_cells(columns: Seq<ImportColumn>, fields: Seq<Seq<char>>, n: int) -> Seq<(Seq<char>, PracticeDataType, Option<Seq<char>>)>
    decreases n,
{
    if n <= 1 {
        Seq::empty()
    } else {
        match cell_of(columns[n - 1], fields[n - 1]) {
            Some(c) => row_cells(columns, fields, n - 1).push(c),
            None => row_cells(columns, fields, n - 1),
        }
    }
}

/// The triple a cell stands for.
pub open spec fn cell_view(c: ImportCell) -> (Seq<char>, PracticeDataType, Option<Seq<char>>) {
    (c.practice@, c.data_type, match c.text {
        Some(t) => Some(t@),
        None => None,
    })
}

/// A day as its date and the triples of its cells.
pub open spec fn row_view(row: ImportRow) -> (CobDate, Seq<(Seq<char>, PracticeDataType, Option<Seq<char>>)>) {
    (row.cob, row.cells@.map_values(|c: ImportCell| cell_view(c)))
}

/// What an import of a record gives, by its views.
pub open spec fn outcome_view(r: Result<ImportRow, ImportRowError>) -> Result<(CobDate, Seq<(Seq<char>, PracticeDataType, Option<Seq<char>>)>), ImportRowError> {
    match r {
        Ok(row) => Ok(row_view(row)),
        Err(e) => Err(e),
    }
}

/// The day of a record whose first field reads as `cob`: none without fields
/// or columns; a bad date when the first field reads as no date; else the
/// date and the cells of the further fields, as far as there are columns.
pub open spec fn record_outcome(columns: Seq<ImportColumn>, fields: Seq<Seq<char>>, cob: Option<CobDate>) -> Result<(CobDate, Seq<(Seq<char>, PracticeDataType, Option<Seq<char>>)>), ImportRowError> {
    if fields.len() == 0 || columns.len() == 0 {
        Err(ImportRowError::NoFields)
    } else {
        match cob {
            None => Err(ImportRowError::BadDate),
            Some(d) => Ok((d, row_cells(columns, fields, if columns.len() < fields.len() { columns.len() as int } else { fields.len() as int }))),
        }
    }
}

/// The date a record's first field reads as, when it has one.
pub open spec fn record_date(fields: Seq<Seq<char>>) -> Option<CobDate> {
    if fields.len() > 0 { parsed_date(fields[0]) } else { None }
}

/// A record as a day, given what its first field reads as: the date, and
/// each further field (as far as there are columns) whose column has a
/// chosen kind as a value.
pub fn day_of_record(columns: &[ImportColumn], fields: &Vec<String>, cob: Option<CobDate>) -> (r: Result<ImportRow, ImportRowError>)
    ensures
        outcome_view(r) == record_outcome(columns@, texts(fields@), cob),
{
    if fields.len() == 0 || columns.len() == 0 {
        return Err(ImportRowError::NoFields);
    }
    let d = match cob {
        Some(d) => d,
        None => {
            return Err(ImportRowError::BadDate);
        },
    };
    let n: usize = if columns.len() < fields.len() { columns.len() } else { fields.len() };
    let ghost fs = texts(fields@);
    let mut cells: Vec<ImportCell> = Vec::new();
    let mut i: usize = 1;
    while i < n
        invariant
            1 <= i <= n,
            n <= columns@.len(),
            n <= fields@.len(),
            fs == texts(fields@),
            cells@.map_values(|c: ImportCell| cell_view(c)) == row_cells(columns@, fs, i as int),
        decreases n - i,
    {
        let col = &columns[i];
        match col.data_type {
            Some(t) => {
                let field = &fields[i];
                let blank = trim_text(field.as_str()).as_str().is_empty();
                let text = if blank { None } else { Some(field.clone()) };
                let ghost before = cells@;
                let cell = ImportCell { practice: col.header.clone(), data_type: t, text };
                proof {
                    assert(fs[i as int] == fields@[i as int]@);
                    assert(cell_of(columns@[i as int], fs[i as int]) == Some(cell_view(cell)));
                }
                cells.push(cell);
                assert(cells@.map_values(|c: ImportCell| cell_view(c)) =~= before.map_values(|c: ImportCell| cell_view(c)).push(cell_view(cell)));
            },
            None => {},
        }
        i += 1;
    }
    Ok(ImportRow { cob: d, cells })
}

/// A record as a day: its first field is the date, read as `YYYY-MM-DD` by
/// chrono; then the values of the further fields as `day_of_record` takes
/// them. A record without fields is no day, and one whose date does not read
/// is refused. A date as the export writes it reads back as that date.
pub fn import_row(columns: &[ImportColumn], fields: &Vec<String>) -> (r: Result<ImportRow, ImportRowError>)
    ensures
        outcome_view(r) == record_outcome(columns@, texts(fields@), record_date(texts(fields@))),
        columns@.len() > 0 && fields@.len() > 0 ==> forall|d: CobDate|
            valid_date(d) && fields@[0]@ == #[trigger] iso_date_text(d) ==> (r matches Ok(row) && row.cob == d),
{
    if fields.len() == 0 || columns.len() == 0 {
        return Err(ImportRowError::NoFields);
    }
    let cob = parse_iso_date(fields[0].as_str());
    proof {
        assert(texts(fields@)[0] == fields@[0]@);
    }
    day_of_record(columns, fields, cob)
}

/// Why a record of an import file is no day: `csv` could not read it, or
/// it is no day by `import_row`.
#[derive(Clone, Copy, Debug, PartialEq, Eq, Structural)]
pub enum RecordFailure {
    Unreadable,
    Row(ImportRowError),
}

/// The records as their fields' texts, `None` for those `csv` could not read.
pub open spec fn record_texts(records: Seq<Option<Vec<String>>>) -> Seq<Option<Seq<Seq<char>>>> {
    records.map_values(|o: Option<Vec<String>>| match o {
        Some(v) => Some(texts(v@)),
        None => None,
    })
}

/// What one record gives: its day, or why it is none.
pub open spec fn record_result(columns: Seq<ImportColumn>, record: Option<Seq<Seq<char>>>) -> Result<(CobDate, Seq<(Seq<char>, PracticeDataType, Option<Seq<char>>)>), RecordFailure> {
    match record {
        None => Err(RecordFailure::Unreadable),
        Some(f) => match record_outcome(columns, f, record_date(f)) {
            Ok(day) => Ok(day),
            Err(e) => Err(RecordFailure::Row(e)),
        },
    }
}

/// The days of the first `n` records, in order.
pub open spec fn days_of(columns: Seq<ImportColumn>, records: Seq<Option<Seq<Seq<char>>>>, n: int) -> Seq<(CobDate, Seq<(Seq<char>, PracticeDataType, Option<Seq<char>>)>)>
    decreases n,
{
    if n <= 0 {
        Seq::empty()
    } else {
        match record_result(columns, records[n - 1]) {
            Ok(day) => days_of(columns, records, n - 1).push(day),
            Err(_) => days_of(columns, records, n - 1),
        }
    }
}

/// The failures among the first `n` records, each with the record's index,
/// in order.
pub open spec fn failures_of(columns: Seq<ImportColumn>, records: Seq<Option<Seq<Seq<char>>>>, n: int) -> Seq<(int, RecordFailure)>
    decreases n,
{
    if n <= 0 {
        Seq::empty()
    } else {
        match record_result(columns, records[n - 1]) {
            Ok(_) => failures_of(columns, records, n - 1),
            Err(e) => failures_of(columns, records, n - 1).push((n - 1, e)),
        }
    }
}

/// The failures as pairs of a record's index and why it is no day.
pub open spec fn failures_view(failures: Seq<(usize, RecordFailure)>) -> Seq<(int, RecordFailure)> {
    failures.map_values(|p: (usize, RecordFailure)| (p.0 as int, p.1))
}

/// The records of an import file as days: each record in turn is read by
/// `import_row`; the days come out in the order of their records, and each
/// record that is no day gives a failure with its index. The import is saved
/// only when there is no failure.
pub fn import_days(columns: &[ImportColumn], records: &Vec<Option<Vec<String>>>) -> (r: (Vec<ImportRow>, Vec<(usize, RecordFailure)>))
    ensures
        r.0@.map_values(|row: ImportRow| row_view(row)) == days_of(columns@, record_texts(records@), records@.len() as int),
        failures_view(r.1@) == failures_of(columns@, record_texts(records@), records@.len() as int),
{
    let ghost recs = record_texts(records@);
    let mut days: Vec<ImportRow> = Vec::new();
    let mut failures: Vec<(usize, RecordFailure)> = Vec::new();
    let mut i: usize = 0;
    while i < records.len()
        invariant
            i <= records@.len(),
            recs == record_texts(records@),
            days@.map_values(|row: ImportRow| row_view(row)) == days_of(columns@, recs, i as int),
            failures_view(failures@) == failures_of(columns@, recs, i as int),
        decreases records@.len() - i,
    {
        let ghost before_days = days@;
        let ghost before_failures = failures@;
        match &records[i] {
            None => {
                failures.push((i, RecordFailure::Unreadable));
                assert(failures_view(failures@) =~= failures_view(before_failures).push((i as int, RecordFailure::Unreadable)));
            },
            Some(fields) => {
                assert(recs[i as int] == Some(texts(fields@)));
                match import_row(columns, fields) {
                    Ok(row) => {
                        let ghost v = row_view(row);
                        days.push(row);
                        assert(days@.map_values(|row: ImportRow| row_view(row)) =~= before_days.map_values(|row: ImportRow| row_view(row)).push(v));
                    },
                    Err(e) => {
                        failures.push((i, RecordFailure::Row(e)));
                        assert(failures_view(failures@) =~= failures_view(before_failures).push((i as int, RecordFailure::Row(e))));
                    },
                }
            },
        }
        i += 1;
    }
    (days, failures)
}

} // verus!
