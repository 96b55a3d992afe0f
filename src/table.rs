//! Reading the header and the records of comma-separated text.
use crate::error::LoadError;
use vstd::prelude::*;

verus! {

#[verifier::external_type_specification]
#[verifier::external_body]
pub struct ExCsvError(csv::Error);

/// The header record of `input` read as CSV, field by field, or `None` where the
/// CSV reader rejects it.
pub uninterp spec fn csv_header_of(input: Seq<u8>) -> Option<Seq<Seq<char>>>;

/// The records after the header of `input` read as CSV, or `None` where the CSV
/// reader rejects one of them.
pub uninterp spec fn csv_records_of(input: Seq<u8>) -> Option<Seq<Seq<Seq<char>>>>;

pub open spec fn strings_view(v: Seq<String>) -> Seq<Seq<char>> {
    v.map_values(|s: String| s@)
}

pub open spec fn rows_view(v: Seq<Vec<String>>) -> Seq<Seq<Seq<char>>> {
    v.map_values(|row: Vec<String>| strings_view(row@))
}

/// Relies on csv::Reader::headers: reads the first record of the input, with the
/// reader's default settings (comma delimiter, header present, rows of equal length).
#[verifier::external_body]
fn csv_header(input: &[u8]) -> (r: Result<Vec<String>, csv::Error>)
    ensures
        r is Ok <==> csv_header_of(input@) is Some,
        r is Ok ==> csv_header_of(input@) == Some(strings_view(r->Ok_0@)),
{
    let mut reader = csv::Reader::from_reader(input);
    reader.headers().map(|h| h.iter().map(|f| f.to_owned()).collect())
}

/// Relies on csv::Reader::records: reads every record after the header, with the
/// reader's default settings; collecting stops at the first record it rejects.
#[verifier::external_body]
fn csv_records(input: &[u8]) -> (r: Result<Vec<Vec<String>>, csv::Error>)
    ensures
        r is Ok <==> csv_records_of(input@) is Some,
        r is Ok ==> csv_records_of(input@) == Some(rows_view(r->Ok_0@)),
{
    let mut reader = csv::Reader::from_reader(input);
    reader.records().map(|rec| rec.map(|rec| rec.iter().map(|f| f.to_owned()).collect())).collect()
}

/// Relies on the `Display` impl of csv::Error for a human-readable message.
#[verifier::external_body]
fn csv_error_message(e: &csv::Error) -> (r: String) {
    e.to_string()
}

/// A CSV input split into its header and its records, all fields as text.
pub struct Table {
    pub header: Vec<String>,
    pub rows: Vec<Vec<String>>,
}

/// Reads `input` as CSV text: the first record names the columns, each later
/// record is one row.
pub fn read_table(input: &[u8]) -> (r: Result<Table, LoadError>)
    ensures
        r is Ok <==> (csv_header_of(input@) is Some && csv_records_of(input@) is Some),
        r is Err ==> r->Err_0 is Csv,
        r is Err ==> r->Err_0 is Csv,
        r is Ok ==> csv_header_of(input@) == Some(strings_view(r->Ok_0.header@))
            && csv_records_of(input@) == Some(rows_view(r->Ok_0.rows@)),
{
    let header = match csv_header(input) {
        Ok(h) => h,
        Err(e) => {
            return Err(LoadError::Csv { message: csv_error_message(&e) });
        },
    };
    let rows = match csv_records(input) {
        Ok(rows) => rows,
        Err(e) => {
            return Err(LoadError::Csv { message: csv_error_message(&e) });
        },
    };
    Ok(Table { header, rows })
}

} // verus!
