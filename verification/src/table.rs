//! Loading a CSV table: its header row and its records.

use crate::text::same_text;
use vstd::prelude::*;

verus! {

#[verifier::external_type_specification]
#[verifier::external_body]
pub struct ExCsvError(csv::Error);

/// The header fields and the records that the `csv` crate reads from
/// `bytes` (first row as headers, equal field counts required), or `None`
/// when it refuses them.
pub uninterp spec fn csv_table(bytes: Seq<u8>) -> Option<(Seq<Seq<char>>, Seq<Seq<Seq<char>>>)>;

pub open spec fn texts(strings: Seq<String>) -> Seq<Seq<char>> {
    strings.map_values(|s: String| s@)
}

pub open spec fn rows(records: Seq<Vec<String>>) -> Seq<Seq<Seq<char>>> {
    records.map_values(|r: Vec<String>| texts(r@))
}

/// Reads `bytes` with a `csv::Reader` built by `csv::ReaderBuilder` (first
/// row as headers, not flexible): its `headers` and then each of its
/// `records`, every field turned into a `String`. Claimed: the outcome is a
/// function of the bytes alone, and, the reader being non-flexible, every
/// record has as many fields as the header row.
#[verifier::external_body]
fn read_csv_table(bytes: &[u8]) -> (r: Result<(Vec<String>, Vec<Vec<String>>), csv::Error>)
    ensures
        r is Ok <==> csv_table(bytes@) is Some,
        r matches Ok((h, recs)) ==> csv_table(bytes@) == Some((texts(h@), rows(recs@))),
        r matches Ok((h, recs)) ==> forall|i: int|
            0 <= i < recs@.len() ==> (#[trigger] recs@[i])@.len() == h@.len(),
{
    let mut reader = csv::ReaderBuilder::new().has_headers(true).from_reader(bytes);
    let headers: Vec<String> = reader.headers()?.iter().map(String::from).collect();
    let mut records: Vec<Vec<String>> = Vec::new();
    for record in reader.records() {
        records.push(record?.iter().map(String::from).collect());
    }
    Ok((headers, records))
}

/// Why a table could not be loaded.
pub enum LoadError {
    /// The file name does not end in `.csv`.
    InvalidExtension,
    /// The contents are not a CSV table.
    Csv(csv::Error),
}

/// Whether a file extension names a CSV file.
pub fn is_csv_extension(extension: &str) -> (r: bool)
    ensures
        r == (extension@ == "csv"@),
{
    same_text(extension, "csv")
}

/// Loads a CSV table from the contents of a file with the given extension
/// (the text after the file name's last dot): the header row, then the
/// records.
pub fn load(extension: &str, contents: &[u8]) -> (r: Result<
    (Vec<String>, Vec<Vec<String>>),
    LoadError,
>)
    ensures
        (r matches Err(LoadError::InvalidExtension)) <==> extension@ != "csv"@,
        (r matches Err(LoadError::Csv(_))) <==> (extension@ == "csv"@ && csv_table(contents@) is None),
        r matches Ok((h, recs)) ==> {
            &&& csv_table(contents@) == Some((texts(h@), rows(recs@)))
            &&& forall|i: int| 0 <= i < recs@.len() ==> (#[trigger] recs@[i])@.len() == h@.len()
        },
{
    if !is_csv_extension(extension) {
        return Err(LoadError::InvalidExtension);
    }
    match read_csv_table(contents) {
        Ok(table) => Ok(table),
        Err(e) => Err(LoadError::Csv(e)),
    }
}

} // verus!
