//! Trusted boundary to the outside crates. Each wrapper makes one call whose
//! result is a pure function of its arguments; the uninterpreted names below
//! stand for those results, and every contract in the library speaks of the
//! names, never of the outside code itself.

use vstd::prelude::*;

verus! {

/// The text that the GBK byte decoder yields for the given bytes, with a
/// recognized byte-order mark honoured and malformed sequences replaced.
pub uninterp spec fn gbk_decoded(bytes: Seq<u8>) -> Seq<char>;

/// The text that the UTF-8 byte decoder yields for the given bytes, with a
/// leading byte-order mark removed and malformed sequences replaced.
pub uninterp spec fn utf8_decoded(bytes: Seq<u8>) -> Seq<char>;

/// The rows that the delimited-text reader yields for the given text under
/// the converter's configuration: the first row taken as a column header and
/// not yielded, rows of differing width accepted, and every field trimmed of
/// surrounding whitespace.
pub uninterp spec fn csv_rows(text: Seq<char>) -> Seq<Seq<Seq<char>>>;

/// The delimited text that the writer yields for the given rows, each field
/// quoted as the format requires.
pub uninterp spec fn csv_text(rows: Seq<Seq<Seq<char>>>) -> Seq<char>;

/// The views of a table of string fields.
pub open spec fn rows_view(rows: Seq<Vec<String>>) -> Seq<Seq<Seq<char>>> {
    rows.map_values(|row: Vec<String>| crate::text::strs_view(row@))
}

/// Relies on `encoding_rs::GBK::decode`: decoding a complete buffer is a
/// function of the bytes alone — byte-order-mark sniffing, then the GBK
/// decode with malformed sequences replaced by the replacement character.
#[verifier::external_body]
pub fn gbk_to_string(bytes: &Vec<u8>) -> (r: String)
    ensures
        r@ == gbk_decoded(bytes@),
{
    encoding_rs::GBK.decode(bytes.as_slice()).0.into_owned()
}

/// Relies on `encoding_rs::UTF_8::decode`: decoding a complete buffer is a
/// function of the bytes alone — a leading byte-order mark is removed and
/// malformed sequences are replaced by the replacement character.
#[verifier::external_body]
pub fn utf8_to_string(bytes: &Vec<u8>) -> (r: String)
    ensures
        r@ == utf8_decoded(bytes@),
{
    encoding_rs::UTF_8.decode(bytes.as_slice()).0.into_owned()
}

/// Relies on `csv::ReaderBuilder` and `csv::StringRecord`: reading rows from
/// an in-memory buffer is a function of the text alone. With rows of
/// differing width allowed, no seeking and no serde, the only possible read
/// errors are byte-level I/O errors — which a byte slice never raises — and
/// invalid UTF-8, which text of a `str` never holds; so no record is ever
/// skipped by the error arm.
#[verifier::external_body]
pub fn csv_parse(text: &str) -> (r: Vec<Vec<String>>)
    ensures
        rows_view(r@) == csv_rows(text@),
{
    let mut rdr = csv::ReaderBuilder::new()
        .has_headers(true)
        .flexible(true)
        .trim(csv::Trim::All)
        .from_reader(text.as_bytes());
    rdr.records()
        .filter_map(|rec| rec.ok())
        .map(|rec| rec.iter().map(String::from).collect())
        .collect()
}

/// Relies on `csv::WriterBuilder`: writing rows to an in-memory buffer is a
/// function of the rows alone. Writing to a growable buffer cannot raise an
/// I/O error, and the writer's output for fields of a `String` is valid
/// UTF-8, so the fallible unwrapping steps never take their error arm.
#[verifier::external_body]
pub fn csv_write(rows: &Vec<Vec<String>>) -> (r: String)
    ensures
        r@ == csv_text(rows_view(rows@)),
{
    let mut wtr = csv::WriterBuilder::new().flexible(true).from_writer(Vec::new());
    for row in rows {
        let _ = wtr.write_record(row);
    }
    let buf = wtr.into_inner().unwrap_or_default();
    String::from_utf8_lossy(&buf).into_owned()
}

} // verus!
