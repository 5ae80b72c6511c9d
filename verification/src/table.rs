//! Reading CSV records through the `csv` crate.
//!
//! A reader over an in-memory CSV document is treated as a queue of the
//! items it has still to hand out: each item is either a record (its fields,
//! as text) or the message of the error that reading it produced.

use vstd::prelude::*;

verus! {

/// One item that a CSV reader hands out: a record's fields, or an error message.
pub type SpecCsvItem = Result<Seq<Seq<char>>, Seq<char>>;

#[verifier::external_type_specification]
#[verifier::external_body]
#[verifier::reject_recursive_types(R)]
pub struct ExCsvReader<R>(csv::Reader<R>);

/// What `csv::ReaderBuilder::from_reader` yields over the bytes `input`
/// (with `has_headers(false)` and `flexible(false)`): the header line first,
/// then each data record, in file order, where an item is an error message
/// for a record that could not be read.
pub uninterp spec fn csv_items(input: Seq<u8>) -> Seq<SpecCsvItem>;

/// The items that `reader` has still to hand out, in order.
pub uninterp spec fn csv_pending(reader: csv::Reader<&[u8]>) -> Seq<SpecCsvItem>;

/// The view of one item as handed out by `csv_next`.
pub open spec fn item_view(item: Result<Vec<String>, String>) -> SpecCsvItem {
    match item {
        Ok(fields) => Ok(fields.deep_view()),
        Err(message) => Err(message@),
    }
}

/// Opens a CSV reader over `input` with `csv::ReaderBuilder`, headers not
/// set apart (`has_headers(false)`) and every record required to have as many
/// fields as the first (`flexible(false)`).
///
/// Claimed: the reader has `csv_items(input)` to hand out, and no more items
/// than `input` has bytes (every record or error consumes at least one byte).
#[verifier::external_body]
pub(crate) fn csv_open(input: &[u8]) -> (reader: csv::Reader<&[u8]>)
    ensures
        csv_pending(reader) == csv_items(input@),
        csv_pending(reader).len() <= input@.len(),
{
    csv::ReaderBuilder::new().has_headers(false).flexible(false).from_reader(input)
}

/// Reads the next record with `csv::Reader::read_record`.
///
/// Claimed: `None` exactly when no item is left; otherwise the first pending
/// item (the record's fields, or the error's `Display` text), which leaves
/// the queue.
#[verifier::external_body]
pub(crate) fn csv_next(reader: &mut csv::Reader<&[u8]>) -> (item: Option<Result<Vec<String>, String>>)
    ensures
        csv_pending(*old(reader)).len() == 0 ==> item is None && csv_pending(*final(reader)).len()
            == 0,
        csv_pending(*old(reader)).len() > 0 ==> item is Some && item_view(item->0)
            == csv_pending(*old(reader))[0] && csv_pending(*final(reader)) == csv_pending(
            *old(reader),
        ).drop_first(),
{
    let mut record = csv::StringRecord::new();
    match reader.read_record(&mut record) {
        Ok(true) => Some(Ok(record.iter().map(|field| field.to_string()).collect())),
        Ok(false) => None,
        Err(error) => Some(Err(error.to_string())),
    }
}

} // verus!
