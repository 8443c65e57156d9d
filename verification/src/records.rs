//! Splitting delimited text into records of fields.

use vstd::prelude::*;

verus! {

/// One field of a record: its text, byte for byte, and what the text reads as
/// when taken for a decimal number with a fractional part.
///
/// `number` is the bit pattern of the IEEE-754 single-precision value that
/// the text denotes, or `None` where the text denotes no such value. It is
/// supplied by whoever builds the field; nothing here derives it from `text`.
#[derive(Debug)]
pub struct Field {
    pub text: Vec<u8>,
    pub number: Option<u32>,
}

/// The mathematical content of a [`Field`].
pub struct FieldModel {
    pub text: Seq<u8>,
    pub number: Option<u32>,
}

impl DeepView for Field {
    type V = FieldModel;

    open spec fn deep_view(&self) -> FieldModel {
        FieldModel { text: self.text@, number: self.number }
    }
}

impl Field {
    /// A field with the given text and number reading.
    pub fn new(text: Vec<u8>, number: Option<u32>) -> (field: Field)
        ensures
            field.text@ == text@,
            field.number == number,
    {
        Field { text, number }
    }
}

/// The records that the CSV reader yields for `input`, in order: the fields
/// of each well-formed record, and `None` in place of each record that the
/// reader reports as an error. With `has_headers` the first record of the
/// input is taken for the header row and is not among them.
pub uninterp spec fn csv_records(input: Seq<u8>, has_headers: bool) -> Seq<Option<Seq<Seq<u8>>>>;

/// The content of a sequence of split records.
pub open spec fn records_model(records: Seq<Option<Vec<Vec<u8>>>>) -> Seq<Option<Seq<Seq<u8>>>> {
    Seq::new(
        records.len(),
        |i: int|
            match records[i] {
                Some(fields) => Some(Seq::new(fields@.len(), |j: int| fields@[j]@)),
                None => None,
            },
    )
}

/// Builds a reader over `input` with `csv::ReaderBuilder`, with default
/// settings but for `has_headers`, and collects what `csv::Reader::records`
/// yields until it ends. Each `csv::StringRecord` becomes the list of its
/// fields' bytes, each error becomes `None`.
///
/// The contract gives what comes back the name [`csv_records`] and claims
/// nothing else about how the reader splits the input.
#[verifier::external_body]
fn split(input: &[u8], has_headers: bool) -> (records: Vec<Option<Vec<Vec<u8>>>>)
    ensures
        records_model(records@) == csv_records(input@, has_headers),
{
    let mut reader = csv::ReaderBuilder::new().has_headers(has_headers).from_reader(input);
    reader
        .records()
        .map(|item| item.ok().map(|r| r.iter().map(|field| field.as_bytes().to_vec()).collect()))
        .collect()
}

/// Splits the content of a delimited text file into records, in the order
/// in which they stand. With `has_headers` the first record of the input is
/// taken for a header row and left out.
///
/// A record that the reader reports as an error, such as one that is not
/// valid UTF-8, or one with another number of fields than the first record
/// of the input, comes back as `None` in its place.
pub fn read_records(input: &[u8], has_headers: bool) -> (records: Vec<Option<Vec<Vec<u8>>>>)
    ensures
        records_model(records@) == csv_records(input@, has_headers),
{
    split(input, has_headers)
}

} // verus!
