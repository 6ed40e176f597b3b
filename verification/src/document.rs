//! Documents as the stage sees them: the raw text, whether it parsed, and
//! what the parsed document holds.

use tantivy::schema::Field;
use tantivy::Document;
use vstd::prelude::*;
use vstd::utf8::encode_utf8;

verus! {

#[verifier::external_type_specification]
#[verifier::external_body]
pub struct ExDocument(Document);

/// What stands for a parsed document: its `(field id, value)` pairs in the
/// order in which they were added, each value as the signed integer that it
/// is, or as nothing where it is of another type.
pub type FieldValues = Seq<(u32, Option<i64>)>;

/// The `(field id, value)` pairs that a document holds, in the order in which
/// they were added, each value read as `tantivy::schema::Value::as_i64` reads
/// it: the integer where the value is a signed 64-bit integer, nothing for any
/// other type of value.
pub uninterp spec fn document_i64_values(doc: Document) -> Seq<(u32, Option<i64>)>;

/// The reading of the first value that `values` holds for the field `field_id`.
pub open spec fn first_value_of(values: FieldValues, field_id: u32) -> Option<Option<i64>>
    decreases values.len(),
{
    if values.len() == 0 {
        None
    } else if values[0].0 == field_id {
        Some(values[0].1)
    } else {
        first_value_of(values.drop_first(), field_id)
    }
}

/// The timestamp that a document carries: the first value of its timestamp
/// field, where a timestamp field is designated, the document holds a value
/// for it and that value is a signed integer.
pub open spec fn timestamp_in(values: FieldValues, timestamp_field_opt: Option<u32>) -> Option<
    i64,
> {
    match timestamp_field_opt {
        Some(field_id) => match first_value_of(values, field_id) {
            Some(value) => value,
            None => None,
        },
        None => None,
    }
}

/// `tantivy::Document::get_first` for the field that `Field::from_field_id`
/// makes of `field_id`, its result read by `tantivy::schema::Value::as_i64`.
///
/// Trusted: the result is the reading of the first value that the document
/// holds for that field, and `None` where it holds no value for it.
#[verifier::external_body]
fn get_first_as_i64(doc: &Document, field_id: u32) -> (value: Option<Option<i64>>)
    ensures
        value == first_value_of(document_i64_values(*doc), field_id),
{
    doc.get_first(Field::from_field_id(field_id)).map(|value| value.as_i64())
}

/// Reads the timestamp of `doc` from the field `timestamp_field_opt`.
pub fn extract_timestamp(doc: &Document, timestamp_field_opt: Option<u32>) -> (timestamp: Option<
    i64,
>)
    ensures
        timestamp == timestamp_in(document_i64_values(*doc), timestamp_field_opt),
{
    let timestamp_field = timestamp_field_opt?;
    let timestamp_value = get_first_as_i64(doc, timestamp_field)?;
    timestamp_value
}

/// What the stage reads of one document of a batch.
pub struct DocFacts {
    /// The size of the raw document.
    pub num_bytes: nat,
    /// What the parsed document holds; nothing where the raw document is
    /// malformed.
    pub parsed: Option<FieldValues>,
}

impl DocFacts {
    /// The timestamp of the document, where it parsed and carries one.
    pub open spec fn timestamp(self, timestamp_field_opt: Option<u32>) -> Option<i64> {
        match self.parsed {
            Some(values) => timestamp_in(values, timestamp_field_opt),
            None => None,
        }
    }
}

/// The raw documents that arrive together as one message.
pub struct RawDocBatch {
    pub docs: Vec<String>,
}

/// A raw document together with what the document converter made of it: the
/// parsed document, or nothing where the raw one is malformed.
pub struct ParsedDoc {
    pub doc_json: String,
    pub parsed: Option<Document>,
}

impl ParsedDoc {
    /// The size of the raw document: the bytes of its text.
    pub open spec fn num_bytes(self) -> nat {
        encode_utf8(self.doc_json@).len()
    }

    /// What the stage reads of the document.
    pub open spec fn facts(self) -> DocFacts {
        DocFacts {
            num_bytes: self.num_bytes(),
            parsed: match self.parsed {
                Some(doc) => Some(document_i64_values(doc)),
                None => None,
            },
        }
    }

    /// The size of the raw document in bytes.
    pub fn size_in_bytes(&self) -> (size: u64)
        ensures
            size == self.num_bytes(),
    {
        self.doc_json.as_str().as_bytes().len() as u64
    }
}

/// The documents of one message after parsing, in the order of the message.
pub struct ParsedDocBatch {
    pub docs: Vec<ParsedDoc>,
}

/// What the stage reads of each document of a batch.
pub open spec fn facts_of(docs: Seq<ParsedDoc>) -> Seq<DocFacts> {
    docs.map_values(|doc: ParsedDoc| doc.facts())
}

} // verus!
