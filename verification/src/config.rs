//! The document converter that the stage is given.

use crate::document::{facts_of, DocFacts, ParsedDoc, ParsedDocBatch, RawDocBatch};
use crate::model::{lemma_well_formed_batch_counts_all, StageModel};
use tantivy::Document;
use vstd::prelude::*;

verus! {

/// Why a raw document could not be turned into a document of the index.
pub struct DocParsingError {
    pub message: String,
}

/// What the stage needs of the configuration of an index: which field holds
/// a document's timestamp, and the conversion of raw documents.
///
/// Both answers are taken to depend on the configuration and the raw
/// document alone: the same configuration gives the same answers. An
/// implementation is held to that, and nothing checks it.
///
/// `designated_timestamp_field` and `converted` state what `timestamp_field`
/// and `doc_from_json` return. Contracts speak of them and nothing runs
/// them; an implementation in code that is not verified writes them as
/// functions that return the same.
pub trait IndexConfig {
    /// The id of the field that the configuration designates for timestamps,
    /// if it designates one.
    spec fn designated_timestamp_field(&self) -> Option<u32>;

    /// What the configuration makes of the raw document `doc_json`: the
    /// parsed document, or nothing where the raw document is malformed.
    spec fn converted(&self, doc_json: String) -> Option<Document>;

    /// The id of the field that holds a document's timestamp, if the index
    /// has one.
    fn timestamp_field(&self) -> (timestamp_field_opt: Option<u32>)
        ensures
            timestamp_field_opt == self.designated_timestamp_field(),
    ;

    /// Parses a raw document.
    fn doc_from_json(&self, doc_json: &str) -> (result: Result<Document, DocParsingError>)
        ensures
            forall|raw: String|
                raw@ == doc_json@ ==> #[trigger] self.converted(raw) == match result {
                    Ok(doc) => Some(doc),
                    Err(_) => None,
                },
    ;
}

/// What the stage reads of each raw document of a message, once
/// `index_config` has converted it.
pub open spec fn converted_facts<C: IndexConfig>(index_config: &C, docs: Seq<String>) -> Seq<
    DocFacts,
> {
    docs.map_values(
        |doc_json: String|
            (ParsedDoc { doc_json, parsed: index_config.converted(doc_json) }).facts(),
    )
}

/// Parses every raw document of a message, in order, and keeps each raw
/// document beside what the converter made of it.
pub fn parse_batch<C: IndexConfig>(index_config: &C, batch: RawDocBatch) -> (parsed_batch:
    ParsedDocBatch)
    ensures
        parsed_batch.docs@.len() == batch.docs@.len(),
        forall|i: int|
            0 <= i < batch.docs@.len() ==> {
                &&& (#[trigger] parsed_batch.docs@[i]).doc_json == batch.docs@[i]
                &&& parsed_batch.docs@[i].parsed == index_config.converted(batch.docs@[i])
            },
        facts_of(parsed_batch.docs@) == converted_facts(index_config, batch.docs@),
{
    let ghost raw_docs = batch.docs@;
    let mut docs: Vec<ParsedDoc> = Vec::new();
    for doc_json in it: batch.docs
        invariant
            it.seq() == raw_docs,
            docs@.len() == it.index(),
            forall|i: int|
                0 <= i < it.index() ==> {
                    &&& (#[trigger] docs@[i]).doc_json == raw_docs[i]
                    &&& docs@[i].parsed == index_config.converted(raw_docs[i])
                },
    {
        let parsed = match index_config.doc_from_json(doc_json.as_str()) {
            Ok(doc) => Some(doc),
            Err(_) => None,
        };
        docs.push(ParsedDoc { doc_json, parsed });
    }
    assert(facts_of(docs@) =~= converted_facts(index_config, raw_docs));
    ParsedDocBatch { docs }
}

/// A message whose raw documents all convert counts each of them as indexed
/// and leaves the count of parse errors as it was, once the stage has dealt
/// with it.
pub proof fn lemma_convertible_message_counts_all<C: IndexConfig>(
    stage: StageModel,
    index_config: &C,
    docs: Seq<String>,
)
    requires
        !stage.is_idle(),
        forall|i: int| 0 <= i < docs.len() ==> index_config.converted(#[trigger] docs[i]) is Some,
    ensures
        stage.index_batch(converted_facts(index_config, docs)).counters.docs
            == stage.counters.docs + docs.len(),
        stage.index_batch(converted_facts(index_config, docs)).counters.parse_error
            == stage.counters.parse_error,
{
    lemma_well_formed_batch_counts_all(stage, converted_facts(index_config, docs));
}

} // verus!
