//! The split that the stage is filling: a segment writer together with the
//! statistics of what was fed to it.

use crate::document::{document_i64_values, FieldValues};
use crate::time_range::TimeRange;
use tantivy::{Document, IndexWriter, TantivyError};
use vstd::prelude::*;

verus! {

#[verifier::external_type_specification]
#[verifier::external_body]
pub struct ExIndexWriter(IndexWriter);

#[verifier::external_type_specification]
#[verifier::external_body]
pub struct ExTantivyError(TantivyError);

/// The documents that a writer has accepted for indexing, in the order in
/// which it accepted them, each as `document_i64_values` reads it.
pub uninterp spec fn documents_added_to(index_writer: IndexWriter) -> Seq<Seq<(u32, Option<i64>)>>;

/// `tantivy::IndexWriter::add_document`: queues `doc` for the writer's
/// indexing threads and gives the stamp of the operation, or fails when those
/// threads are gone.
///
/// Trusted: a document that is accepted comes after all that the writer
/// accepted before, and one that is refused is not added. Whether a document
/// is accepted depends on the state of the writer's threads, and nothing is
/// claimed of it.
#[verifier::external_body]
pub(crate) fn add_document(index_writer: &mut IndexWriter, doc: Document) -> (outcome: Result<
    u64,
    TantivyError,
>)
    ensures
        documents_added_to(*final(index_writer)) == match outcome {
            Ok(_) => documents_added_to(*old(index_writer)).push(document_i64_values(doc)),
            Err(_) => documents_added_to(*old(index_writer)),
        },
{
    index_writer.add_document(doc)
}

/// A split as the contracts of the stage speak of it. The documents that its
/// writer has accepted stand for the writer.
pub struct SplitModel {
    pub index_id: Seq<char>,
    /// The documents that the split's writer has accepted.
    pub docs: Seq<FieldValues>,
    pub size_in_bytes: nat,
    pub time_range: Option<TimeRange>,
}

impl SplitModel {
    /// A split that has not been fed anything, on a writer that has
    /// accepted `docs` before.
    pub open spec fn fresh(index_id: Seq<char>, docs: Seq<FieldValues>) -> SplitModel {
        SplitModel { index_id, docs, size_in_bytes: 0, time_range: None }
    }

    /// A split is well formed when its range, if it has one, is.
    pub open spec fn wf(self) -> bool {
        self.time_range is Some ==> self.time_range->0.wf()
    }
}

/// A split in progress. Its writer is committed by the stage that receives
/// the split, never here.
pub struct IndexedSplit {
    pub index_id: String,
    pub index_writer: IndexWriter,
    /// The bytes of all the raw documents routed to this split, the ones that
    /// could not be parsed included.
    pub size_in_bytes: u64,
    /// The range of the timestamps of the documents added to this split.
    pub time_range: Option<TimeRange>,
}

impl View for IndexedSplit {
    type V = SplitModel;

    open spec fn view(&self) -> SplitModel {
        SplitModel {
            index_id: self.index_id@,
            docs: documents_added_to(self.index_writer),
            size_in_bytes: self.size_in_bytes as nat,
            time_range: self.time_range,
        }
    }
}

/// The statistics of a split as they stand at one moment.
#[derive(Clone, Copy, Debug, PartialEq, Eq)]
pub struct SplitStatistics {
    pub size_in_bytes: u64,
    pub time_range: Option<TimeRange>,
}

impl IndexedSplit {
    /// A split for the index `index_id` that feeds `index_writer` and has not
    /// been fed anything yet.
    pub fn new(index_id: String, index_writer: IndexWriter) -> (split: IndexedSplit)
        ensures
            split@ == SplitModel::fresh(index_id@, documents_added_to(index_writer)),
            split.index_writer == index_writer,
    {
        IndexedSplit { index_id, index_writer, size_in_bytes: 0, time_range: None }
    }

    /// A copy of the split's statistics.
    pub fn statistics(&self) -> (statistics: SplitStatistics)
        ensures
            statistics.size_in_bytes == self@.size_in_bytes,
            statistics.time_range == self@.time_range,
    {
        SplitStatistics { size_in_bytes: self.size_in_bytes, time_range: self.time_range }
    }
}

} // verus!
