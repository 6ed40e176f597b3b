//! What can stop the stage.

use crate::split::IndexedSplit;
use tantivy::TantivyError;
use vstd::prelude::*;

verus! {

/// The failures that the stage reports. Each of them ends the processing of
/// the batch at hand; a document that does not parse is no failure.
pub enum IndexerError {
    /// A batch arrived while the stage held no split to route it to.
    NoIndexWriter,
    /// The split's writer refused the document at `doc_index` of the batch.
    Writer { doc_index: usize, error: TantivyError },
    /// The packager no longer accepts splits. The split that could not be
    /// handed over comes back with the error.
    SinkClosed(IndexedSplit),
}

} // verus!
