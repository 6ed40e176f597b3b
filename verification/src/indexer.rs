//! The indexing stage: it routes the documents of each batch to the split in
//! progress, keeps the split's statistics and the counters, and decides when
//! the split is due.
//!
//! A batch takes three calls. `start_split`, where `needs_split` says so, with
//! a writer that the caller has made; `process_message` on the parsed batch;
//! `flush_if_due` with the reading of the clock once the batch is done. A
//! split that `flush_if_due` hands out goes to the packager, and
//! `sent_to_packager` says what the outcome of that handoff means.

use crate::config::IndexConfig;
use crate::counters::IndexerCounters;
use crate::document::{extract_timestamp, facts_of, ParsedDoc, ParsedDocBatch, RawDocBatch};
use crate::error::IndexerError;
use crate::model::{
    lemma_batch_adds_up, lemma_batch_keeps_inv, lemma_doc_keeps_inv,
    lemma_empty_batch_adds_nothing, lemma_last_doc_adds, lemma_route_keeps_inv,
    lemma_total_bytes_of_prefix, num_malformed, parsed_of, timestamps_of, total_bytes, StageModel,
};
use crate::split::{
    add_document, documents_added_to, IndexedSplit, SplitModel, SplitStatistics,
};
use crate::time_range::{widen, widened_by_all};
use tantivy::{IndexWriter, TantivyError};
use vstd::prelude::*;

verus! {

/// The state of the indexing stage. Time is counted in ticks of a clock of
/// the caller's choice; the stage only adds and compares them.
pub struct Indexer {
    index_id: String,
    commit_timeout: u64,
    next_commit_deadline_opt: Option<u128>,
    current_split_opt: Option<IndexedSplit>,
    counters: IndexerCounters,
    timestamp_field_opt: Option<u32>,
}

impl View for Indexer {
    type V = StageModel;

    closed spec fn view(&self) -> StageModel {
        StageModel {
            index_id: self.index_id@,
            timestamp_field_opt: self.timestamp_field_opt,
            commit_timeout: self.commit_timeout as nat,
            next_commit_deadline_opt: match self.next_commit_deadline_opt {
                Some(deadline) => Some(deadline as nat),
                None => None,
            },
            current_split_opt: match self.current_split_opt {
                Some(split) => Some(split@),
                None => None,
            },
            counters: self.counters@,
        }
    }
}

impl Indexer {
    /// An idle stage for the index `index_id`. Documents carry their timestamp
    /// in the field `timestamp_field_opt`, if any; a split is due
    /// `commit_timeout` ticks after it was started.
    pub fn new(
        index_id: String,
        timestamp_field_opt: Option<u32>,
        commit_timeout: u64,
    ) -> (indexer: Indexer)
        ensures
            indexer@ == StageModel::initial(index_id@, timestamp_field_opt, commit_timeout as nat),
            indexer@.inv(),
            indexer@.is_idle(),
    {
        Indexer {
            index_id,
            commit_timeout,
            next_commit_deadline_opt: None,
            current_split_opt: None,
            counters: IndexerCounters::default(),
            timestamp_field_opt,
        }
    }

    /// An idle stage for the index `index_id`, whose documents carry their
    /// timestamp in the field that `index_config` names, if it names one.
    pub fn try_new<C: IndexConfig>(
        index_id: String,
        index_config: &C,
        commit_timeout: u64,
    ) -> (indexer: Indexer)
        ensures
            indexer@ == StageModel::initial(
                index_id@,
                index_config.designated_timestamp_field(),
                commit_timeout as nat,
            ),
            indexer@.inv(),
            indexer@.is_idle(),
    {
        let timestamp_field_opt = index_config.timestamp_field();
        Indexer::new(index_id, timestamp_field_opt, commit_timeout)
    }

    /// A copy of the counters as they stand.
    pub fn observable_state(&self) -> (counters: IndexerCounters)
        ensures
            counters@ == self@.counters,
    {
        self.counters
    }

    /// The id of the field in which documents carry their timestamp, if any.
    pub fn timestamp_field(&self) -> (timestamp_field_opt: Option<u32>)
        ensures
            timestamp_field_opt == self@.timestamp_field_opt,
    {
        self.timestamp_field_opt
    }

    /// Whether the stage holds no split.
    pub fn is_idle(&self) -> (idle: bool)
        ensures
            idle == self@.is_idle(),
    {
        self.current_split_opt.is_none()
    }

    /// A copy of the statistics of the split in progress, if there is one.
    pub fn split_statistics(&self) -> (statistics: Option<SplitStatistics>)
        ensures
            match statistics {
                Some(statistics) => {
                    &&& self@.current_split_opt is Some
                    &&& statistics.size_in_bytes == self@.current_split_opt->0.size_in_bytes
                    &&& statistics.time_range == self@.current_split_opt->0.time_range
                },
                None => self@.is_idle(),
            },
    {
        match &self.current_split_opt {
            Some(indexed_split) => Some(indexed_split.statistics()),
            None => None,
        }
    }

    /// The tick at which the split in progress is due, if there is one.
    pub fn next_commit_deadline(&self) -> (deadline: Option<u128>)
        ensures
            match deadline {
                Some(deadline) => self@.next_commit_deadline_opt == Some(deadline as nat),
                None => self@.next_commit_deadline_opt is None,
            },
    {
        self.next_commit_deadline_opt
    }

    /// Whether a split has to be started before `batch` is dealt with: the
    /// stage is idle and the batch holds a document. A batch without documents
    /// starts no split.
    pub fn needs_split(&self, batch: &RawDocBatch) -> (needed: bool)
        ensures
            needed == (self@.is_idle() && batch.docs@.len() > 0),
    {
        self.current_split_opt.is_none() && batch.docs.len() > 0
    }

    /// A fresh split of the stage's index that feeds `index_writer`.
    pub fn create_indexed_split(&self, index_writer: IndexWriter) -> (split: IndexedSplit)
        ensures
            split@ == SplitModel::fresh(self@.index_id, documents_added_to(index_writer)),
            split.index_writer == index_writer,
    {
        IndexedSplit::new(self.index_id.clone(), index_writer)
    }

    /// Starts a split on `index_writer` at the tick `now` and arms the commit
    /// deadline, where the stage is idle. A stage that holds a split keeps it
    /// and gives the writer back.
    pub fn start_split(&mut self, index_writer: IndexWriter, now: u64) -> (unused: Result<
        (),
        IndexWriter,
    >)
        requires
            old(self)@.inv(),
        ensures
            final(self)@.inv(),
            final(self)@ == old(self)@.start_split(documents_added_to(index_writer), now as nat),
            match unused {
                Ok(()) => old(self)@.is_idle(),
                Err(given_back) => !old(self)@.is_idle() && given_back == index_writer,
            },
    {
        if self.current_split_opt.is_some() {
            return Err(index_writer);
        }
        let new_indexed_split = self.create_indexed_split(index_writer);
        self.current_split_opt = Some(new_indexed_split);
        self.next_commit_deadline_opt = Some(now as u128 + self.commit_timeout as u128);
        Ok(())
    }

    /// Whether the stage can deal with `batch` without a counter or the size
    /// of the split in progress running over what a `u64` holds.
    pub open spec fn has_room_for(&self, batch: ParsedDocBatch) -> bool {
        let docs = facts_of(batch.docs@);
        &&& self@.counters.docs + docs.len() <= u64::MAX
        &&& self@.counters.parse_error + docs.len() <= u64::MAX
        &&& self@.current_split_opt is Some ==> self@.current_split_opt->0.size_in_bytes
            + total_bytes(docs) <= u64::MAX
    }

    /// Tests, for a caller that cannot know it otherwise, whether the stage
    /// has room for `batch`.
    pub fn check_room_for(&self, batch: &ParsedDocBatch) -> (room: bool)
        ensures
            room == self.has_room_for(*batch),
    {
        let num_docs = batch.docs.len();
        if self.counters.docs > u64::MAX - num_docs as u64 {
            return false;
        }
        if self.counters.parse_error > u64::MAX - num_docs as u64 {
            return false;
        }
        let ghost docs = facts_of(batch.docs@);
        match &self.current_split_opt {
            None => true,
            Some(indexed_split) => {
                let mut room: u64 = u64::MAX - indexed_split.size_in_bytes;
                let mut i: usize = 0;
                while i < num_docs
                    invariant
                        i <= num_docs == batch.docs@.len() == docs.len(),
                        docs == facts_of(batch.docs@),
                        self@.counters.docs + docs.len() <= u64::MAX,
                        self@.counters.parse_error + docs.len() <= u64::MAX,
                        self@.current_split_opt == Some(indexed_split@),
                        room + total_bytes(docs.take(i as int)) == u64::MAX
                            - indexed_split.size_in_bytes,
                    decreases num_docs - i,
                {
                    let num_bytes = batch.docs[i].size_in_bytes();
                    proof {
                        lemma_total_bytes_of_prefix(docs, i as int + 1);
                        lemma_last_doc_adds(docs.take(i as int + 1));
                        assert(docs.take(i as int + 1).drop_last() =~= docs.take(i as int));
                    }
                    if num_bytes > room {
                        return false;
                    }
                    room = room - num_bytes;
                    i = i + 1;
                }
                true
            },
        }
    }

    /// Routes one document to the split in progress, before it goes to the
    /// split's writer. The split grows by `num_bytes`, the size of the raw
    /// document. A document that did not parse is counted as a parse error; a
    /// parsed one widens the split's range by its timestamp, if it has one. An
    /// idle stage routes nothing.
    pub fn route_doc(&mut self, num_bytes: u64, parsed: bool, timestamp_opt: Option<i64>)
        requires
            old(self)@.current_split_opt is Some ==> {
                &&& old(self)@.current_split_opt->0.size_in_bytes + num_bytes <= u64::MAX
                &&& !parsed ==> old(self)@.counters.parse_error < u64::MAX
            },
        ensures
            final(self)@ == old(self)@.route_doc(num_bytes as nat, parsed, timestamp_opt),
            old(self)@.inv() ==> final(self)@.inv(),
    {
        proof {
            if old(self)@.inv() {
                lemma_route_keeps_inv(old(self)@, num_bytes as nat, parsed, timestamp_opt);
            }
        }
        if let Some(indexed_split) = &mut self.current_split_opt {
            indexed_split.size_in_bytes = indexed_split.size_in_bytes + num_bytes;
            if parsed {
                if let Some(timestamp) = timestamp_opt {
                    indexed_split.time_range = Some(widen(indexed_split.time_range, timestamp));
                }
            } else {
                self.counters.parse_error = self.counters.parse_error + 1;
            }
        }
    }

    /// Records what the split's writer answered to the document at
    /// `doc_index` of the batch: an accepted document is counted as indexed,
    /// a refused one is not counted and is reported.
    pub fn record_append(
        &mut self,
        doc_index: usize,
        outcome: Result<u64, TantivyError>,
    ) -> (result: Result<(), IndexerError>)
        requires
            outcome is Ok ==> old(self)@.counters.docs < u64::MAX,
        ensures
            match outcome {
                Ok(_) => result is Ok && final(self)@ == old(self)@.count_indexed(),
                Err(error) => result == Err::<(), IndexerError>(
                    IndexerError::Writer { doc_index, error },
                ) && final(self)@ == old(self)@,
            },
            old(self)@.inv() ==> final(self)@.inv(),
    {
        match outcome {
            Ok(_) => {
                self.counters.docs = self.counters.docs + 1;
                Ok(())
            },
            Err(error) => Err(IndexerError::Writer { doc_index, error }),
        }
    }

    /// Deals with one document of a batch: routes it to the split in progress
    /// and, where it parsed, hands it to the split's writer.
    fn index_doc(&mut self, doc_index: usize, parsed_doc: ParsedDoc) -> (result: Result<
        (),
        IndexerError,
    >)
        requires
            !old(self)@.is_idle(),
            old(self)@.current_split_opt->0.size_in_bytes + parsed_doc.num_bytes() <= u64::MAX,
            old(self)@.counters.docs < u64::MAX,
            old(self)@.counters.parse_error < u64::MAX,
        ensures
            match result {
                Ok(()) => final(self)@ == old(self)@.index_doc(parsed_doc.facts()),
                Err(IndexerError::Writer { doc_index: at, error }) => at == doc_index
                    && parsed_doc.parsed is Some && final(self)@ == old(self)@.refuse_doc(
                    parsed_doc.facts(),
                ),
                Err(_) => false,
            },
            parsed_doc.parsed is None ==> result is Ok,
    {
        let num_bytes = parsed_doc.size_in_bytes();
        match parsed_doc.parsed {
            None => {
                self.route_doc(num_bytes, false, None);
                Ok(())
            },
            Some(doc) => {
                let timestamp_opt = extract_timestamp(&doc, self.timestamp_field_opt);
                self.route_doc(num_bytes, true, timestamp_opt);
                let outcome = match &mut self.current_split_opt {
                    Some(indexed_split) => add_document(&mut indexed_split.index_writer, doc),
                    None => return Err(IndexerError::NoIndexWriter),
                };
                self.record_append(doc_index, outcome)
            },
        }
    }

    /// Deals with one batch: routes its documents, in order, to the split in
    /// progress. A document that does not parse is counted and skipped. The
    /// batch ends early only where the split's writer refuses a document. An
    /// idle stage takes a batch without documents and stays idle; it refuses
    /// a batch that holds documents, for which a split has to be started
    /// first.
    pub fn process_message(&mut self, batch: ParsedDocBatch) -> (result: Result<(), IndexerError>)
        requires
            old(self)@.inv(),
            old(self).has_room_for(batch),
        ensures
            final(self)@.inv(),
            ({
                let stage = old(self)@;
                let docs = facts_of(batch.docs@);
                &&& match result {
                    Ok(()) => {
                        &&& stage.is_idle() ==> docs.len() == 0
                        &&& final(self)@ == stage.index_batch(docs)
                    },
                    Err(IndexerError::NoIndexWriter) => {
                        &&& stage.is_idle()
                        &&& docs.len() > 0
                        &&& final(self)@ == stage
                    },
                    Err(IndexerError::Writer { doc_index, error }) => {
                        &&& !stage.is_idle()
                        &&& doc_index < docs.len()
                        &&& docs[doc_index as int].parsed is Some
                        &&& final(self)@ == stage.index_batch(
                            docs.take(doc_index as int),
                        ).refuse_doc(docs[doc_index as int])
                    },
                    Err(IndexerError::SinkClosed(_)) => false,
                }
                &&& stage.is_idle() && docs.len() == 0 ==> result is Ok && final(self)@ == stage
                &&& (!stage.is_idle() && forall|i: int|
                    0 <= i < docs.len() ==> (#[trigger] docs[i]).parsed is None) ==> result is Ok
                &&& result is Ok ==> {
                    &&& final(self)@.counters.parse_error == stage.counters.parse_error
                        + num_malformed(docs)
                    &&& final(self)@.counters.docs == stage.counters.docs + docs.len()
                        - num_malformed(docs)
                }
                &&& result is Ok && !stage.is_idle() ==> {
                    &&& final(self)@.current_split_opt->0.size_in_bytes
                        == stage.current_split_opt->0.size_in_bytes + total_bytes(docs)
                    &&& final(self)@.current_split_opt->0.docs == stage.current_split_opt->0.docs
                        + parsed_of(docs)
                    &&& final(self)@.current_split_opt->0.time_range == widened_by_all(
                        stage.current_split_opt->0.time_range,
                        timestamps_of(docs, stage.timestamp_field_opt),
                    )
                }
            }),
    {
        if self.current_split_opt.is_none() {
            if batch.docs.len() == 0 {
                proof {
                    lemma_empty_batch_adds_nothing(None);
                }
                return Ok(());
            }
            return Err(IndexerError::NoIndexWriter);
        }
        let ghost stage = self@;
        let ghost docs = facts_of(batch.docs@);
        let mut doc_index: usize = 0;
        assert(batch.docs.len() == batch.docs@.len());
        for parsed_doc in it: batch.docs
            invariant
                stage.inv(),
                !stage.is_idle(),
                docs == facts_of(batch.docs@),
                it.seq() == batch.docs@,
                doc_index == it.index(),
                self@ == stage.index_batch(docs.take(doc_index as int)),
                stage == old(self)@,
                batch.docs@.len() <= usize::MAX,
                stage.counters.docs + docs.len() <= u64::MAX,
                stage.counters.parse_error + docs.len() <= u64::MAX,
                stage.current_split_opt->0.size_in_bytes + total_bytes(docs) <= u64::MAX,
        {
            proof {
                lemma_batch_adds_up(stage, docs.take(doc_index as int));
                lemma_batch_keeps_inv(stage, docs.take(doc_index as int));
                lemma_total_bytes_of_prefix(docs, doc_index as int + 1);
                lemma_last_doc_adds(docs.take(doc_index as int + 1));
                assert(docs.take(doc_index as int + 1).drop_last() =~= docs.take(doc_index as int));
            }
            match self.index_doc(doc_index, parsed_doc) {
                Ok(()) => {},
                Err(error) => {
                    proof {
                        lemma_doc_keeps_inv(
                            stage.index_batch(docs.take(doc_index as int)),
                            docs[doc_index as int],
                        );
                    }
                    return Err(error);
                },
            }
            doc_index = doc_index + 1;
        }
        proof {
            lemma_batch_adds_up(stage, docs);
            lemma_batch_keeps_inv(stage, docs);
        }
        Ok(())
    }

    /// Whether the split in progress is due at the tick `now`.
    pub fn commit_due(&self, now: u64) -> (due: bool)
        ensures
            due == self@.commit_due(now as nat),
    {
        match self.next_commit_deadline_opt {
            Some(deadline) => now as u128 >= deadline,
            None => false,
        }
    }

    /// Detaches the split in progress, for the caller to hand it to the
    /// packager, and leaves the stage idle. Without a split in progress nothing
    /// changes and nothing is handed out.
    pub fn flush(&mut self) -> (split: Option<IndexedSplit>)
        requires
            old(self)@.inv(),
        ensures
            final(self)@.inv(),
            final(self)@ == old(self)@.flush(),
            final(self)@.is_idle(),
            match split {
                Some(split) => old(self)@.current_split_opt == Some(split@) && split@.wf(),
                None => old(self)@.is_idle() && final(self)@ == old(self)@,
            },
    {
        let split = self.current_split_opt.take();
        self.next_commit_deadline_opt = None;
        split
    }

    /// What the stage does once a batch has been dealt with, or whenever else
    /// the caller looks at the clock: it flushes the split in progress where
    /// that split is due at the tick `now`, and else changes nothing.
    pub fn flush_if_due(&mut self, now: u64) -> (split: Option<IndexedSplit>)
        requires
            old(self)@.inv(),
        ensures
            final(self)@.inv(),
            final(self)@ == if old(self)@.commit_due(now as nat) {
                old(self)@.flush()
            } else {
                old(self)@
            },
            match split {
                Some(split) => old(self)@.commit_due(now as nat) && old(self)@.current_split_opt
                    == Some(split@) && split@.wf(),
                None => !old(self)@.commit_due(now as nat),
            },
    {
        if self.commit_due(now) {
            self.flush()
        } else {
            None
        }
    }

    /// What becomes of a handoff: a split that the packager took is done
    /// with; one that came back because the packager is closed is a failure
    /// that carries the split.
    pub fn sent_to_packager(outcome: Result<(), IndexedSplit>) -> (result: Result<(), IndexerError>)
        ensures
            match outcome {
                Ok(()) => result is Ok,
                Err(split) => result == Err::<(), IndexerError>(IndexerError::SinkClosed(split)),
            },
    {
        match outcome {
            Ok(()) => Ok(()),
            Err(split) => Err(IndexerError::SinkClosed(split)),
        }
    }
}

} // verus!
