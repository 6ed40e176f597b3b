//! The indexing stage as a state machine over plain values: what each
//! operation of the stage does to its state, and what follows from that.

use crate::counters::CountersModel;
use crate::document::{DocFacts, FieldValues};
use crate::split::SplitModel;
use crate::time_range::{
    lemma_range_ignores_order, lemma_range_is_min_max, lemma_widened_never_narrows, widened_by_all,
    widened_opt,
};
use vstd::prelude::*;

verus! {

/// The state of the stage.
pub struct StageModel {
    pub index_id: Seq<char>,
    pub timestamp_field_opt: Option<u32>,
    pub commit_timeout: nat,
    pub next_commit_deadline_opt: Option<nat>,
    pub current_split_opt: Option<SplitModel>,
    pub counters: CountersModel,
}

impl StageModel {
    /// The stage as it starts: idle, with nothing counted.
    pub open spec fn initial(
        index_id: Seq<char>,
        timestamp_field_opt: Option<u32>,
        commit_timeout: nat,
    ) -> StageModel {
        StageModel {
            index_id,
            timestamp_field_opt,
            commit_timeout,
            next_commit_deadline_opt: None,
            current_split_opt: None,
            counters: CountersModel { parse_error: 0, docs: 0 },
        }
    }

    /// The stage is idle while it holds no split.
    pub open spec fn is_idle(self) -> bool {
        self.current_split_opt is None
    }

    /// What holds of the stage at all times: a commit deadline is armed
    /// exactly while a split is in progress, and that split is well formed
    /// and belongs to the stage's index.
    pub open spec fn inv(self) -> bool {
        &&& self.next_commit_deadline_opt is Some <==> self.current_split_opt is Some
        &&& self.current_split_opt is Some ==> {
            &&& self.current_split_opt->0.wf()
            &&& self.current_split_opt->0.index_id == self.index_id
        }
    }

    /// An idle stage starts a fresh split, on a writer that has accepted
    /// `docs` before, and arms the commit deadline; a stage that holds a split
    /// is left as it is.
    pub open spec fn start_split(self, docs: Seq<FieldValues>, now: nat) -> StageModel {
        if self.is_idle() {
            StageModel {
                current_split_opt: Some(SplitModel::fresh(self.index_id, docs)),
                next_commit_deadline_opt: Some(now + self.commit_timeout),
                ..self
            }
        } else {
            self
        }
    }

    /// The stage after one document has been routed to the split in progress.
    /// The split grows by the size of the raw document. A document that did
    /// not parse is counted as a parse error; a parsed one widens the split's
    /// range by its timestamp, if it has one, and is not counted yet. An idle
    /// stage routes nothing.
    pub open spec fn route_doc(self, num_bytes: nat, parsed: bool, timestamp_opt: Option<i64>)
        -> StageModel {
        match self.current_split_opt {
            Some(split) => StageModel {
                current_split_opt: Some(
                    SplitModel {
                        size_in_bytes: split.size_in_bytes + num_bytes,
                        time_range: if parsed {
                            widened_opt(split.time_range, timestamp_opt)
                        } else {
                            split.time_range
                        },
                        ..split
                    },
                ),
                counters: if parsed {
                    self.counters
                } else {
                    CountersModel { parse_error: self.counters.parse_error + 1, ..self.counters }
                },
                ..self
            },
            None => self,
        }
    }

    /// The stage after the writer of the split in progress has accepted a
    /// document.
    pub open spec fn add_doc(self, values: FieldValues) -> StageModel {
        match self.current_split_opt {
            Some(split) => StageModel {
                current_split_opt: Some(SplitModel { docs: split.docs.push(values), ..split }),
                ..self
            },
            None => self,
        }
    }

    /// The stage after a document that the split's writer accepted has been
    /// counted as indexed.
    pub open spec fn count_indexed(self) -> StageModel {
        StageModel {
            counters: CountersModel { docs: self.counters.docs + 1, ..self.counters },
            ..self
        }
    }

    /// The stage after a parsed document has been routed to the split in
    /// progress and the split's writer has refused it.
    pub open spec fn refuse_doc(self, doc: DocFacts) -> StageModel {
        self.route_doc(doc.num_bytes, true, doc.timestamp(self.timestamp_field_opt))
    }

    /// The stage after one document has been dealt with: a malformed one is
    /// routed to the split; a parsed one is routed to it, accepted by its
    /// writer and counted. An idle stage deals with no document.
    pub open spec fn index_doc(self, doc: DocFacts) -> StageModel {
        if self.is_idle() {
            self
        } else {
            match doc.parsed {
                Some(values) => self.refuse_doc(doc).add_doc(values).count_indexed(),
                None => self.route_doc(doc.num_bytes, false, None),
            }
        }
    }

    /// The stage after every document of `docs` has been dealt with, in order.
    pub open spec fn index_batch(self, docs: Seq<DocFacts>) -> StageModel {
        docs.fold_left(self, |stage: StageModel, doc: DocFacts| stage.index_doc(doc))
    }

    /// Whether the split in progress is due to be committed at `now`.
    pub open spec fn commit_due(self, now: nat) -> bool {
        match self.next_commit_deadline_opt {
            Some(deadline) => now >= deadline,
            None => false,
        }
    }

    /// The stage after its split, if it had one, has been detached.
    pub open spec fn flush(self) -> StageModel {
        StageModel { current_split_opt: None, next_commit_deadline_opt: None, ..self }
    }
}

/// How many of `docs` could not be parsed.
pub open spec fn num_malformed(docs: Seq<DocFacts>) -> nat {
    docs.filter(|doc: DocFacts| doc.parsed is None).len()
}

/// The sizes of all of `docs`, added up.
pub open spec fn total_bytes(docs: Seq<DocFacts>) -> nat {
    docs.fold_left(0nat, |sum: nat, doc: DocFacts| sum + doc.num_bytes)
}

/// Those of `docs` that parsed, in order.
pub open spec fn parsed_of(docs: Seq<DocFacts>) -> Seq<FieldValues> {
    docs.filter_map(|doc: DocFacts| doc.parsed)
}

/// The timestamps of those of `docs` that parsed and carry one, in order.
pub open spec fn timestamps_of(docs: Seq<DocFacts>, timestamp_field_opt: Option<u32>) -> Seq<i64> {
    docs.filter_map(|doc: DocFacts| doc.timestamp(timestamp_field_opt))
}

/// The stage starts in a state that meets what holds of it at all times, and
/// every operation keeps it so.
pub proof fn lemma_inv_is_kept(
    stage: StageModel,
    writer_docs: Seq<FieldValues>,
    now: nat,
    doc: DocFacts,
    docs: Seq<DocFacts>,
)
    requires
        stage.inv(),
    ensures
        StageModel::initial(stage.index_id, stage.timestamp_field_opt, stage.commit_timeout).inv(),
        stage.start_split(writer_docs, now).inv(),
        stage.refuse_doc(doc).inv(),
        stage.count_indexed().inv(),
        stage.index_doc(doc).inv(),
        stage.index_batch(docs).inv(),
        stage.flush().inv(),
{
    lemma_doc_keeps_inv(stage, doc);
    lemma_batch_keeps_inv(stage, docs);
}

/// Routing a document keeps what holds of the stage at all times.
pub proof fn lemma_route_keeps_inv(
    stage: StageModel,
    num_bytes: nat,
    parsed: bool,
    timestamp_opt: Option<i64>,
)
    requires
        stage.inv(),
    ensures
        stage.route_doc(num_bytes, parsed, timestamp_opt).inv(),
{
    if let Some(split) = stage.current_split_opt {
        if let Some(timestamp) = timestamp_opt {
            lemma_widened_never_narrows(split.time_range, timestamp);
        }
    }
}

/// Dealing with a document keeps what holds of the stage at all times,
/// whether the split's writer accepts the document or not.
pub proof fn lemma_doc_keeps_inv(stage: StageModel, doc: DocFacts)
    requires
        stage.inv(),
    ensures
        stage.refuse_doc(doc).inv(),
        stage.index_doc(doc).inv(),
{
    lemma_route_keeps_inv(stage, doc.num_bytes, true, doc.timestamp(stage.timestamp_field_opt));
    lemma_route_keeps_inv(stage, doc.num_bytes, false, None);
}

/// Dealing with a batch keeps what holds of the stage at all times.
pub proof fn lemma_batch_keeps_inv(stage: StageModel, docs: Seq<DocFacts>)
    requires
        stage.inv(),
    ensures
        stage.index_batch(docs).inv(),
    decreases docs.len(),
{
    if docs.len() > 0 {
        lemma_batch_keeps_inv(stage, docs.drop_last());
        lemma_doc_keeps_inv(stage.index_batch(docs.drop_last()), docs.last());
    }
}

/// The counters only ever grow: a batch adds to them, and neither starting
/// a split nor flushing one changes them.
pub proof fn lemma_counters_only_grow(
    stage: StageModel,
    writer_docs: Seq<FieldValues>,
    now: nat,
    docs: Seq<DocFacts>,
)
    ensures
        stage.start_split(writer_docs, now).counters == stage.counters,
        stage.flush().counters == stage.counters,
        stage.index_batch(docs).counters.docs >= stage.counters.docs,
        stage.index_batch(docs).counters.parse_error >= stage.counters.parse_error,
    decreases docs.len(),
{
    if docs.len() > 0 {
        lemma_counters_only_grow(stage, writer_docs, now, docs.drop_last());
    }
}

/// A split in progress only grows: a batch never makes it smaller, never
/// narrows its range and takes no document back from its writer, and the
/// split stays that of the same index.
pub proof fn lemma_split_only_grows(stage: StageModel, docs: Seq<DocFacts>)
    requires
        stage.inv(),
        !stage.is_idle(),
    ensures
        ({
            let before = stage.current_split_opt->0;
            let after = stage.index_batch(docs).current_split_opt->0;
            &&& !stage.index_batch(docs).is_idle()
            &&& after.index_id == before.index_id
            &&& before.docs.is_prefix_of(after.docs)
            &&& after.size_in_bytes >= before.size_in_bytes
            &&& before.time_range is Some ==> {
                &&& after.time_range is Some
                &&& after.time_range->0.start <= before.time_range->0.start
                &&& before.time_range->0.end <= after.time_range->0.end
            }
        }),
    decreases docs.len(),
{
    if docs.len() > 0 {
        lemma_split_only_grows(stage, docs.drop_last());
        lemma_batch_keeps_inv(stage, docs.drop_last());
        let earlier = stage.index_batch(docs.drop_last());
        let split = earlier.current_split_opt->0;
        if let Some(timestamp) = docs.last().timestamp(stage.timestamp_field_opt) {
            lemma_batch_adds_up(stage, docs.drop_last());
            lemma_widened_never_narrows(split.time_range, timestamp);
        }
    }
}

/// A batch changes the counters and the split in progress by what its
/// documents add up to, and nothing else. Of `n` documents of which `k` do not
/// parse, `k` are counted as parse errors and `n - k` as indexed; the split
/// grows by the sizes of all `n`; its writer accepts the parsed ones, in
/// order; its range widens by their timestamps.
pub proof fn lemma_batch_adds_up(stage: StageModel, docs: Seq<DocFacts>)
    requires
        !stage.is_idle(),
    ensures
        num_malformed(docs) <= docs.len(),
        parsed_of(docs).len() == docs.len() - num_malformed(docs),
        stage.index_batch(docs) == (StageModel {
            current_split_opt: Some(
                SplitModel {
                    docs: stage.current_split_opt->0.docs + parsed_of(docs),
                    size_in_bytes: stage.current_split_opt->0.size_in_bytes + total_bytes(docs),
                    time_range: widened_by_all(
                        stage.current_split_opt->0.time_range,
                        timestamps_of(docs, stage.timestamp_field_opt),
                    ),
                    ..stage.current_split_opt->0
                },
            ),
            counters: CountersModel {
                parse_error: stage.counters.parse_error + num_malformed(docs),
                docs: (stage.counters.docs + docs.len() - num_malformed(docs)) as nat,
            },
            ..stage
        }),
    decreases docs.len(),
{
    let split = stage.current_split_opt->0;
    if docs.len() > 0 {
        let front = docs.drop_last();
        lemma_batch_adds_up(stage, front);
        lemma_last_doc_adds(docs);
        lemma_last_timestamp_adds(docs, stage.timestamp_field_opt);
        if let Some(values) = docs.last().parsed {
            assert((split.docs + parsed_of(front)).push(values) =~= split.docs + parsed_of(docs));
        }
        if docs.last().timestamp(stage.timestamp_field_opt) is Some {
            assert(timestamps_of(docs, stage.timestamp_field_opt).drop_last() =~= timestamps_of(
                front,
                stage.timestamp_field_opt,
            ));
        }
    } else {
        lemma_empty_batch_adds_nothing(stage.timestamp_field_opt);
        assert(split.docs + parsed_of(docs) =~= split.docs);
    }
}

/// What an empty batch adds up to.
pub proof fn lemma_empty_batch_adds_nothing(timestamp_field_opt: Option<u32>)
    ensures
        num_malformed(Seq::empty()) == 0,
        total_bytes(Seq::empty()) == 0,
        parsed_of(Seq::empty()) == Seq::<FieldValues>::empty(),
        timestamps_of(Seq::empty(), timestamp_field_opt) == Seq::<i64>::empty(),
{
    reveal(Seq::filter);
}

/// What the last document of a batch adds to what the ones before it add up
/// to.
pub proof fn lemma_last_doc_adds(docs: Seq<DocFacts>)
    requires
        docs.len() > 0,
    ensures
        num_malformed(docs) == num_malformed(docs.drop_last()) + if docs.last().parsed is None {
            1nat
        } else {
            0nat
        },
        total_bytes(docs) == total_bytes(docs.drop_last()) + docs.last().num_bytes,
        parsed_of(docs) == match docs.last().parsed {
            Some(values) => parsed_of(docs.drop_last()).push(values),
            None => parsed_of(docs.drop_last()),
        },
{
    reveal(Seq::filter);
    if let Some(values) = docs.last().parsed {
        assert(parsed_of(docs.drop_last()) + seq![values] =~= parsed_of(docs.drop_last()).push(
            values,
        ));
    }
}

/// What the last document of a batch adds to the timestamps of the ones
/// before it.
proof fn lemma_last_timestamp_adds(docs: Seq<DocFacts>, timestamp_field_opt: Option<u32>)
    requires
        docs.len() > 0,
    ensures
        timestamps_of(docs, timestamp_field_opt) == match docs.last().timestamp(
            timestamp_field_opt,
        ) {
            Some(timestamp) => timestamps_of(docs.drop_last(), timestamp_field_opt).push(timestamp),
            None => timestamps_of(docs.drop_last(), timestamp_field_opt),
        },
{
    if let Some(timestamp) = docs.last().timestamp(timestamp_field_opt) {
        assert(timestamps_of(docs.drop_last(), timestamp_field_opt) + seq![timestamp]
            =~= timestamps_of(docs.drop_last(), timestamp_field_opt).push(timestamp));
    }
}

/// The first `n` documents of a batch are no larger than the whole batch.
pub proof fn lemma_total_bytes_of_prefix(docs: Seq<DocFacts>, n: int)
    requires
        0 <= n <= docs.len(),
    ensures
        total_bytes(docs.take(n)) <= total_bytes(docs),
    decreases docs.len() - n,
{
    if n < docs.len() {
        lemma_total_bytes_of_prefix(docs, n + 1);
        lemma_last_doc_adds(docs.take(n + 1));
        assert(docs.take(n + 1).drop_last() =~= docs.take(n));
    }
}

/// A batch of documents that all parse counts each of them as indexed and
/// leaves the count of parse errors as it was.
pub proof fn lemma_well_formed_batch_counts_all(stage: StageModel, docs: Seq<DocFacts>)
    requires
        !stage.is_idle(),
        forall|i: int| 0 <= i < docs.len() ==> (#[trigger] docs[i]).parsed is Some,
    ensures
        stage.index_batch(docs).counters.docs == stage.counters.docs + docs.len(),
        stage.index_batch(docs).counters.parse_error == stage.counters.parse_error,
{
    lemma_batch_adds_up(stage, docs);
    lemma_none_malformed(docs);
}

proof fn lemma_none_malformed(docs: Seq<DocFacts>)
    requires
        forall|i: int| 0 <= i < docs.len() ==> (#[trigger] docs[i]).parsed is Some,
    ensures
        num_malformed(docs) == 0,
    decreases docs.len(),
{
    if docs.len() > 0 {
        lemma_none_malformed(docs.drop_last());
        lemma_last_doc_adds(docs);
    } else {
        lemma_empty_batch_adds_nothing(None);
    }
}

/// Over the life of a split its range is `[min, max]` of the timestamps of
/// the documents added to it: both ends are among those timestamps and all
/// of them lie within. It has no range exactly when none of its documents
/// carried a timestamp.
pub proof fn lemma_split_range_is_min_max(
    stage: StageModel,
    writer_docs: Seq<FieldValues>,
    now: nat,
    docs: Seq<DocFacts>,
)
    requires
        stage.is_idle(),
    ensures
        match stage.start_split(writer_docs, now).index_batch(docs).current_split_opt {
            Some(split) => match split.time_range {
                Some(range) => range.wf() && range.spans(
                    timestamps_of(docs, stage.timestamp_field_opt),
                ),
                None => timestamps_of(docs, stage.timestamp_field_opt).len() == 0,
            },
            None => false,
        },
{
    lemma_batch_adds_up(stage.start_split(writer_docs, now), docs);
    lemma_range_is_min_max(timestamps_of(docs, stage.timestamp_field_opt));
}

/// The range of a split does not depend on the order in which its documents
/// arrived: two runs of documents that carry the same timestamps, each as
/// often as the other, leave a fresh split with the same range.
pub proof fn lemma_split_range_ignores_order(
    stage: StageModel,
    writer_docs: Seq<FieldValues>,
    now: nat,
    first: Seq<DocFacts>,
    second: Seq<DocFacts>,
)
    requires
        stage.is_idle(),
        timestamps_of(first, stage.timestamp_field_opt).to_multiset() == timestamps_of(
            second,
            stage.timestamp_field_opt,
        ).to_multiset(),
    ensures
        stage.start_split(writer_docs, now).index_batch(first).current_split_opt->0.time_range
            == stage.start_split(writer_docs, now).index_batch(
            second,
        ).current_split_opt->0.time_range,
{
    lemma_batch_adds_up(stage.start_split(writer_docs, now), first);
    lemma_batch_adds_up(stage.start_split(writer_docs, now), second);
    lemma_range_ignores_order(
        timestamps_of(first, stage.timestamp_field_opt),
        timestamps_of(second, stage.timestamp_field_opt),
    );
}

/// Over several batches the range of a split is still `[min, max]` of the
/// timestamps of all the documents added to it: the batches count as one.
pub proof fn lemma_split_range_over_batches(
    stage: StageModel,
    writer_docs: Seq<FieldValues>,
    now: nat,
    first: Seq<DocFacts>,
    second: Seq<DocFacts>,
)
    requires
        stage.is_idle(),
    ensures
        ({
            let started = stage.start_split(writer_docs, now);
            let timestamps = timestamps_of(first + second, stage.timestamp_field_opt);
            match started.index_batch(first).index_batch(second).current_split_opt {
                Some(split) => match split.time_range {
                    Some(range) => range.wf() && range.spans(timestamps),
                    None => timestamps.len() == 0,
                },
                None => false,
            }
        }),
{
    lemma_batches_in_a_row(stage.start_split(writer_docs, now), first, second);
    lemma_split_range_is_min_max(stage, writer_docs, now, first + second);
}

/// Dealing with one batch and then another is dealing with the two in a row.
pub proof fn lemma_batches_in_a_row(stage: StageModel, first: Seq<DocFacts>, second: Seq<DocFacts>)
    ensures
        stage.index_batch(first).index_batch(second) == stage.index_batch(first + second),
    decreases second.len(),
{
    if second.len() > 0 {
        lemma_batches_in_a_row(stage, first, second.drop_last());
        assert((first + second).drop_last() =~= first + second.drop_last());
    }
}

/// An idle stage holds no split and no deadline, and stays idle until a
/// split is started: the stage starts idle, a flush makes it idle, and
/// neither a batch nor a flush takes it out of that state.
pub proof fn lemma_idle_stage_holds_nothing(stage: StageModel, docs: Seq<DocFacts>)
    requires
        stage.inv(),
        stage.is_idle(),
    ensures
        stage.current_split_opt is None,
        stage.next_commit_deadline_opt is None,
        stage.index_batch(docs) == stage,
        stage.flush() == stage,
        StageModel::initial(
            stage.index_id,
            stage.timestamp_field_opt,
            stage.commit_timeout,
        ).is_idle(),
    decreases docs.len(),
{
    if docs.len() > 0 {
        lemma_idle_stage_holds_nothing(stage, docs.drop_last());
    }
}

/// After a flush the stage is idle, and the split that it starts next is
/// brand new: empty, with no range, whatever the flushed split held.
pub proof fn lemma_split_after_flush_is_fresh(
    stage: StageModel,
    writer_docs: Seq<FieldValues>,
    now: nat,
)
    ensures
        stage.flush().is_idle(),
        stage.flush().next_commit_deadline_opt is None,
        stage.flush().counters == stage.counters,
        stage.flush().start_split(writer_docs, now).current_split_opt == Some(
            SplitModel::fresh(stage.index_id, writer_docs),
        ),
        stage.flush().start_split(writer_docs, now).next_commit_deadline_opt == Some(
            now + stage.commit_timeout,
        ),
        SplitModel::fresh(stage.index_id, writer_docs).size_in_bytes == 0,
        SplitModel::fresh(stage.index_id, writer_docs).time_range is None,
{
}

} // verus!
