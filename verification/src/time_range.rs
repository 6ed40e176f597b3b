//! Inclusive ranges of timestamps, and how a range widens as timestamps are
//! observed.

use vstd::prelude::*;

verus! {

/// The inclusive range `[start, end]` of the timestamps observed so far.
#[derive(Clone, Copy, Debug, PartialEq, Eq, Structural)]
pub struct TimeRange {
    pub start: i64,
    pub end: i64,
}

impl TimeRange {
    /// A range is well formed when it is not empty.
    pub open spec fn wf(self) -> bool {
        self.start <= self.end
    }

    /// Whether `timestamp` lies within the range.
    pub open spec fn covers(self, timestamp: i64) -> bool {
        self.start <= timestamp <= self.end
    }

    /// Whether the range is exactly `[min, max]` of `timestamps`: both of its
    /// ends are among them and all of them lie within it.
    pub open spec fn spans(self, timestamps: Seq<i64>) -> bool {
        &&& timestamps.contains(self.start)
        &&& timestamps.contains(self.end)
        &&& forall|i: int| 0 <= i < timestamps.len() ==> self.covers(#[trigger] timestamps[i])
    }
}

/// The range after `timestamp` has been observed: `[timestamp, timestamp]`
/// where nothing was observed before, else the smallest range that holds both
/// `range` and `timestamp`.
pub open spec fn widened(range: Option<TimeRange>, timestamp: i64) -> TimeRange {
    match range {
        Some(r) => TimeRange {
            start: if timestamp < r.start { timestamp } else { r.start },
            end: if timestamp > r.end { timestamp } else { r.end },
        },
        None => TimeRange { start: timestamp, end: timestamp },
    }
}

/// The range after a document has been read whose timestamp, if it has one,
/// is `timestamp_opt`.
pub open spec fn widened_opt(range: Option<TimeRange>, timestamp_opt: Option<i64>) -> Option<
    TimeRange,
> {
    match timestamp_opt {
        Some(timestamp) => Some(widened(range, timestamp)),
        None => range,
    }
}

/// The range after every one of `timestamps` has been observed, in order.
pub open spec fn widened_by_all(range: Option<TimeRange>, timestamps: Seq<i64>) -> Option<
    TimeRange,
> {
    timestamps.fold_left(
        range,
        |range: Option<TimeRange>, timestamp: i64| Some(widened(range, timestamp)),
    )
}

/// Widens `range` by one observed timestamp.
pub fn widen(range: Option<TimeRange>, timestamp: i64) -> (new_range: TimeRange)
    ensures
        new_range == widened(range, timestamp),
{
    match range {
        Some(r) => TimeRange {
            start: if timestamp < r.start { timestamp } else { r.start },
            end: if timestamp > r.end { timestamp } else { r.end },
        },
        None => TimeRange { start: timestamp, end: timestamp },
    }
}

/// Widening never narrows: the new range is well formed, holds the timestamp
/// and holds every timestamp that the old one held.
pub proof fn lemma_widened_never_narrows(range: Option<TimeRange>, timestamp: i64)
    requires
        range is Some ==> range->0.wf(),
    ensures
        widened(range, timestamp).wf(),
        widened(range, timestamp).covers(timestamp),
        range is Some ==> widened(range, timestamp).start <= range->0.start && range->0.end
            <= widened(range, timestamp).end,
{
}

/// Observing one sequence of timestamps and then another is observing the two
/// in a row.
pub proof fn lemma_widened_by_all_concat(
    range: Option<TimeRange>,
    first: Seq<i64>,
    second: Seq<i64>,
)
    ensures
        widened_by_all(widened_by_all(range, first), second) == widened_by_all(
            range,
            first + second,
        ),
    decreases second.len(),
{
    if second.len() > 0 {
        lemma_widened_by_all_concat(range, first, second.drop_last());
        assert((first + second).drop_last() =~= first + second.drop_last());
    }
}

/// Where a split starts with no range and observes `timestamps`, in whatever
/// order, its range ends as `[min, max]` of them; it has no range exactly when
/// it observed none.
pub proof fn lemma_range_is_min_max(timestamps: Seq<i64>)
    ensures
        match widened_by_all(None, timestamps) {
            Some(range) => timestamps.len() > 0 && range.wf() && range.spans(timestamps),
            None => timestamps.len() == 0,
        },
    decreases timestamps.len(),
{
    if timestamps.len() > 0 {
        let front = timestamps.drop_last();
        let last = timestamps.last();
        lemma_range_is_min_max(front);
        let range = widened(widened_by_all(None, front), last);
        match widened_by_all(None, front) {
            Some(before) => {
                let i = choose|i: int| 0 <= i < front.len() && front[i] == before.start;
                let j = choose|j: int| 0 <= j < front.len() && front[j] == before.end;
                assert(timestamps[i] == before.start);
                assert(timestamps[j] == before.end);
            },
            None => {},
        }
        assert forall|i: int| 0 <= i < timestamps.len() implies range.covers(
            #[trigger] timestamps[i],
        ) by {
            if i < front.len() {
                assert(front[i] == timestamps[i]);
            }
        }
    }
}

/// At most one range spans a given sequence of timestamps.
pub proof fn lemma_spans_is_unique(a: TimeRange, b: TimeRange, timestamps: Seq<i64>)
    requires
        a.spans(timestamps),
        b.spans(timestamps),
    ensures
        a == b,
{
    let i = choose|i: int| 0 <= i < timestamps.len() && timestamps[i] == a.start;
    let j = choose|j: int| 0 <= j < timestamps.len() && timestamps[j] == a.end;
    let k = choose|k: int| 0 <= k < timestamps.len() && timestamps[k] == b.start;
    let l = choose|l: int| 0 <= l < timestamps.len() && timestamps[l] == b.end;
    assert(b.covers(timestamps[i]) && b.covers(timestamps[j]));
    assert(a.covers(timestamps[k]) && a.covers(timestamps[l]));
}

/// The range of a split does not depend on the order in which its timestamps
/// arrived: two sequences that hold the same timestamps, each as often as the
/// other, give the same range.
pub proof fn lemma_range_ignores_order(first: Seq<i64>, second: Seq<i64>)
    requires
        first.to_multiset() == second.to_multiset(),
    ensures
        widened_by_all(None, first) == widened_by_all(None, second),
{
    first.to_multiset_ensures();
    second.to_multiset_ensures();
    lemma_range_is_min_max(first);
    lemma_range_is_min_max(second);
    match (widened_by_all(None, first), widened_by_all(None, second)) {
        (Some(a), Some(b)) => {
            assert(a.spans(second)) by {
                assert(first.to_multiset().count(a.start) > 0);
                assert(first.to_multiset().count(a.end) > 0);
                assert forall|i: int| 0 <= i < second.len() implies a.covers(
                    #[trigger] second[i],
                ) by {
                    assert(second.to_multiset().count(second[i]) > 0);
                }
            }
            lemma_spans_is_unique(a, b, second);
        },
        _ => {},
    }
}

} // verus!
