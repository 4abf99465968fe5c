//! Gathering the fetch results of many students into one ordered batch.
//!
//! The fetches of a batch run at the same time and finish in any order. The
//! aggregator is told of each completion as it happens; it puts every result
//! at the place of its identifier and gives the batch up at the first failure.

use vstd::prelude::*;
use crate::fetch::FetchError;
use crate::record::{IdentityRecord, ScoreRecord};

verus! {

/// The failure of a batch: the student whose fetch failed first, and why.
#[derive(Clone, Copy, Debug, PartialEq, Eq)]
pub struct AggregateError {
    pub student_id: u32,
    pub cause: FetchError,
}

/// What the driver of the fetches does after a completion was recorded.
#[derive(Clone, Copy, Debug, PartialEq, Eq)]
pub enum Directive {
    /// Go on waiting for the fetches that are still running.
    KeepWaiting,
    /// The batch has failed: whatever else completes is of no use.
    Abandon,
}

/// The completion of one fetch: the place of its identifier in the batch, and
/// what the fetch gave.
pub struct Completion {
    pub index: int,
    pub outcome: Result<(IdentityRecord, ScoreRecord), FetchError>,
}

/// The state of a batch as mathematical data.
pub struct Batch {
    /// The identifiers, in input order.
    pub ids: Seq<u32>,
    /// For each identifier, the records that its fetch gave, once it has.
    pub slots: Seq<Option<(IdentityRecord, ScoreRecord)>>,
    /// The first failure that was recorded.
    pub failure: Option<AggregateError>,
}

impl Batch {
    /// The batch when its fetches are launched: nothing has completed.
    pub open spec fn start(ids: Seq<u32>) -> Batch {
        Batch { ids, slots: Seq::new(ids.len(), |i: int| None), failure: None }
    }

    /// The batch after the fetch at place `index` completed with `outcome`.
    ///
    /// Once the batch has failed nothing changes any more. Before that a
    /// failure fails the batch, and a success fills its slot; a completion
    /// for a place outside the batch, or a second success for one place, is
    /// ignored.
    pub open spec fn record(
        self,
        index: int,
        outcome: Result<(IdentityRecord, ScoreRecord), FetchError>,
    ) -> Batch {
        if self.failure is Some || index < 0 || index >= self.slots.len() {
            self
        } else {
            match outcome {
                Err(cause) => Batch {
                    failure: Some(AggregateError { student_id: self.ids[index], cause }),
                    ..self
                },
                Ok(pair) => if self.slots[index] is Some {
                    self
                } else {
                    Batch { slots: self.slots.update(index, Some(pair)), ..self }
                },
            }
        }
    }

    /// The batch after the given completions, in the order in which they
    /// happened.
    pub open spec fn after(self, completions: Seq<Completion>) -> Batch
        decreases completions.len(),
    {
        if completions.len() == 0 {
            self
        } else {
            self.after(completions.drop_last()).record(
                completions.last().index,
                completions.last().outcome,
            )
        }
    }

    /// Whether every fetch has given its records.
    pub open spec fn is_complete(self) -> bool {
        forall|i: int| 0 <= i < self.slots.len() ==> (#[trigger] self.slots[i]) is Some
    }

    /// What the batch has come to: nothing while fetches are awaited and none
    /// has failed; the first failure once there is one; else the records of
    /// all students, in the order of the identifiers.
    pub open spec fn outcome(self) -> Option<
        Result<Seq<(IdentityRecord, ScoreRecord)>, AggregateError>,
    > {
        match self.failure {
            Some(error) => Some(Err(error)),
            None => if self.is_complete() {
                Some(Ok(Seq::new(self.slots.len(), |i: int| self.slots[i]->0)))
            } else {
                None
            },
        }
    }
}

/// The records of a finished batch as a sequence.
pub open spec fn outcome_view(
    result: Option<Result<Vec<(IdentityRecord, ScoreRecord)>, AggregateError>>,
) -> Option<Result<Seq<(IdentityRecord, ScoreRecord)>, AggregateError>> {
    match result {
        None => None,
        Some(Err(error)) => Some(Err(error)),
        Some(Ok(records)) => Some(Ok(records@)),
    }
}

/// Whether every completion is a success for a place of the batch, and no
/// two of them are for the same place.
pub open spec fn all_succeed_once(ids: Seq<u32>, completions: Seq<Completion>) -> bool {
    &&& forall|k: int|
        0 <= k < completions.len() ==> (#[trigger] completions[k]).outcome is Ok && 0
            <= completions[k].index < ids.len()
    &&& forall|k: int, l: int|
        0 <= k < l < completions.len() ==> (#[trigger] completions[k]).index
            != (#[trigger] completions[l]).index
}

/// Whether the fetch at place `i` is among the completions.
pub open spec fn has_completed(completions: Seq<Completion>, i: int) -> bool {
    exists|k: int| 0 <= k < completions.len() && (#[trigger] completions[k]).index == i
}

/// Whether the fetch of every place of the batch is among the completions.
pub open spec fn all_complete(ids: Seq<u32>, completions: Seq<Completion>) -> bool {
    forall|i: int| 0 <= i < ids.len() ==> #[trigger] has_completed(completions, i)
}

/// Completions change neither the identifiers of a batch nor the number of
/// its slots.
pub proof fn lemma_completions_keep_the_shape(batch: Batch, completions: Seq<Completion>)
    ensures
        batch.after(completions).ids == batch.ids,
        batch.after(completions).slots.len() == batch.slots.len(),
    decreases completions.len(),
{
    if completions.len() > 0 {
        lemma_completions_keep_the_shape(batch, completions.drop_last());
    }
}

/// A batch that has failed stays as it is, whatever completes later.
pub proof fn lemma_failure_is_final(batch: Batch, completions: Seq<Completion>)
    requires
        batch.failure is Some,
    ensures
        batch.after(completions) == batch,
    decreases completions.len(),
{
    if completions.len() > 0 {
        lemma_failure_is_final(batch, completions.drop_last());
    }
}

/// All or nothing: when any fetch of the batch fails, the batch fails, in
/// whatever order the fetches complete and however many of them succeed.
pub proof fn lemma_one_failure_fails_the_batch(
    ids: Seq<u32>,
    completions: Seq<Completion>,
    k: int,
)
    requires
        0 <= k < completions.len(),
        completions[k].outcome is Err,
        0 <= completions[k].index < ids.len(),
    ensures
        Batch::start(ids).after(completions).failure is Some,
        Batch::start(ids).after(completions).outcome() is Some,
        Batch::start(ids).after(completions).outcome()->0 is Err,
    decreases completions.len(),
{
    let earlier = completions.drop_last();
    lemma_completions_keep_the_shape(Batch::start(ids), earlier);
    if k < completions.len() - 1 {
        lemma_one_failure_fails_the_batch(ids, earlier, k);
    }
}

/// The failure of a batch is the one that was detected first: the error
/// names the student and the cause of the earliest completion that failed.
pub proof fn lemma_first_failure_is_reported(
    ids: Seq<u32>,
    completions: Seq<Completion>,
    k: int,
)
    requires
        0 <= k < completions.len(),
        completions[k].outcome is Err,
        0 <= completions[k].index < ids.len(),
        forall|j: int|
            0 <= j < k ==> (#[trigger] completions[j]).outcome is Ok || !(0 <= completions[j].index
                < ids.len()),
    ensures
        Batch::start(ids).after(completions).outcome() == Some(
            Err::<Seq<(IdentityRecord, ScoreRecord)>, AggregateError>(
                AggregateError {
                    student_id: ids[completions[k].index],
                    cause: completions[k].outcome->Err_0,
                },
            ),
        ),
    decreases completions.len(),
{
    let earlier = completions.drop_last();
    lemma_completions_keep_the_shape(Batch::start(ids), earlier);
    if k < completions.len() - 1 {
        lemma_first_failure_is_reported(ids, earlier, k);
    } else {
        lemma_successes_keep_waiting(ids, earlier);
    }
}

/// While nothing has failed for a place of the batch, the batch has not
/// failed.
pub proof fn lemma_successes_keep_waiting(ids: Seq<u32>, completions: Seq<Completion>)
    requires
        forall|j: int|
            0 <= j < completions.len() ==> (#[trigger] completions[j]).outcome is Ok || !(0
                <= completions[j].index < ids.len()),
    ensures
        Batch::start(ids).after(completions).failure is None,
    decreases completions.len(),
{
    if completions.len() > 0 {
        let earlier = completions.drop_last();
        assert forall|j: int| 0 <= j < earlier.len() implies (#[trigger] earlier[j]).outcome is Ok
            || !(0 <= earlier[j].index < ids.len()) by {
            assert(earlier[j] == completions[j]);
        }
        lemma_successes_keep_waiting(ids, earlier);
        lemma_completions_keep_the_shape(Batch::start(ids), earlier);
    }
}

/// After successes for different places, the slots that are filled are those
/// of the completions, each with the records that its completion brought.
pub proof fn lemma_successes_fill_slots(ids: Seq<u32>, completions: Seq<Completion>)
    requires
        all_succeed_once(ids, completions),
    ensures
        Batch::start(ids).after(completions).failure is None,
        Batch::start(ids).after(completions).slots.len() == ids.len(),
        forall|k: int|
            0 <= k < completions.len() ==> Batch::start(ids).after(completions).slots[(
            #[trigger] completions[k]).index] == Some(completions[k].outcome->Ok_0),
        forall|i: int|
            0 <= i < ids.len() && (#[trigger] Batch::start(ids).after(completions).slots[i])
                is Some ==> has_completed(completions, i),
    decreases completions.len(),
{
    if completions.len() > 0 {
        let earlier = completions.drop_last();
        let last = completions.last();
        let before = Batch::start(ids).after(earlier);
        let now = Batch::start(ids).after(completions);
        assert forall|k: int| 0 <= k < earlier.len() implies earlier[k] == completions[k] by {}
        assert(all_succeed_once(ids, earlier));
        lemma_successes_fill_slots(ids, earlier);
        assert(before.slots[last.index] is None) by {
            if before.slots[last.index] is Some {
                let k = choose|k: int| 0 <= k < earlier.len() && (#[trigger] earlier[k]).index
                    == last.index;
                assert(completions[k].index == completions[completions.len() - 1].index);
            }
        }
        assert(now.slots == before.slots.update(last.index, Some(last.outcome->Ok_0)));
        assert forall|k: int| 0 <= k < completions.len() implies now.slots[(
        #[trigger] completions[k]).index] == Some(completions[k].outcome->Ok_0) by {
            if k < completions.len() - 1 {
                assert(earlier[k] == completions[k]);
                assert(completions[k].index != completions[completions.len() - 1].index);
            }
        }
        assert forall|i: int|
            0 <= i < ids.len() && (#[trigger] now.slots[i]) is Some implies has_completed(
            completions,
            i,
        ) by {
            if i == last.index {
                assert(completions[completions.len() - 1].index == i);
            } else {
                assert(before.slots[i] is Some);
                let k = choose|k: int| 0 <= k < earlier.len() && (#[trigger] earlier[k]).index == i;
                assert(completions[k].index == i);
            }
        }
    }
}

/// Input order is restored: when every fetch of the batch succeeds, the
/// batch comes to the records of all students in the order of their
/// identifiers, in whatever order the fetches completed.
pub proof fn lemma_input_order_is_restored(ids: Seq<u32>, completions: Seq<Completion>)
    requires
        all_succeed_once(ids, completions),
        all_complete(ids, completions),
    ensures
        Batch::start(ids).after(completions).outcome() is Some,
        Batch::start(ids).after(completions).outcome()->0 is Ok,
        Batch::start(ids).after(completions).outcome()->0->Ok_0.len() == ids.len(),
        forall|k: int|
            0 <= k < completions.len() ==> Batch::start(ids).after(
                completions,
            ).outcome()->0->Ok_0[(#[trigger] completions[k]).index]
                == completions[k].outcome->Ok_0,
{
    lemma_successes_fill_slots(ids, completions);
    let batch = Batch::start(ids).after(completions);
    assert forall|i: int| 0 <= i < batch.slots.len() implies (#[trigger] batch.slots[i]) is Some by {
        assert(has_completed(completions, i));
        let k = choose|k: int| 0 <= k < completions.len() && (#[trigger] completions[k]).index == i;
        assert(batch.slots[completions[k].index] is Some);
    }
}

/// A batch of fetches in progress.
pub struct Aggregator {
    /// Each identifier with what its fetch has given so far.
    entries: Vec<(u32, Option<(IdentityRecord, ScoreRecord)>)>,
    failure: Option<AggregateError>,
}

impl View for Aggregator {
    type V = Batch;

    closed spec fn view(&self) -> Batch {
        Batch {
            ids: self.entries@.map_values(
                |entry: (u32, Option<(IdentityRecord, ScoreRecord)>)| entry.0,
            ),
            slots: self.entries@.map_values(
                |entry: (u32, Option<(IdentityRecord, ScoreRecord)>)| entry.1,
            ),
            failure: self.failure,
        }
    }
}

impl Aggregator {
    /// The aggregator for the fetches of `ids`, all of which are to be
    /// launched at once: the fetch for the identifier at place `i` reports
    /// its completion with index `i`.
    pub fn new(ids: &Vec<u32>) -> (aggregator: Aggregator)
        ensures
            aggregator@ == Batch::start(ids@),
    {
        let mut entries: Vec<(u32, Option<(IdentityRecord, ScoreRecord)>)> = Vec::new();
        let mut i: usize = 0;
        while i < ids.len()
            invariant
                i <= ids.len(),
                entries@.len() == i,
                forall|j: int| 0 <= j < i ==> #[trigger] entries@[j] == (ids@[j], None::<(IdentityRecord, ScoreRecord)>),
            decreases ids.len() - i,
        {
            entries.push((ids[i], None));
            i += 1;
        }
        let aggregator = Aggregator { entries, failure: None };
        assert(aggregator@.ids =~= ids@);
        assert(aggregator@.slots =~= Batch::start(ids@).slots);
        aggregator
    }

    /// Takes note that the fetch at place `index` has completed with
    /// `outcome`, and says whether there is a point in waiting for the rest.
    pub fn record(
        &mut self,
        index: usize,
        outcome: Result<(IdentityRecord, ScoreRecord), FetchError>,
    ) -> (directive: Directive)
        ensures
            final(self)@ == old(self)@.record(index as int, outcome),
            directive == if final(self)@.failure is Some {
                Directive::Abandon
            } else {
                Directive::KeepWaiting
            },
    {
        if self.failure.is_some() {
            return Directive::Abandon;
        }
        if index >= self.entries.len() {
            return Directive::KeepWaiting;
        }
        let student_id = self.entries[index].0;
        match outcome {
            Err(cause) => {
                self.failure = Some(AggregateError { student_id, cause });
                Directive::Abandon
            },
            Ok(pair) => {
                if self.entries[index].1.is_none() {
                    self.entries.set(index, (student_id, Some(pair)));
                    proof {
                        assert(self@.ids =~= old(self)@.ids);
                        assert(self@.slots =~= old(self)@.slots.update(index as int, Some(pair)));
                    }
                }
                Directive::KeepWaiting
            },
        }
    }

    /// What the batch has come to: `None` while fetches are awaited and none
    /// has failed, the first recorded failure once there is one, else the
    /// records of all students in the order of their identifiers.
    pub fn finish(self) -> (result: Option<Result<Vec<(IdentityRecord, ScoreRecord)>, AggregateError>>)
        ensures
            outcome_view(result) == self@.outcome(),
    {
        if let Some(error) = self.failure {
            return Some(Err(error));
        }
        let ghost slots = self@.slots;
        let mut rest = self.entries;
        let mut reversed: Vec<(IdentityRecord, ScoreRecord)> = Vec::new();
        while rest.len() > 0
            invariant
                self@.failure is None,
                self@.slots == slots,
                rest@.len() <= slots.len(),
                forall|j: int| 0 <= j < rest@.len() ==> (#[trigger] rest@[j]).1 == slots[j],
                reversed@.len() == slots.len() - rest@.len(),
                forall|j: int|
                    0 <= j < reversed@.len() ==> slots[slots.len() - 1 - j] == Some(
                        #[trigger] reversed@[j],
                    ),
            decreases rest@.len(),
        {
            match rest.pop() {
                Some((_, Some(pair))) => {
                    reversed.push(pair);
                },
                _ => {
                    assert(slots[rest@.len() as int] is None);
                    return None;
                },
            }
        }
        let mut records: Vec<(IdentityRecord, ScoreRecord)> = Vec::new();
        while reversed.len() > 0
            invariant
                records@.len() + reversed@.len() == slots.len(),
                forall|j: int|
                    0 <= j < reversed@.len() ==> slots[slots.len() - 1 - j] == Some(
                        #[trigger] reversed@[j],
                    ),
                forall|j: int| 0 <= j < records@.len() ==> slots[j] == Some(#[trigger] records@[j]),
            decreases reversed@.len(),
        {
            let ghost at = records@.len() as int;
            match reversed.pop() {
                Some(pair) => {
                    assert(slots[at] == Some(pair));
                    records.push(pair);
                },
                None => {},
            }
        }
        assert forall|i: int| 0 <= i < slots.len() implies (#[trigger] slots[i]) is Some by {
            assert(slots[i] == Some(records@[i]));
        }
        assert(records@ =~= Seq::new(slots.len(), |i: int| slots[i]->0));
        Some(Ok(records))
    }
}

} // verus!
