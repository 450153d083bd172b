//! Running a replay intent: whether it may begin, what its end means, and the
//! pruning and restoring of intents.

use crate::client::backfill_intent::{IntentContent, PendingEpochBackfill};
use crate::client::drain::{
    saturated, verdict_word, DrainCounts, DrainVerdict, EpochBackfillCompletionKind,
};
use crate::client::epoch_backfill::{
    all_observed, backoff_ms, capture_pending_group_epochs, lemma_all_kept, optional_intent,
    retry_backoff_for_ordinal, EpochBackfillExecution, EpochBackfillExecutionSeam,
    EpochBackfillQueue, QueueContent,
};
use crate::collections::{lemma_kept, Key, KeyMap};
use crate::error::{AppError, ErrorContent};
use crate::ids::GroupId;
use crate::order::lemma_push_contains;
use vstd::prelude::*;

verus! {

/// How a replay ended.
#[derive(Clone, Copy, Debug, PartialEq, Eq, Structural)]
pub enum EpochBackfillFinish {
    Succeeded,
    Failed { preserve_pacing: bool },
}

/// What the audit records of one group at the end of a replay.
#[derive(Debug, PartialEq, Eq)]
pub struct EpochBackfillTerminalRow {
    pub group_id: GroupId,
    pub local_epoch_before: u64,
    pub local_epoch_after: u64,
    pub group_advanced: bool,
}

/// What the end of a replay led to.
#[derive(Debug, PartialEq, Eq)]
pub struct EpochBackfillFinished {
    pub succeeded: bool,
    pub error_kind: Option<String>,
    /// The replay brought something back.
    pub recovered: bool,
    /// The relays confirmed the history and it brought nothing back.
    pub fruitless_completion: bool,
    pub rows: Vec<EpochBackfillTerminalRow>,
}

/// Whether some group's epoch is later than before.
pub open spec fn some_group_advanced(
    groups: Seq<Seq<u8>>,
    before: KeyMap<GroupId, u64>,
    after: KeyMap<GroupId, u64>,
) -> bool {
    exists|group: Seq<u8>| #[trigger]
        groups.contains(group) && before.lookup(group) is Some && after.lookup(group) is Some
            && after.lookup(group)->Some_0 > before.lookup(group)->Some_0
}

/// Whether a replay recovered anything: a delivery was kept, or a group advanced.
pub fn replay_recovered_something(
    epochs_before: &KeyMap<GroupId, u64>,
    epochs_after: &KeyMap<GroupId, u64>,
    counts: &DrainCounts,
) -> (recovered: bool)
    ensures
        recovered == (counts.durable() > 0 || some_group_advanced(
            epochs_after.sequence(),
            *epochs_before,
            *epochs_after,
        )),
{
    if counts.durable_deliveries() > 0 {
        return true;
    }
    let count: usize = epochs_after.len();
    let mut i: usize = 0;
    while i < count
        invariant
            i <= count,
            count == epochs_after.sequence().len(),
            counts.durable() == 0,
            forall|j: int|
                0 <= j < i ==> {
                    let group = #[trigger] epochs_after.sequence()[j];
                    epochs_before.lookup(group) is Some ==> epochs_after.lookup(group)->Some_0
                        <= epochs_before.lookup(group)->Some_0
                },
        decreases count - i,
    {
        let group = epochs_after.key_at(i);
        let after: u64 = *epochs_after.value_at(i);
        match epochs_before.get(group) {
            Some(before) => {
                if after > *before {
                    proof {
                        let key = epochs_after.sequence()[i as int];
                        assert(epochs_after.sequence().contains(key));
                    }
                    return true;
                }
            },
            None => {},
        }
        i += 1;
    }
    assert forall|group: Seq<u8>| #[trigger]
        epochs_after.sequence().contains(group) && epochs_before.lookup(group) is Some
            && epochs_after.lookup(group) is Some implies epochs_after.lookup(group)->Some_0
        <= epochs_before.lookup(group)->Some_0 by {
        let j = choose|j: int|
            0 <= j < epochs_after.sequence().len() && epochs_after.sequence()[j] == group;
        assert(epochs_after.sequence()[j] == group);
    }
    false
}

/// The epochs that the audit gives a group: what was seen, else what is known.
pub open spec fn terminal_epochs(
    stalled: u64,
    before: Option<u64>,
    after: Option<u64>,
) -> (u64, u64) {
    let first = match before {
        Some(epoch) => epoch,
        None => stalled,
    };
    (
        first,
        match after {
            Some(epoch) => epoch,
            None => first,
        },
    )
}

/// Whether rows record each group of an intent, in order.
pub open spec fn records_groups(
    rows: Seq<EpochBackfillTerminalRow>,
    intent: IntentContent,
    before: KeyMap<GroupId, u64>,
    after: KeyMap<GroupId, u64>,
) -> bool {
    &&& rows.len() == intent.groups.len()
    &&& forall|i: int|
        0 <= i < rows.len() ==> {
            let group = intent.groups[i];
            let epochs = terminal_epochs(
                intent.epochs[i],
                before.lookup(group),
                after.lookup(group),
            );
            &&& (#[trigger] rows[i]).group_id.deep_view() == group
            &&& rows[i].local_epoch_before == epochs.0
            &&& rows[i].local_epoch_after == epochs.1
            &&& rows[i].group_advanced == (epochs.1 > epochs.0)
        }
}

/// One audit row per group of the intent.
pub fn epoch_backfill_terminal_rows(
    pending: &PendingEpochBackfill,
    epochs_before: &KeyMap<GroupId, u64>,
    epochs_after: &KeyMap<GroupId, u64>,
) -> (rows: Vec<EpochBackfillTerminalRow>)
    ensures
        records_groups(rows@, pending.deep_view(), *epochs_before, *epochs_after),
{
    let mut rows: Vec<EpochBackfillTerminalRow> = Vec::new();
    let count: usize = pending.groups.len();
    let mut i: usize = 0;
    while i < count
        invariant
            i <= count,
            count == pending.groups.sequence().len(),
            count == pending.groups.value_sequence().len(),
            rows@.len() == i,
            forall|j: int|
                0 <= j < i ==> {
                    let group = pending.groups.sequence()[j];
                    let epochs = terminal_epochs(
                        pending.groups.value_sequence()[j],
                        epochs_before.lookup(group),
                        epochs_after.lookup(group),
                    );
                    &&& (#[trigger] rows@[j]).group_id.deep_view() == group
                    &&& rows@[j].local_epoch_before == epochs.0
                    &&& rows@[j].local_epoch_after == epochs.1
                    &&& rows@[j].group_advanced == (epochs.1 > epochs.0)
                },
        decreases count - i,
    {
        let group = pending.groups.key_at(i);
        let local_epoch_before: u64 = match epochs_before.get(group) {
            Some(epoch) => *epoch,
            None => *pending.groups.value_at(i),
        };
        let local_epoch_after: u64 = match epochs_after.get(group) {
            Some(epoch) => *epoch,
            None => local_epoch_before,
        };
        rows.push(
            EpochBackfillTerminalRow {
                group_id: group.clone(),
                local_epoch_before,
                local_epoch_after,
                group_advanced: local_epoch_after > local_epoch_before,
            },
        );
        i += 1;
    }
    rows
}

/// Whether the pacing that is already set stays.
pub open spec fn preserves_pacing(finish: EpochBackfillFinish) -> bool {
    finish matches EpochBackfillFinish::Failed { preserve_pacing } && preserve_pacing
}

/// Whether the active intent is the one that an execution ran.
pub open spec fn runs_active(queue: QueueContent, attempt_id: Seq<char>) -> bool {
    queue.active matches Some(active) && active.attempt_id == attempt_id
}

/// The time before which no automatic replay runs, counted from now.
pub open spec fn paced_until(now_ms: u64, base_ms: u64, ordinal: u64) -> Option<u64> {
    Some(saturated(now_ms + backoff_ms(base_ms, ordinal)))
}

/// The queue after a replay of the given intent ended.
pub open spec fn finished_queue(
    queue: QueueContent,
    intent: IntentContent,
    succeeded: bool,
    recovered: bool,
    preserve: bool,
    pacing: Option<u64>,
) -> QueueContent {
    let idle = QueueContent {
        active: None,
        retry_not_before_ms: if preserve {
            queue.retry_not_before_ms
        } else if succeeded && recovered {
            None
        } else {
            pacing
        },
        ..queue
    };
    if succeeded {
        idle
    } else {
        idle.requeued(intent)
    }
}

/// Whether a replay that ended well recovered something.
pub open spec fn recovers(
    execution: EpochBackfillExecution,
    observed: KeyMap<GroupId, u64>,
    counts: DrainCounts,
) -> bool {
    counts.durable() > 0 || some_group_advanced(
        execution.pending.deep_view().groups,
        execution.epochs_before,
        observed,
    )
}

/// What ending a replay fails with where another one runs.
pub open spec fn mismatch() -> ErrorContent {
    ErrorContent::BlockingTask("epoch-backfill terminal state does not match active intent"@)
}

/// Whether what is told of a replay's end is so: `ended_well` is how its drain ended,
/// `kind` the word that it ended with, and `confirmed` whether the relays confirmed
/// the history.
pub open spec fn tells_end(
    end: EpochBackfillFinished,
    execution: EpochBackfillExecution,
    observed: KeyMap<GroupId, u64>,
    counts: DrainCounts,
    ended_well: bool,
    kind: Option<Seq<char>>,
    confirmed: bool,
) -> bool {
    let seen = all_observed(execution.pending.deep_view().groups, observed);
    let recovered = recovers(execution, observed, counts);
    &&& end.succeeded == (ended_well && seen)
    &&& end.recovered == (ended_well && seen && recovered)
    &&& end.fruitless_completion == (ended_well && seen && !recovered && confirmed)
    &&& end.error_kind.deep_view() == (match kind {
        Some(word) => Some(word),
        None => if seen {
            None
        } else {
            Some("group_epoch_unavailable"@)
        },
    })
    &&& records_groups(
        end.rows@,
        execution.pending.deep_view(),
        execution.epochs_before,
        observed,
    )
}

impl EpochBackfillQueue {
    /// Ends a replay. A failed one goes back to the queue and is paced, unless
    /// its pacing is already set; one that recovered something lifts the pacing;
    /// a fruitless one is consumed and paced.
    pub fn finish_epoch_backfill_execution(
        &mut self,
        execution: EpochBackfillExecution,
        observed: &KeyMap<GroupId, u64>,
        error_kind: Option<String>,
        completion_kind: Option<EpochBackfillCompletionKind>,
        counts: &DrainCounts,
        finish: EpochBackfillFinish,
        now_ms: u64,
        base_backoff_ms: u64,
    ) -> (finished: Result<EpochBackfillFinished, AppError>)
        ensures
            !runs_active(old(self).deep_view(), execution.pending.deep_view().attempt_id) ==> (
            finished matches Err(error) && error.deep_view() == mismatch())
                && final(self).deep_view() == old(self).deep_view(),
            runs_active(old(self).deep_view(), execution.pending.deep_view().attempt_id) ==> {
                let intent = execution.pending.deep_view();
                let succeeded = finish is Succeeded && all_observed(intent.groups, *observed);
                let recovered = recovers(execution, *observed, *counts);
                &&& finished matches Ok(end) && tells_end(
                    end,
                    execution,
                    *observed,
                    *counts,
                    finish is Succeeded,
                    error_kind.deep_view(),
                    completion_kind is Some,
                )
                &&& final(self).deep_view() == finished_queue(
                    old(self).deep_view(),
                    intent,
                    succeeded,
                    recovered,
                    preserves_pacing(finish),
                    paced_until(now_ms, base_backoff_ms, execution.retry_ordinal),
                )
            },
    {
        let ghost intent = execution.pending.deep_view();
        let matches_active = match &self.active {
            Some(active) => active.attempt_id.same(&execution.pending.attempt_id),
            None => false,
        };
        if !matches_active {
            return Err(
                AppError::BlockingTask(
                    "epoch-backfill terminal state does not match active intent".to_owned(),
                ),
            );
        }
        let epochs_after = capture_pending_group_epochs(&execution.pending, observed);
        let known: usize = epochs_after.len();
        let wanted: usize = execution.pending.groups.len();
        let observed_all_groups = known == wanted;
        proof {
            lemma_kept(intent.groups, intent.epochs, observed.sequence());
            lemma_all_kept(intent.groups, intent.epochs, *observed);
            lemma_advanced(intent.groups, execution.epochs_before, *observed, epochs_after);
        }
        let succeeded = match finish {
            EpochBackfillFinish::Succeeded => observed_all_groups,
            EpochBackfillFinish::Failed { .. } => false,
        };
        let preserve_pacing = match finish {
            EpochBackfillFinish::Succeeded => false,
            EpochBackfillFinish::Failed { preserve_pacing } => preserve_pacing,
        };
        let error_kind = match error_kind {
            Some(word) => Some(word),
            None => if observed_all_groups {
                None
            } else {
                Some("group_epoch_unavailable".to_owned())
            },
        };
        let rows = epoch_backfill_terminal_rows(
            &execution.pending,
            &execution.epochs_before,
            &epochs_after,
        );
        assert(records_groups(rows@, intent, execution.epochs_before, *observed)) by {
            assert forall|i: int| 0 <= i < rows@.len() implies epochs_after.lookup(
                #[trigger] intent.groups[i],
            ) == observed.lookup(intent.groups[i]) by {
                assert(intent.groups.contains(intent.groups[i]));
            }
        }
        let recovered = replay_recovered_something(
            &execution.epochs_before,
            &epochs_after,
            counts,
        );
        let wait: u64 = retry_backoff_for_ordinal(base_backoff_ms, execution.retry_ordinal);
        let pacing: u64 = now_ms.saturating_add(wait);
        self.active = None;
        if !preserve_pacing {
            self.retry_not_before_ms = if succeeded && recovered {
                None
            } else {
                Some(pacing)
            };
        }
        if !succeeded {
            self.requeue_failed_epoch_backfill_intent(execution.pending);
        }
        Ok(
            EpochBackfillFinished {
                succeeded,
                error_kind,
                recovered: succeeded && recovered,
                fruitless_completion: succeeded && !recovered && completion_kind.is_some(),
                rows,
            },
        )
    }
}

proof fn lemma_advanced(
    groups: Seq<Seq<u8>>,
    before: KeyMap<GroupId, u64>,
    observed: KeyMap<GroupId, u64>,
    after: KeyMap<GroupId, u64>,
)
    requires
        forall|group: Seq<u8>| #[trigger]
            after.lookup(group) == (if groups.contains(group) {
                observed.lookup(group)
            } else {
                None
            }),
    ensures
        some_group_advanced(after.sequence(), before, after) <==> some_group_advanced(
            groups,
            before,
            observed,
        ),
{
    if some_group_advanced(after.sequence(), before, after) {
        let group = choose|group: Seq<u8>| #[trigger]
            after.sequence().contains(group) && before.lookup(group) is Some && after.lookup(group)
                is Some && after.lookup(group)->Some_0 > before.lookup(group)->Some_0;
        assert(groups.contains(group));
        assert(after.lookup(group) == observed.lookup(group));
    }
    if some_group_advanced(groups, before, observed) {
        let group = choose|group: Seq<u8>| #[trigger]
            groups.contains(group) && before.lookup(group) is Some && observed.lookup(group)
                is Some && observed.lookup(group)->Some_0 > before.lookup(group)->Some_0;
        assert(after.lookup(group) == observed.lookup(group));
        assert(after.sequence().contains(group));
    }
}

/// What a seam may do with the queue.
#[derive(Clone, Copy, Debug, PartialEq, Eq, Structural)]
pub enum EpochBackfillGate {
    NotPending,
    Deferred,
    Ready,
}

/// The intent with the counters that a verdict leaves.
pub open spec fn counted(intent: IntentContent, verdict: DrainVerdict) -> IntentContent {
    IntentContent {
        eose_unconfirmed_attempts: if (verdict is EoseTimeout || verdict is NoRelayEose)
            && intent.eose_unconfirmed_attempts < u32::MAX {
            (intent.eose_unconfirmed_attempts + 1) as u32
        } else {
            intent.eose_unconfirmed_attempts
        },
        no_progress_attempts: if verdict is NoProgressQuantumYield {
            if intent.no_progress_attempts < u32::MAX {
                (intent.no_progress_attempts + 1) as u32
            } else {
                u32::MAX
            }
        } else {
            0
        },
        ..intent
    }
}

/// The pacing that an incomplete verdict earns: none after new history, else by
/// how often this kind of end was seen before.
pub open spec fn earned_pacing(
    verdict: DrainVerdict,
    no_progress_ordinal: u64,
    eose_unconfirmed_ordinal: u64,
    now_ms: u64,
    base_ms: u64,
) -> Option<u64> {
    if verdict is NovelProgressQuantumYield {
        None
    } else if verdict is NoProgressQuantumYield {
        paced_until(now_ms, base_ms, no_progress_ordinal)
    } else {
        paced_until(now_ms, base_ms, eose_unconfirmed_ordinal)
    }
}

/// The queue after a replay's drain ended by a verdict.
pub open spec fn settled_queue(
    queue: QueueContent,
    execution: EpochBackfillExecution,
    verdict: DrainVerdict,
    observed: KeyMap<GroupId, u64>,
    counts: DrainCounts,
    now_ms: u64,
    base_backoff_ms: u64,
) -> QueueContent {
    let intent = counted(execution.pending.deep_view(), verdict);
    if verdict is Complete {
        finished_queue(
            queue,
            intent,
            all_observed(intent.groups, observed),
            recovers(execution, observed, counts),
            false,
            paced_until(now_ms, base_backoff_ms, execution.retry_ordinal),
        )
    } else {
        QueueContent {
            active: None,
            retry_not_before_ms: earned_pacing(
                verdict,
                execution.no_progress_ordinal,
                execution.eose_unconfirmed_ordinal,
                now_ms,
                base_backoff_ms,
            ),
            ..queue
        }.requeued(intent)
    }
}

/// The queue after a replay's drain ended, where another replay runs: only the pacing
/// that the drain earned is set.
pub open spec fn unsettled_queue(
    queue: QueueContent,
    execution: EpochBackfillExecution,
    verdict: DrainVerdict,
    now_ms: u64,
    base_backoff_ms: u64,
) -> QueueContent {
    if verdict is Complete {
        queue
    } else {
        QueueContent {
            retry_not_before_ms: earned_pacing(
                verdict,
                execution.no_progress_ordinal,
                execution.eose_unconfirmed_ordinal,
                now_ms,
                base_backoff_ms,
            ),
            ..queue
        }
    }
}

impl EpochBackfillQueue {
    /// Checks the queue at a seam: an interrupted replay goes back first, then
    /// pacing is account-wide and comes before any intent.
    pub fn check_pending(&mut self, seam: EpochBackfillExecutionSeam, now_ms: u64) -> (gate:
        EpochBackfillGate)
        ensures
            final(self).deep_view() == old(self).deep_view().recovered(),
            gate is NotPending <==> !old(self).deep_view().has_pending(),
            gate is Deferred <==> old(self).deep_view().has_pending() && !(seam is ExplicitCatchUp)
                && (old(self).deep_view().retry_not_before_ms matches Some(not_before) && now_ms
                < not_before),
    {
        let _ = self.recover_active_epoch_backfill_after_cancellation();
        if !self.has_pending_epoch_backfill() {
            return EpochBackfillGate::NotPending;
        }
        if self.epoch_backfill_retry_is_paced(seam, now_ms) {
            return EpochBackfillGate::Deferred;
        }
        EpochBackfillGate::Ready
    }

    /// Ends a replay by the verdict of its drain. A complete drain ends it well.
    /// Any other verdict is counted, paced and put back.
    pub fn settle_replay(
        &mut self,
        execution: EpochBackfillExecution,
        verdict: DrainVerdict,
        observed: &KeyMap<GroupId, u64>,
        counts: &DrainCounts,
        now_ms: u64,
        base_backoff_ms: u64,
    ) -> (finished: Result<EpochBackfillFinished, AppError>)
        ensures
            !runs_active(old(self).deep_view(), execution.pending.deep_view().attempt_id) ==> {
                &&& finished matches Err(error) && error.deep_view() == mismatch()
                &&& final(self).deep_view() == unsettled_queue(
                    old(self).deep_view(),
                    execution,
                    verdict,
                    now_ms,
                    base_backoff_ms,
                )
            },
            runs_active(old(self).deep_view(), execution.pending.deep_view().attempt_id) ==> {
                &&& finished matches Ok(end) && tells_end(
                    end,
                    execution,
                    *observed,
                    *counts,
                    verdict is Complete,
                    verdict_word(verdict),
                    verdict is Complete,
                )
                &&& final(self).deep_view() == settled_queue(
                    old(self).deep_view(),
                    execution,
                    verdict,
                    *observed,
                    *counts,
                    now_ms,
                    base_backoff_ms,
                )
            },
    {
        let mut execution = execution;
        let ghost given = execution;
        if verdict.spends_eose_attempt() && execution.pending.eose_unconfirmed_attempts < u32::MAX {
            execution.pending.eose_unconfirmed_attempts =
            execution.pending.eose_unconfirmed_attempts + 1;
        }
        if verdict.made_no_progress() {
            if execution.pending.no_progress_attempts < u32::MAX {
                execution.pending.no_progress_attempts = execution.pending.no_progress_attempts + 1;
            }
        } else {
            execution.pending.no_progress_attempts = 0;
        }
        assert(execution.pending.deep_view() == counted(given.pending.deep_view(), verdict));
        match verdict.error_kind() {
            Some(word) => {
                self.retry_not_before_ms = if verdict.made_novel_progress() {
                    None
                } else {
                    let ordinal: u64 = if verdict.made_no_progress() {
                        execution.no_progress_ordinal
                    } else {
                        execution.eose_unconfirmed_ordinal
                    };
                    Some(
                        now_ms.saturating_add(
                            retry_backoff_for_ordinal(base_backoff_ms, ordinal),
                        ),
                    )
                };
                self.finish_epoch_backfill_execution(
                    execution,
                    observed,
                    Some(word.to_owned()),
                    verdict.completion_kind(),
                    counts,
                    EpochBackfillFinish::Failed { preserve_pacing: true },
                    now_ms,
                    base_backoff_ms,
                )
            },
            None => self.finish_epoch_backfill_execution(
                execution,
                observed,
                None,
                verdict.completion_kind(),
                counts,
                EpochBackfillFinish::Succeeded,
                now_ms,
                base_backoff_ms,
            ),
        }
    }
}

/// A replay that the relays did not confirm keeps its intent: it is in the queue
/// again, and nothing else left the queue.
pub proof fn law_unconfirmed_replay_keeps_its_intent(
    queue: QueueContent,
    intent: IntentContent,
    pacing: Option<u64>,
)
    requires
        queue.active is Some,
    ensures
        ({
            let after = QueueContent { active: None, retry_not_before_ms: pacing, ..queue }.requeued(
                intent,
            );
            &&& after.intents().contains(intent)
            &&& after.queued.len() + optional_intent(after.pending).len() == queue.queued.len()
                + optional_intent(queue.pending).len() + 1
            &&& forall|other: IntentContent|
                #[trigger] queue.queued.contains(other) ==> after.queued.contains(other)
        }),
{
    let after = QueueContent { active: None, retry_not_before_ms: pacing, ..queue }.requeued(
        intent,
    );
    match queue.pending {
        None => {
            assert(after.intents()[0] == intent);
        },
        Some(_) => {
            assert(after.intents()[after.intents().len() - 1] == intent);
            assert forall|other: IntentContent| #[trigger]
                queue.queued.contains(other) implies after.queued.contains(other) by {
                lemma_push_contains(queue.queued, intent, other);
            }
        },
    }
}

/// A failed replay is paced, unless a pacing was set for it already.
pub proof fn law_failed_replay_is_paced(
    queue: QueueContent,
    intent: IntentContent,
    recovered: bool,
    pacing: Option<u64>,
)
    ensures
        finished_queue(queue, intent, false, recovered, false, pacing).retry_not_before_ms
            == pacing,
        finished_queue(queue, intent, true, true, false, pacing).retry_not_before_ms is None,
        finished_queue(queue, intent, true, false, false, pacing).retry_not_before_ms == pacing,
{
}

/// New history resets the count of fruitless quanta and lifts the pacing.
pub proof fn law_progress_lifts_the_pacing(
    intent: IntentContent,
    no_progress_ordinal: u64,
    eose_unconfirmed_ordinal: u64,
    now_ms: u64,
    base_ms: u64,
)
    ensures
        counted(intent, DrainVerdict::NovelProgressQuantumYield).no_progress_attempts == 0,
        counted(intent, DrainVerdict::NovelProgressQuantumYield).eose_unconfirmed_attempts
            == intent.eose_unconfirmed_attempts,
        earned_pacing(
            DrainVerdict::NovelProgressQuantumYield,
            no_progress_ordinal,
            eose_unconfirmed_ordinal,
            now_ms,
            base_ms,
        ) is None,
{
}

} // verus!
