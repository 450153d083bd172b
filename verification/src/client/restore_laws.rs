//! What holds of a queue that is pruned or read back, of how replays begin and end, and of
//! the records that are staged.

use crate::client::app_client::{stages_kind, AppClient};
use crate::client::backfill_intent::{stored_intent_fault, IntentContent, PersistedContent};
use crate::client::backfill_restore::{
    armed_unknown, journal_fault, list_fault, live_queue, names_unknown, optional_fault, prunes,
    refused_queue, restored_queue, survivor, survivors, touched, PersistedEpochBackfillIntentJournal,
};
use crate::client::backfill_run::{
    finished_queue, preserves_pacing, tells_end, EpochBackfillFinish, EpochBackfillFinished,
};
use crate::client::drain::DrainCounts;
use crate::client::epoch_backfill::{
    all_observed, begins_next, law_restored_deadline_is_capped, restored_wait, EpochBackfillBegin,
    EpochBackfillExecution, QueueContent,
    EPOCH_BACKFILL_INTENT_JOURNAL_VERSION,
};
use crate::client::observe::{event_groups, published_groups};
use crate::client::pass::{first_point, PassKind};
use crate::client::projection_run::{touched_groups, ProjectionKind};
use crate::client::reconcile::nothing_attempted;
use crate::client::replay_laws::law_records_of_a_kind_are_those_of_the_operation;
use crate::client::replay_run::{
    activation_at, replay_ends, replay_steps, ReplayEnding, ReplayEvent, ReplayPoint, ReplayStep,
};
use crate::client::summary::SlotsContent;
use crate::client::sync::{refresh_fails, EpochBackfillRunOutcome};
use crate::client::visibility::{
    kind_ids, AccountDeviceEffects, AccountVisibilityRecordKind, PendingAccountVisibilityLease,
};
use crate::collections::{lemma_kept, KeyMap};
use crate::error::AppError;
use crate::ids::GroupId;
use crate::order::{extend_unique, lemma_extend_unique, lemma_push_contains};
use vstd::prelude::*;

verus! {

spec fn is_keyed(intent: IntentContent) -> bool {
    intent.groups.no_duplicates() && intent.groups.len() == intent.epochs.len()
}

proof fn lemma_untouched(intent: IntentContent, live: Seq<Seq<u8>>)
    requires
        is_keyed(intent),
    ensures
        !touched(intent, live) <==> survivor(Some(intent), live) == Some(intent),
        intent.restricted(live).groups.len() <= intent.groups.len(),
        forall|group: Seq<u8>| #[trigger]
            intent.restricted(live).groups.contains(group) ==> live.contains(group),
        intent.restricted(live).groups.len() == 0 ==> forall|group: Seq<u8>| #[trigger]
            intent.groups.contains(group) ==> !live.contains(group),
{
    lemma_kept(intent.groups, intent.epochs, live);
    if intent.restricted(live).groups.len() == 0 {
        assert forall|group: Seq<u8>| #[trigger] intent.groups.contains(group) implies
            !live.contains(group) by {
            if live.contains(group) {
                assert(intent.restricted(live).groups.contains(group));
            }
        }
    }
}

proof fn lemma_survivors_untouched(queued: Seq<IntentContent>, live: Seq<Seq<u8>>)
    requires
        forall|i: int| 0 <= i < queued.len() ==> is_keyed(#[trigger] queued[i]),
    ensures
        survivors(queued, live) == queued <==> forall|i: int|
            0 <= i < queued.len() ==> !touched(#[trigger] queued[i], live),
        survivors(queued, live).len() <= queued.len(),
        forall|i: int|
            0 <= i < survivors(queued, live).len() ==> (#[trigger] survivors(
                queued,
                live,
            )[i]).groups.len() > 0 && live.contains(survivors(queued, live)[i].groups[0]),
    decreases queued.len(),
{
    if queued.len() > 0 {
        let rest = queued.drop_last();
        let last = queued.last();
        let end = queued.len() - 1;
        assert(queued[end] == last);
        assert forall|i: int| 0 <= i < rest.len() implies is_keyed(#[trigger] rest[i]) by {
            assert(rest[i] == queued[i]);
        }
        lemma_survivors_untouched(rest, live);
        lemma_untouched(last, live);
        let before = survivors(rest, live);
        let after = survivors(queued, live);
        if let Some(left) = survivor(Some(last), live) {
            assert(left.groups.contains(left.groups[0]));
        }
        assert forall|i: int| 0 <= i < after.len() implies (#[trigger] after[i]).groups.len() > 0
            && live.contains(after[i].groups[0]) by {
            if i < before.len() {
                assert(after[i] == before[i]);
            }
        }
        if after == queued {
            assert(after.len() == before.len() + 1);
            assert(before =~= rest) by {
                assert forall|i: int| 0 <= i < before.len() implies before[i] == rest[i] by {
                    assert(after[i] == queued[i]);
                }
            }
            assert(after[end] == last);
            assert forall|i: int| 0 <= i < queued.len() implies !touched(
                #[trigger] queued[i],
                live,
            ) by {
                if i < end {
                    assert(!touched(rest[i], live));
                }
            }
        }
        if forall|i: int| 0 <= i < queued.len() ==> !touched(#[trigger] queued[i], live) {
            assert forall|i: int| 0 <= i < rest.len() implies !touched(
                #[trigger] rest[i],
                live,
            ) by {
                assert(rest[i] == queued[i]);
            }
            assert(!touched(queued[end], live));
            assert(after =~= queued);
        }
    }
}

/// Pruning is said to have changed the queue exactly where it did.
pub proof fn law_pruning_tells_whether_it_changed_the_queue(
    queue: QueueContent,
    live: Seq<Seq<u8>>,
)
    requires
        queue.pending matches Some(intent) ==> intent.groups.no_duplicates()
            && intent.groups.len() == intent.epochs.len() && intent.groups.len() > 0,
        queue.active matches Some(intent) ==> intent.groups.no_duplicates()
            && intent.groups.len() == intent.epochs.len(),
        forall|i: int|
            0 <= i < queue.queued.len() ==> (#[trigger] queue.queued[i]).groups.no_duplicates()
                && queue.queued[i].groups.len() == queue.queued[i].epochs.len(),
    ensures
        prunes(queue, live) <==> live_queue(queue, live) != queue,
{
    let after = live_queue(queue, live);
    let left = survivors(queue.queued, live);
    assert forall|i: int| 0 <= i < queue.queued.len() implies is_keyed(
        #[trigger] queue.queued[i],
    ) by {}
    lemma_survivors_untouched(queue.queued, live);
    if let Some(intent) = queue.pending {
        lemma_untouched(intent, live);
        if survivor(queue.pending, live) is None && left.len() > 0 {
            assert(live.contains(left[0].groups[0]));
            if left[0] == intent {
                assert(intent.groups.contains(intent.groups[0]));
            }
        }
    }
    if let Some(intent) = queue.active {
        lemma_untouched(intent, live);
    }
    if !prunes(queue, live) {
        assert(left == queue.queued);
        assert(after == queue);
    }
    if after == queue {
        if survivor(queue.pending, live) is None && left.len() > 0 {
            assert(after.queued.len() < queue.queued.len());
        }
        assert(left == queue.queued);
    }
}

/// Stored groups change the pending intent only where one of them is unknown, and then there
/// is one.
pub proof fn law_only_unknown_groups_are_armed(
    pending: Option<IntentContent>,
    attempt_id: Seq<char>,
    groups: Seq<Seq<u8>>,
    epochs: Seq<u64>,
    known: Seq<Seq<u8>>,
)
    ensures
        !names_unknown(groups, known) ==> armed_unknown(pending, attempt_id, groups, epochs, known)
            == pending,
        names_unknown(groups, known) ==> armed_unknown(
            pending,
            attempt_id,
            groups,
            epochs,
            known,
        ) is Some,
        pending is Some ==> armed_unknown(pending, attempt_id, groups, epochs, known) is Some,
    decreases groups.len(),
{
    if groups.len() > 0 {
        let rest = groups.drop_last();
        let end = groups.len() - 1;
        law_only_unknown_groups_are_armed(pending, attempt_id, rest, epochs.drop_last(), known);
        if !names_unknown(groups, known) {
            assert(known.contains(groups[end]));
            if names_unknown(rest, known) {
                let i = choose|i: int| 0 <= i < rest.len() && !known.contains(#[trigger] rest[i]);
                assert(!known.contains(groups[i]));
            }
        } else if known.contains(groups[end]) {
            let i = choose|i: int| 0 <= i < groups.len() && !known.contains(#[trigger] groups[i]);
            assert(!known.contains(rest[i]));
        }
    }
}

/// A journal that cannot be read leaves what waits in the queue; one of another version, or
/// whose pending intent cannot be read, leaves everything.
pub proof fn law_refused_journal_keeps_the_queue(
    queue: QueueContent,
    journal: PersistedEpochBackfillIntentJournal,
)
    ensures
        refused_queue(queue, journal).queued == queue.queued,
        refused_queue(queue, journal).retry_not_before_ms == queue.retry_not_before_ms,
        journal.version != EPOCH_BACKFILL_INTENT_JOURNAL_VERSION ==> refused_queue(queue, journal)
            == queue,
        optional_fault(journal.pending.deep_view()) is Some ==> refused_queue(queue, journal)
            == queue,
        optional_fault(journal.active.deep_view()) is Some ==> refused_queue(queue, journal).active
            == queue.active,
{
}

/// A replay starts exactly where an intent waits and the epoch of each of its groups is
/// known. It is the next one, and it runs from then on.
pub proof fn law_observed_intent_starts(
    before: QueueContent,
    after: QueueContent,
    observed: KeyMap<GroupId, u64>,
    now_ms: u64,
    begin: EpochBackfillBegin,
)
    requires
        begins_next(before, after, observed, now_ms, begin),
    ensures
        begin is NothingPending <==> before.recovered().next() is None,
        before.recovered().next() matches Some(intent) ==> (begin is Started <==> forall|
            group: Seq<u8>,
        | #[trigger] intent.groups.contains(group) ==> observed.spec_contains(group)),
        begin matches EpochBackfillBegin::Started(execution) ==> {
            &&& after.active == Some(execution.pending.deep_view())
            &&& before.recovered().next() matches Some(intent)
            &&& execution.pending.deep_view().groups == intent.groups
            &&& execution.pending.deep_view().attempt_id == intent.attempt_id
            &&& execution.started_ms == now_ms
            &&& after.retry_not_before_ms == before.retry_not_before_ms
        },
        begin is Deferred ==> after.active is None && after.retry_not_before_ms
            == before.retry_not_before_ms,
{
    if let Some(intent) = before.recovered().next() {
        if forall|group: Seq<u8>| #[trigger]
            intent.groups.contains(group) ==> observed.spec_contains(group) {
            assert(all_observed(intent.groups, observed));
        }
        if all_observed(intent.groups, observed) {
            assert forall|group: Seq<u8>| #[trigger] intent.groups.contains(group) implies
                observed.spec_contains(group) by {}
        }
    }
}

/// An end is a success where the replay ended well and every group was observed. It recovered
/// where it also brought something, and was fruitless where it was confirmed and did not.
pub proof fn law_end_tells_success_and_recovery(
    end: EpochBackfillFinished,
    execution: EpochBackfillExecution,
    observed: KeyMap<GroupId, u64>,
    counts: DrainCounts,
    ended_well: bool,
    kind: Option<Seq<char>>,
    confirmed: bool,
)
    requires
        tells_end(end, execution, observed, counts, ended_well, kind, confirmed),
    ensures
        end.succeeded ==> ended_well && forall|group: Seq<u8>| #[trigger]
            execution.pending.deep_view().groups.contains(group) ==> observed.spec_contains(group),
        end.recovered ==> end.succeeded && !end.fruitless_completion,
        end.fruitless_completion ==> end.succeeded && confirmed && counts.deliveries
            <= counts.unpersisted,
        end.succeeded && counts.deliveries > counts.unpersisted ==> end.recovered,
        end.succeeded && confirmed ==> end.recovered || end.fruitless_completion,
        kind matches Some(word) ==> end.error_kind.deep_view() == Some(word),
        kind is None && ended_well ==> (end.error_kind.deep_view() is None <==> end.succeeded),
        end.rows@.len() == execution.pending.deep_view().groups.len(),
        forall|i: int|
            0 <= i < end.rows@.len() ==> ((#[trigger] end.rows@[i]).group_advanced
                <==> end.rows@[i].local_epoch_after > end.rows@[i].local_epoch_before),
{
    let groups = execution.pending.deep_view().groups;
    if end.succeeded {
        assert forall|group: Seq<u8>| #[trigger] groups.contains(group) implies
            observed.spec_contains(group) by {}
    }
}

/// A failure that preserves the pacing leaves the wait as it was, and the intent waits again.
pub proof fn law_preserved_pacing_stays(
    finish: EpochBackfillFinish,
    queue: QueueContent,
    intent: IntentContent,
    recovered: bool,
    pacing: Option<u64>,
)
    ensures
        finish is Succeeded ==> !preserves_pacing(finish),
        finish matches EpochBackfillFinish::Failed { preserve_pacing } ==> preserves_pacing(finish)
            == preserve_pacing,
        finished_queue(queue, intent, false, recovered, true, pacing).retry_not_before_ms
            == queue.retry_not_before_ms,
        finished_queue(queue, intent, false, recovered, true, pacing).active is None,
{
}

/// A replay goes through its steps in order: it is stored, activated, subscribed, drained
/// from the session and then from the relays, and ends once that is told.
pub proof fn law_replay_goes_through_its_steps(
    execution: EpochBackfillExecution,
    before: AppClient,
    after: AppClient,
    event: ReplayEvent,
    observed: KeyMap<GroupId, u64>,
    now_ms: u64,
    base_backoff_ms: u64,
    step: ReplayStep,
)
    requires
        replay_steps(
            execution,
            before,
            after,
            event,
            observed,
            now_ms,
            base_backoff_ms,
            step,
        ),
    ensures
        event is IntentPersisted ==> step is Activate,
        event is Activated ==> step is SyncGroups,
        event is GroupsSynced ==> step is DrainSession && !after.slots@.refresh
            && !after.slots@.uncheckpointed_refresh,
        event is SessionDrained ==> step is DrainRelay,
        event matches ReplayEvent::RelayDrained { verdict, .. } ==> (verdict is Complete
            <==> step is ClearIntent),
        event is IntentCleared ==> step is PersistJournal || step is Lost,
        event is Failed ==> step is PersistJournal || step is Lost,
        !(event is Failed) ==> after.slots@.checkpointed == before.slots@.checkpointed
            && after.slots@.uncheckpointed == before.slots@.uncheckpointed,
        after.last_transport_timestamp == before.last_transport_timestamp,
        after.visibility == before.visibility,
{
}

/// Only a replay that failed before it was activated is told as not activated.
pub proof fn law_activation_fails_only_before_it_succeeds(point: ReplayPoint)
    ensures
        activation_at(point) is Failed <==> point is PersistIntent || point is Activate,
        activation_at(point) is Failed || activation_at(point) is Succeeded,
{
}

/// A rebuild that fails is a failure only where it was due.
pub proof fn law_only_due_rebuilds_fail(slots: SlotsContent, refresh: Result<(), AppError>)
    ensures
        refresh_fails(slots, refresh) <==> slots.refresh && refresh is Err,
        refresh is Ok ==> !refresh_fails(slots, refresh),
        !slots.refresh ==> !refresh_fails(slots, refresh),
{
}

/// A catch-up first shows what is leased, a repair first refreshes the routes, and a replay
/// of a drop first activates the transport. A tally begins with nothing.
pub proof fn law_pass_begins_by_its_sort(kind: PassKind)
    ensures
        kind is CatchUp <==> first_point(kind) is Visibility,
        kind is Repair <==> first_point(kind) is Routes,
        kind is OverflowReplay <==> first_point(kind) is Activate,
        nothing_attempted().attempted_routes == 0 && nothing_attempted().routes_failed == 0,
        nothing_attempted().relays_succeeded == 0 && nothing_attempted().relays_failed == 0,
        nothing_attempted().remote_items == 0 && nothing_attempted().received_items == 0,
{
}

/// A projection touches the groups of its events, of its published messages, and its own.
pub proof fn law_projection_touches_its_groups(
    kind: ProjectionKind,
    effects: AccountDeviceEffects,
    group: Seq<u8>,
)
    ensures
        touched_groups(kind, effects).contains(group) <==> event_groups(effects@.events).contains(
            group,
        ) || (exists|i: int|
            0 <= i < effects@.published_app_messages.len() && (
            #[trigger] effects@.published_app_messages[i]).group_id.deep_view() == group) || (
        kind matches ProjectionKind::Group { group_id } && group_id.deep_view() == group),
        touched_groups(kind, effects).no_duplicates(),
{
    let none = Seq::<Seq<u8>>::empty();
    let events = event_groups(effects@.events);
    let messages = effects@.published_app_messages;
    let published = published_groups(messages);
    lemma_extend_unique(none, events);
    let listed = extend_unique(none, events);
    lemma_extend_unique(listed, published);
    let all = extend_unique(listed, published);
    if published.contains(group) {
        let i = choose|i: int| 0 <= i < published.len() && published[i] == group;
        assert(messages[i].group_id.deep_view() == group);
    }
    if exists|i: int|
        0 <= i < messages.len() && (#[trigger] messages[i]).group_id.deep_view() == group {
        let i = choose|i: int|
            0 <= i < messages.len() && (#[trigger] messages[i]).group_id.deep_view() == group;
        assert(published[i] == group);
        assert(published.contains(group));
    }
    if let ProjectionKind::Group { group_id } = kind {
        let own = group_id.deep_view();
        lemma_push_contains(all, own, group);
        if !all.contains(own) {
            let after = all.push(own);
            assert forall|a: int, b: int| 0 <= a < after.len() && 0 <= b < after.len() && a
                != b implies after[a] != after[b] by {
                if a == all.len() {
                    assert(all.contains(all[b]));
                } else if b == all.len() {
                    assert(all.contains(all[a]));
                }
            }
        }
    }
}

/// Staging a kind of record stages the operation's records of that kind and unstages none.
pub proof fn law_staging_stages_the_operations_records(
    before: PendingAccountVisibilityLease,
    after: Option<PendingAccountVisibilityLease>,
    kind: AccountVisibilityRecordKind,
    id: Seq<u8>,
)
    requires
        stages_kind(Some(before), after, kind),
    ensures
        after matches Some(staged) && staged.batches == before.batches && staged.lease
            == before.lease,
        after matches Some(staged) && (staged.staged_batch_ids.deep_view().contains(id)
            <==> before.staged_batch_ids.deep_view().contains(id) || (
        before.projection_operation_id matches Some(operation) && exists|i: int|
            0 <= i < before.batches@.len() && (
            #[trigger] before.batches@[i]).operation_id.deep_view() == operation.deep_view()
                && before.batches@[i].kind == kind && before.batches@[i].batch_id.deep_view()
                == id)),
{
    if let Some(operation) = before.projection_operation_id {
        law_records_of_a_kind_are_those_of_the_operation(
            before.batches@,
            operation.deep_view(),
            kind,
            id,
        );
        lemma_extend_unique(
            before.staged_batch_ids.deep_view(),
            kind_ids(before.batches@, operation.deep_view(), kind),
        );
    }
}

/// An end that was stored leaves a clean journal and hands out what is owed, unless the
/// replay failed. One that could not be stored puts the queue back and owes the journal.
pub proof fn law_stored_end_hands_out_what_is_owed(
    before: AppClient,
    after: AppClient,
    ending: ReplayEnding,
    persisted: Result<(), AppError>,
    outcome: Result<EpochBackfillRunOutcome, AppError>,
)
    requires
        replay_ends(before, after, ending, persisted, outcome),
    ensures
        persisted is Ok ==> !after.backfill.deep_view().journal_dirty
            && after.backfill.deep_view().intents() == before.backfill.deep_view().intents(),
        persisted matches Err(error) ==> after.backfill.deep_view().journal_dirty
            && after.backfill.deep_view().intents() == ending.previous.deep_view().intents()
            && outcome == Err::<EpochBackfillRunOutcome, AppError>(error) && after.slots
            == before.slots,
        persisted is Ok && ending.conclusion is Completed ==> (outcome matches Ok(
            EpochBackfillRunOutcome::Completed(summary),
        ) && summary@ == before.slots@.report()) && after.slots@.checkpointed is None,
        persisted is Ok && ending.conclusion is Incomplete ==> (outcome matches Ok(
            EpochBackfillRunOutcome::Incomplete(summary),
        ) && summary@ == before.slots@.report()) && after.slots@.checkpointed is None,
        persisted is Ok && ending.conclusion is Failed ==> outcome is Err && after.slots
            == before.slots,
{
}

/// A journal can be read exactly where its version is the current one and each intent in it
/// can be read. The wait that it holds goes on where it left off.
pub proof fn law_readable_journal_is_restored(
    journal: PersistedEpochBackfillIntentJournal,
    unix_now_secs: u64,
    now_ms: u64,
    journal_dirty: bool,
)
    ensures
        journal_fault(journal) is None <==> {
            &&& journal.version == EPOCH_BACKFILL_INTENT_JOURNAL_VERSION
            &&& journal.pending.deep_view() matches Some(stored) ==> stored_intent_fault(stored)
                is None
            &&& journal.active.deep_view() matches Some(stored) ==> stored_intent_fault(stored)
                is None
            &&& forall|i: int|
                0 <= i < journal.queued.deep_view().len() ==> stored_intent_fault(
                    #[trigger] journal.queued.deep_view()[i],
                ) is None
        },
        ({
            let restored = restored_queue(journal, unix_now_secs, now_ms, journal_dirty);
            &&& restored.pending is Some <==> journal.pending.deep_view() is Some
            &&& restored.active is Some <==> journal.active.deep_view() is Some
            &&& restored.queued.len() == journal.queued.deep_view().len()
            &&& restored.journal_dirty == journal_dirty
            &&& journal.retry_not_before_unix_ms is None ==> restored.retry_not_before_ms is None
            &&& journal.retry_not_before_unix_ms matches Some(deadline) ==> {
                let wait = restored_wait(deadline, unix_now_secs);
                &&& wait > 0 && now_ms + wait <= u64::MAX ==> (
                restored.retry_not_before_ms matches Some(until) && until == now_ms + wait)
                &&& wait == 0 ==> restored.retry_not_before_ms is None
            }
        }),
{
    lemma_list_fault(journal.queued.deep_view());
    law_restored_deadline_is_capped(
        match journal.retry_not_before_unix_ms {
            Some(deadline) => deadline,
            None => 0,
        },
        unix_now_secs,
    );
}

proof fn lemma_list_fault(stored: Seq<PersistedContent>)
    ensures
        list_fault(stored) is None <==> forall|i: int|
            0 <= i < stored.len() ==> stored_intent_fault(#[trigger] stored[i]) is None,
    decreases stored.len(),
{
    if stored.len() > 0 {
        let rest = stored.drop_last();
        let end = stored.len() - 1;
        lemma_list_fault(rest);
        assert(stored[end] == stored.last());
        if list_fault(stored) is None {
            assert forall|i: int| 0 <= i < stored.len() implies stored_intent_fault(
                #[trigger] stored[i],
            ) is None by {
                if i < end {
                    assert(rest[i] == stored[i]);
                }
            }
        }
        if forall|i: int| 0 <= i < stored.len() ==> stored_intent_fault(#[trigger] stored[i])
            is None {
            assert forall|i: int| 0 <= i < rest.len() implies stored_intent_fault(
                #[trigger] rest[i],
            ) is None by {
                assert(rest[i] == stored[i]);
            }
            assert(stored_intent_fault(stored[end]) is None);
        }
    }
}

} // verus!
