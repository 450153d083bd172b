//! What holds of leased batches, of the operations that they record, of the evidence of
//! stalls, and of how a replay ends.

use crate::client::backfill_run::{
    counted, earned_pacing, paced_until, recovers, settled_queue, terminal_epochs,
};
use crate::client::cursor::cursor_spec;
use crate::client::drain::{DrainCounts, DrainVerdict};
use crate::client::epoch_backfill::{
    all_observed, backoff_ms, restored_wait, EpochBackfillExecution, EpochBackfillExecutionSeam,
    QueueContent, EPOCH_BACKFILL_RETRY_BACKOFF_CAP_MS,
};
use crate::client::backfill_intent::IntentContent;
use crate::ids::GroupId;
use crate::client::projection_run::{kind_of_source, KindContent};
use crate::client::replay::{first_source, merged_effects};
use crate::client::replay_start::gate_of;
use crate::client::stall_evidence::{decoded_groups, evidence_of, EpochStallEvidence};
use crate::client::visibility::{
    batches_without, kind_ids, operation_time, source_time, AccountVisibilityBatch,
    AccountVisibilityRecordKind, EffectsContent, SourceContent,
};
use crate::collections::KeyMap;
use crate::order::lemma_push_contains;
use crate::text::{hex_bytes, hex_text, is_hex_text};
use vstd::prelude::*;

verus! {

/// Later effects stand behind earlier ones, list by list, and nothing of either is lost.
pub proof fn law_effects_are_joined_in_order(earlier: EffectsContent, later: EffectsContent)
    ensures
        ({
            let joined = earlier.followed_by(later);
            &&& joined.events.take(earlier.events.len() as int) == earlier.events
            &&& joined.events.skip(earlier.events.len() as int) == later.events
            &&& joined.queued.take(earlier.queued.len() as int) == earlier.queued
            &&& joined.queued.skip(earlier.queued.len() as int) == later.queued
            &&& joined.pending_convergence.take(earlier.pending_convergence.len() as int)
                == earlier.pending_convergence
            &&& joined.pending_convergence.skip(earlier.pending_convergence.len() as int)
                == later.pending_convergence
            &&& joined.reports.take(earlier.reports.len() as int) == earlier.reports
            &&& joined.reports.skip(earlier.reports.len() as int) == later.reports
            &&& joined.fanout.take(earlier.fanout.len() as int) == earlier.fanout
            &&& joined.fanout.skip(earlier.fanout.len() as int) == later.fanout
            &&& joined.failures.take(earlier.failures.len() as int) == earlier.failures
            &&& joined.failures.skip(earlier.failures.len() as int) == later.failures
        }),
        ({
            let joined = earlier.followed_by(later);
            &&& joined.action_outcomes.take(earlier.action_outcomes.len() as int)
                == earlier.action_outcomes
            &&& joined.action_outcomes.skip(earlier.action_outcomes.len() as int)
                == later.action_outcomes
            &&& joined.published_app_messages.take(earlier.published_app_messages.len() as int)
                == earlier.published_app_messages
            &&& joined.published_app_messages.skip(earlier.published_app_messages.len() as int)
                == later.published_app_messages
            &&& joined.welcome_failures.take(earlier.welcome_failures.len() as int)
                == earlier.welcome_failures
            &&& joined.welcome_failures.skip(earlier.welcome_failures.len() as int)
                == later.welcome_failures
            &&& joined.pending.take(earlier.pending.len() as int) == earlier.pending
            &&& joined.pending.skip(earlier.pending.len() as int) == later.pending
            &&& joined.post_join_rotation_pending <==> earlier.post_join_rotation_pending
                || later.post_join_rotation_pending
        }),
{
}

proof fn lemma_joining_is_associative(a: EffectsContent, b: EffectsContent, c: EffectsContent)
    ensures
        a.followed_by(b).followed_by(c) == a.followed_by(b.followed_by(c)),
        a.followed_by(EffectsContent::none()) == a,
        EffectsContent::none().followed_by(a) == a,
{
    let left = a.followed_by(b).followed_by(c);
    let right = a.followed_by(b.followed_by(c));
    assert(left.events =~= right.events);
    assert(left.queued =~= right.queued);
    assert(left.pending_convergence =~= right.pending_convergence);
    assert(left.reports =~= right.reports);
    assert(left.fanout =~= right.fanout);
    assert(left.failures =~= right.failures);
    assert(left.action_outcomes =~= right.action_outcomes);
    assert(left.published_app_messages =~= right.published_app_messages);
    assert(left.welcome_failures =~= right.welcome_failures);
    assert(left.pending =~= right.pending);
    let first = EffectsContent::none().followed_by(a);
    let last = a.followed_by(EffectsContent::none());
    assert(first.events =~= a.events && last.events =~= a.events);
    assert(first.queued =~= a.queued && last.queued =~= a.queued);
    assert(first.pending_convergence =~= a.pending_convergence && last.pending_convergence
        =~= a.pending_convergence);
    assert(first.reports =~= a.reports && last.reports =~= a.reports);
    assert(first.fanout =~= a.fanout && last.fanout =~= a.fanout);
    assert(first.failures =~= a.failures && last.failures =~= a.failures);
    assert(first.action_outcomes =~= a.action_outcomes && last.action_outcomes
        =~= a.action_outcomes);
    assert(first.published_app_messages =~= a.published_app_messages
        && last.published_app_messages =~= a.published_app_messages);
    assert(first.welcome_failures =~= a.welcome_failures && last.welcome_failures
        =~= a.welcome_failures);
    assert(first.pending =~= a.pending && last.pending =~= a.pending);
}

/// An operation's effects are those of its batches, in their order: what is gathered from
/// two runs of batches is what is gathered from one behind what is gathered from the other,
/// a batch of the operation gives its effects, and a batch of another gives none.
pub proof fn law_operation_gathers_its_batches_in_order(
    earlier: Seq<AccountVisibilityBatch>,
    later: Seq<AccountVisibilityBatch>,
    batch: AccountVisibilityBatch,
    operation: Seq<u8>,
)
    ensures
        merged_effects(earlier + later, operation) == merged_effects(
            earlier,
            operation,
        ).followed_by(merged_effects(later, operation)),
        batch.operation_id.deep_view() == operation ==> merged_effects(seq![batch], operation)
            == batch.effects@,
        batch.operation_id.deep_view() != operation ==> merged_effects(seq![batch], operation)
            == EffectsContent::none(),
    decreases later.len(),
{
    let single = seq![batch];
    assert(single.drop_last() =~= Seq::<AccountVisibilityBatch>::empty());
    assert(single.last() == batch);
    assert(merged_effects(single.drop_last(), operation) == EffectsContent::none());
    lemma_joining_is_associative(batch.effects@, batch.effects@, batch.effects@);
    if later.len() == 0 {
        assert(earlier + later =~= earlier);
        lemma_joining_is_associative(
            merged_effects(earlier, operation),
            EffectsContent::none(),
            EffectsContent::none(),
        );
    } else {
        let rest = later.drop_last();
        law_operation_gathers_its_batches_in_order(earlier, rest, batch, operation);
        assert((earlier + later).drop_last() =~= earlier + rest);
        assert((earlier + later).last() == later.last());
        lemma_joining_is_associative(
            merged_effects(earlier, operation),
            merged_effects(rest, operation),
            later.last().effects@,
        );
    }
}

/// An operation has the source of its first batch, and none where no batch is its own.
pub proof fn law_first_batch_gives_the_source(
    batches: Seq<AccountVisibilityBatch>,
    operation: Seq<u8>,
    k: int,
)
    ensures
        0 <= k < batches.len() && batches[k].operation_id.deep_view() == operation && (forall|
            j: int,
        |
            0 <= j < k ==> (#[trigger] batches[j]).operation_id.deep_view() != operation)
            ==> first_source(batches, operation) == Some(batches[k].source.deep_view()),
        (forall|j: int|
            0 <= j < batches.len() ==> (#[trigger] batches[j]).operation_id.deep_view()
                != operation) ==> first_source(batches, operation) is None,
    decreases batches.len(),
{
    if batches.len() > 0 {
        let rest = batches.drop_last();
        assert(batches.last() == batches[batches.len() - 1]);
        assert forall|j: int| 0 <= j < rest.len() implies #[trigger] rest[j] == batches[j] by {}
        law_first_batch_gives_the_source(rest, operation, k);
        if 0 <= k < batches.len() && batches[k].operation_id.deep_view() == operation && (forall|
            j: int,
        |
            0 <= j < k ==> (#[trigger] batches[j]).operation_id.deep_view() != operation) {
            assert forall|j: int| 0 <= j < k implies (
            #[trigger] rest[j]).operation_id.deep_view() != operation by {
                assert(rest[j] == batches[j]);
            }
            if k < rest.len() {
                assert(rest[k] == batches[k]);
            }
        }
        if forall|j: int|
            0 <= j < batches.len() ==> (#[trigger] batches[j]).operation_id.deep_view()
                != operation {
            assert forall|j: int| 0 <= j < rest.len() implies (
            #[trigger] rest[j]).operation_id.deep_view() != operation by {
                assert(rest[j] == batches[j]);
            }
            assert(batches[batches.len() - 1].operation_id.deep_view() != operation);
        }
    }
}

/// The records of a kind are exactly those that the operation's batches of that kind name.
pub proof fn law_records_of_a_kind_are_those_of_the_operation(
    batches: Seq<AccountVisibilityBatch>,
    operation: Seq<u8>,
    kind: AccountVisibilityRecordKind,
    id: Seq<u8>,
)
    ensures
        kind_ids(batches, operation, kind).contains(id) <==> exists|i: int|
            0 <= i < batches.len() && (#[trigger] batches[i]).operation_id.deep_view() == operation
                && batches[i].kind == kind && batches[i].batch_id.deep_view() == id,
    decreases batches.len(),
{
    if batches.len() > 0 {
        let rest = batches.drop_last();
        let last = batches.last();
        law_records_of_a_kind_are_those_of_the_operation(rest, operation, kind, id);
        assert(batches[batches.len() - 1] == last);
        lemma_push_contains(kind_ids(rest, operation, kind), last.batch_id.deep_view(), id);
        if kind_ids(rest, operation, kind).contains(id) {
            let i = choose|i: int|
                0 <= i < rest.len() && (#[trigger] rest[i]).operation_id.deep_view() == operation
                    && rest[i].kind == kind && rest[i].batch_id.deep_view() == id;
            assert(batches[i] == rest[i]);
        }
        if exists|i: int|
            0 <= i < batches.len() && (#[trigger] batches[i]).operation_id.deep_view() == operation
                && batches[i].kind == kind && batches[i].batch_id.deep_view() == id {
            let i = choose|i: int|
                0 <= i < batches.len() && (#[trigger] batches[i]).operation_id.deep_view()
                    == operation && batches[i].kind == kind && batches[i].batch_id.deep_view()
                    == id;
            if i < rest.len() {
                assert(rest[i] == batches[i]);
            }
        }
    }
}

/// Acknowledging takes away exactly the batches that are acknowledged.
pub proof fn law_only_acknowledged_batches_leave(
    batches: Seq<AccountVisibilityBatch>,
    acknowledged: Seq<Seq<u8>>,
    batch: AccountVisibilityBatch,
)
    ensures
        batches_without(batches, acknowledged).contains(batch) <==> batches.contains(batch)
            && !acknowledged.contains(batch.batch_id.deep_view()),
    decreases batches.len(),
{
    if batches.len() > 0 {
        let rest = batches.drop_last();
        law_only_acknowledged_batches_leave(rest, acknowledged, batch);
        assert(batches =~= rest.push(batches.last()));
        lemma_push_contains(rest, batches.last(), batch);
        lemma_push_contains(batches_without(rest, acknowledged), batches.last(), batch);
    }
}

/// An operation is dated by its first batch, and by the clock where it has none.
pub proof fn law_operation_is_dated_by_its_first_batch(
    batches: Seq<AccountVisibilityBatch>,
    operation: Seq<u8>,
    now: u64,
)
    ensures
        first_source(batches, operation) matches Some(source) ==> operation_time(
            batches,
            operation,
            now,
        ) == source_time(source),
        first_source(batches, operation) is None ==> operation_time(batches, operation, now) == now,
    decreases batches.len(),
{
    if batches.len() > 0 {
        let rest = batches.drop_first();
        law_operation_is_dated_by_its_first_batch(rest, operation, now);
        lemma_first_source_from_the_front(batches, operation);
    }
}

proof fn lemma_first_source_from_the_front(
    batches: Seq<AccountVisibilityBatch>,
    operation: Seq<u8>,
)
    requires
        batches.len() > 0,
    ensures
        first_source(batches, operation) == (if batches[0].operation_id.deep_view() == operation {
            Some(batches[0].source.deep_view())
        } else {
            first_source(batches.drop_first(), operation)
        }),
    decreases batches.len(),
{
    let rest = batches.drop_last();
    if rest.len() > 0 {
        lemma_first_source_from_the_front(rest, operation);
        assert(batches.drop_first().drop_last() =~= rest.drop_first());
        assert(batches.drop_first().last() == batches.last());
    } else {
        assert(batches.last() == batches[0]);
        assert(first_source(rest, operation) is None);
        assert(first_source(batches.drop_first(), operation) is None);
    }
}

/// Each source carries the time at which it was observed.
pub proof fn law_source_tells_when_it_was_observed(source: SourceContent)
    ensures
        source matches SourceContent::Inbound(_, _, _, _, _, observed_at) ==> source_time(source)
            == observed_at,
        source matches SourceContent::Drain(observed_at) ==> source_time(source) == observed_at,
        source matches SourceContent::Convergence(_, observed_at) ==> source_time(source)
            == observed_at,
        source matches SourceContent::Maintenance(observed_at) ==> source_time(source)
            == observed_at,
        source matches SourceContent::Outbound(_, observed_at) ==> source_time(source)
            == observed_at,
{
}

/// What an operation is projected as follows from its source: a delivery as one, a drain as
/// one, a convergence as its group, and maintenance not at all. What was sent is projected
/// as the group it was sent to, or else the first one that it touched.
pub proof fn law_source_tells_what_is_projected(
    source: SourceContent,
    events: Seq<Seq<u8>>,
    messages: Seq<Seq<u8>>,
)
    ensures
        kind_of_source(source, events, messages) is None <==> source is Maintenance,
        source matches SourceContent::Inbound(message, _, timestamp, _, outcome, _) ==> (
        kind_of_source(source, events, messages) matches Some(
            KindContent::Inbound(id, at, told, fetchable),
        ) && id == hex_text(message) && at == timestamp && told == outcome && (fetchable
            <==> outcome is ResourceRefused)),
        source is Drain ==> kind_of_source(source, events, messages) == Some(KindContent::Drained),
        source matches SourceContent::Convergence(group, _) ==> kind_of_source(
            source,
            events,
            messages,
        ) == Some(KindContent::Group(group)),
        source matches SourceContent::Outbound(Some(group), _) ==> kind_of_source(
            source,
            events,
            messages,
        ) == Some(KindContent::Group(group)),
        source matches SourceContent::Outbound(None, _) ==> {
            &&& events.len() > 0 ==> kind_of_source(source, events, messages) == Some(
                KindContent::Group(events[0]),
            )
            &&& events.len() == 0 && messages.len() > 0 ==> kind_of_source(
                source,
                events,
                messages,
            ) == Some(KindContent::Group(messages[0]))
            &&& events.len() == 0 && messages.len() == 0 ==> kind_of_source(
                source,
                events,
                messages,
            ) == Some(KindContent::Drained)
        },
{
}

/// The evidence of stalls is exactly that which is known of the groups asked for.
pub proof fn law_evidence_is_that_of_the_groups(
    groups: Seq<Seq<u8>>,
    known: spec_fn(Seq<u8>) -> Option<EpochStallEvidence>,
    group: Seq<u8>,
    evidence: EpochStallEvidence,
)
    ensures
        evidence_of(groups, known).contains((group, evidence)) <==> groups.contains(group) && known(
            group,
        ) == Some(evidence),
    decreases groups.len(),
{
    if groups.len() > 0 {
        let rest = groups.drop_last();
        law_evidence_is_that_of_the_groups(rest, known, group, evidence);
        assert(groups =~= rest.push(groups.last()));
        lemma_push_contains(rest, groups.last(), group);
        if let Some(own) = known(groups.last()) {
            lemma_push_contains(
                evidence_of(rest, known),
                (groups.last(), own),
                (group, evidence),
            );
        }
    }
}

/// The groups that are read from names are exactly those of the names that can be read, each
/// once.
pub proof fn law_readable_names_give_groups(names: Seq<Seq<char>>, group: Seq<u8>)
    ensures
        decoded_groups(names).contains(group) <==> exists|i: int|
            0 <= i < names.len() && is_hex_text(#[trigger] names[i]) && hex_bytes(names[i])
                == group,
        decoded_groups(names).no_duplicates(),
    decreases names.len(),
{
    if names.len() > 0 {
        let rest = names.drop_last();
        let last = names.last();
        let before = decoded_groups(rest);
        law_readable_names_give_groups(rest, group);
        assert(names[names.len() - 1] == last);
        lemma_push_contains(before, hex_bytes(last), group);
        if before.contains(group) {
            let i = choose|i: int|
                0 <= i < rest.len() && is_hex_text(#[trigger] rest[i]) && hex_bytes(rest[i])
                    == group;
            assert(names[i] == rest[i]);
        }
        if exists|i: int|
            0 <= i < names.len() && is_hex_text(#[trigger] names[i]) && hex_bytes(names[i])
                == group {
            let i = choose|i: int|
                0 <= i < names.len() && is_hex_text(#[trigger] names[i]) && hex_bytes(names[i])
                    == group;
            if i < rest.len() {
                assert(rest[i] == names[i]);
            }
        }
        if is_hex_text(last) && !before.contains(hex_bytes(last)) {
            let after = decoded_groups(names);
            assert forall|a: int, b: int| 0 <= a < after.len() && 0 <= b < after.len() && a
                != b implies after[a] != after[b] by {
                if a == before.len() {
                    assert(before.contains(before[b]));
                } else if b == before.len() {
                    assert(before.contains(before[a]));
                }
            }
        }
    }
}

/// The cursor is the latest time seen that the clock and the tolerated skew allow: never past
/// that, never before the message, and never made up.
pub proof fn law_cursor_is_the_latest_believable_time(
    current: Option<u64>,
    candidate: u64,
    now: u64,
    max_future_skew_secs: u64,
)
    requires
        now + max_future_skew_secs <= u64::MAX,
    ensures
        ({
            let cursor = cursor_spec(current, candidate, now, max_future_skew_secs);
            let most = now + max_future_skew_secs;
            &&& cursor <= most
            &&& candidate <= most ==> cursor >= candidate
            &&& candidate > most ==> cursor == most
            &&& current matches Some(before) ==> (before <= most ==> cursor >= before) && (before
                > most ==> cursor == most)
            &&& cursor == candidate || cursor == most || (current matches Some(before) && cursor
                == before)
        }),
{
}

/// A wait that is read back lasts until its deadline, or as long as a wait may last.
pub proof fn law_restored_wait_lasts_until_its_deadline(
    deadline_unix_ms: u64,
    unix_now_secs: u64,
)
    requires
        unix_now_secs * 1000 <= u64::MAX,
    ensures
        deadline_unix_ms <= unix_now_secs * 1000 ==> restored_wait(deadline_unix_ms, unix_now_secs)
            == 0,
        unix_now_secs * 1000 < deadline_unix_ms <= unix_now_secs * 1000
            + EPOCH_BACKFILL_RETRY_BACKOFF_CAP_MS ==> unix_now_secs * 1000 + restored_wait(
            deadline_unix_ms,
            unix_now_secs,
        ) == deadline_unix_ms,
        deadline_unix_ms > unix_now_secs * 1000 + EPOCH_BACKFILL_RETRY_BACKOFF_CAP_MS
            ==> restored_wait(deadline_unix_ms, unix_now_secs)
            == EPOCH_BACKFILL_RETRY_BACKOFF_CAP_MS,
{
}

/// A replay may start where anything waits and its wait is over or the user asked for it.
pub proof fn law_replay_starts_when_its_wait_is_over(
    queue: QueueContent,
    seam: EpochBackfillExecutionSeam,
    now_ms: u64,
)
    ensures
        gate_of(queue, seam, now_ms) is NotPending <==> queue.intents().len() == 0,
        gate_of(queue, seam, now_ms) is Ready <==> queue.intents().len() > 0 && (
        seam is ExplicitCatchUp || queue.retry_not_before_ms is None || (
        queue.retry_not_before_ms matches Some(not_before) && not_before <= now_ms)),
{
}

/// An end tells the epochs that a group had before and after: those that were observed, or
/// else the one it stalled at and that one unchanged.
pub proof fn law_end_tells_the_observed_epochs(
    stalled: u64,
    before: Option<u64>,
    after: Option<u64>,
)
    ensures
        before matches Some(epoch) ==> terminal_epochs(stalled, before, after).0 == epoch,
        before is None ==> terminal_epochs(stalled, before, after).0 == stalled,
        after matches Some(epoch) ==> terminal_epochs(stalled, before, after).1 == epoch,
        after is None ==> terminal_epochs(stalled, before, after).1 == terminal_epochs(
            stalled,
            before,
            after,
        ).0,
{
}

/// A replay recovers where it kept a delivery or a group of its own moved to a later epoch.
pub proof fn law_recovery_is_a_kept_delivery_or_a_later_epoch(
    execution: EpochBackfillExecution,
    observed: KeyMap<GroupId, u64>,
    counts: DrainCounts,
    group: Seq<u8>,
    earlier: u64,
    later: u64,
)
    requires
        execution.pending.deep_view().groups.contains(group),
        execution.epochs_before.lookup(group) == Some(earlier),
        observed.lookup(group) == Some(later),
    ensures
        later > earlier ==> recovers(execution, observed, counts),
        counts.deliveries > counts.unpersisted ==> recovers(execution, observed, counts),
        recovers(execution, observed, counts) ==> counts.deliveries > counts.unpersisted || exists|
            other: Seq<u8>,
        | #[trigger]
            execution.pending.deep_view().groups.contains(other) && (
            execution.epochs_before.lookup(other) matches Some(a) && observed.lookup(
                other,
            ) matches Some(b) && b > a),
{
    let groups = execution.pending.deep_view().groups;
    assert(groups.contains(group));
    if recovers(execution, observed, counts) && counts.deliveries <= counts.unpersisted {
        let other = choose|other: Seq<u8>| #[trigger]
            groups.contains(other) && execution.epochs_before.lookup(other) is Some
                && observed.lookup(other) is Some && observed.lookup(other)->Some_0
                > execution.epochs_before.lookup(other)->Some_0;
        assert(groups.contains(other));
    }
}

/// An attempt without confirmation counts as one, and only such an attempt does. An attempt
/// without progress counts as one more in a row, and any other breaks the row.
pub proof fn law_fruitless_attempts_are_counted(intent: IntentContent, verdict: DrainVerdict)
    requires
        intent.eose_unconfirmed_attempts < u32::MAX,
        intent.no_progress_attempts < u32::MAX,
    ensures
        verdict is EoseTimeout || verdict is NoRelayEose ==> counted(
            intent,
            verdict,
        ).eose_unconfirmed_attempts == intent.eose_unconfirmed_attempts + 1,
        !(verdict is EoseTimeout || verdict is NoRelayEose) ==> counted(
            intent,
            verdict,
        ).eose_unconfirmed_attempts == intent.eose_unconfirmed_attempts,
        verdict is NoProgressQuantumYield ==> counted(intent, verdict).no_progress_attempts
            == intent.no_progress_attempts + 1,
        !(verdict is NoProgressQuantumYield) ==> counted(intent, verdict).no_progress_attempts == 0,
        counted(intent, verdict).groups == intent.groups,
        counted(intent, verdict).epochs == intent.epochs,
        counted(intent, verdict).attempt_id == intent.attempt_id,
        counted(intent, verdict).execution_attempts == intent.execution_attempts,
{
}

/// The wait after an attempt grows with the attempts of its sort, and there is none after
/// progress.
pub proof fn law_wait_follows_the_attempts_of_its_sort(
    verdict: DrainVerdict,
    no_progress_ordinal: u64,
    eose_unconfirmed_ordinal: u64,
    now_ms: u64,
    base_ms: u64,
)
    requires
        now_ms + backoff_ms(base_ms, no_progress_ordinal) <= u64::MAX,
        now_ms + backoff_ms(base_ms, eose_unconfirmed_ordinal) <= u64::MAX,
    ensures
        ({
            let pacing = earned_pacing(
                verdict,
                no_progress_ordinal,
                eose_unconfirmed_ordinal,
                now_ms,
                base_ms,
            );
            &&& pacing is None <==> verdict is NovelProgressQuantumYield
            &&& verdict is NoProgressQuantumYield ==> (pacing matches Some(until) && until == now_ms
                + backoff_ms(base_ms, no_progress_ordinal))
            &&& verdict is EoseTimeout || verdict is NoRelayEose ==> (pacing matches Some(until)
                && until == now_ms + backoff_ms(base_ms, eose_unconfirmed_ordinal))
        }),
        paced_until(now_ms, base_ms, no_progress_ordinal) matches Some(until) && until == now_ms
            + backoff_ms(base_ms, no_progress_ordinal),
{
}

/// A confirmed replay of which every group was observed is done and leaves the queue; it
/// waits no more if it recovered anything. Any other replay waits again, and whatever else
/// waited still does.
pub proof fn law_replay_leaves_the_queue_only_when_done(
    queue: QueueContent,
    execution: EpochBackfillExecution,
    verdict: DrainVerdict,
    observed: KeyMap<GroupId, u64>,
    counts: DrainCounts,
    now_ms: u64,
    base_backoff_ms: u64,
)
    ensures
        ({
            let after = settled_queue(
                queue,
                execution,
                verdict,
                observed,
                counts,
                now_ms,
                base_backoff_ms,
            );
            let intent = counted(execution.pending.deep_view(), verdict);
            let done = verdict is Complete && all_observed(intent.groups, observed);
            &&& after.active is None
            &&& done ==> after.pending == queue.pending && after.queued == queue.queued
            &&& !done && queue.pending is None ==> after.pending == Some(intent) && after.queued
                == queue.queued
            &&& !done && queue.pending is Some ==> after.pending == queue.pending && after.queued
                == queue.queued.push(intent)
            &&& done && recovers(execution, observed, counts) ==> after.retry_not_before_ms is None
            &&& done && !recovers(execution, observed, counts) ==> after.retry_not_before_ms
                == paced_until(now_ms, base_backoff_ms, execution.retry_ordinal)
        }),
{
}

} // verus!
